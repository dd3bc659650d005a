//! Records as bytes: the checksum, and the two cursors a record is written and read with.
use vstd::prelude::*;

verus! {

/// One bit of CRC-16/CCITT-FALSE: shift left, and subtract the polynomial if a one fell out.
pub open spec fn crc16_bit(crc: u16) -> u16 {
    if crc & 0x8000 != 0 {
        (crc << 1) ^ 0x1021
    } else {
        crc << 1
    }
}

/// `n` bits of CRC-16/CCITT-FALSE.
pub open spec fn crc16_bits(crc: u16, n: nat) -> u16
    decreases n,
{
    if n == 0 {
        crc
    } else {
        crc16_bit(crc16_bits(crc, (n - 1) as nat))
    }
}

/// The CRC-16/CCITT-FALSE of `data`: polynomial 0x1021, starting from all ones, most significant bit
/// first, nothing reflected.
pub open spec fn crc16_of(data: Seq<u8>) -> u16
    decreases data.len(),
{
    if data.len() == 0 {
        0xffff
    } else {
        crc16_bits(crc16_of(data.drop_last()) ^ ((data.last() as u16) << 8), 8)
    }
}

/// The CRC-16/CCITT-FALSE of the first `len` bytes of `data`.
///
/// Bytewise and table-free: a table would cost half a kilobyte of the flash this is protecting, to save
/// microseconds on an operation that already takes milliseconds.
pub fn crc16(data: &[u8], len: usize) -> (crc: u16)
    requires
        len <= data@.len(),
    ensures
        crc == crc16_of(data@.take(len as int)),
{
    let mut crc: u16 = 0xffff;
    let mut at: usize = 0;
    assert(data@.take(0).len() == 0);
    while at < len
        invariant
            at <= len <= data@.len(),
            crc == crc16_of(data@.take(at as int)),
        decreases len - at,
    {
        let ghost before = crc;
        crc = crc ^ ((data[at] as u16) << 8);
        let ghost mixed = crc;
        let mut bit: usize = 0;
        while bit < 8
            invariant
                bit <= 8,
                crc == crc16_bits(mixed, bit as nat),
            decreases 8 - bit,
        {
            crc = if crc & 0x8000 != 0 {
                (crc << 1) ^ 0x1021
            } else {
                crc << 1
            };
            bit += 1;
        }
        at += 1;
        assert(data@.take(at as int).drop_last() =~= data@.take(at - 1));
    }
    crc
}

/// The two-byte little-endian number at `at`.
pub open spec fn u16_at(bytes: Seq<u8>, at: int) -> u16 {
    (bytes[at] + 0x100 * bytes[at + 1]) as u16
}

/// The four-byte little-endian number at `at`.
pub open spec fn u32_at(bytes: Seq<u8>, at: int) -> u32 {
    (bytes[at] + 0x100 * bytes[at + 1] + 0x1_0000 * bytes[at + 2] + 0x100_0000 * bytes[at + 3]) as u32
}

/// `v` as two bytes, least significant first.
#[verifier::opaque]
pub open spec fn le16(v: u16) -> Seq<u8> {
    seq![(v % 0x100) as u8, (v / 0x100) as u8]
}

/// `v` as four bytes, least significant first.
#[verifier::opaque]
pub open spec fn le32(v: u32) -> Seq<u8> {
    seq![
        (v % 0x100) as u8,
        (v / 0x100 % 0x100) as u8,
        (v / 0x1_0000 % 0x100) as u8,
        (v / 0x100_0000) as u8,
    ]
}

/// Are all of the bytes as an erase leaves them?
pub open spec fn blank(bytes: Seq<u8>) -> bool {
    forall|i: int| 0 <= i < bytes.len() ==> #[trigger] bytes[i] == 0xff
}

/// Are all of the bytes as an erase leaves them?
pub fn is_blank(bytes: &[u8]) -> (b: bool)
    ensures
        b == blank(bytes@),
{
    let mut i: usize = 0;
    while i < bytes.len()
        invariant
            i <= bytes@.len(),
            forall|j: int| 0 <= j < i ==> #[trigger] bytes@[j] == 0xff,
        decreases bytes@.len() - i,
    {
        if bytes[i] != 0xff {
            assert(bytes@[i as int] != 0xff);
            return false;
        }
        i += 1;
    }
    true
}

/// `body` with its checksum behind it.
pub open spec fn sealed(body: Seq<u8>) -> Seq<u8> {
    body + le16(crc16_of(body))
}

/// `bytes` filled up to `len` with `filler`.
pub open spec fn padded(bytes: Seq<u8>, len: nat, filler: u8) -> Seq<u8> {
    Seq::new(len, |i: int| if i < bytes.len() { bytes[i] } else { filler })
}

/// A two-byte number is two bytes long.
pub broadcast proof fn lemma_le16_len(v: u16)
    ensures
        #[trigger] le16(v).len() == 2,
{
    reveal(le16);
}

/// A four-byte number is four bytes long.
pub broadcast proof fn lemma_le32_len(v: u32)
    ensures
        #[trigger] le32(v).len() == 4,
{
    reveal(le32);
}

/// Reading a number back from where its bytes stand gives the number.
pub proof fn lemma_u16_at(bytes: Seq<u8>, at: int, v: u16)
    requires
        0 <= at,
        at + 2 <= bytes.len(),
        bytes.subrange(at, at + 2) == le16(v),
    ensures
        u16_at(bytes, at) == v,
{
    reveal(le16);
    assert(bytes[at] == bytes.subrange(at, at + 2)[0]);
    assert(bytes[at + 1] == bytes.subrange(at, at + 2)[1]);
}

/// Reading a number back from where its bytes stand gives the number.
pub proof fn lemma_u32_at(bytes: Seq<u8>, at: int, v: u32)
    requires
        0 <= at,
        at + 4 <= bytes.len(),
        bytes.subrange(at, at + 4) == le32(v),
    ensures
        u32_at(bytes, at) == v,
{
    reveal(le32);
    assert(bytes[at] == bytes.subrange(at, at + 4)[0]);
    assert(bytes[at + 1] == bytes.subrange(at, at + 4)[1]);
    assert(bytes[at + 2] == bytes.subrange(at, at + 4)[2]);
    assert(bytes[at + 3] == bytes.subrange(at, at + 4)[3]);
}

/// Two different remainders stay different, bit after bit.
proof fn lemma_crc16_bits_differ(a: u16, b: u16, n: nat)
    requires
        a != b,
    ensures
        crc16_bits(a, n) != crc16_bits(b, n),
    decreases n,
{
    if n > 0 {
        lemma_crc16_bits_differ(a, b, (n - 1) as nat);
        let x = crc16_bits(a, (n - 1) as nat);
        let y = crc16_bits(b, (n - 1) as nat);
        assert(x != y ==> crc16_bit(x) != crc16_bit(y)) by (bit_vector);
    }
}

/// A checksum notices any one byte that has changed: bytes that are the same but for one do not have the same
/// checksum.
pub proof fn law_checksum_notices_a_changed_byte(data: Seq<u8>, i: int, v: u8)
    requires
        0 <= i < data.len(),
        v != data[i],
    ensures
        crc16_of(data.update(i, v)) != crc16_of(data),
    decreases data.len(),
{
    let other = data.update(i, v);
    let front = data.drop_last();
    if i == data.len() - 1 {
        assert(other.drop_last() =~= front);
        let c = crc16_of(front);
        let x = data.last();
        assert(x != v ==> c ^ ((x as u16) << 8) != c ^ ((v as u16) << 8)) by (bit_vector);
        lemma_crc16_bits_differ(c ^ ((v as u16) << 8), c ^ ((x as u16) << 8), 8);
    } else {
        assert(other.drop_last() =~= front.update(i, v));
        law_checksum_notices_a_changed_byte(front, i, v);
        let c = crc16_of(front);
        let d = crc16_of(other.drop_last());
        let x = data.last();
        assert(c != d ==> c ^ ((x as u16) << 8) != d ^ ((x as u16) << 8)) by (bit_vector);
        lemma_crc16_bits_differ(d ^ ((x as u16) << 8), c ^ ((x as u16) << 8), 8);
    }
}

/// Bytes that hold their own checksum at `at` no longer do once one byte of either has changed.
pub proof fn lemma_changed_byte_fails(bytes: Seq<u8>, at: int, i: int, v: u8)
    requires
        0 <= at,
        at + 2 <= bytes.len(),
        crc16_of(bytes.take(at)) == u16_at(bytes, at),
        0 <= i < at + 2,
        v != bytes[i],
    ensures
        crc16_of(bytes.update(i, v).take(at)) != u16_at(bytes.update(i, v), at),
{
    let other = bytes.update(i, v);
    if i < at {
        assert(other.take(at) =~= bytes.take(at).update(i, v));
        law_checksum_notices_a_changed_byte(bytes.take(at), i, v);
    } else {
        assert(other.take(at) =~= bytes.take(at));
    }
}

/// A record being written, field by field.
pub struct Cursor {
    /// What has been written so far.
    pub buf: Vec<u8>,
}

impl Cursor {
    /// An empty record.
    pub fn new() -> (c: Cursor)
        ensures
            c.buf@.len() == 0,
    {
        Cursor { buf: Vec::new() }
    }

    /// Append a byte.
    pub fn u8(&mut self, v: u8)
        ensures
            final(self).buf@ == old(self).buf@.push(v),
    {
        self.buf.push(v);
    }

    /// Append a two-byte number, least significant byte first.
    pub fn u16(&mut self, v: u16)
        ensures
            final(self).buf@ == old(self).buf@ + le16(v),
    {
        self.buf.push((v % 0x100) as u8);
        self.buf.push((v / 0x100) as u8);
        proof {
            reveal(le16);
        }
    }

    /// Append a four-byte number, least significant byte first.
    pub fn u32(&mut self, v: u32)
        ensures
            final(self).buf@ == old(self).buf@ + le32(v),
    {
        self.buf.push((v % 0x100) as u8);
        self.buf.push((v / 0x100 % 0x100) as u8);
        self.buf.push((v / 0x1_0000 % 0x100) as u8);
        self.buf.push((v / 0x100_0000) as u8);
        proof {
            reveal(le32);
        }
    }

    /// Append bytes as they are.
    pub fn bytes(&mut self, v: &[u8])
        ensures
            final(self).buf@ == old(self).buf@ + v@,
    {
        let mut i: usize = 0;
        while i < v.len()
            invariant
                i <= v@.len(),
                self.buf@ == old(self).buf@ + v@.take(i as int),
            decreases v@.len() - i,
        {
            self.buf.push(v[i]);
            i += 1;
            assert(v@.take(i as int) =~= v@.take(i - 1).push(v@[i - 1]));
        }
        assert(v@.take(i as int) =~= v@);
    }

    /// Append the checksum of everything written so far.
    pub fn seal(&mut self)
        ensures
            final(self).buf@ == sealed(old(self).buf@),
    {
        let crc = crc16(self.buf.as_slice(), self.buf.len());
        assert(self.buf@.take(self.buf@.len() as int) =~= self.buf@);
        self.u16(crc);
    }

    /// Fill the record up to `len` bytes with `filler`.
    pub fn pad(&mut self, len: usize, filler: u8)
        requires
            old(self).buf@.len() <= len,
        ensures
            final(self).buf@ == padded(old(self).buf@, len as nat, filler),
    {
        while self.buf.len() < len
            invariant
                old(self).buf@.len() <= self.buf@.len() <= len,
                self.buf@ == padded(old(self).buf@, self.buf@.len(), filler),
            decreases len - self.buf@.len(),
        {
            self.buf.push(filler);
            assert(self.buf@ =~= padded(old(self).buf@, self.buf@.len(), filler));
        }
    }
}

/// The reading counterpart of [`Cursor`].
pub struct Reader<'a> {
    /// The record.
    pub buf: &'a [u8],
    /// Where the next field starts.
    pub at: usize,
}

impl<'a> Reader<'a> {
    /// A reader at the start of `buf`.
    pub fn new(buf: &'a [u8]) -> (r: Reader<'a>)
        ensures
            r.buf == buf,
            r.at == 0,
    {
        Reader { buf, at: 0 }
    }

    /// Read a byte.
    pub fn u8(&mut self) -> (v: u8)
        requires
            old(self).at < old(self).buf@.len(),
        ensures
            final(self).buf == old(self).buf,
            final(self).at == old(self).at + 1,
            v == old(self).buf@[old(self).at as int],
    {
        let v = self.buf[self.at];
        self.at = self.at + 1;
        v
    }

    /// Read a two-byte number.
    pub fn u16(&mut self) -> (v: u16)
        requires
            old(self).at + 2 <= old(self).buf@.len(),
        ensures
            final(self).buf == old(self).buf,
            final(self).at == old(self).at + 2,
            v == u16_at(old(self).buf@, old(self).at as int),
    {
        let v = self.buf[self.at] as u16 + 0x100 * self.buf[self.at + 1] as u16;
        self.at = self.at + 2;
        v
    }

    /// Read a four-byte number.
    pub fn u32(&mut self) -> (v: u32)
        requires
            old(self).at + 4 <= old(self).buf@.len(),
        ensures
            final(self).buf == old(self).buf,
            final(self).at == old(self).at + 4,
            v == u32_at(old(self).buf@, old(self).at as int),
    {
        let v = self.buf[self.at] as u32 + 0x100 * self.buf[self.at + 1] as u32 + 0x1_0000
            * self.buf[self.at + 2] as u32 + 0x100_0000 * self.buf[self.at + 3] as u32;
        self.at = self.at + 4;
        v
    }
}

/// Four bytes as a number, the first the least.
pub open spec fn four(bytes: Seq<u8>, at: int) -> int {
    bytes[at] + 0x100 * bytes[at + 1] + 0x1_0000 * bytes[at + 2] + 0x100_0000 * bytes[at + 3]
}

/// The checksum of a text is carried on from that of its front, byte by byte and bit by bit, starting from all ones; a bit that
/// falls out at the top is made up for by the polynomial.
pub proof fn law_checksum_is_carried_on(data: Seq<u8>, byte: u8, crc: u16)
    ensures
        crc16_of(Seq::empty()) == 0xffff,
        crc16_of(data.push(byte)) == crc16_bits(crc16_of(data) ^ (byte as u16) << 8, 8),
        crc16_bits(crc, 8) == crc16_bit(
            crc16_bit(crc16_bit(crc16_bit(crc16_bit(crc16_bit(crc16_bit(crc16_bit(crc))))))),
        ),
        crc < 0x8000 ==> crc16_bit(crc) == 2 * crc,
        crc >= 0x8000 ==> crc16_bit(crc) ^ 0x1021 == 2 * crc - 0x1_0000,
{
    assert(data.push(byte).drop_last() =~= data);
    reveal_with_fuel(crc16_bits, 9);
    assert((crc < 0x8000 ==> crc & 0x8000 == 0 && crc << 1 == 2 * crc) && (crc >= 0x8000 ==> crc & 0x8000 != 0
        && ((crc << 1) ^ 0x1021) ^ 0x1021 == 2 * crc - 0x1_0000)) by (bit_vector);
}

} // verus!
