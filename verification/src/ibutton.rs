//! Reading a DS1990 key off the 1-Wire bus.
//!
//! 1-Wire is timed in microseconds: a write-one is six microseconds low, a read samples nine microseconds after
//! the edge, and being ten microseconds late turns a one into a zero. The machine's clock ticks at 32768 Hz, so
//! its finest interval is about thirty microseconds, five times the shortest thing that has to be measured here.
//! So the bit slots are busy-waited from the CPU clock, and each reset, and each byte, runs with interrupts off.
//!
//! What is to be done to the bus is given as a list of [`WireOp`]. Whoever holds the pin carries it out and hands
//! back what was sampled.
use vstd::prelude::*;

use crate::config::MCLK_HZ;
use crate::event::Event;
use crate::state::{IbuttonKey, KEY_LEN};

verus! {

/// Cycles the delay loop takes per iteration: decrement, compare, branch.
pub const CYCLES_PER_LOOP: u32 = 3;

/// Loop iterations that take about one microsecond.
pub const LOOPS_PER_US: u32 = MCLK_HZ / (1_000_000 * CYCLES_PER_LOOP);

/// Iterations of the delay loop that take about `us` microseconds.
pub fn delay_loops(us: u32) -> (n: u32)
    requires
        us * LOOPS_PER_US <= u32::MAX,
    ensures
        n == us * LOOPS_PER_US,
{
    us * LOOPS_PER_US
}

/// One thing to do to the bus.
#[derive(Copy, Clone, Debug, Eq, PartialEq, Structural)]
pub enum WireOp {
    /// Pull the bus down.
    Low,
    /// Let the bus go back up. It is never driven high, because a key holding the line down against a driven
    /// output would be a short.
    Release,
    /// Busy-wait for so many microseconds.
    Wait {
        /// How many.
        us: u32,
    },
    /// Note whether the line is high.
    Sample,
}

/// How long a list of operations waits.
pub open spec fn duration_us(ops: Seq<WireOp>) -> int
    decreases ops.len(),
{
    if ops.len() == 0 {
        0
    } else {
        duration_us(ops.drop_last()) + (match ops.last() {
            WireOp::Wait { us } => us as int,
            _ => 0,
        })
    }
}

/// The reset pulse and the presence window.
pub open spec fn reset_ops() -> Seq<WireOp> {
    seq![
        WireOp::Low,
        WireOp::Wait { us: 480 },
        WireOp::Release,
        WireOp::Wait { us: 70 },
        WireOp::Sample,
        WireOp::Wait { us: 410 },
    ]
}

/// The slot that sends one bit.
///
/// Both slots are the same length; what distinguishes them is how much of it the master spends holding the line
/// down.
pub open spec fn write_bit_ops(bit: bool) -> Seq<WireOp> {
    if bit {
        seq![WireOp::Low, WireOp::Wait { us: 6 }, WireOp::Release, WireOp::Wait { us: 64 }]
    } else {
        seq![WireOp::Low, WireOp::Wait { us: 60 }, WireOp::Release, WireOp::Wait { us: 10 }]
    }
}

/// The slot that reads one bit.
///
/// The master starts the slot; the device either holds the line down for the rest of it, which is a zero, or
/// leaves it to the pull-up, which is a one.
pub open spec fn read_bit_ops() -> Seq<WireOp> {
    seq![
        WireOp::Low,
        WireOp::Wait { us: 6 },
        WireOp::Release,
        WireOp::Wait { us: 9 },
        WireOp::Sample,
        WireOp::Wait { us: 55 },
    ]
}

/// The lowest `n` bits of a number, least significant first.
pub open spec fn bits_of(value: int, n: nat) -> Seq<bool>
    decreases n,
{
    if n == 0 {
        Seq::empty()
    } else {
        seq![value % 2 == 1] + bits_of(value / 2, (n - 1) as nat)
    }
}

/// The number that bits stand for, least significant first.
pub open spec fn value_of(bits: Seq<bool>) -> int
    decreases bits.len(),
{
    if bits.len() == 0 {
        0
    } else {
        (if bits.first() {
            1int
        } else {
            0
        }) + 2 * value_of(bits.drop_first())
    }
}

/// The slots that send bits, one after another.
pub open spec fn write_ops(bits: Seq<bool>) -> Seq<WireOp>
    decreases bits.len(),
{
    if bits.len() == 0 {
        Seq::empty()
    } else {
        write_bit_ops(bits.first()) + write_ops(bits.drop_first())
    }
}

/// The slots that read `n` bits, one after another.
pub open spec fn read_ops(n: nat) -> Seq<WireOp>
    decreases n,
{
    if n == 0 {
        Seq::empty()
    } else {
        read_ops((n - 1) as nat) + read_bit_ops()
    }
}

/// Append the slot that sends one bit.
fn write_bit(ops: &mut Vec<WireOp>, bit: bool)
    ensures
        final(ops)@ == old(ops)@ + write_bit_ops(bit),
{
    ops.push(WireOp::Low);
    if bit {
        ops.push(WireOp::Wait { us: 6 });
        ops.push(WireOp::Release);
        ops.push(WireOp::Wait { us: 64 });
    } else {
        ops.push(WireOp::Wait { us: 60 });
        ops.push(WireOp::Release);
        ops.push(WireOp::Wait { us: 10 });
    }
}

/// Append the slot that reads one bit.
fn read_bit(ops: &mut Vec<WireOp>)
    ensures
        final(ops)@ == old(ops)@ + read_bit_ops(),
{
    ops.push(WireOp::Low);
    ops.push(WireOp::Wait { us: 6 });
    ops.push(WireOp::Release);
    ops.push(WireOp::Wait { us: 9 });
    ops.push(WireOp::Sample);
    ops.push(WireOp::Wait { us: 55 });
}

/// Reset the bus and see whether anything answers. The line is sampled once: a device that is there pulls it
/// down.
pub fn reset() -> (ops: Vec<WireOp>)
    ensures
        ops@ == reset_ops(),
{
    let mut ops: Vec<WireOp> = Vec::new();
    ops.push(WireOp::Low);
    ops.push(WireOp::Wait { us: 480 });
    ops.push(WireOp::Release);
    ops.push(WireOp::Wait { us: 70 });
    ops.push(WireOp::Sample);
    ops.push(WireOp::Wait { us: 410 });
    ops
}

/// Send a byte, least significant bit first.
pub fn write_byte(byte: u8) -> (ops: Vec<WireOp>)
    ensures
        ops@ == write_ops(bits_of(byte as int, 8)),
{
    let mut ops: Vec<WireOp> = Vec::new();
    let mut left: u8 = byte;
    let mut i: usize = 0;
    let ghost mut sent = Seq::<bool>::empty();
    assert(sent + bits_of(byte as int, 8) =~= bits_of(byte as int, 8));
    while i < 8
        invariant
            i <= 8,
            sent + bits_of(left as int, (8 - i) as nat) == bits_of(byte as int, 8),
            ops@ + write_ops(bits_of(left as int, (8 - i) as nat)) == write_ops(bits_of(byte as int, 8)),
        decreases 8 - i,
    {
        let ghost before = ops@;
        let bit = left % 2 == 1;
        write_bit(&mut ops, bit);
        proof {
            let rest = bits_of((left / 2) as int, (7 - i) as nat);
            let all = bits_of(left as int, (8 - i) as nat);
            assert(all.drop_first() =~= rest);
            sent = sent.push(bit);
            assert(sent + rest =~= sent.drop_last() + all);
            assert(ops@ + write_ops(rest) =~= before + write_ops(all));
        }
        left = left / 2;
        i += 1;
    }
    assert(ops@ + Seq::<WireOp>::empty() =~= ops@);
    ops
}

/// Read a byte: eight slots, sampled once each.
pub fn read_byte() -> (ops: Vec<WireOp>)
    ensures
        ops@ == read_ops(8),
{
    let mut ops: Vec<WireOp> = Vec::new();
    let mut i: usize = 0;
    while i < 8
        invariant
            i <= 8,
            ops@ == read_ops(i as nat),
        decreases 8 - i,
    {
        read_bit(&mut ops);
        i += 1;
    }
    ops
}

/// So many bits stand for a number below two to that power.
proof fn lemma_value_bound(bits: Seq<bool>)
    requires
        bits.len() <= 8,
    ensures
        0 <= value_of(bits) < vstd::arithmetic::power2::pow2(bits.len()),
    decreases bits.len(),
{
    if bits.len() == 0 {
        vstd::arithmetic::power2::lemma2_to64();
    } else {
        lemma_value_bound(bits.drop_first());
        vstd::arithmetic::power2::lemma_pow2_unfold(bits.len());
    }
}

/// The byte that eight sampled bits stand for, least significant first.
pub fn byte_of(bits: &[bool]) -> (byte: u8)
    requires
        bits@.len() == 8,
    ensures
        byte == value_of(bits@),
{
    let mut byte: u8 = 0;
    let mut i: usize = 8;
    proof {
        vstd::arithmetic::power2::lemma2_to64();
        assert(bits@.skip(8).len() == 0);
    }
    while i > 0
        invariant
            i <= 8,
            bits@.len() == 8,
            byte == value_of(bits@.skip(i as int)),
        decreases i,
    {
        proof {
            lemma_value_bound(bits@.skip(i as int));
            lemma_value_bound(bits@.skip(i - 1));
            vstd::arithmetic::power2::lemma2_to64();
            vstd::arithmetic::power2::lemma_pow2_unfold((8 - i + 1) as nat);
            assert(bits@.skip(i - 1).drop_first() =~= bits@.skip(i as int));
            lemma_pow2_up_to_8((8 - i + 1) as nat);
        }
        i -= 1;
        byte = 2 * byte + (if bits[i] {
            1
        } else {
            0
        });
    }
    assert(bits@.skip(0) =~= bits@);
    byte
}

/// Up to eight bits stand for less than 256.
proof fn lemma_pow2_up_to_8(n: nat)
    requires
        n <= 8,
    ensures
        vstd::arithmetic::power2::pow2(n) <= 256,
    decreases 8 - n,
{
    vstd::arithmetic::power2::lemma2_to64();
    if n < 8 {
        lemma_pow2_up_to_8(n + 1);
        vstd::arithmetic::power2::lemma_pow2_unfold(n + 1);
    }
}

/// What is sent is what is read: the bits that a byte is sent as stand for that byte.
pub proof fn law_bytes_cross_the_bus(byte: u8)
    ensures
        bits_of(byte as int, 8).len() == 8,
        value_of(bits_of(byte as int, 8)) == byte,
{
    vstd::arithmetic::power2::lemma2_to64();
    lemma_bits_stand_for_it(byte as int, 8);
}

/// The lowest bits of a number that has no others stand for it.
proof fn lemma_bits_stand_for_it(value: int, n: nat)
    requires
        0 <= value < vstd::arithmetic::power2::pow2(n),
    ensures
        bits_of(value, n).len() == n,
        value_of(bits_of(value, n)) == value,
    decreases n,
{
    if n == 0 {
        vstd::arithmetic::power2::lemma2_to64();
    } else {
        vstd::arithmetic::power2::lemma_pow2_unfold(n);
        lemma_bits_stand_for_it(value / 2, (n - 1) as nat);
        assert(bits_of(value, n).drop_first() =~= bits_of(value / 2, (n - 1) as nat));
    }
}

/// Every bit slot is as long as every other, 70 microseconds, and a reset holds the line down for 480.
pub proof fn law_slots_are_equally_long(bit: bool)
    ensures
        duration_us(write_bit_ops(bit)) == 70,
        duration_us(read_bit_ops()) == 70,
        duration_us(reset_ops()) == 960,
        LOOPS_PER_US == 2,
{
    assert(LOOPS_PER_US == 2) by (nonlinear_arith)
        requires
            LOOPS_PER_US == 8_000_000u32 / 3_000_000u32,
    ;
    reveal_with_fuel(duration_us, 7);
    assert(write_bit_ops(bit).drop_last() =~= write_bit_ops(bit).take(3));
    assert(write_bit_ops(bit).take(3).drop_last() =~= write_bit_ops(bit).take(2));
    assert(write_bit_ops(bit).take(2).drop_last() =~= write_bit_ops(bit).take(1));
}

/// How long the line is held down is what tells the slots apart: a reset for 480 microseconds, a one for 6, a nought for 60; and
/// a key's bit is sampled 15 microseconds after the line went down, its presence 70 after the reset ended.
pub proof fn law_slots_are_told_apart()
    ensures
        reset_ops() == seq![
            WireOp::Low,
            WireOp::Wait { us: 480 },
            WireOp::Release,
            WireOp::Wait { us: 70 },
            WireOp::Sample,
            WireOp::Wait { us: 410 },
        ],
        write_bit_ops(true).take(3) == seq![WireOp::Low, WireOp::Wait { us: 6 }, WireOp::Release],
        write_bit_ops(false).take(3) == seq![WireOp::Low, WireOp::Wait { us: 60 }, WireOp::Release],
        read_bit_ops().take(5) == seq![
            WireOp::Low,
            WireOp::Wait { us: 6 },
            WireOp::Release,
            WireOp::Wait { us: 9 },
            WireOp::Sample,
        ],
{
}

/// How many times the line is sampled.
pub open spec fn samples_in(ops: Seq<WireOp>) -> nat
    decreases ops.len(),
{
    if ops.len() == 0 {
        0
    } else {
        samples_in(ops.drop_last()) + (if ops.last() is Sample {
            1nat
        } else {
            0
        })
    }
}

/// Reading `n` bits samples the line `n` times and takes `n` slots, and sending some bits takes a slot for each.
pub proof fn law_one_slot_for_each_bit(n: nat, bits: Seq<bool>)
    ensures
        samples_in(read_ops(n)) == n,
        read_ops(n).len() == 6 * n,
        write_ops(bits).len() == 4 * bits.len(),
        forall|k: int|
            0 <= k < bits.len() ==> write_ops(bits).subrange(4 * k, 4 * k + 4) == write_bit_ops(#[trigger] bits[k]),
    decreases n + bits.len(),
{
    if n > 0 {
        law_one_slot_for_each_bit((n - 1) as nat, Seq::empty());
        let front = read_ops((n - 1) as nat);
        let slot = read_bit_ops();
        let all = front + slot;
        assert(read_ops(n) == all);
        reveal_with_fuel(samples_in, 7);
        assert(all.drop_last() =~= front + slot.take(5));
        assert((front + slot.take(5)).drop_last() =~= front + slot.take(4));
        assert((front + slot.take(4)).drop_last() =~= front + slot.take(3));
        assert((front + slot.take(3)).drop_last() =~= front + slot.take(2));
        assert((front + slot.take(2)).drop_last() =~= front + slot.take(1));
        assert((front + slot.take(1)).drop_last() =~= front);
    }
    if bits.len() > 0 {
        let rest = bits.drop_first();
        law_one_slot_for_each_bit(0, rest);
        let all = write_ops(bits);
        let first = write_bit_ops(bits.first());
        assert(all == first + write_ops(rest));
        assert forall|k: int| 0 <= k < bits.len() implies all.subrange(4 * k, 4 * k + 4) == write_bit_ops(
            #[trigger] bits[k],
        ) by {
            if k == 0 {
                assert(all.subrange(0, 4) =~= first);
            } else {
                assert(rest[k - 1] == bits[k]);
                assert(all.subrange(4 * k, 4 * k + 4) =~= write_ops(rest).subrange(4 * (k - 1), 4 * (k - 1) + 4));
            }
        }
    }
}

/// One bit of the Maxim CRC-8: x^8 + x^5 + x^4 + 1, reflected.
pub open spec fn crc8_bit(crc: u8) -> u8 {
    if crc & 1 != 0 {
        (crc >> 1) ^ 0x8c
    } else {
        crc >> 1
    }
}

/// `n` bits of the Maxim CRC-8.
pub open spec fn crc8_bits(crc: u8, n: nat) -> u8
    decreases n,
{
    if n == 0 {
        crc
    } else {
        crc8_bit(crc8_bits(crc, (n - 1) as nat))
    }
}

/// The Maxim 1-Wire CRC-8.
pub open spec fn crc8_of(data: Seq<u8>) -> u8
    decreases data.len(),
{
    if data.len() == 0 {
        0
    } else {
        crc8_bits(crc8_of(data.drop_last()) ^ data.last(), 8)
    }
}

/// The Maxim 1-Wire CRC-8, over a whole serial number including its own checksum byte.
///
/// Running it over all eight bytes gives zero for a good key, which is one comparison rather than seven bytes
/// hashed and then compared against the eighth.
pub fn crc8(data: &[u8]) -> (crc: u8)
    ensures
        crc == crc8_of(data@),
{
    let mut crc: u8 = 0;
    let mut at: usize = 0;
    assert(data@.take(0).len() == 0);
    while at < data.len()
        invariant
            at <= data@.len(),
            crc == crc8_of(data@.take(at as int)),
        decreases data@.len() - at,
    {
        crc = crc ^ data[at];
        let ghost mixed = crc;
        let mut bit: usize = 0;
        while bit < 8
            invariant
                bit <= 8,
                crc == crc8_bits(mixed, bit as nat),
            decreases 8 - bit,
        {
            crc = if crc & 1 != 0 {
                (crc >> 1) ^ 0x8c
            } else {
                crc >> 1
            };
            bit += 1;
        }
        at += 1;
        assert(data@.take(at as int).drop_last() =~= data@.take(at - 1));
    }
    assert(data@.take(at as int) =~= data@);
    crc
}

/// The checksum of a text is carried on from that of its front, byte by byte and bit by bit, starting from nothing; a bit that
/// falls out at the bottom is made up for by the polynomial.
pub proof fn law_checksum_is_carried_on(data: Seq<u8>, byte: u8, crc: u8)
    ensures
        crc8_of(Seq::empty()) == 0,
        crc8_of(data.push(byte)) == crc8_bits(crc8_of(data) ^ byte, 8),
        crc8_bits(crc, 8) == crc8_bit(
            crc8_bit(crc8_bit(crc8_bit(crc8_bit(crc8_bit(crc8_bit(crc8_bit(crc))))))),
        ),
        crc % 2 == 0 ==> crc8_bit(crc) == crc / 2,
        crc % 2 == 1 ==> crc8_bit(crc) ^ 0x8c == crc / 2,
{
    assert(data.push(byte).drop_last() =~= data);
    reveal_with_fuel(crc8_bits, 9);
    assert((crc % 2 == 0 ==> crc & 1 == 0 && crc >> 1 == crc / 2) && (crc % 2 == 1 ==> crc & 1 != 0 && ((crc >> 1)
        ^ 0x8c) ^ 0x8c == crc / 2)) by (bit_vector);
}

/// Anything followed by its checksum has a checksum of zero, and nothing else that it could be followed by has.
pub proof fn law_checksum_of_the_checked_is_zero(data: Seq<u8>, last: u8)
    ensures
        crc8_of(data.push(last)) == 0 <==> last == crc8_of(data),
{
    let before = crc8_of(data);
    let mixed = before ^ last;
    assert(data.push(last).drop_last() =~= data);
    assert(crc8_bits(mixed, 8) == 0 <==> mixed == 0) by {
        reveal_with_fuel(crc8_bits, 9);
        assert forall|c: u8| #[trigger] crc8_bit(c) == 0 <==> c == 0 by {
            assert((if c & 1 != 0 {
                (c >> 1) ^ 0x8c
            } else {
                c >> 1
            }) == 0 <==> c == 0) by (bit_vector);
        }
    }
    assert(before ^ last == 0 <==> last == before) by (bit_vector);
}

/// A serial number, if the bytes are one: their checksum holds, and they are not what an empty bus reads as.
///
/// A key that has just been taken off the reader in the middle of a read gives all ones; one that was never there
/// gives all zeros. Neither is a serial number. All ones fail the checksum, but all zeros do not.
pub open spec fn serial(bytes: Seq<u8>) -> bool {
    crc8_of(bytes) == 0 && !(forall|i: int| 0 <= i < bytes.len() ==> #[trigger] bytes[i] == 0)
}

/// Bytes whose checksum holds are a serial number as soon as one of them, whichever it is, is not nought; and no others are.
pub proof fn law_serial_numbers(bytes: Seq<u8>, i: int)
    requires
        0 <= i < bytes.len(),
    ensures
        crc8_of(bytes) != 0 ==> !serial(bytes),
        crc8_of(bytes) == 0 && bytes[i] != 0 ==> serial(bytes),
{
}

/// What an empty bus reads as, all ones or all zeros, is no serial number.
pub proof fn law_empty_bus_has_no_key(bytes: Seq<u8>)
    requires
        bytes.len() == KEY_LEN,
        (forall|i: int| 0 <= i < bytes.len() ==> #[trigger] bytes[i] == 0xff) || (forall|i: int|
            0 <= i < bytes.len() ==> #[trigger] bytes[i] == 0),
    ensures
        !serial(bytes),
{
    if forall|i: int| 0 <= i < bytes.len() ==> #[trigger] bytes[i] == 0xff {
        assert(crc8_bits(0u8 ^ 0xff, 8) == 0x35 && crc8_bits(0x35u8 ^ 0xff, 8) == 0xb4 && crc8_bits(
            0xb4u8 ^ 0xff,
            8,
        ) == 0x66 && crc8_bits(0x66u8 ^ 0xff, 8) == 0x8d && crc8_bits(0x8du8 ^ 0xff, 8) == 0x44
            && crc8_bits(0x44u8 ^ 0xff, 8) == 0x12 && crc8_bits(0x12u8 ^ 0xff, 8) == 0x14 && crc8_bits(
            0x14u8 ^ 0xff,
            8,
        ) == 0xc9) by (bit_vector);
        assert forall|n: int| 0 < n <= 8 implies #[trigger] bytes.take(n).drop_last() == bytes.take(
            n - 1,
        ) && bytes.take(n).last() == 0xff by {
            assert(bytes.take(n).drop_last() =~= bytes.take(n - 1));
        }
        assert(crc8_of(bytes.take(0)) == 0);
        assert(crc8_of(bytes.take(1)) == 0x35);
        assert(crc8_of(bytes.take(2)) == 0xb4);
        assert(crc8_of(bytes.take(3)) == 0x66);
        assert(crc8_of(bytes.take(4)) == 0x8d);
        assert(crc8_of(bytes.take(5)) == 0x44);
        assert(crc8_of(bytes.take(6)) == 0x12);
        assert(crc8_of(bytes.take(7)) == 0x14);
        assert(crc8_of(bytes.take(8)) == 0xc9);
        assert(bytes.take(8) =~= bytes);
    }
}

/// Read ROM. The only command a DS1990 understands.
pub const READ_SERIAL: u8 = 0x33;

/// How far a read has got.
#[derive(Copy, Clone, Debug, Eq, PartialEq, Structural)]
pub enum ReadStage {
    /// The bus is being reset.
    Resetting,
    /// The command is being sent.
    Commanding,
    /// A byte is being read.
    Reading {
        /// Which, counted from zero.
        byte: u8,
    },
    /// There is nothing more to do.
    Finished,
}

/// What a read needs next.
pub enum BusStep {
    /// Do this to the bus, without interruption, and hand back what was sampled.
    Run(Vec<WireOp>),
    /// The read is over. Nothing may have answered, or the checksum may not have held.
    Done(Option<IbuttonKey>),
}

/// The reader, in the middle of reading the serial number of the one key on the bus.
///
/// There is no search here: the reader takes one key at a time, and two keys on the bus at once would collide into
/// a serial number that fails its own checksum, which is exactly the answer wanted.
#[derive(Copy, Clone, Debug, Eq, PartialEq)]
pub struct OneWire {
    /// How far the read has got.
    pub stage: ReadStage,
    /// What has been read so far.
    pub key: [u8; KEY_LEN],
}

impl OneWire {
    /// A byte is being read only if the key has it.
    pub open spec fn wf(self) -> bool {
        self.stage matches ReadStage::Reading { byte } ==> byte < KEY_LEN
    }

    /// How many samples the last operations gave.
    pub open spec fn samples(self) -> nat {
        match self.stage {
            ReadStage::Resetting => 1,
            ReadStage::Reading { .. } => 8,
            _ => 0,
        }
    }

    /// What the read has come to once the last operations have given these samples, or nothing if it goes on. It is over if
    /// nothing answers the reset, and after the last byte.
    pub open spec fn heard(self, samples: Seq<bool>) -> Option<Option<IbuttonKey>> {
        match self.stage {
            ReadStage::Resetting => if samples[0] {
                Some(None)
            } else {
                None
            },
            ReadStage::Commanding => None,
            ReadStage::Reading { byte } => if byte + 1 < KEY_LEN {
                None
            } else {
                let key = vstd::array::spec_array_update(self.key, byte as int, value_of(samples) as u8);
                Some(
                    if serial(key@) {
                        Some(IbuttonKey(key))
                    } else {
                        None
                    },
                )
            },
            ReadStage::Finished => Some(None),
        }
    }

    /// Start a read, by resetting the bus.
    pub fn new() -> (r: (OneWire, Vec<WireOp>))
        ensures
            r.0.wf(),
            r.0.stage is Resetting,
            r.1@ == reset_ops(),
    {
        (OneWire { stage: ReadStage::Resetting, key: [0;KEY_LEN] }, reset())
    }

    /// Take what the last operations sampled, and say what to do next.
    pub fn read_key(&mut self, samples: &[bool]) -> (step: BusStep)
        requires
            old(self).wf(),
            samples@.len() == old(self).samples(),
        ensures
            final(self).wf(),
            step is Done <==> final(self).stage is Finished,
            step is Done <==> old(self).heard(samples@) is Some,
            step matches BusStep::Done(key) ==> old(self).heard(samples@) == Some(key),
            match old(self).stage {
                ReadStage::Resetting => {
                    &&& final(self).key == old(self).key
                    &&& if samples@[0] {
                        step matches BusStep::Done(key) && key is None
                    } else {
                        &&& step matches BusStep::Run(ops)
                        &&& ops@ == write_ops(bits_of(READ_SERIAL as int, 8))
                        &&& final(self).stage is Commanding
                    }
                },
                ReadStage::Commanding => {
                    &&& final(self).key == old(self).key
                    &&& step matches BusStep::Run(ops)
                    &&& ops@ == read_ops(8)
                    &&& final(self).stage == ReadStage::Reading { byte: 0 }
                },
                ReadStage::Reading { byte } => {
                    &&& final(self).key@ == old(self).key@.update(byte as int, value_of(samples@) as u8)
                    &&& if byte + 1 < KEY_LEN {
                        &&& step matches BusStep::Run(ops)
                        &&& ops@ == read_ops(8)
                        &&& final(self).stage == ReadStage::Reading { byte: (byte + 1) as u8 }
                    } else {
                        &&& step matches BusStep::Done(key)
                        &&& key == (if serial(final(self).key@) {
                            Some(IbuttonKey(final(self).key))
                        } else {
                            None
                        })
                    }
                },
                ReadStage::Finished => {
                    &&& *final(self) == *old(self)
                    &&& step matches BusStep::Done(key)
                    &&& key is None
                },
            },
    {
        match self.stage {
            ReadStage::Resetting => {
                if samples[0] {
                    self.stage = ReadStage::Finished;
                    return BusStep::Done(None);
                }
                self.stage = ReadStage::Commanding;
                BusStep::Run(write_byte(READ_SERIAL))
            },
            ReadStage::Commanding => {
                self.stage = ReadStage::Reading { byte: 0 };
                BusStep::Run(read_byte())
            },
            ReadStage::Reading { byte } => {
                self.key[byte as usize] = byte_of(samples);
                assert(self.key =~= vstd::array::spec_array_update(
                    old(self).key,
                    byte as int,
                    value_of(samples@) as u8,
                ));
                if (byte as usize) + 1 < KEY_LEN {
                    self.stage = ReadStage::Reading { byte: byte + 1 };
                    return BusStep::Run(read_byte());
                }
                self.stage = ReadStage::Finished;
                let key = IbuttonKey(self.key);
                proof {
                    let bytes = self.key@;
                    assert(bytes.len() == KEY_LEN);
                    if key.blank() {
                        assert forall|i: int| 0 <= i < bytes.len() implies #[trigger] bytes[i] == 0 by {
                            assert(key.0@[i] == 0);
                        }
                    } else {
                        let i = choose|i: int| 0 <= i < KEY_LEN && #[trigger] key.0@[i] != 0;
                        assert(bytes[i] != 0);
                    }
                }
                if crc8(self.key.as_slice()) != 0 || key.is_empty() {
                    return BusStep::Done(None);
                }
                BusStep::Done(Some(key))
            },
            ReadStage::Finished => BusStep::Done(None),
        }
    }
}

/// A key that is read is the eight bytes that were on the bus, none of them changed and none left out, and only if their checksum
/// holds and they are not all nought. A read is over when nothing answers, and otherwise not before the eighth byte.
pub proof fn law_key_is_what_was_on_the_bus(w: OneWire, samples: Seq<bool>)
    requires
        w.wf(),
        samples.len() == w.samples(),
    ensures
        w.stage is Resetting ==> (w.heard(samples) is Some <==> samples[0]),
        w.stage is Commanding ==> w.heard(samples) is None,
        w.stage matches ReadStage::Reading { byte } ==> (w.heard(samples) is Some <==> byte == 7),
        w.heard(samples) matches Some(Some(key)) ==> {
            &&& w.stage == (ReadStage::Reading { byte: 7 })
            &&& forall|i: int| 0 <= i < 7 ==> #[trigger] key.0@[i] == w.key@[i]
            &&& key.0@[7] == value_of(samples)
            &&& crc8_of(key.0@) == 0
            &&& !key.blank()
        },
        w.stage == (ReadStage::Reading { byte: 7 }) && w.heard(samples) == Some(None::<IbuttonKey>) ==> {
            let bytes = w.key@.update(7, value_of(samples) as u8);
            crc8_of(bytes) != 0 || forall|i: int| 0 <= i < 8 ==> #[trigger] bytes[i] == 0
        },
{
    if let ReadStage::Reading { .. } = w.stage {
        vstd::arithmetic::power2::lemma2_to64();
        lemma_value_bound(samples);
    }
    if let Some(Some(key)) = w.heard(samples) {
        let bytes = key.0@;
        let i = choose|i: int| 0 <= i < bytes.len() && #[trigger] bytes[i] != 0;
        assert(key.0@[i] != 0);
    }
}

/// How often the reader is checked for a key.
pub const POLL_MS: u64 = 250;

/// How many polls the same key must be away before presenting it again counts as a new event.
///
/// Without this, holding a key against the reader would open the service menu, and then keep re-opening it four
/// times a second for as long as it was held.
pub const REPEAT_LOCKOUT_POLLS: u8 = 4;

/// What is remembered of the last key.
#[derive(Copy, Clone, Debug, Eq, PartialEq)]
pub struct KeyWatch {
    /// The key that was reported last, unless it has been away long enough.
    pub last: Option<IbuttonKey>,
    /// For how many polls there has been no key.
    pub absent_polls: u8,
}

impl KeyWatch {
    /// What is remembered after a poll.
    pub open spec fn after(self, read: Option<IbuttonKey>) -> KeyWatch {
        match read {
            Some(key) => KeyWatch { last: Some(key), absent_polls: 0 },
            None => {
                let absent_polls = if self.absent_polls < 255 {
                    (self.absent_polls + 1) as u8
                } else {
                    self.absent_polls
                };
                KeyWatch {
                    last: if absent_polls >= REPEAT_LOCKOUT_POLLS {
                        None
                    } else {
                        self.last
                    },
                    absent_polls,
                }
            },
        }
    }

    /// What a poll reports.
    pub open spec fn reports(self, read: Option<IbuttonKey>) -> Option<Event> {
        match read {
            Some(key) => if self.last == Some(key) {
                None
            } else {
                Some(Event::Key(key))
            },
            None => None,
        }
    }

    /// What is remembered after `n` polls that found no key.
    pub open spec fn after_absence(self, n: nat) -> KeyWatch
        decreases n,
    {
        if n == 0 {
            self
        } else {
            self.after_absence((n - 1) as nat).after(None)
        }
    }

    /// No key yet.
    pub fn new() -> (w: KeyWatch)
        ensures
            w.last is None,
            w.absent_polls == 0,
    {
        KeyWatch { last: None, absent_polls: 0 }
    }

    /// Take what a read of the bus gave. Returns the event to report, if there is one.
    pub fn poll(&mut self, read: Option<IbuttonKey>) -> (event: Option<Event>)
        ensures
            *final(self) == old(self).after(read),
            event == old(self).reports(read),
    {
        match read {
            Some(key) => {
                self.absent_polls = 0;
                let again = match &self.last {
                    Some(last) => last.same(&key),
                    None => false,
                };
                self.last = Some(key);
                if again {
                    None
                } else {
                    Some(Event::Key(key))
                }
            },
            None => {
                self.absent_polls = self.absent_polls.saturating_add(1);
                if self.absent_polls >= REPEAT_LOCKOUT_POLLS {
                    self.last = None;
                }
                None
            },
        }
    }
}

/// The reader is looked at four times a second, a key counts as taken away after a second, and it is asked for its serial number
/// with the one command that it understands.
pub proof fn law_reader_is_looked_at_four_times_a_second()
    ensures
        4 * POLL_MS == 1_000,
        REPEAT_LOCKOUT_POLLS * POLL_MS == 1_000,
        READ_SERIAL == 0x33,
        bits_of(READ_SERIAL as int, 8) == seq![true, true, false, false, true, true, false, false],
{
    reveal_with_fuel(bits_of, 9);
    assert(bits_of(READ_SERIAL as int, 8) =~= seq![true, true, false, false, true, true, false, false]);
}

/// A key that is held is reported once. Presenting it again is a new event exactly if it has been away for four polls;
/// another key is a new event at once.
pub proof fn law_key_is_reported_once(watch: KeyWatch, key: IbuttonKey, away: nat, again: IbuttonKey)
    ensures
        ({
            let then = watch.after(Some(key)).after_absence(away);
            then.reports(Some(again)) == (if again == key && away < 4 {
                None
            } else {
                Some(Event::Key(again))
            })
        }),
{
    lemma_absence(watch.after(Some(key)), key, away);
}

/// What is remembered while a key is away.
proof fn lemma_absence(watch: KeyWatch, key: IbuttonKey, away: nat)
    requires
        watch.last == Some(key),
        watch.absent_polls == 0,
    ensures
        watch.after_absence(away).absent_polls == (if away < 255 {
            away
        } else {
            255
        }),
        watch.after_absence(away).last == (if away < REPEAT_LOCKOUT_POLLS {
            Some(key)
        } else {
            None
        }),
    decreases away,
{
    if away > 0 {
        lemma_absence(watch, key, (away - 1) as nat);
    }
}

} // verus!
