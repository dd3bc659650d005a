//! One journal record: the counters, a sequence number and a checksum.
use vstd::prelude::*;

use crate::config::HOPPER_COUNT;
use crate::error::{self, Errors};
use crate::nvram::codec::{self, crc16, is_blank, Cursor, Reader};
use crate::state::{Accounting, AppState, Counters, COUNTERS_VERSION};

verus! {

/// One journal record, padded so that records never straddle a segment boundary.
pub const RECORD: usize = 64;

/// Where a record keeps its version.
pub const VERSION_AT: usize = 2;

/// Where a record keeps the stage the customer was at.
pub const STATE_AT: usize = 17;

/// Where a record keeps its checksum, which covers everything before it.
pub const CRC_AT: usize = 50;

/// The number a stage is stored as.
pub open spec fn state_code(state: AppState) -> u8 {
    match state {
        AppState::AcceptCash => 0,
        AppState::PayoutItems => 1,
        AppState::PayoutReminder => 2,
        AppState::ProcessResidual => 3,
    }
}

/// The stage a number stands for, if it stands for one.
pub open spec fn state_of(code: u8) -> Option<AppState> {
    if code == 0 {
        Some(AppState::AcceptCash)
    } else if code == 1 {
        Some(AppState::PayoutItems)
    } else if code == 2 {
        Some(AppState::PayoutReminder)
    } else if code == 3 {
        Some(AppState::ProcessResidual)
    } else {
        None
    }
}

/// Accounting as stored: four numbers.
pub open spec fn accounting_bytes(a: Accounting) -> Seq<u8> {
    codec::le32(a.cash_in) + codec::le32(a.cash_out) + codec::le32(a.items_dispensed) + codec::le32(a.items_free)
}

/// The accounting stored at `at`.
pub open spec fn accounting_at(bytes: Seq<u8>, at: int) -> Accounting {
    Accounting {
        cash_in: codec::u32_at(bytes, at),
        cash_out: codec::u32_at(bytes, at + 4),
        items_dispensed: codec::u32_at(bytes, at + 8),
        items_free: codec::u32_at(bytes, at + 12),
    }
}

/// What the checksum of a record covers: the sequence number and the counters, field by field.
pub open spec fn counters_body(c: Counters, seq: u16) -> Seq<u8> {
    let head = codec::le16(seq).push(c.version) + codec::le16(c.item_level) + codec::le16(c.coin_levels@[0]) + codec::le32(c.cash)
        + codec::le16(c.coins_pending@[0]) + codec::le16(c.items_pending) + codec::le16(c.free_items_pending);
    head.push(state_code(c.app_state)) + accounting_bytes(c.overall) + accounting_bytes(c.period)
}

/// A whole record: body, checksum, zeros.
pub open spec fn counters_record(c: Counters, seq: u16) -> Seq<u8> {
    codec::padded(codec::sealed(counters_body(c, seq)), RECORD as nat, 0)
}

/// The counters that the bytes of a record spell.
pub open spec fn counters_at(bytes: Seq<u8>) -> Counters {
    Counters {
        version: bytes[VERSION_AT as int],
        item_level: codec::u16_at(bytes, 3),
        coin_levels: [codec::u16_at(bytes, 5)],
        cash: codec::u32_at(bytes, 7),
        coins_pending: [codec::u16_at(bytes, 11)],
        items_pending: codec::u16_at(bytes, 13),
        free_items_pending: codec::u16_at(bytes, 15),
        app_state: state_of(bytes[STATE_AT as int])->0,
        overall: accounting_at(bytes, 18),
        period: accounting_at(bytes, 34),
    }
}

/// Does a record's checksum hold?
pub open spec fn checksum_holds(bytes: Seq<u8>) -> bool {
    codec::crc16_of(bytes.take(CRC_AT as int)) == codec::u16_at(bytes, CRC_AT as int)
}

/// What a record holds: its sequence number and counters, or nothing if it is blank, names no stage,
/// fails its checksum, or is from a layout this build cannot read.
#[verifier::opaque]
pub open spec fn record_contents(bytes: Seq<u8>) -> Option<(u16, Counters)> {
    if !codec::blank(bytes) && state_of(bytes[STATE_AT as int]) is Some && checksum_holds(bytes)
        && bytes[VERSION_AT as int] == COUNTERS_VERSION {
        Some((codec::u16_at(bytes, 0), counters_at(bytes)))
    } else {
        None
    }
}

/// The fault that reading a record finds, or zero.
///
/// A blank record is none: it is not corrupt, the machine is merely new.
pub open spec fn record_fault(bytes: Seq<u8>) -> u32 {
    if codec::blank(bytes) || state_of(bytes[STATE_AT as int]) is None {
        0
    } else if !checksum_holds(bytes) {
        error::STATE_CRC
    } else if bytes[VERSION_AT as int] != COUNTERS_VERSION {
        error::STATE_VERSION
    } else {
        0
    }
}

/// Append accounting.
fn put_accounting(c: &mut Cursor, a: &Accounting)
    ensures
        final(c).buf@ == old(c).buf@ + accounting_bytes(*a),
{
    c.u32(a.cash_in);
    c.u32(a.cash_out);
    c.u32(a.items_dispensed);
    c.u32(a.items_free);
    assert(c.buf@ =~= old(c).buf@ + accounting_bytes(*a));
}

/// Read accounting.
fn get_accounting(r: &mut Reader) -> (a: Accounting)
    requires
        old(r).at + 16 <= old(r).buf@.len(),
    ensures
        final(r).buf == old(r).buf,
        final(r).at == old(r).at + 16,
        a == accounting_at(old(r).buf@, old(r).at as int),
{
    let cash_in = r.u32();
    let cash_out = r.u32();
    let items_dispensed = r.u32();
    let items_free = r.u32();
    Accounting { cash_in, cash_out, items_dispensed, items_free }
}

/// Serialise counters into a record, with its sequence number and checksum.
pub fn encode_counters(c: &Counters, seq: u16) -> (out: Vec<u8>)
    ensures
        out@ == counters_record(*c, seq),
        out@.len() == RECORD,
{
    let mut cur = Cursor::new();
    cur.u16(seq);
    assert(cur.buf@ =~= codec::le16(seq));
    cur.u8(c.version);
    cur.u16(c.item_level);
    cur.u16(c.coin_levels[0]);
    cur.u32(c.cash);
    cur.u16(c.coins_pending[0]);
    cur.u16(c.items_pending);
    cur.u16(c.free_items_pending);
    let stage: u8 = match c.app_state {
        AppState::AcceptCash => 0,
        AppState::PayoutItems => 1,
        AppState::PayoutReminder => 2,
        AppState::ProcessResidual => 3,
    };
    cur.u8(stage);
    put_accounting(&mut cur, &c.overall);
    put_accounting(&mut cur, &c.period);
    proof {
        broadcast use codec::lemma_le16_len, codec::lemma_le32_len;
    }
    cur.seal();
    cur.pad(RECORD, 0);
    cur.buf
}

/// Read a record back, or `None` if it is blank, corrupt, or from a layout this build cannot read.
pub fn decode_counters(bytes: &[u8], faults: &mut Errors) -> (contents: Option<(u16, Counters)>)
    requires
        bytes@.len() == RECORD,
    ensures
        contents == record_contents(bytes@),
        *final(faults) == old(faults).with(record_fault(bytes@)),
{
    proof {
        reveal(record_contents);
        let b = faults.bits;
        assert(b | 0 == b) by (bit_vector);
    }
    // An erased record is all ones. Checking for that first keeps a blank journal from being reported
    // as a corrupt one, which would be a fault on a machine that is merely new.
    if is_blank(bytes) {
        return None;
    }
    let mut r = Reader::new(bytes);
    let seq = r.u16();
    let version = r.u8();
    let item_level = r.u16();
    let coin_levels: [u16; HOPPER_COUNT] = [r.u16()];
    let cash = r.u32();
    let coins_pending: [u16; HOPPER_COUNT] = [r.u16()];
    let items_pending = r.u16();
    let free_items_pending = r.u16();
    let stage = r.u8();
    let app_state = if stage == 0 {
        AppState::AcceptCash
    } else if stage == 1 {
        AppState::PayoutItems
    } else if stage == 2 {
        AppState::PayoutReminder
    } else if stage == 3 {
        AppState::ProcessResidual
    } else {
        return None;
    };
    let overall = get_accounting(&mut r);
    let period = get_accounting(&mut r);
    let stored = r.u16();
    if crc16(bytes, CRC_AT) != stored {
        error::raise(faults, error::STATE_CRC);
        return None;
    }
    if version != COUNTERS_VERSION {
        error::raise(faults, error::STATE_VERSION);
        return None;
    }
    let counters = Counters {
        version,
        item_level,
        coin_levels,
        cash,
        coins_pending,
        items_pending,
        free_items_pending,
        app_state,
        overall,
        period,
    };
    assert(counters.coin_levels =~= counters_at(bytes@).coin_levels);
    assert(counters.coins_pending =~= counters_at(bytes@).coins_pending);
    Some((seq, counters))
}

/// Reading a record gives back what was written into it: the sequence number and every counter.
///
/// Counters stamped with another layout's version cannot be read back, and are the only ones.
pub proof fn law_record_round_trip(c: Counters, seq: u16)
    ensures
        c.version == COUNTERS_VERSION ==> record_contents(counters_record(c, seq)) == Some((seq, c)),
        c.version == COUNTERS_VERSION ==> record_fault(counters_record(c, seq)) == 0,
        c.version != COUNTERS_VERSION ==> record_contents(counters_record(c, seq)) is None,
        c.version != COUNTERS_VERSION ==> record_fault(counters_record(c, seq))
            == error::STATE_VERSION,
        counters_record(c, seq).len() == RECORD,
{
    broadcast use codec::lemma_le16_len, codec::lemma_le32_len;

    reveal(record_contents);
    let body = counters_body(c, seq);
    let rec = counters_record(c, seq);
    assert(rec.take(CRC_AT as int) =~= body);
    assert(rec[63] == 0);
    let crc = codec::crc16_of(body);
    assert(rec.subrange(50, 52) =~= codec::le16(crc));
    codec::lemma_u16_at(rec, 50, crc);

    assert(rec.subrange(0, 2) =~= codec::le16(seq));
    codec::lemma_u16_at(rec, 0, seq);
    assert(rec.subrange(3, 5) =~= codec::le16(c.item_level));
    codec::lemma_u16_at(rec, 3, c.item_level);
    assert(rec.subrange(5, 7) =~= codec::le16(c.coin_levels@[0]));
    codec::lemma_u16_at(rec, 5, c.coin_levels@[0]);
    assert(rec.subrange(7, 11) =~= codec::le32(c.cash));
    codec::lemma_u32_at(rec, 7, c.cash);
    assert(rec.subrange(11, 13) =~= codec::le16(c.coins_pending@[0]));
    codec::lemma_u16_at(rec, 11, c.coins_pending@[0]);
    assert(rec.subrange(13, 15) =~= codec::le16(c.items_pending));
    codec::lemma_u16_at(rec, 13, c.items_pending);
    assert(rec.subrange(15, 17) =~= codec::le16(c.free_items_pending));
    codec::lemma_u16_at(rec, 15, c.free_items_pending);
    assert(rec.subrange(18, 34) =~= accounting_bytes(c.overall));
    lemma_accounting_at(rec, 18, c.overall);
    assert(rec.subrange(34, 50) =~= accounting_bytes(c.period));
    lemma_accounting_at(rec, 34, c.period);
    let back = counters_at(rec);
    assert(back.coin_levels =~= c.coin_levels);
    assert(back.coins_pending =~= c.coins_pending);
}

/// A record in which any one byte has changed is not taken for a record: behind the checksum there is only padding.
/// Reading it is a fault, unless it names no stage.
pub proof fn law_changed_byte_is_noticed(c: Counters, seq: u16, i: int, v: u8)
    requires
        0 <= i < CRC_AT + 2,
        v != counters_record(c, seq)[i],
    ensures
        record_contents(counters_record(c, seq).update(i, v)) is None,
        ({
            let bytes = counters_record(c, seq).update(i, v);
            record_fault(bytes) == (if state_of(bytes[STATE_AT as int]) is Some {
                error::STATE_CRC
            } else {
                0
            })
        }),
{
    broadcast use codec::lemma_le16_len, codec::lemma_le32_len;

    reveal(record_contents);
    let body = counters_body(c, seq);
    let rec = counters_record(c, seq);
    let crc = codec::crc16_of(body);
    assert(rec.take(CRC_AT as int) =~= body);
    assert(rec.subrange(50, 52) =~= codec::le16(crc));
    codec::lemma_u16_at(rec, 50, crc);
    codec::lemma_changed_byte_fails(rec, CRC_AT as int, i, v);
    assert(rec.update(i, v)[63] == 0);
}

/// A blank slot holds no record.
pub proof fn lemma_blank_holds_nothing(bytes: Seq<u8>)
    requires
        codec::blank(bytes),
    ensures
        record_contents(bytes) is None,
{
    reveal(record_contents);
}

/// Accounting is read back from where its bytes stand.
proof fn lemma_accounting_at(bytes: Seq<u8>, at: int, a: Accounting)
    requires
        0 <= at,
        at + 16 <= bytes.len(),
        bytes.subrange(at, at + 16) == accounting_bytes(a),
    ensures
        accounting_at(bytes, at) == a,
{
    broadcast use codec::lemma_le32_len;

    let part = bytes.subrange(at, at + 16);
    assert(bytes.subrange(at, at + 4) =~= part.subrange(0, 4));
    assert(part.subrange(0, 4) =~= codec::le32(a.cash_in));
    codec::lemma_u32_at(bytes, at, a.cash_in);
    assert(bytes.subrange(at + 4, at + 8) =~= part.subrange(4, 8));
    assert(part.subrange(4, 8) =~= codec::le32(a.cash_out));
    codec::lemma_u32_at(bytes, at + 4, a.cash_out);
    assert(bytes.subrange(at + 8, at + 12) =~= part.subrange(8, 12));
    assert(part.subrange(8, 12) =~= codec::le32(a.items_dispensed));
    codec::lemma_u32_at(bytes, at + 8, a.items_dispensed);
    assert(bytes.subrange(at + 12, at + 16) =~= part.subrange(12, 16));
    assert(part.subrange(12, 16) =~= codec::le32(a.items_free));
    codec::lemma_u32_at(bytes, at + 12, a.items_free);
}

/// Where everything stands in a record: its number, the version, the stock, the credit, what is owed, how far the customer had
/// got, the totals, those of the period, and the checksum of all that. Whatever is read as a record has it there.
pub proof fn law_record_layout(bytes: Seq<u8>)
    requires
        bytes.len() == 64,
    ensures
        record_contents(bytes) matches Some((seq, c)) ==> {
            &&& seq == bytes[0] + 0x100 * bytes[1]
            &&& c.version == bytes[2] && c.version == COUNTERS_VERSION
            &&& c.item_level == bytes[3] + 0x100 * bytes[4]
            &&& c.coin_levels@[0] == bytes[5] + 0x100 * bytes[6]
            &&& c.cash == codec::four(bytes, 7)
            &&& c.coins_pending@[0] == bytes[11] + 0x100 * bytes[12]
            &&& c.items_pending == bytes[13] + 0x100 * bytes[14]
            &&& c.free_items_pending == bytes[15] + 0x100 * bytes[16]
            &&& c.app_state == (match bytes[17] {
                0 => AppState::AcceptCash,
                1 => AppState::PayoutItems,
                2 => AppState::PayoutReminder,
                _ => AppState::ProcessResidual,
            }) && bytes[17] <= 3
            &&& c.overall.cash_in == codec::four(bytes, 18) && c.overall.cash_out == codec::four(bytes, 22)
            &&& c.overall.items_dispensed == codec::four(bytes, 26) && c.overall.items_free == codec::four(bytes, 30)
            &&& c.period.cash_in == codec::four(bytes, 34) && c.period.cash_out == codec::four(bytes, 38)
            &&& c.period.items_dispensed == codec::four(bytes, 42) && c.period.items_free == codec::four(bytes, 46)
            &&& codec::crc16_of(bytes.take(50)) == bytes[50] + 0x100 * bytes[51]
        },
{
    reveal(record_contents);
    assert([codec::u16_at(bytes, 5)]@[0] == codec::u16_at(bytes, 5));
    assert([codec::u16_at(bytes, 11)]@[0] == codec::u16_at(bytes, 11));
}

/// A record cannot be read for one of four reasons: it is blank, it names no stage, its checksum fails, or it is of another
/// version. The last two are faults, each its own; the first two are none.
pub proof fn law_unreadable_records(bytes: Seq<u8>)
    requires
        bytes.len() == 64,
    ensures
        ({
            let blank = forall|i: int| 0 <= i < 64 ==> #[trigger] bytes[i] == 0xff;
            let holds = codec::crc16_of(bytes.take(50)) == bytes[50] + 0x100 * bytes[51];
            &&& record_contents(bytes) is Some <==> !blank && bytes[17] <= 3 && holds && bytes[2]
                == COUNTERS_VERSION
            &&& record_fault(bytes) == if blank || bytes[17] > 3 {
                0u32
            } else if !holds {
                0x0010
            } else if bytes[2] != COUNTERS_VERSION {
                0x0008
            } else {
                0
            }
        }),
{
    reveal(record_contents);
    assert(codec::blank(bytes) == (forall|i: int| 0 <= i < 64 ==> #[trigger] bytes[i] == 0xff));
}

} // verus!
