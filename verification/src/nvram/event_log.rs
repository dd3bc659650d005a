//! The event log: the last few things that happened, in a segment of their own.
//!
//! It lets a technician reconstruct a dispute after the fact, or spot an intermittent fault that the set of
//! present faults has since forgotten. There is no clock, so entries are ordered by a sequence number
//! rather than by a time of day.
use vstd::prelude::*;

use crate::bounded::{self, list_as_slice, list_new, list_push, list_swap};
use crate::nvram::codec::{self, crc16, is_blank, Cursor, Reader};
use crate::nvram::flash::{self, NVRAM_BASE, NVRAM_LEN, SEGMENT};
use crate::nvram::ring::{self, is_newer, next_seq};
use crate::state::EventKind;

verus! {

/// Where in the region the log's segment starts: behind the settings and the journal.
pub const EVENT_LOG_AT: usize = 2048;

/// One entry's size on flash, rounded up so that entries land on a convenient boundary and there is
/// headroom to widen the value later.
pub const EVENT_RECORD: usize = 16;

/// How many entries the log holds.
pub const EVENT_LOG_ENTRIES: u16 = 32;

/// Where an entry keeps its checksum, which covers everything before it.
pub const EVENT_CRC_AT: usize = 7;

/// One thing the event log remembers.
#[derive(Copy, Clone, Debug, Eq, PartialEq, Structural)]
pub struct EventLogEntry {
    /// Counts up across the whole log's life, and wraps.
    pub seq: u16,
    /// What happened.
    pub kind: EventKind,
    /// The detail that goes with `kind`; see [`EventKind`]'s variants for what it means for each.
    pub value: u32,
}

/// The number a kind is stored as.
pub open spec fn kind_code(kind: EventKind) -> u8 {
    match kind {
        EventKind::Coin => 0,
        EventKind::ItemDispensed => 1,
        EventKind::HopperPayout => 2,
        EventKind::ErrorRaised => 3,
        EventKind::ErrorCleared => 4,
        EventKind::ServiceEntered => 5,
        EventKind::ServiceExited => 6,
    }
}

/// The kind a number stands for, if it stands for one.
pub open spec fn kind_of(code: u8) -> Option<EventKind> {
    if code == 0 {
        Some(EventKind::Coin)
    } else if code == 1 {
        Some(EventKind::ItemDispensed)
    } else if code == 2 {
        Some(EventKind::HopperPayout)
    } else if code == 3 {
        Some(EventKind::ErrorRaised)
    } else if code == 4 {
        Some(EventKind::ErrorCleared)
    } else if code == 5 {
        Some(EventKind::ServiceEntered)
    } else if code == 6 {
        Some(EventKind::ServiceExited)
    } else {
        None
    }
}

/// What the checksum of an entry covers.
pub open spec fn event_body(e: EventLogEntry) -> Seq<u8> {
    codec::le16(e.seq).push(kind_code(e.kind)) + codec::le32(e.value)
}

/// A whole entry as stored: body, checksum, and the rest as an erase left it.
pub open spec fn event_record(e: EventLogEntry) -> Seq<u8> {
    codec::padded(codec::sealed(event_body(e)), EVENT_RECORD as nat, 0xff)
}

/// What a stored entry says, or nothing if it is blank, of no known kind, or corrupt.
pub open spec fn event_contents(bytes: Seq<u8>) -> Option<EventLogEntry> {
    if !codec::blank(bytes) && kind_of(bytes[2]) is Some && codec::crc16_of(
        bytes.take(EVENT_CRC_AT as int),
    ) == codec::u16_at(bytes, EVENT_CRC_AT as int) {
        Some(
            EventLogEntry {
                seq: codec::u16_at(bytes, 0),
                kind: kind_of(bytes[2])->0,
                value: codec::u32_at(bytes, 3),
            },
        )
    } else {
        None
    }
}

/// Where in the region an entry's slot starts.
pub open spec fn event_offset(slot: int) -> int {
    EVENT_LOG_AT + slot * EVENT_RECORD
}

/// What a slot holds.
pub open spec fn event_bytes(flash: Seq<u8>, slot: int) -> Seq<u8> {
    flash.subrange(event_offset(slot), event_offset(slot) + EVENT_RECORD)
}

/// The entry of a slot, if the slot holds one that can be read.
pub open spec fn event_at(flash: Seq<u8>, slot: int) -> Option<EventLogEntry> {
    event_contents(event_bytes(flash, slot))
}

/// The numbers of the entries in the log, slot by slot.
pub open spec fn log_seqs(flash: Seq<u8>) -> Seq<Option<u16>> {
    Seq::new(
        EVENT_LOG_ENTRIES as nat,
        |slot: int|
            match event_at(flash, slot) {
                Some(e) => Some(e.seq),
                None => None,
            },
    )
}

/// Which slots have been written to since they were last erased.
pub open spec fn written_entries(flash: Seq<u8>) -> Seq<bool> {
    Seq::new(EVENT_LOG_ENTRIES as nat, |slot: int| !codec::blank(event_bytes(flash, slot)))
}

/// Serialise an entry, with its checksum.
pub fn encode_event(entry: &EventLogEntry) -> (out: Vec<u8>)
    ensures
        out@ == event_record(*entry),
        out@.len() == EVENT_RECORD,
{
    let mut cur = Cursor::new();
    cur.u16(entry.seq);
    let kind: u8 = match entry.kind {
        EventKind::Coin => 0,
        EventKind::ItemDispensed => 1,
        EventKind::HopperPayout => 2,
        EventKind::ErrorRaised => 3,
        EventKind::ErrorCleared => 4,
        EventKind::ServiceEntered => 5,
        EventKind::ServiceExited => 6,
    };
    cur.u8(kind);
    cur.u32(entry.value);
    proof {
        broadcast use codec::lemma_le16_len, codec::lemma_le32_len;
    }
    assert(cur.buf@ =~= event_body(*entry));
    cur.seal();
    cur.pad(EVENT_RECORD, 0xff);
    cur.buf
}

/// Read an entry back, or `None` if it is blank, of no known kind, or corrupt.
pub fn decode_event(bytes: &[u8]) -> (contents: Option<EventLogEntry>)
    requires
        bytes@.len() == EVENT_RECORD,
    ensures
        contents == event_contents(bytes@),
{
    if is_blank(bytes) {
        return None;
    }
    let mut r = Reader::new(bytes);
    let seq = r.u16();
    let code = r.u8();
    let kind = if code == 0 {
        EventKind::Coin
    } else if code == 1 {
        EventKind::ItemDispensed
    } else if code == 2 {
        EventKind::HopperPayout
    } else if code == 3 {
        EventKind::ErrorRaised
    } else if code == 4 {
        EventKind::ErrorCleared
    } else if code == 5 {
        EventKind::ServiceEntered
    } else if code == 6 {
        EventKind::ServiceExited
    } else {
        return None;
    };
    let value = r.u32();
    let stored = r.u16();
    if crc16(bytes, EVENT_CRC_AT) != stored {
        return None;
    }
    Some(EventLogEntry { seq, kind, value })
}

/// Reading an entry gives back what was written.
pub proof fn law_event_round_trip(e: EventLogEntry)
    ensures
        event_contents(event_record(e)) == Some(e),
        event_record(e).len() == EVENT_RECORD,
{
    broadcast use codec::lemma_le16_len, codec::lemma_le32_len;

    let body = event_body(e);
    let rec = event_record(e);
    assert(rec.take(EVENT_CRC_AT as int) =~= body);
    let crc = codec::crc16_of(body);
    assert(rec.subrange(7, 9) =~= codec::le16(crc));
    codec::lemma_u16_at(rec, 7, crc);
    assert(rec.subrange(0, 2) =~= codec::le16(e.seq));
    codec::lemma_u16_at(rec, 0, e.seq);
    assert(rec.subrange(3, 7) =~= codec::le32(e.value));
    codec::lemma_u32_at(rec, 3, e.value);
    assert(rec[2] == body[2]);
    assert(rec[2] == kind_code(e.kind));
    assert(rec[2] != 0xff);
}

/// An entry in which any one byte has changed is not taken for an entry: behind the checksum there is only padding.
pub proof fn law_changed_byte_is_noticed(e: EventLogEntry, i: int, v: u8)
    requires
        0 <= i < EVENT_CRC_AT + 2,
        v != event_record(e)[i],
    ensures
        event_contents(event_record(e).update(i, v)) is None,
{
    broadcast use codec::lemma_le16_len, codec::lemma_le32_len;

    let body = event_body(e);
    let rec = event_record(e);
    let crc = codec::crc16_of(body);
    assert(rec.take(EVENT_CRC_AT as int) =~= body);
    assert(rec.subrange(7, 9) =~= codec::le16(crc));
    codec::lemma_u16_at(rec, 7, crc);
    codec::lemma_changed_byte_fails(rec, EVENT_CRC_AT as int, i, v);
}

/// The event log: where the newest entry is, and where the next one goes.
#[derive(Copy, Clone, Debug, Eq, PartialEq, Structural)]
pub struct EventLog {
    /// Slot that was written to last: that of the last entry, or one behind it whose entry was cut short.
    pub slot: u16,
    /// Sequence number of the last entry.
    pub seq: u16,
}

/// An entry on its way into the log.
#[derive(Copy, Clone, Debug, Eq, PartialEq, Structural)]
pub struct EventWrite {
    /// The slot it goes into.
    pub slot: u16,
    /// The entry.
    pub entry: EventLogEntry,
}

impl EventWrite {
    /// The slot is one of the log's.
    pub open spec fn wf(self) -> bool {
        self.slot < EVENT_LOG_ENTRIES
    }

    /// Must the segment be erased first?
    pub open spec fn erases(self) -> bool {
        self.slot == 0
    }

    /// The region just before the entry is written: as it was, or with the segment erased.
    pub open spec fn cleared(self, flash: Seq<u8>) -> Seq<u8> {
        if self.erases() {
            flash::erased(flash, EVENT_LOG_AT as int)
        } else {
            flash
        }
    }

    /// The region if the power goes off after `words` words of the entry have been written.
    pub open spec fn torn(self, flash: Seq<u8>, words: int) -> Seq<u8> {
        flash::programmed(
            self.cleared(flash),
            event_offset(self.slot as int),
            event_record(self.entry).take(2 * words),
        )
    }

    /// The region once the entry has been written.
    pub open spec fn applied(self, flash: Seq<u8>) -> Seq<u8> {
        flash::programmed(self.cleared(flash), event_offset(self.slot as int), event_record(self.entry))
    }

    /// Must the segment be erased first?
    pub fn needs_erase(&self) -> (b: bool)
        ensures
            b == self.erases(),
    {
        self.slot == 0
    }

    /// The address the entry goes to, which is also an address in the segment to erase.
    pub fn addr(&self) -> (addr: u16)
        requires
            self.wf(),
        ensures
            addr == NVRAM_BASE + event_offset(self.slot as int),
            addr + EVENT_RECORD <= NVRAM_BASE + NVRAM_LEN,
    {
        EventLog::slot_addr(self.slot)
    }

    /// The bytes of the entry.
    pub fn bytes(&self) -> (out: Vec<u8>)
        ensures
            out@ == event_record(self.entry),
            out@.len() == EVENT_RECORD,
    {
        encode_event(&self.entry)
    }
}

/// Is there an entry in `slot` that can be read?
pub open spec fn live(flash: Seq<u8>, slot: int) -> bool {
    0 <= slot < EVENT_LOG_ENTRIES && event_at(flash, slot) is Some
}

/// The number of the entry in `slot`.
pub open spec fn seq_of(flash: Seq<u8>, slot: int) -> u16 {
    (event_at(flash, slot)->0).seq
}

/// No entry of the log is ahead of `last`, nor half the sequence space behind it.
pub open spec fn within_half(flash: Seq<u8>, last: u16) -> bool {
    forall|slot: int| #[trigger] live(flash, slot) ==> ring::age(last, seq_of(flash, slot)) < ring::HALF
}

/// Every slot whose entry can be read occurs in `order`, once, and no other slot.
pub open spec fn lists_live_slots(flash: Seq<u8>, order: Seq<u16>) -> bool {
    &&& order.no_duplicates()
    &&& forall|slot: u16| #[trigger] order.contains(slot) <==> live(flash, slot as int)
}

/// Entries earlier in `order` were not written after later ones, counting back from `last`.
pub open spec fn oldest_first(flash: Seq<u8>, order: Seq<u16>, last: u16) -> bool {
    forall|a: int, b: int|
        #![trigger order[a], order[b]]
        0 <= a < b < order.len() ==> ring::age(last, seq_of(flash, order[a] as int)) >= ring::age(
            last,
            seq_of(flash, order[b] as int),
        )
}

/// An order in which the log may be read: all the live slots, and oldest first if the entries' numbers lie
/// close enough together to tell.
pub open spec fn reading_order(flash: Seq<u8>, order: Seq<u16>) -> bool {
    &&& lists_live_slots(flash, order)
    &&& forall|last: u16| within_half(flash, last) ==> #[trigger] oldest_first(flash, order, last)
}

/// `out` with its first places taken by the entries of `order`, as far as either goes.
pub open spec fn filled(
    out: Seq<EventLogEntry>,
    flash: Seq<u8>,
    order: Seq<u16>,
) -> Seq<EventLogEntry> {
    Seq::new(
        out.len(),
        |i: int|
            if i < order.len() {
                event_at(flash, order[i] as int)->0
            } else {
                out[i]
            },
    )
}

impl EventLog {
    /// The slot is one of the log's.
    pub open spec fn wf(self) -> bool {
        self.slot < EVENT_LOG_ENTRIES
    }

    /// The slot the next entry goes into.
    pub open spec fn next_slot(self) -> u16 {
        ((self.slot + 1) % EVENT_LOG_ENTRIES as int) as u16
    }

    /// The log after one more entry.
    pub open spec fn advanced(self) -> EventLog {
        EventLog { slot: self.next_slot(), seq: ring::following(self.seq) }
    }

    /// What recording an event writes.
    pub open spec fn recording(self, kind: EventKind, value: u32) -> EventWrite {
        EventWrite {
            slot: self.next_slot(),
            entry: EventLogEntry { seq: ring::following(self.seq), kind, value },
        }
    }

    /// What opening the log finds in a region: the number of the newest entry that can be read, and the last slot
    /// from there on that has been written to, so that the next entry goes into flash that is blank.
    pub open spec fn opened(flash: Seq<u8>) -> EventLog {
        match ring::newest(log_seqs(flash)) {
            Some(at) => EventLog {
                slot: ring::last_written(written_entries(flash), at, EVENT_LOG_ENTRIES - 1) as u16,
                seq: seq_of(flash, at),
            },
            None => EventLog { slot: (EVENT_LOG_ENTRIES - 1) as u16, seq: 0 },
        }
    }

    /// The region is as this log leaves it: the entries in it that can be read lie in the order in which they
    /// were recorded.
    pub open spec fn tracks(self, flash: Seq<u8>) -> bool {
        &&& flash.len() == NVRAM_LEN
        &&& ring::tracks(log_seqs(flash), self.slot as int, self.seq)
    }

    /// The slots still to come before the next erase are blank.
    pub open spec fn ready(self, flash: Seq<u8>) -> bool {
        forall|slot: int|
            self.slot < slot < EVENT_LOG_ENTRIES ==> codec::blank(#[trigger] event_bytes(flash, slot))
    }

    /// The region is as this log leaves it, and ready for its next entry.
    pub open spec fn keeps(self, flash: Seq<u8>) -> bool {
        &&& self.wf()
        &&& self.tracks(flash)
        &&& self.ready(flash)
    }

    /// Address of a slot.
    pub fn slot_addr(slot: u16) -> (addr: u16)
        requires
            slot < EVENT_LOG_ENTRIES,
        ensures
            addr == NVRAM_BASE + event_offset(slot as int),
            addr + EVENT_RECORD <= NVRAM_BASE + NVRAM_LEN,
    {
        let offset: usize = EVENT_LOG_AT + slot as usize * EVENT_RECORD;
        NVRAM_BASE + offset as u16
    }

    /// The entry of a slot, if the slot holds one that can be read.
    fn read_slot(flash: &[u8], slot: u16) -> (entry: Option<EventLogEntry>)
        requires
            flash@.len() == NVRAM_LEN,
            slot < EVENT_LOG_ENTRIES,
        ensures
            entry == event_at(flash@, slot as int),
    {
        let from: usize = EVENT_LOG_AT + slot as usize * EVENT_RECORD;
        let bytes = vstd::slice::slice_subrange(flash, from, from + EVENT_RECORD);
        assert(bytes@ == event_bytes(flash@, slot as int));
        decode_event(bytes)
    }

    /// Is a slot as an erase leaves it?
    fn slot_is_blank(flash: &[u8], slot: u16) -> (b: bool)
        requires
            flash@.len() == NVRAM_LEN,
            slot < EVENT_LOG_ENTRIES,
        ensures
            b == codec::blank(event_bytes(flash@, slot as int)),
    {
        let from: usize = EVENT_LOG_AT + slot as usize * EVENT_RECORD;
        is_blank(vstd::slice::slice_subrange(flash, from, from + EVENT_RECORD))
    }

    /// Find the newest entry, if any, so that appends continue the sequence rather than restart it.
    ///
    /// A slot behind that entry that is not blank holds an entry which a power cut interrupted. Nothing can be
    /// written over it, so the log stands at the last such slot.
    pub fn open(flash: &[u8]) -> (log: EventLog)
        requires
            flash@.len() == NVRAM_LEN,
        ensures
            log == EventLog::opened(flash@),
            log.wf(),
            log.ready(flash@),
    {
        let mut best: Option<(u16, u16)> = None;
        let mut slot: u16 = 0;
        let ghost seqs = log_seqs(flash@);
        assert(seqs.take(0).len() == 0);
        while slot < EVENT_LOG_ENTRIES
            invariant
                slot <= EVENT_LOG_ENTRIES,
                flash@.len() == NVRAM_LEN,
                seqs == log_seqs(flash@),
                best is None <==> ring::newest(seqs.take(slot as int)) is None,
                best matches Some((s, at)) ==> {
                    &&& ring::newest(seqs.take(slot as int)) == Some(at as int)
                    &&& at < slot
                    &&& event_at(flash@, at as int) is Some
                    &&& seq_of(flash@, at as int) == s
                },
            decreases EVENT_LOG_ENTRIES - slot,
        {
            let found = EventLog::read_slot(flash, slot);
            let ghost part = seqs.take(slot + 1);
            assert(part.drop_last() =~= seqs.take(slot as int));
            assert(part.last() == seqs[slot as int]);
            if let Some(entry) = found {
                let newer = match &best {
                    None => true,
                    Some((best_seq, _)) => is_newer(entry.seq, *best_seq),
                };
                if newer {
                    best = Some((entry.seq, slot));
                }
            }
            slot += 1;
        }
        assert(seqs.take(EVENT_LOG_ENTRIES as int) =~= seqs);
        proof {
            lemma_opened_stands(flash@);
        }
        match best {
            Some((seq, at)) => {
                let mut slot: u16 = EVENT_LOG_ENTRIES - 1;
                let ghost written = written_entries(flash@);
                while slot > at && EventLog::slot_is_blank(flash, slot)
                    invariant
                        at <= slot < EVENT_LOG_ENTRIES,
                        flash@.len() == NVRAM_LEN,
                        written == written_entries(flash@),
                        ring::last_written(written, at as int, slot as int) == ring::last_written(
                            written,
                            at as int,
                            EVENT_LOG_ENTRIES - 1,
                        ),
                    decreases slot,
                {
                    slot -= 1;
                }
                EventLog { slot, seq }
            },
            None => EventLog { slot: EVENT_LOG_ENTRIES - 1, seq: 0 },
        }
    }

    /// Append one entry.
    ///
    /// Coming round to the first slot is when the whole segment is erased, once, rather than keeping track
    /// of which slots are stale. That covers the very first entry a machine ever writes too: a log in which
    /// nothing readable was found stands at its last slot.
    pub fn record(&mut self, kind: EventKind, value: u32) -> (write: EventWrite)
        requires
            old(self).wf(),
        ensures
            write == old(self).recording(kind, value),
            write.wf(),
            *final(self) == old(self).advanced(),
            final(self).wf(),
    {
        let next: u16 = if self.slot + 1 >= EVENT_LOG_ENTRIES {
            0
        } else {
            self.slot + 1
        };
        let seq: u16 = next_seq(self.seq);
        self.slot = next;
        self.seq = seq;
        EventWrite { slot: next, entry: EventLogEntry { seq, kind, value } }
    }

    /// The slots whose entries can be read, in the order of the slots.
    fn live_slots(flash: &[u8]) -> (list: heapless::Vec<u16, 32>)
        requires
            flash@.len() == NVRAM_LEN,
        ensures
            lists_live_slots(flash@, bounded::list_items(list)),
            bounded::list_items(list).len() <= EVENT_LOG_ENTRIES,
    {
        let mut list = list_new();
        let mut slot: u16 = 0;
        while slot < EVENT_LOG_ENTRIES
            invariant
                slot <= EVENT_LOG_ENTRIES,
                flash@.len() == NVRAM_LEN,
                bounded::list_items(list).len() <= slot,
                bounded::list_items(list).no_duplicates(),
                forall|s: u16| #[trigger]
                    bounded::list_items(list).contains(s) <==> s < slot && live(flash@, s as int),
            decreases EVENT_LOG_ENTRIES - slot,
        {
            let ghost before = bounded::list_items(list);
            if EventLog::read_slot(flash, slot).is_some() {
                list_push(&mut list, slot);
                proof {
                    let after = bounded::list_items(list);
                    assert(!before.contains(slot));
                    assert forall|s: u16| #[trigger] after.contains(s) <==> s < slot + 1 && live(
                        flash@,
                        s as int,
                    ) by {
                        if before.contains(s) {
                            let k = choose|k: int| 0 <= k < before.len() && before[k] == s;
                            assert(after[k] == s);
                        }
                        if s == slot {
                            assert(after[before.len() as int] == s);
                        }
                        if after.contains(s) && s != slot {
                            let k = choose|k: int| 0 <= k < after.len() && after[k] == s;
                            assert(before[k] == s);
                        }
                    }
                    assert forall|a: int, b: int|
                        0 <= a < after.len() && 0 <= b < after.len() && a != b implies after[a]
                        != after[b] by {
                        if a < before.len() {
                            assert(before.contains(before[a]));
                        }
                        if b < before.len() {
                            assert(before.contains(before[b]));
                        }
                    }
                }
            }
            slot += 1;
        }
        list
    }

    /// Was the entry in slot `a` written after the one in slot `b`, as far as their numbers tell?
    fn written_after(flash: &[u8], a: u16, b: u16) -> (after: bool)
        requires
            flash@.len() == NVRAM_LEN,
            live(flash@, a as int),
            live(flash@, b as int),
        ensures
            after == (ring::age(seq_of(flash@, b as int), seq_of(flash@, a as int)) >= ring::HALF),
    {
        match (EventLog::read_slot(flash, a), EventLog::read_slot(flash, b)) {
            (Some(x), Some(y)) => !is_newer(y.seq, x.seq),
            _ => false,
        }
    }

    /// Put a list of live slots into reading order.
    fn sort_slots(flash: &[u8], list: &mut heapless::Vec<u16, 32>)
        requires
            flash@.len() == NVRAM_LEN,
            lists_live_slots(flash@, bounded::list_items(*old(list))),
        ensures
            reading_order(flash@, bounded::list_items(*final(list))),
            bounded::list_items(*final(list)).len() == bounded::list_items(*old(list)).len(),
    {
        let len: usize = list_as_slice(list).len();
        let mut i: usize = 0;
        while i < len
            invariant
                i <= len,
                flash@.len() == NVRAM_LEN,
                len == bounded::list_items(*list).len(),
                len == bounded::list_items(*old(list)).len(),
                lists_live_slots(flash@, bounded::list_items(*list)),
                forall|last: u16|
                    within_half(flash@, last) ==> #[trigger] oldest_first(
                        flash@,
                        bounded::list_items(*list).take(i as int),
                        last,
                    ),
            decreases len - i,
        {
            let mut j: usize = i;
            let ghost start = bounded::list_items(*list);
            assert forall|last: u16| within_half(flash@, last) implies #[trigger] sorted_but_for(
                flash@,
                start,
                last,
                i as int,
                i as int,
            ) by {
                let front = start.take(i as int);
                assert(oldest_first(flash@, front, last));
                assert forall|a: int, b: int| 0 <= a < b <= i && b != i implies ring::age(
                    last,
                    seq_of(flash@, #[trigger] start[a] as int),
                ) >= ring::age(last, seq_of(flash@, #[trigger] start[b] as int)) by {
                    assert(front[a] == start[a] && front[b] == start[b]);
                }
            }
            let mut settled = false;
            while j > 0 && !settled
                invariant
                    j <= i < len,
                    flash@.len() == NVRAM_LEN,
                    len == bounded::list_items(*list).len(),
                    lists_live_slots(flash@, bounded::list_items(*list)),
                    forall|last: u16|
                        within_half(flash@, last) ==> #[trigger] sorted_but_for(
                            flash@,
                            bounded::list_items(*list),
                            last,
                            i as int,
                            j as int,
                        ),
                    settled && j > 0 ==> {
                        let items = bounded::list_items(*list);
                        ring::age(
                            seq_of(flash@, items[j as int] as int),
                            seq_of(flash@, items[j - 1] as int),
                        ) < ring::HALF
                    },
                decreases j, (if settled { 0int } else { 1 }),
            {
                let ghost items = bounded::list_items(*list);
                let previous: u16 = list_as_slice(list)[j - 1];
                let current: u16 = list_as_slice(list)[j];
                assert(items.contains(items[j - 1]) && items.contains(items[j as int]));
                if EventLog::written_after(flash, previous, current) {
                    list_swap(list, j - 1, j);
                    proof {
                        lemma_swap_lists(flash@, items, j - 1, j as int);
                        assert forall|last: u16| within_half(flash@, last) implies #[trigger] sorted_but_for(
                            flash@,
                            bounded::list_items(*list),
                            last,
                            i as int,
                            j - 1,
                        ) by {
                            assert(sorted_but_for(flash@, items, last, i as int, j as int));
                            lemma_order_by_age(flash@, last, previous, current);
                        }
                    }
                    j -= 1;
                } else {
                    settled = true;
                }
            }
            i += 1;
            proof {
                let items = bounded::list_items(*list);
                assert forall|last: u16| within_half(flash@, last) implies #[trigger] oldest_first(
                    flash@,
                    items.take(i as int),
                    last,
                ) by {
                    assert(sorted_but_for(flash@, items, last, i - 1, j as int));
                    let front = items.take(i as int);
                    assert forall|a: int, b: int| 0 <= a < b < front.len() implies ring::age(
                        last,
                        seq_of(flash@, #[trigger] front[a] as int),
                    ) >= ring::age(last, seq_of(flash@, #[trigger] front[b] as int)) by {
                        assert(front[a] == items[a] && front[b] == items[b]);
                        if b == j {
                            assert(items.contains(items[j - 1]) && items.contains(items[j as int]));
                            lemma_order_by_age(flash@, last, items[j - 1], items[j as int]);
                            assert(ring::age(last, seq_of(flash@, items[a] as int)) >= ring::age(
                                last,
                                seq_of(flash@, items[j - 1] as int),
                            ));
                        }
                    }
                }
            }
        }
        proof {
            let items = bounded::list_items(*list);
            assert forall|last: u16| within_half(flash@, last) implies #[trigger] oldest_first(
                flash@,
                items,
                last,
            ) by {
                assert(items.take(i as int) =~= items);
                assert(oldest_first(flash@, items.take(i as int), last));
            }
        }
    }

    /// Read every live entry back, oldest first.
    ///
    /// `out` is filled left to right, and what does not fit is dropped, which only happens if a caller asks
    /// for fewer than [`EVENT_LOG_ENTRIES`]. Returns how many entries were put there.
    pub fn read_all(&self, flash: &[u8], out: &mut [EventLogEntry]) -> (n: usize)
        requires
            flash@.len() == NVRAM_LEN,
        ensures
            exists|order: Seq<u16>|
                #[trigger] reading_order(flash@, order) && order.len() <= EVENT_LOG_ENTRIES && n == (
                if order.len() < old(out)@.len() {
                    order.len() as int
                } else {
                    old(out)@.len() as int
                }) && final(out)@ == filled(old(out)@, flash@, order),
    {
        let mut list = EventLog::live_slots(flash);
        EventLog::sort_slots(flash, &mut list);
        let slots = list_as_slice(&list);
        let ghost order = slots@;
        let mut n: usize = 0;
        while n < slots.len() && n < out.len()
            invariant
                n <= slots@.len(),
                n <= out@.len(),
                flash@.len() == NVRAM_LEN,
                order == slots@,
                order.len() <= EVENT_LOG_ENTRIES,
                reading_order(flash@, order),
                out@.len() == old(out)@.len(),
                forall|k: int| 0 <= k < n ==> #[trigger] out@[k] == event_at(flash@, order[k] as int)->0,
                forall|k: int| n <= k < out@.len() ==> #[trigger] out@[k] == old(out)@[k],
            decreases slots@.len() - n,
        {
            let slot = slots[n];
            assert(order.contains(order[n as int]));
            if let Some(entry) = EventLog::read_slot(flash, slot) {
                out[n] = entry;
            }
            n += 1;
        }
        assert(out@ =~= filled(old(out)@, flash@, order));
        n
    }
}

/// The slot of an entry that the power cut after `words` words: so much of the entry, the rest blank.
pub open spec fn torn_entry(image: Seq<u8>, words: int) -> Seq<u8> {
    Seq::new(EVENT_RECORD as nat, |i: int| if i < 2 * words { image[i] } else { 0xff })
}

/// What writing (part of) an entry does to the slots: its own holds so much of the entry, the others of an
/// erased segment are blank, and the rest are as they were.
proof fn lemma_events_after(write: EventWrite, flash: Seq<u8>, words: int)
    requires
        write.wf(),
        flash.len() == NVRAM_LEN,
        write.erases() || codec::blank(event_bytes(flash, write.slot as int)),
        0 <= words <= EVENT_RECORD / 2,
    ensures
        ({
            let after = write.torn(flash, words);
            &&& event_bytes(after, write.slot as int) == torn_entry(event_record(write.entry), words)
            &&& forall|slot: int|
                0 <= slot < EVENT_LOG_ENTRIES && slot != write.slot ==> (if write.erases() {
                    codec::blank(#[trigger] event_bytes(after, slot))
                } else {
                    event_bytes(after, slot) == event_bytes(flash, slot)
                })
            &&& after.len() == flash.len()
        }),
{
    let at = event_offset(write.slot as int);
    let clear = write.cleared(flash);
    let after = write.torn(flash, words);
    let image = event_record(write.entry);
    let torn = torn_entry(image, words);
    law_event_round_trip(write.entry);
    assert forall|k: int| 0 <= k < EVENT_RECORD implies #[trigger] event_bytes(
        after,
        write.slot as int,
    )[k] == torn[k] by {
        assert(event_bytes(after, write.slot as int)[k] == after[at + k]);
        assert(clear[at + k] == 0xff) by {
            if write.erases() {
                assert((at + k) / SEGMENT as int == 4);
            } else {
                assert(event_bytes(flash, write.slot as int)[k] == flash[at + k]);
            }
        }
        let b = image[k];
        assert(0xffu8 & b == b) by (bit_vector);
    }
    assert(event_bytes(after, write.slot as int) =~= torn);
    assert forall|slot: int| 0 <= slot < EVENT_LOG_ENTRIES && slot != write.slot implies (if write.erases() {
        codec::blank(#[trigger] event_bytes(after, slot))
    } else {
        event_bytes(after, slot) == event_bytes(flash, slot)
    }) by {
        assert forall|k: int| 0 <= k < EVENT_RECORD implies #[trigger] event_bytes(after, slot)[k]
            == clear[event_offset(slot) + k] by {
            assert(event_bytes(after, slot)[k] == after[event_offset(slot) + k]);
        }
        if write.erases() {
            assert forall|k: int| 0 <= k < EVENT_RECORD implies #[trigger] event_bytes(after, slot)[k]
                == 0xff by {
                assert((event_offset(slot) + k) / SEGMENT as int == 4);
            }
        } else {
            assert(event_bytes(after, slot) =~= event_bytes(flash, slot));
        }
    }
}

/// Writing all the words of an entry is writing the entry.
proof fn lemma_all_words(write: EventWrite, flash: Seq<u8>)
    ensures
        write.torn(flash, EVENT_RECORD as int / 2) == write.applied(flash),
        torn_entry(event_record(write.entry), EVENT_RECORD as int / 2) == event_record(write.entry),
{
    let image = event_record(write.entry);
    law_event_round_trip(write.entry);
    assert(image.take(EVENT_RECORD as int) =~= image);
    assert(torn_entry(image, EVENT_RECORD as int / 2) =~= image);
}

/// What can be read of an entry that was cut short: nothing of the first word alone, the entry of the first five
/// words, and never another number than the entry's.
proof fn lemma_torn_entry(entry: EventLogEntry, words: int)
    requires
        0 <= words <= EVENT_RECORD / 2,
    ensures
        ({
            let found = event_contents(torn_entry(event_record(entry), words));
            &&& words <= 1 ==> found is None
            &&& words >= 5 ==> found == Some(entry)
            &&& found matches Some(e) ==> e.seq == entry.seq
        }),
{
    broadcast use codec::lemma_le16_len, codec::lemma_le32_len;

    let image = event_record(entry);
    let torn = torn_entry(image, words);
    law_event_round_trip(entry);
    if words <= 1 {
        assert(torn[2] == 0xff);
    } else {
        assert(image.subrange(0, 2) =~= codec::le16(entry.seq));
        codec::lemma_u16_at(image, 0, entry.seq);
        assert(torn[0] == image[0] && torn[1] == image[1]);
    }
    if words >= 5 {
        assert(torn =~= image);
    }
}

/// Where an opened log stands: at the newest entry or behind it, with the slots still to come blank.
proof fn lemma_opened_stands(flash: Seq<u8>)
    requires
        flash.len() == NVRAM_LEN,
    ensures
        ({
            let log = EventLog::opened(flash);
            &&& log.wf()
            &&& log.ready(flash)
            &&& ring::newest(log_seqs(flash)) matches Some(at) ==> {
                &&& 0 <= at <= log.slot
                &&& log.slot == ring::last_written(written_entries(flash), at, EVENT_LOG_ENTRIES - 1)
            }
        }),
{
    ring::lemma_newest_holds(log_seqs(flash));
    let written = written_entries(flash);
    let log = EventLog::opened(flash);
    if let Some(at) = ring::newest(log_seqs(flash)) {
        ring::lemma_last_written(written, at, EVENT_LOG_ENTRIES - 1);
        assert forall|slot: int| log.slot < slot < EVENT_LOG_ENTRIES implies codec::blank(
            #[trigger] event_bytes(flash, slot),
        ) by {
            assert(!written[slot]);
        }
    }
}

/// Where no slot behind the newest entry has been written to, the log stands at that entry, and the next one goes into
/// the slot behind it.
pub proof fn law_log_stands_at_its_newest_entry(flash: Seq<u8>, at: int)
    requires
        flash.len() == NVRAM_LEN,
        ring::newest(log_seqs(flash)) == Some(at),
        forall|slot: int|
            at < slot < EVENT_LOG_ENTRIES ==> codec::blank(#[trigger] event_bytes(flash, slot)),
    ensures
        EventLog::opened(flash) == (EventLog { slot: at as u16, seq: seq_of(flash, at) }),
        EventLog::opened(flash).next_slot() == (at + 1) % EVENT_LOG_ENTRIES as int,
{
    lemma_opened_stands(flash);
    let written = written_entries(flash);
    assert forall|j: int| at < j <= EVENT_LOG_ENTRIES - 1 implies !#[trigger] written[j] by {
        assert(codec::blank(event_bytes(flash, j)));
    }
    ring::lemma_none_written(written, at, EVENT_LOG_ENTRIES - 1);
}

/// Where an entry goes: to the first slot, and the segment is erased first, or to a slot that is blank.
proof fn lemma_next_slot(log: EventLog, kind: EventKind, value: u32, flash: Seq<u8>)
    requires
        log.wf(),
        log.ready(flash),
    ensures
        log.recording(kind, value).wf(),
        ({
            let write = log.recording(kind, value);
            write.erases() || write.slot == log.slot + 1 && codec::blank(
                event_bytes(flash, write.slot as int),
            )
        }),
{
    let write = log.recording(kind, value);
    if !write.erases() {
        assert(write.slot == log.slot + 1);
        assert(codec::blank(event_bytes(flash, write.slot as int)));
    }
}

/// Opening a log that is kept gives a log that keeps it.
pub proof fn law_opening_keeps_the_log(log: EventLog, flash: Seq<u8>)
    requires
        log.keeps(flash),
    ensures
        EventLog::opened(flash).keeps(flash),
{
    let seqs = log_seqs(flash);
    let found = EventLog::opened(flash);
    lemma_opened_stands(flash);
    ring::lemma_newest_holds(seqs);
    if let Some(at) = ring::newest(seqs) {
        ring::lemma_tracks_newest(seqs, at, log.slot as int, log.seq);
        assert forall|j: int| at < j <= found.slot implies (#[trigger] seqs[j]) is None by {
            if at <= log.slot < j {
                assert(codec::blank(event_bytes(flash, j)));
            } else {
                assert(ring::slots_back(log.slot as int, j, seqs.len() as int) < ring::slots_back(
                    log.slot as int,
                    at,
                    seqs.len() as int,
                ));
            }
        }
        ring::lemma_tracks_further(seqs, at, found.slot as int, found.seq);
    }
}

/// However far the writing of an entry gets before the power goes off, the region is as the log after it leaves
/// it, and ready for the next entry.
pub proof fn law_every_entry_keeps_the_log(
    log: EventLog,
    kind: EventKind,
    value: u32,
    flash: Seq<u8>,
    words: int,
)
    requires
        log.keeps(flash),
        0 <= words <= EVENT_RECORD / 2,
    ensures
        log.advanced().keeps(log.recording(kind, value).torn(flash, words)),
{
    let write = log.recording(kind, value);
    let after = write.torn(flash, words);
    lemma_next_slot(log, kind, value, flash);
    lemma_events_after(write, flash, words);
    lemma_torn_entry(write.entry, words);
    let seqs = log_seqs(after);
    assert(seqs[write.slot as int] is None || seqs[write.slot as int] == Some(write.entry.seq));
    assert forall|slot: int| 0 <= slot < seqs.len() && slot != write.slot implies (
    #[trigger] seqs[slot]) is None || seqs[slot] == log_seqs(flash)[slot] by {
        assert(event_bytes(after, slot) == event_bytes(flash, slot) || codec::blank(
            event_bytes(after, slot),
        ));
    }
    ring::lemma_tracks_advance(log_seqs(flash), seqs, log.slot as int, log.seq);
    assert forall|slot: int| write.slot < slot < EVENT_LOG_ENTRIES implies codec::blank(
        #[trigger] event_bytes(after, slot),
    ) by {
        if !write.erases() {
            assert(codec::blank(event_bytes(flash, slot)));
        }
    }
}

/// Opening the log after an event was recorded finds that event, and the region is again as this log leaves
/// it and ready for the next, so the same holds of every event of a machine's life.
pub proof fn law_log_continues(log: EventLog, kind: EventKind, value: u32, flash: Seq<u8>)
    requires
        log.keeps(flash),
    ensures
        ({
            let after = log.recording(kind, value).applied(flash);
            &&& EventLog::opened(after) == log.advanced()
            &&& event_at(after, log.next_slot() as int) == Some(log.recording(kind, value).entry)
            &&& log.advanced().keeps(after)
        }),
{
    let write = log.recording(kind, value);
    let after = write.applied(flash);
    law_event_round_trip(write.entry);
    lemma_next_slot(log, kind, value, flash);
    lemma_all_words(write, flash);
    lemma_events_after(write, flash, EVENT_RECORD as int / 2);
    law_every_entry_keeps_the_log(log, kind, value, flash, EVENT_RECORD as int / 2);
    let seqs = log_seqs(after);
    let at = write.slot as int;
    assert(seqs[at] == Some(write.entry.seq));
    ring::lemma_newest_of_tracked(seqs, at, at, write.entry.seq);
    let written = written_entries(after);
    assert forall|j: int| at < j <= EVENT_LOG_ENTRIES - 1 implies !#[trigger] written[j] by {
        assert(codec::blank(event_bytes(after, j)));
    }
    ring::lemma_none_written(written, at, EVENT_LOG_ENTRIES - 1);
}

/// An entry that a power cut interrupts is harmless: unless writing it erased the log, every earlier entry reads
/// as it did. The entry itself is lost up to its first word, and kept from its fifth word on.
pub proof fn law_torn_entry_is_harmless(
    log: EventLog,
    kind: EventKind,
    value: u32,
    flash: Seq<u8>,
    words: int,
)
    requires
        log.keeps(flash),
        0 <= words <= EVENT_RECORD / 2,
    ensures
        ({
            let write = log.recording(kind, value);
            let cut = write.torn(flash, words);
            &&& !write.erases() ==> forall|slot: int|
                0 <= slot < EVENT_LOG_ENTRIES && slot != write.slot ==> #[trigger] event_at(cut, slot)
                    == event_at(flash, slot)
            &&& words <= 1 ==> event_at(cut, write.slot as int) is None
            &&& words >= 5 ==> event_at(cut, write.slot as int) == Some(write.entry)
            &&& EventLog::opened(cut).keeps(cut)
        }),
{
    let write = log.recording(kind, value);
    let cut = write.torn(flash, words);
    lemma_next_slot(log, kind, value, flash);
    lemma_events_after(write, flash, words);
    lemma_torn_entry(write.entry, words);
    law_every_entry_keeps_the_log(log, kind, value, flash, words);
    law_opening_keeps_the_log(log.advanced(), cut);
    if !write.erases() {
        assert forall|slot: int| 0 <= slot < EVENT_LOG_ENTRIES && slot != write.slot implies #[trigger] event_at(
            cut,
            slot,
        ) == event_at(flash, slot) by {
            assert(event_bytes(cut, slot) == event_bytes(flash, slot));
        }
    }
}

/// An event recorded after one that a power cut interrupted is read back like any other, and as the last: the slot
/// of the interrupted entry is passed over, or erased. Unless either erased the log, every earlier entry reads as
/// it did.
pub proof fn law_event_after_a_torn_one_is_read_back(
    log: EventLog,
    torn: (EventKind, u32),
    kind: EventKind,
    value: u32,
    flash: Seq<u8>,
    words: int,
    order: Seq<u16>,
)
    requires
        log.keeps(flash),
        0 <= words <= EVENT_RECORD / 2,
        ({
            let cut = log.recording(torn.0, torn.1).torn(flash, words);
            reading_order(EventLog::opened(cut).recording(kind, value).applied(cut), order)
        }),
    ensures
        ({
            let lost = log.recording(torn.0, torn.1);
            let cut = lost.torn(flash, words);
            let found = EventLog::opened(cut);
            let write = found.recording(kind, value);
            let after = write.applied(cut);
            &&& EventLog::opened(after) == found.advanced()
            &&& found.advanced().keeps(after)
            &&& order.len() > 0
            &&& event_at(after, order.last() as int) == Some(write.entry)
            &&& !lost.erases() && !write.erases() ==> forall|slot: int|
                0 <= slot < EVENT_LOG_ENTRIES && slot != lost.slot && slot != write.slot
                    ==> #[trigger] event_at(after, slot) == event_at(flash, slot)
        }),
{
    let lost = log.recording(torn.0, torn.1);
    let cut = lost.torn(flash, words);
    let found = EventLog::opened(cut);
    let write = found.recording(kind, value);
    let after = write.applied(cut);
    law_torn_entry_is_harmless(log, torn.0, torn.1, flash, words);
    law_log_continues(found, kind, value, cut);
    law_last_event_is_read_last(found, kind, value, cut, order);
    lemma_next_slot(found, kind, value, cut);
    lemma_all_words(write, cut);
    lemma_events_after(write, cut, EVENT_RECORD as int / 2);
    if !lost.erases() && !write.erases() {
        assert forall|slot: int|
            0 <= slot < EVENT_LOG_ENTRIES && slot != lost.slot && slot != write.slot implies #[trigger] event_at(
            after,
            slot,
        ) == event_at(flash, slot) by {
            assert(event_bytes(after, slot) == event_bytes(cut, slot));
            assert(event_at(cut, slot) == event_at(flash, slot));
        }
    }
}

/// In whatever state a region is found, the first event recorded after opening the log is read back, and as the last:
/// whichever slots are blank, corrupt or half written, as long as no entry that can be read lies half the sequence
/// space behind the newest.
pub proof fn law_first_event_after_opening_is_read_back(
    kind: EventKind,
    value: u32,
    flash: Seq<u8>,
    order: Seq<u16>,
)
    requires
        flash.len() == NVRAM_LEN,
        forall|slot: int| #[trigger]
            live(flash, slot) ==> ring::age(EventLog::opened(flash).seq, seq_of(flash, slot)) + 1
                < ring::HALF,
        reading_order(EventLog::opened(flash).recording(kind, value).applied(flash), order),
    ensures
        ({
            let log = EventLog::opened(flash);
            let write = log.recording(kind, value);
            let after = write.applied(flash);
            &&& EventLog::opened(after) == log.advanced()
            &&& order.len() > 0
            &&& event_at(after, order.last() as int) == Some(write.entry)
        }),
{
    let log = EventLog::opened(flash);
    let write = log.recording(kind, value);
    let after = write.applied(flash);
    let at = write.slot as int;
    law_event_round_trip(write.entry);
    lemma_opened_stands(flash);
    lemma_next_slot(log, kind, value, flash);
    lemma_all_words(write, flash);
    lemma_events_after(write, flash, EVENT_RECORD as int / 2);
    let old_seqs = log_seqs(flash);
    let seqs = log_seqs(after);
    assert forall|j: int| 0 <= j < old_seqs.len() && (#[trigger] old_seqs[j]) is Some implies ring::age(
        log.seq,
        old_seqs[j]->0,
    ) + 1 < ring::HALF by {
        assert(live(flash, j));
    }
    assert forall|j: int| 0 <= j < seqs.len() && j != at implies (#[trigger] seqs[j]) is None || seqs[j]
        == old_seqs[j] by {
        assert(event_bytes(after, j) == event_bytes(flash, j) || codec::blank(event_bytes(after, j)));
    }
    assert(seqs[at] == Some(write.entry.seq));
    ring::lemma_next_is_newest(old_seqs, seqs, at, log.seq);
    let written = written_entries(after);
    assert forall|j: int| at < j <= EVENT_LOG_ENTRIES - 1 implies !#[trigger] written[j] by {
        if !write.erases() {
            assert(codec::blank(event_bytes(flash, j)));
        }
        assert(codec::blank(event_bytes(after, j)));
    }
    ring::lemma_none_written(written, at, EVENT_LOG_ENTRIES - 1);
    let last = write.entry.seq;
    assert forall|slot: int| #[trigger] live(after, slot) implies ring::age(last, seq_of(after, slot))
        < ring::HALF && (slot != at ==> ring::age(last, seq_of(after, slot)) > 0) by {
        assert(seqs[slot] is Some);
        if slot != at {
            assert(old_seqs[slot] is Some);
        }
    }
    assert(oldest_first(after, order, last));
    assert(live(after, at));
    assert(order.contains(write.slot));
    let k = choose|k: int| 0 <= k < order.len() && order[k] == write.slot;
    let end = order.len() - 1;
    if k != end {
        assert(ring::age(last, seq_of(after, order[k] as int)) >= ring::age(
            last,
            seq_of(after, order[end] as int),
        ));
        assert(order.contains(order[end]));
        assert(live(after, order[end] as int));
        assert(order[end] != order[k]);
    }
}

/// A log whose segment is blank opens empty, and is ready for its first event.
pub proof fn law_blank_log_opens_empty(flash: Seq<u8>)
    requires
        flash.len() == NVRAM_LEN,
        forall|slot: int|
            0 <= slot < EVENT_LOG_ENTRIES ==> codec::blank(#[trigger] event_bytes(flash, slot)),
    ensures
        EventLog::opened(flash) == (EventLog { slot: (EVENT_LOG_ENTRIES - 1) as u16, seq: 0 }),
        EventLog::opened(flash).keeps(flash),
        forall|order: Seq<u16>| #[trigger] reading_order(flash, order) ==> order.len() == 0,
{
    let seqs = log_seqs(flash);
    assert forall|j: int| 0 <= j < seqs.len() implies #[trigger] seqs[j] is None by {
        assert(codec::blank(event_bytes(flash, j)));
    }
    ring::lemma_newest_holds(seqs);
    assert forall|order: Seq<u16>| #[trigger] reading_order(flash, order) implies order.len() == 0 by {
        if order.len() > 0 {
            assert(order.contains(order[0]));
            assert(codec::blank(event_bytes(flash, order[0] as int)));
        }
    }
}

/// The log and the region after recording one event after another.
pub open spec fn after_recording(
    log: EventLog,
    flash: Seq<u8>,
    events: Seq<(EventKind, u32)>,
) -> (EventLog, Seq<u8>)
    decreases events.len(),
{
    if events.len() == 0 {
        (log, flash)
    } else {
        let (before, region) = after_recording(log, flash, events.drop_last());
        let (kind, value) = events.last();
        (before.advanced(), before.recording(kind, value).applied(region))
    }
}

/// The entry of the event recorded as number `i`, counting from zero, in a log that was empty.
pub open spec fn entry_of(events: Seq<(EventKind, u32)>, i: int) -> EventLogEntry {
    EventLogEntry { seq: (i + 1) as u16, kind: events[i].0, value: events[i].1 }
}

/// Where the events of an empty log go, until it is full: one slot after another, from the first.
proof fn lemma_recorded(flash: Seq<u8>, events: Seq<(EventKind, u32)>)
    requires
        flash.len() == NVRAM_LEN,
        forall|slot: int|
            0 <= slot < EVENT_LOG_ENTRIES ==> codec::blank(#[trigger] event_bytes(flash, slot)),
        events.len() <= EVENT_LOG_ENTRIES,
    ensures
        ({
            let (log, region) = after_recording(EventLog::opened(flash), flash, events);
            &&& log.keeps(region)
            &&& log.seq == events.len()
            &&& events.len() > 0 ==> log.slot == events.len() - 1
            &&& events.len() == 0 ==> log.slot == EVENT_LOG_ENTRIES - 1
            &&& forall|i: int|
                0 <= i < events.len() ==> #[trigger] event_at(region, i) == Some(entry_of(events, i))
            &&& forall|i: int| events.len() <= i < EVENT_LOG_ENTRIES ==> codec::blank(
                #[trigger] event_bytes(region, i),
            )
        }),
    decreases events.len(),
{
    law_blank_log_opens_empty(flash);
    if events.len() > 0 {
        let front = events.drop_last();
        lemma_recorded(flash, front);
        let (before, region) = after_recording(EventLog::opened(flash), flash, front);
        let (kind, value) = events.last();
        let write = before.recording(kind, value);
        let after = write.applied(region);
        law_log_continues(before, kind, value, region);
        lemma_next_slot(before, kind, value, region);
        lemma_all_words(write, region);
        lemma_events_after(write, region, EVENT_RECORD as int / 2);
        assert(write.slot == events.len() - 1);
        assert forall|i: int| 0 <= i < events.len() implies #[trigger] event_at(after, i) == Some(
            entry_of(events, i),
        ) by {
            if i < front.len() {
                assert(event_bytes(after, i) == event_bytes(region, i));
                assert(event_at(region, i) == Some(entry_of(front, i)));
            }
        }
        assert forall|i: int| events.len() <= i < EVENT_LOG_ENTRIES implies codec::blank(
            #[trigger] event_bytes(after, i),
        ) by {
            assert(codec::blank(event_bytes(region, i)));
        }
    }
}

/// From an erased log on, the events recorded are read back, every one of them and oldest first, until the log is
/// full; however the log is read.
pub proof fn law_events_are_read_back_oldest_first(
    flash: Seq<u8>,
    events: Seq<(EventKind, u32)>,
    order: Seq<u16>,
)
    requires
        flash.len() == NVRAM_LEN,
        forall|slot: int|
            0 <= slot < EVENT_LOG_ENTRIES ==> codec::blank(#[trigger] event_bytes(flash, slot)),
        events.len() <= EVENT_LOG_ENTRIES,
        reading_order(after_recording(EventLog::opened(flash), flash, events).1, order),
    ensures
        order.len() == events.len(),
        forall|i: int|
            0 <= i < order.len() ==> event_at(
                after_recording(EventLog::opened(flash), flash, events).1,
                #[trigger] order[i] as int,
            ) == Some(entry_of(events, i)),
{
    let region = after_recording(EventLog::opened(flash), flash, events).1;
    let n = events.len() as int;
    lemma_recorded(flash, events);
    assert forall|slot: int| #[trigger] live(region, slot) <==> 0 <= slot < n by {
        if 0 <= slot < n {
            assert(event_at(region, slot) == Some(entry_of(events, slot)));
        } else if slot < EVENT_LOG_ENTRIES && 0 <= slot {
            assert(codec::blank(event_bytes(region, slot)));
        }
    }
    assert forall|slot: int| #[trigger] live(region, slot) implies ring::age(n as u16, seq_of(region, slot))
        == n - 1 - slot by {
        assert(event_at(region, slot) == Some(entry_of(events, slot)));
    }
    assert(within_half(region, n as u16));
    assert(oldest_first(region, order, n as u16));
    assert forall|a: int, b: int| 0 <= a < b < order.len() implies #[trigger] order[a] < #[trigger] order[b] by {
        assert(order.contains(order[a]) && order.contains(order[b]));
        assert(live(region, order[a] as int) && live(region, order[b] as int));
        assert(order[a] != order[b]);
    }
    assert forall|slot: int| 0 <= slot < n implies #[trigger] order.contains(slot as u16) by {
        assert(live(region, slot));
    }
    assert forall|i: int| 0 <= i < order.len() implies #[trigger] order[i] < n by {
        assert(order.contains(order[i]));
        assert(live(region, order[i] as int));
    }
    lemma_counts_up(order, n, order.len() as int);
    if order.len() < n {
        assert(order.contains(order.len() as u16));
    }
    if order.len() > n {
        assert(order[n] < n);
    }
    assert forall|i: int| 0 <= i < order.len() implies event_at(region, #[trigger] order[i] as int) == Some(
        entry_of(events, i),
    ) by {
        assert(event_at(region, i) == Some(entry_of(events, i)));
    }
}

/// A rising list of all the numbers below `n` counts up from zero.
proof fn lemma_counts_up(order: Seq<u16>, n: int, k: int)
    requires
        0 <= k <= order.len(),
        n <= EVENT_LOG_ENTRIES,
        forall|a: int, b: int| 0 <= a < b < order.len() ==> #[trigger] order[a] < #[trigger] order[b],
        forall|slot: int| 0 <= slot < n ==> #[trigger] order.contains(slot as u16),
        forall|i: int| 0 <= i < order.len() ==> #[trigger] order[i] < n,
    ensures
        forall|i: int| 0 <= i < k ==> #[trigger] order[i] == i,
    decreases k,
{
    if k > 0 {
        lemma_counts_up(order, n, k - 1);
        let last = k - 1;
        if last > 0 {
            assert(order[last - 1] < order[last]);
        }
        if order[last] > last {
            assert(order.contains(last as u16));
            let m = choose|m: int| 0 <= m < order.len() && order[m] == last as u16;
            if m > last {
                assert(order[last] < order[m]);
            }
        }
    }
}

/// Reading the log gives the entry recorded last as its last, however it is read.
pub proof fn law_last_event_is_read_last(
    log: EventLog,
    kind: EventKind,
    value: u32,
    flash: Seq<u8>,
    order: Seq<u16>,
)
    requires
        log.keeps(flash),
        reading_order(log.recording(kind, value).applied(flash), order),
    ensures
        order.len() > 0,
        event_at(log.recording(kind, value).applied(flash), order.last() as int) == Some(
            log.recording(kind, value).entry,
        ),
{
    let write = log.recording(kind, value);
    let after = write.applied(flash);
    law_log_continues(log, kind, value, flash);
    let last = write.entry.seq;
    let seqs = log_seqs(after);
    assert forall|slot: int| #[trigger] live(after, slot) implies ring::age(last, seq_of(after, slot))
        < ring::HALF by {
        assert(seqs[slot] is Some);
    }
    assert(oldest_first(after, order, last));
    assert(live(after, write.slot as int));
    assert(order.contains(write.slot));
    let k = choose|k: int| 0 <= k < order.len() && order[k] == write.slot;
    let end = order.len() - 1;
    if k != end {
        assert(ring::age(last, seq_of(after, order[k] as int)) >= ring::age(
            last,
            seq_of(after, order[end] as int),
        ));
        assert(order.contains(order[end]));
        assert(seqs[order[end] as int] is Some);
        assert(seqs[write.slot as int] is Some);
        assert(ring::slots_back(write.slot as int, order[end] as int, seqs.len() as int) == 0);
        assert(order[end] == order[k]);
    }
}

/// Recording an event touches neither the stored settings nor the journal, however far it gets.
pub proof fn law_log_keeps_to_its_segment(write: EventWrite, flash: Seq<u8>, words: int, i: int)
    requires
        write.wf(),
        flash.len() == NVRAM_LEN,
        0 <= words <= EVENT_RECORD / 2,
        0 <= i < EVENT_LOG_AT,
    ensures
        write.applied(flash)[i] == flash[i],
        write.torn(flash, words)[i] == flash[i],
        write.torn(flash, words).len() == NVRAM_LEN,
{
}

/// The first `i + 1` slots of the list are oldest first, except that the one at `j` may belong further
/// forward.
pub open spec fn sorted_but_for(flash: Seq<u8>, items: Seq<u16>, last: u16, i: int, j: int) -> bool {
    forall|a: int, b: int|
        #![trigger items[a], items[b]]
        0 <= a < b <= i && b != j ==> ring::age(last, seq_of(flash, items[a] as int)) >= ring::age(
            last,
            seq_of(flash, items[b] as int),
        )
}

/// Of two entries that are both within half the sequence space of `last`, the numbers tell which is older.
proof fn lemma_order_by_age(flash: Seq<u8>, last: u16, a: u16, b: u16)
    requires
        within_half(flash, last),
        live(flash, a as int),
        live(flash, b as int),
    ensures
        ring::age(seq_of(flash, b as int), seq_of(flash, a as int)) >= ring::HALF <==> ring::age(
            last,
            seq_of(flash, a as int),
        ) < ring::age(last, seq_of(flash, b as int)),
{
}

/// Exchanging two places of a list leaves the same slots in it.
proof fn lemma_swap_lists(flash: Seq<u8>, items: Seq<u16>, i: int, j: int)
    requires
        lists_live_slots(flash, items),
        0 <= i < items.len(),
        0 <= j < items.len(),
    ensures
        lists_live_slots(flash, items.update(i, items[j]).update(j, items[i])),
{
    let after = items.update(i, items[j]).update(j, items[i]);
    assert forall|slot: u16| #[trigger] after.contains(slot) <==> live(flash, slot as int) by {
        if after.contains(slot) {
            let k = choose|k: int| 0 <= k < after.len() && after[k] == slot;
            let from = if k == j {
                i
            } else if k == i {
                j
            } else {
                k
            };
            assert(items[from] == slot);
            assert(items.contains(slot));
        }
        if live(flash, slot as int) {
            assert(items.contains(slot));
            let k = choose|k: int| 0 <= k < items.len() && items[k] == slot;
            let to = if k == j {
                i
            } else if k == i {
                j
            } else {
                k
            };
            assert(after[to] == slot);
        }
    }
}

/// Where everything stands in an entry: its number, its kind, its value, and the checksum of all that. Whatever is read as an entry
/// has it there, and it is not read if it is blank, of no known kind, or its checksum fails.
pub proof fn law_entry_layout(bytes: Seq<u8>)
    requires
        bytes.len() == 16,
    ensures
        event_contents(bytes) matches Some(e) ==> {
            &&& e.seq == bytes[0] + 0x100 * bytes[1]
            &&& e.kind == (match bytes[2] {
                0 => EventKind::Coin,
                1 => EventKind::ItemDispensed,
                2 => EventKind::HopperPayout,
                3 => EventKind::ErrorRaised,
                4 => EventKind::ErrorCleared,
                5 => EventKind::ServiceEntered,
                _ => EventKind::ServiceExited,
            })
            &&& e.value == bytes[3] + 0x100 * bytes[4] + 0x1_0000 * bytes[5] + 0x100_0000 * bytes[6]
        },
        event_contents(bytes) is Some <==> bytes[2] <= 6 && codec::crc16_of(bytes.take(7)) == bytes[7] + 0x100
            * bytes[8] && !(forall|i: int| 0 <= i < 16 ==> #[trigger] bytes[i] == 0xff),
{
    assert(codec::blank(bytes) == (forall|i: int| 0 <= i < 16 ==> #[trigger] bytes[i] == 0xff));
}

/// The log has thirty-two slots of sixteen bytes, in the last of five segments.
pub proof fn law_entries_are_side_by_side(slot: int)
    ensures
        event_offset(slot) == 2048 + 16 * slot,
        EVENT_LOG_ENTRIES == 32,
{
}

} // verus!
