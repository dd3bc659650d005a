//! The counter journal.
use vstd::prelude::*;

use crate::error::{self, Errors};
use crate::nvram::codec::{self, is_blank};
use crate::nvram::flash::{self, NVRAM_BASE, NVRAM_LEN, SEGMENT};
use crate::nvram::record::{self, decode_counters, encode_counters, RECORD};
use crate::nvram::ring::{self, is_newer, next_seq};
use crate::state::{Counters, COUNTERS_VERSION};

verus! {

/// How many segments the journal spans. It starts behind the settings' segment.
pub const JOURNAL_SEGMENTS: usize = 3;

/// How many records fit in a segment.
pub const RECORDS_PER_SEGMENT: u16 = 8;

/// How many records fit in the journal.
pub const RECORDS: u16 = 24;

/// Where in the region a slot starts.
pub open spec fn slot_offset(slot: int) -> int {
    SEGMENT + slot * RECORD
}

/// What a slot holds.
pub open spec fn slot_bytes(flash: Seq<u8>, slot: int) -> Seq<u8> {
    flash.subrange(slot_offset(slot), slot_offset(slot) + RECORD)
}

/// The number of a slot's record, if the slot holds one that can be read.
pub open spec fn slot_seq(flash: Seq<u8>, slot: int) -> Option<u16> {
    match record::record_contents(slot_bytes(flash, slot)) {
        Some((seq, _)) => Some(seq),
        None => None,
    }
}

/// The numbers of the records in the journal, slot by slot.
pub open spec fn journal_seqs(flash: Seq<u8>) -> Seq<Option<u16>> {
    Seq::new(RECORDS as nat, |slot: int| slot_seq(flash, slot))
}

/// Which slots have been written to since they were last erased.
pub open spec fn written_slots(flash: Seq<u8>) -> Seq<bool> {
    Seq::new(RECORDS as nat, |slot: int| !codec::blank(slot_bytes(flash, slot)))
}

/// The last slot of a slot's segment.
pub open spec fn segment_end(slot: int) -> int {
    slot - slot % RECORDS_PER_SEGMENT as int + RECORDS_PER_SEGMENT - 1
}

/// The faults after reading the first `n` slots.
pub open spec fn faults_after_scan(faults: Errors, flash: Seq<u8>, n: nat) -> Errors
    decreases n,
{
    if n == 0 {
        faults
    } else {
        faults_after_scan(faults, flash, (n - 1) as nat).with(
            record::record_fault(slot_bytes(flash, n - 1)),
        )
    }
}

/// The counter journal: where the newest record is, and where the next one goes.
#[derive(Copy, Clone, Debug, Eq, PartialEq, Structural)]
pub struct Journal {
    /// Slot that was written to last: that of the last good record, or one behind it whose record was cut short.
    pub slot: u16,
    /// Sequence number of the last good record. Wraps, and the reader compares by wrapped difference so that the
    /// wrap is not mistaken for the journal starting over.
    pub seq: u16,
}

/// A record on its way into the journal.
#[derive(Copy, Clone, Debug, Eq, PartialEq)]
pub struct JournalSave {
    /// The slot it goes into.
    pub slot: u16,
    /// Its sequence number.
    pub seq: u16,
    /// What it holds.
    pub counters: Counters,
}

impl JournalSave {
    /// The slot is one of the journal's.
    pub open spec fn wf(self) -> bool {
        self.slot < RECORDS
    }

    /// Must the segment be erased first?
    pub open spec fn erases(self) -> bool {
        self.slot % RECORDS_PER_SEGMENT == 0
    }

    /// The bytes of the record.
    pub open spec fn image(self) -> Seq<u8> {
        record::counters_record(self.counters, self.seq)
    }

    /// The region just before the record is written: as it was, or with the segment erased.
    pub open spec fn cleared(self, flash: Seq<u8>) -> Seq<u8> {
        if self.erases() {
            flash::erased(flash, slot_offset(self.slot as int))
        } else {
            flash
        }
    }

    /// The region if the power goes off after `words` words of the record have been written.
    pub open spec fn torn(self, flash: Seq<u8>, words: int) -> Seq<u8> {
        flash::programmed(
            self.cleared(flash),
            slot_offset(self.slot as int),
            self.image().take(2 * words),
        )
    }

    /// The region once the record has been written.
    pub open spec fn applied(self, flash: Seq<u8>) -> Seq<u8> {
        flash::programmed(self.cleared(flash), slot_offset(self.slot as int), self.image())
    }

    /// Must the segment be erased first?
    pub fn needs_erase(&self) -> (b: bool)
        ensures
            b == self.erases(),
    {
        self.slot % RECORDS_PER_SEGMENT == 0
    }

    /// The address the record goes to, which is also an address in the segment to erase.
    pub fn addr(&self) -> (addr: u16)
        requires
            self.wf(),
        ensures
            addr == NVRAM_BASE + slot_offset(self.slot as int),
            addr + RECORD <= NVRAM_BASE + NVRAM_LEN,
    {
        Journal::slot_addr(self.slot)
    }

    /// The bytes of the record.
    pub fn bytes(&self) -> (out: Vec<u8>)
        ensures
            out@ == self.image(),
            out@.len() == RECORD,
    {
        encode_counters(&self.counters, self.seq)
    }
}

impl Journal {
    /// The slot is one of the journal's.
    pub open spec fn wf(self) -> bool {
        self.slot < RECORDS
    }

    /// The slot the next record goes into.
    pub open spec fn next_slot(self) -> u16 {
        ((self.slot + 1) % RECORDS as int) as u16
    }

    /// The journal after one more record.
    pub open spec fn advanced(self) -> Journal {
        Journal { slot: self.next_slot(), seq: ring::following(self.seq) }
    }

    /// The record that saving `counters` writes.
    pub open spec fn saving(self, counters: Counters) -> JournalSave {
        JournalSave { slot: self.next_slot(), seq: ring::following(self.seq), counters }
    }

    /// What opening the journal finds in a region: the newest record that can be read, or a machine that
    /// has never done anything. The journal stands at the last slot of that record's segment that has been
    /// written to, so that the next record goes into flash that is blank.
    pub open spec fn opened(flash: Seq<u8>) -> (Journal, Counters) {
        match ring::newest(journal_seqs(flash)) {
            Some(at) => (
                Journal {
                    slot: ring::last_written(written_slots(flash), at, segment_end(at)) as u16,
                    seq: slot_seq(flash, at)->0,
                },
                (record::record_contents(slot_bytes(flash, at))->0).1,
            ),
            None => (Journal { slot: (RECORDS - 1) as u16, seq: 0 }, Counters::fresh()),
        }
    }

    /// The region is as this journal leaves it: the records in it that can be read lie in the order in which
    /// they were saved.
    pub open spec fn tracks(self, flash: Seq<u8>) -> bool {
        &&& flash.len() == NVRAM_LEN
        &&& ring::tracks(journal_seqs(flash), self.slot as int, self.seq)
    }

    /// The rest of the segment is blank, so that the next records can be written without an erase.
    pub open spec fn ready(self, flash: Seq<u8>) -> bool {
        forall|slot: int|
            self.slot < slot < RECORDS && slot / RECORDS_PER_SEGMENT as int == self.slot
                / RECORDS_PER_SEGMENT ==> codec::blank(#[trigger] slot_bytes(flash, slot))
    }

    /// The region is as this journal leaves it, and ready for its next record.
    pub open spec fn keeps(self, flash: Seq<u8>) -> bool {
        &&& self.wf()
        &&& self.tracks(flash)
        &&& self.ready(flash)
    }

    /// Address of a slot.
    pub fn slot_addr(slot: u16) -> (addr: u16)
        requires
            slot < RECORDS,
        ensures
            addr == NVRAM_BASE + slot_offset(slot as int),
            addr + RECORD <= NVRAM_BASE + NVRAM_LEN,
    {
        let offset: usize = SEGMENT + slot as usize * RECORD;
        NVRAM_BASE + offset as u16
    }

    /// Is a slot as an erase leaves it?
    fn slot_is_blank(flash: &[u8], slot: u16) -> (b: bool)
        requires
            flash@.len() == NVRAM_LEN,
            slot < RECORDS,
        ensures
            b == codec::blank(slot_bytes(flash@, slot as int)),
    {
        let from: usize = SEGMENT + slot as usize * RECORD;
        is_blank(vstd::slice::slice_subrange(flash, from, from + RECORD))
    }

    /// Find the newest good record in the region, and the counters it holds.
    ///
    /// Scans every slot rather than stopping at the first blank one. A journal that wrapped has good
    /// records on both sides of the blank, and stopping early would find the older half.
    ///
    /// A slot behind that record that is not blank holds a record which a power cut interrupted. Flash can only
    /// clear bits, so nothing can be written over it: the journal stands at the last such slot.
    pub fn open(flash: &[u8], faults: &mut Errors) -> (found: (Journal, Counters))
        requires
            flash@.len() == NVRAM_LEN,
        ensures
            found == Journal::opened(flash@),
            found.0.wf(),
            found.0.ready(flash@),
            *final(faults) == faults_after_scan(*old(faults), flash@, RECORDS as nat),
    {
        let mut best: Option<(u16, u16, Counters)> = None;
        let mut slot: u16 = 0;
        let ghost seqs = journal_seqs(flash@);
        assert(seqs.take(0).len() == 0);
        while slot < RECORDS
            invariant
                slot <= RECORDS,
                flash@.len() == NVRAM_LEN,
                seqs == journal_seqs(flash@),
                *faults == faults_after_scan(*old(faults), flash@, slot as nat),
                best is None <==> ring::newest(seqs.take(slot as int)) is None,
                best matches Some((s, at, c)) ==> {
                    &&& ring::newest(seqs.take(slot as int)) == Some(at as int)
                    &&& at < slot
                    &&& record::record_contents(slot_bytes(flash@, at as int)) == Some((s, c))
                },
            decreases RECORDS - slot,
        {
            let from: usize = SEGMENT + slot as usize * RECORD;
            let bytes = vstd::slice::slice_subrange(flash, from, from + RECORD);
            assert(bytes@ == slot_bytes(flash@, slot as int));
            let contents = decode_counters(bytes, faults);
            let ghost part = seqs.take(slot + 1);
            assert(part.drop_last() =~= seqs.take(slot as int));
            assert(part.last() == slot_seq(flash@, slot as int));
            if let Some((seq, counters)) = contents {
                // Newer means "ahead by less than half the sequence space", which is the comparison that
                // survives the counter wrapping round.
                let newer = match &best {
                    None => true,
                    Some((best_seq, _, _)) => is_newer(seq, *best_seq),
                };
                if newer {
                    best = Some((seq, slot, counters));
                }
            }
            slot += 1;
        }
        assert(seqs.take(RECORDS as int) =~= seqs);
        proof {
            lemma_opened_stands(flash@);
        }
        match best {
            Some((seq, at, counters)) => {
                let mut slot: u16 = at - at % RECORDS_PER_SEGMENT + RECORDS_PER_SEGMENT - 1;
                let ghost written = written_slots(flash@);
                while slot > at && Journal::slot_is_blank(flash, slot)
                    invariant
                        at <= slot < RECORDS,
                        flash@.len() == NVRAM_LEN,
                        written == written_slots(flash@),
                        ring::last_written(written, at as int, slot as int) == ring::last_written(
                            written,
                            at as int,
                            segment_end(at as int),
                        ),
                    decreases slot,
                {
                    slot -= 1;
                }
                (Journal { slot, seq }, counters)
            },
            // Nothing readable. A machine that has never been switched on looks exactly like one whose
            // journal has been wiped, and both want the same thing: start counting.
            None => (Journal { slot: RECORDS - 1, seq: 0 }, Counters::new()),
        }
    }

    /// Append `counters` to the journal.
    ///
    /// The record goes to the *next* slot, leaving the previous one intact until it is overwritten a full
    /// lap later. That is what makes a save interrupted by a power cut safe. Crossing into a new segment
    /// means erasing it first, and the erase is what destroys old records, so it happens as late as
    /// possible. Either way the record goes into blank flash, as [`law_saves_go_into_blank_flash`] says.
    pub fn save(&mut self, counters: &Counters) -> (save: JournalSave)
        requires
            old(self).wf(),
        ensures
            save == old(self).saving(*counters),
            save.wf(),
            *final(self) == old(self).advanced(),
            final(self).wf(),
    {
        let next: u16 = (self.slot + 1) % RECORDS;
        let seq: u16 = next_seq(self.seq);
        self.slot = next;
        self.seq = seq;
        JournalSave { slot: next, seq, counters: *counters }
    }
}

/// The index arithmetic of slots and segments.
proof fn lemma_slot_segment(slot: int, i: int)
    requires
        0 <= slot < RECORDS,
        slot_offset(slot) <= i < slot_offset(slot) + RECORD,
    ensures
        i / SEGMENT as int == 1 + slot / RECORDS_PER_SEGMENT as int,
{
}

/// What writing (part of) a record does to the slots: its own holds what fits through of it, the others of
/// an erased segment are blank, and the rest are as they were.
proof fn lemma_slots_after(save: JournalSave, flash: Seq<u8>, data: Seq<u8>)
    requires
        save.wf(),
        flash.len() == NVRAM_LEN,
        data.len() <= RECORD,
    ensures
        ({
            let after = flash::programmed(save.cleared(flash), slot_offset(save.slot as int), data);
            let there = slot_bytes(save.cleared(flash), save.slot as int);
            &&& slot_bytes(after, save.slot as int) == Seq::new(
                RECORD as nat,
                |i: int| if i < data.len() { there[i] & data[i] } else { there[i] },
            )
            &&& forall|slot: int|
                0 <= slot < RECORDS && slot != save.slot ==> #[trigger] slot_bytes(after, slot)
                    == slot_bytes(flash, slot) || codec::blank(slot_bytes(after, slot))
            &&& forall|slot: int|
                0 <= slot < RECORDS && slot != save.slot && (!save.erases() || slot
                    / RECORDS_PER_SEGMENT as int != save.slot / RECORDS_PER_SEGMENT)
                    ==> #[trigger] slot_bytes(after, slot) == slot_bytes(flash, slot)
            &&& forall|slot: int|
                0 <= slot < RECORDS && slot != save.slot && save.erases() && slot
                    / RECORDS_PER_SEGMENT as int == save.slot / RECORDS_PER_SEGMENT ==> codec::blank(
                    #[trigger] slot_bytes(after, slot),
                )
            &&& save.erases() ==> codec::blank(there)
            &&& after.len() == flash.len()
        }),
{
    let at = slot_offset(save.slot as int);
    let clear = save.cleared(flash);
    let after = flash::programmed(clear, at, data);
    let there = slot_bytes(clear, save.slot as int);
    assert(slot_bytes(after, save.slot as int) =~= Seq::new(
        RECORD as nat,
        |i: int| if i < data.len() { there[i] & data[i] } else { there[i] },
    ));
    lemma_slot_segment(save.slot as int, at);
    assert forall|slot: int| 0 <= slot < RECORDS && slot != save.slot implies (if save.erases() && slot
        / RECORDS_PER_SEGMENT as int == save.slot / RECORDS_PER_SEGMENT {
        codec::blank(#[trigger] slot_bytes(after, slot))
    } else {
        slot_bytes(after, slot) == slot_bytes(flash, slot)
    }) by {
        assert forall|i: int|
            slot_offset(slot) <= i < slot_offset(slot) + RECORD implies (#[trigger] after[i])
            == clear[i] && i / SEGMENT as int == 1 + slot / RECORDS_PER_SEGMENT as int by {
            lemma_slot_segment(slot, i);
        }
        if save.erases() && slot / RECORDS_PER_SEGMENT as int == save.slot / RECORDS_PER_SEGMENT {
            assert forall|k: int| 0 <= k < RECORD implies #[trigger] slot_bytes(after, slot)[k]
                == 0xff by {
                assert(slot_bytes(after, slot)[k] == after[slot_offset(slot) + k]);
            }
        } else {
            assert forall|k: int| 0 <= k < RECORD implies #[trigger] slot_bytes(after, slot)[k]
                == slot_bytes(flash, slot)[k] by {
                assert(slot_bytes(after, slot)[k] == after[slot_offset(slot) + k]);
            }
            assert(slot_bytes(after, slot) =~= slot_bytes(flash, slot));
        }
    }
    if save.erases() {
        assert forall|k: int| 0 <= k < RECORD implies #[trigger] there[k] == 0xff by {
            assert(there[k] == clear[at + k]);
            lemma_slot_segment(save.slot as int, at + k);
        }
    }
}

/// The number of a slot after a write is gone or as it was, for every slot but the written one.
proof fn lemma_seqs_after(save: JournalSave, flash: Seq<u8>, data: Seq<u8>)
    requires
        save.wf(),
        flash.len() == NVRAM_LEN,
        data.len() <= RECORD,
    ensures
        ({
            let after = flash::programmed(save.cleared(flash), slot_offset(save.slot as int), data);
            forall|slot: int|
                0 <= slot < RECORDS && slot != save.slot ==> (#[trigger] journal_seqs(after)[slot]) is None
                    || journal_seqs(after)[slot] == journal_seqs(flash)[slot]
        }),
{
    let after = flash::programmed(save.cleared(flash), slot_offset(save.slot as int), data);
    lemma_slots_after(save, flash, data);
    assert forall|slot: int| 0 <= slot < RECORDS && slot != save.slot implies (
    #[trigger] journal_seqs(after)[slot]) is None || journal_seqs(after)[slot] == journal_seqs(
        flash,
    )[slot] by {
        if slot_bytes(after, slot) != slot_bytes(flash, slot) {
            assert(codec::blank(slot_bytes(after, slot)));
            record::lemma_blank_holds_nothing(slot_bytes(after, slot));
        }
    }
}

/// Where an opened journal stands: in the segment of the newest record, at or behind it, with the rest of the
/// segment blank.
proof fn lemma_opened_stands(flash: Seq<u8>)
    requires
        flash.len() == NVRAM_LEN,
    ensures
        ({
            let journal = Journal::opened(flash).0;
            &&& journal.wf()
            &&& journal.ready(flash)
            &&& ring::newest(journal_seqs(flash)) matches Some(at) ==> {
                &&& 0 <= at <= journal.slot <= segment_end(at) < RECORDS
                &&& journal.slot == ring::last_written(written_slots(flash), at, segment_end(at))
            }
        }),
{
    ring::lemma_newest_holds(journal_seqs(flash));
    let written = written_slots(flash);
    let journal = Journal::opened(flash).0;
    if let Some(at) = ring::newest(journal_seqs(flash)) {
        ring::lemma_last_written(written, at, segment_end(at));
        assert forall|slot: int|
            journal.slot < slot < RECORDS && slot / RECORDS_PER_SEGMENT as int == journal.slot
                / RECORDS_PER_SEGMENT implies codec::blank(#[trigger] slot_bytes(flash, slot)) by {
            assert(!written[slot]);
        }
    }
}

/// Where no slot of its segment behind the newest record has been written to, the journal stands at that record.
pub proof fn law_journal_stands_at_its_newest_record(flash: Seq<u8>, at: int)
    requires
        flash.len() == NVRAM_LEN,
        ring::newest(journal_seqs(flash)) == Some(at),
        forall|slot: int|
            at < slot <= segment_end(at) ==> codec::blank(#[trigger] slot_bytes(flash, slot)),
    ensures
        Journal::opened(flash).0.slot == at,
        Some(Journal::opened(flash).0.seq) == slot_seq(flash, at),
{
    lemma_opened_stands(flash);
    ring::lemma_newest_holds(journal_seqs(flash));
    let written = written_slots(flash);
    assert forall|j: int| at < j <= segment_end(at) implies !#[trigger] written[j] by {
        assert(codec::blank(slot_bytes(flash, j)));
    }
    ring::lemma_none_written(written, at, segment_end(at));
}

/// A slot that is blank holds no record.
proof fn lemma_blank_slot(flash: Seq<u8>, slot: int)
    requires
        0 <= slot < RECORDS,
        codec::blank(slot_bytes(flash, slot)),
    ensures
        journal_seqs(flash)[slot] is None,
{
    record::lemma_blank_holds_nothing(slot_bytes(flash, slot));
}

/// Where a record goes: to the first slot of a segment, which is erased first, or to a slot that is blank.
proof fn lemma_next_slot(journal: Journal, counters: Counters, flash: Seq<u8>)
    requires
        journal.wf(),
        journal.ready(flash),
    ensures
        journal.saving(counters).wf(),
        ({
            let save = journal.saving(counters);
            save.erases() || {
                &&& save.slot == journal.slot + 1
                &&& save.slot / RECORDS_PER_SEGMENT == journal.slot / RECORDS_PER_SEGMENT
                &&& codec::blank(slot_bytes(flash, save.slot as int))
            }
        }),
{
    let save = journal.saving(counters);
    if !save.erases() {
        assert(save.slot == journal.slot + 1);
        assert(codec::blank(slot_bytes(flash, save.slot as int)));
    }
}

/// Whatever a region holds, a journal that was opened in it saves only into flash that is blank, or that the save
/// has just erased; and so does a journal that is ready.
pub proof fn law_saves_go_into_blank_flash(journal: Journal, counters: Counters, flash: Seq<u8>)
    requires
        flash.len() == NVRAM_LEN,
        journal == Journal::opened(flash).0 || journal.wf() && journal.ready(flash),
    ensures
        ({
            let save = journal.saving(counters);
            codec::blank(slot_bytes(save.cleared(flash), save.slot as int))
        }),
{
    lemma_opened_stands(flash);
    lemma_next_slot(journal, counters, flash);
    lemma_slots_after(journal.saving(counters), flash, Seq::empty());
}

/// Opening a journal that is kept gives a journal that keeps it: whatever became of the last saves, and however
/// often the machine is switched on, the journal carries on.
pub proof fn law_opening_keeps_the_journal(journal: Journal, flash: Seq<u8>)
    requires
        journal.keeps(flash),
    ensures
        Journal::opened(flash).0.keeps(flash),
{
    let seqs = journal_seqs(flash);
    let found = Journal::opened(flash).0;
    lemma_opened_stands(flash);
    ring::lemma_newest_holds(seqs);
    if let Some(at) = ring::newest(seqs) {
        ring::lemma_tracks_newest(seqs, at, journal.slot as int, journal.seq);
        assert forall|j: int| at < j <= found.slot implies (#[trigger] seqs[j]) is None by {
            if at <= journal.slot < j {
                assert(j / RECORDS_PER_SEGMENT as int == journal.slot / RECORDS_PER_SEGMENT);
                lemma_blank_slot(flash, j);
            } else {
                assert(ring::slots_back(journal.slot as int, j, seqs.len() as int) < ring::slots_back(
                    journal.slot as int,
                    at,
                    seqs.len() as int,
                ));
            }
        }
        ring::lemma_tracks_further(seqs, at, found.slot as int, found.seq);
    }
}

/// What can be read of a record that was cut short has the record's number.
proof fn lemma_torn_number(save: JournalSave, flash: Seq<u8>, words: int)
    requires
        save.wf(),
        flash.len() == NVRAM_LEN,
        save.erases() || codec::blank(slot_bytes(flash, save.slot as int)),
        0 <= words <= RECORD / 2,
    ensures
        ({
            let seq = journal_seqs(save.torn(flash, words))[save.slot as int];
            seq is None || seq == Some(save.seq)
        }),
{
    broadcast use codec::lemma_le16_len, codec::lemma_le32_len;

    reveal(record::record_contents);
    let image = save.image();
    let torn = torn_slot(image, words);
    lemma_torn_slot(save, flash, words);
    if words == 0 {
        assert(codec::blank(torn));
    } else {
        assert(image.subrange(0, 2) =~= codec::le16(save.seq));
        codec::lemma_u16_at(image, 0, save.seq);
        assert(torn[0] == image[0] && torn[1] == image[1]);
    }
}

/// However far a save gets before the power goes off, the region is as the journal after it leaves it, and ready
/// for the next record. So it is if the save is finished, and whatever version the counters are of.
pub proof fn law_every_save_keeps_the_journal(
    journal: Journal,
    counters: Counters,
    flash: Seq<u8>,
    words: int,
)
    requires
        journal.keeps(flash),
        0 <= words <= RECORD / 2,
    ensures
        journal.advanced().keeps(journal.saving(counters).torn(flash, words)),
        journal.advanced().keeps(journal.saving(counters).applied(flash)),
    decreases 1 + RECORD / 2 - words,
{
    let save = journal.saving(counters);
    let after = save.torn(flash, words);
    let data = save.image().take(2 * words);
    record::law_record_round_trip(counters, save.seq);
    lemma_next_slot(journal, counters, flash);
    lemma_slots_after(save, flash, data);
    lemma_seqs_after(save, flash, data);
    lemma_torn_number(save, flash, words);
    ring::lemma_tracks_advance(
        journal_seqs(flash),
        journal_seqs(after),
        journal.slot as int,
        journal.seq,
    );
    assert forall|slot: int|
        save.slot < slot < RECORDS && slot / RECORDS_PER_SEGMENT as int == save.slot
            / RECORDS_PER_SEGMENT implies codec::blank(#[trigger] slot_bytes(after, slot)) by {
        if !save.erases() {
            assert(codec::blank(slot_bytes(flash, slot)));
        }
    }
    if words == RECORD / 2 {
        assert(data =~= save.image());
    } else {
        law_every_save_keeps_the_journal(journal, counters, flash, RECORD as int / 2);
    }
}

/// A journal that stands at a record that can be read is what opening it finds.
pub proof fn lemma_opened_at(journal: Journal, counters: Counters, flash: Seq<u8>)
    requires
        journal.keeps(flash),
        record::record_contents(slot_bytes(flash, journal.slot as int)) == Some((journal.seq, counters)),
    ensures
        Journal::opened(flash) == (journal, counters),
{
    let seqs = journal_seqs(flash);
    let at = journal.slot as int;
    assert(seqs[at] == Some(journal.seq));
    ring::lemma_newest_of_tracked(seqs, at, at, journal.seq);
    let written = written_slots(flash);
    assert forall|j: int| at < j <= segment_end(at) implies !#[trigger] written[j] by {
        assert(j / RECORDS_PER_SEGMENT as int == journal.slot / RECORDS_PER_SEGMENT);
        assert(codec::blank(slot_bytes(flash, j)));
    }
    ring::lemma_none_written(written, at, segment_end(at));
}

/// Opening the journal gives back what was last saved in it, and the region is again as this journal
/// leaves it and ready for the next record, so the same holds of the next save.
pub proof fn law_open_returns_last_save(journal: Journal, counters: Counters, flash: Seq<u8>)
    requires
        journal.keeps(flash),
        counters.version == COUNTERS_VERSION,
    ensures
        ({
            let after = journal.saving(counters).applied(flash);
            &&& Journal::opened(after) == (journal.advanced(), counters)
            &&& journal.advanced().keeps(after)
        }),
{
    let save = journal.saving(counters);
    let image = save.image();
    let after = save.applied(flash);
    record::law_record_round_trip(counters, save.seq);
    law_every_save_keeps_the_journal(journal, counters, flash, 0);
    lemma_next_slot(journal, counters, flash);
    lemma_torn_slot(save, flash, RECORD as int / 2);
    assert(image.take(RECORD as int) =~= image);
    assert(torn_slot(image, RECORD as int / 2) =~= image);
    lemma_opened_at(journal.advanced(), counters, after);
}

/// In whatever state a region is found, the first save after opening the journal is read back: whichever slots are
/// blank, corrupt or half written, as long as no record that can be read lies half the sequence space behind the
/// newest.
pub proof fn law_first_save_after_opening_is_read_back(counters: Counters, flash: Seq<u8>)
    requires
        flash.len() == NVRAM_LEN,
        counters.version == COUNTERS_VERSION,
        forall|slot: int|
            0 <= slot < RECORDS && (#[trigger] slot_seq(flash, slot)) is Some ==> ring::age(
                Journal::opened(flash).0.seq,
                slot_seq(flash, slot)->0,
            ) + 1 < ring::HALF,
    ensures
        ({
            let journal = Journal::opened(flash).0;
            let after = journal.saving(counters).applied(flash);
            Journal::opened(after) == (journal.advanced(), counters)
        }),
{
    let journal = Journal::opened(flash).0;
    let save = journal.saving(counters);
    let image = save.image();
    let after = save.applied(flash);
    let at = save.slot as int;
    record::law_record_round_trip(counters, save.seq);
    lemma_opened_stands(flash);
    lemma_next_slot(journal, counters, flash);
    lemma_slots_after(save, flash, image);
    lemma_seqs_after(save, flash, image);
    lemma_torn_slot(save, flash, RECORD as int / 2);
    assert(image.take(RECORD as int) =~= image);
    assert(torn_slot(image, RECORD as int / 2) =~= image);
    let seqs = journal_seqs(flash);
    assert forall|j: int| 0 <= j < seqs.len() && (#[trigger] seqs[j]) is Some implies ring::age(
        journal.seq,
        seqs[j]->0,
    ) + 1 < ring::HALF by {
        assert(slot_seq(flash, j) is Some);
    }
    ring::lemma_next_is_newest(seqs, journal_seqs(after), at, journal.seq);
    let written = written_slots(after);
    assert forall|j: int| at < j <= segment_end(at) implies !#[trigger] written[j] by {
        assert(j / RECORDS_PER_SEGMENT as int == save.slot / RECORDS_PER_SEGMENT);
        if !save.erases() {
            assert(codec::blank(slot_bytes(flash, j)));
        }
        assert(codec::blank(slot_bytes(after, j)));
    }
    ring::lemma_none_written(written, at, segment_end(at));
}

/// The journal and the region after saving one set of counters after another.
pub open spec fn after_saving(journal: Journal, flash: Seq<u8>, all: Seq<Counters>) -> (Journal, Seq<u8>)
    decreases all.len(),
{
    if all.len() == 0 {
        (journal, flash)
    } else {
        let (before, region) = after_saving(journal, flash, all.drop_last());
        (before.advanced(), before.saving(all.last()).applied(region))
    }
}

/// Saving any number of times keeps the journal.
proof fn lemma_saving_keeps(journal: Journal, flash: Seq<u8>, all: Seq<Counters>)
    requires
        journal.keeps(flash),
    ensures
        after_saving(journal, flash, all).0.keeps(after_saving(journal, flash, all).1),
    decreases all.len(),
{
    if all.len() > 0 {
        lemma_saving_keeps(journal, flash, all.drop_last());
        let (before, region) = after_saving(journal, flash, all.drop_last());
        law_every_save_keeps_the_journal(before, all.last(), region, 0);
    }
}

/// From an erased journal on, opening gives back the counters that were saved last, however many times counters
/// were saved before: across the erase of a segment, after any number of laps of the slots, and after the sequence
/// number has wrapped. Among the earlier ones there may be counters of another version, which cannot be read back.
pub proof fn law_last_of_many_saves_is_read_back(flash: Seq<u8>, all: Seq<Counters>)
    requires
        flash.len() == NVRAM_LEN,
        forall|slot: int| 0 <= slot < RECORDS ==> codec::blank(#[trigger] slot_bytes(flash, slot)),
        all.len() > 0,
        all.last().version == COUNTERS_VERSION,
    ensures
        ({
            let (journal, region) = after_saving(Journal::opened(flash).0, flash, all);
            Journal::opened(region) == (journal, all.last())
        }),
{
    law_blank_region_opens_fresh(flash, Errors { bits: 0 });
    let start = Journal::opened(flash).0;
    lemma_saving_keeps(start, flash, all.drop_last());
    let (before, region) = after_saving(start, flash, all.drop_last());
    law_open_returns_last_save(before, all.last(), region);
}

/// A region whose journal is blank opens as a machine that has never done anything, with no fault, and is
/// ready for its first save.
pub proof fn law_blank_region_opens_fresh(flash: Seq<u8>, faults: Errors)
    requires
        flash.len() == NVRAM_LEN,
        forall|slot: int| 0 <= slot < RECORDS ==> codec::blank(#[trigger] slot_bytes(flash, slot)),
    ensures
        Journal::opened(flash).1 == Counters::fresh(),
        Journal::opened(flash).0.keeps(flash),
        faults_after_scan(faults, flash, RECORDS as nat) == faults,
{
    let seqs = journal_seqs(flash);
    assert forall|j: int| 0 <= j < seqs.len() implies #[trigger] seqs[j] is None by {
        assert(codec::blank(slot_bytes(flash, j)));
        record::lemma_blank_holds_nothing(slot_bytes(flash, j));
    }
    ring::lemma_newest_holds(seqs);
    lemma_faultless_scan(flash, faults, RECORDS as nat);
}

/// Reading slots in which there is no fault finds none.
pub proof fn lemma_faultless_scan(flash: Seq<u8>, faults: Errors, n: nat)
    requires
        n <= RECORDS,
        forall|slot: int|
            0 <= slot < RECORDS ==> record::record_fault(#[trigger] slot_bytes(flash, slot)) == 0,
    ensures
        faults_after_scan(faults, flash, n) == faults,
    decreases n,
{
    if n > 0 {
        lemma_faultless_scan(flash, faults, (n - 1) as nat);
        assert(record::record_fault(slot_bytes(flash, n - 1)) == 0);
        let b = faults.bits;
        assert(b | 0 == b) by (bit_vector);
    }
}

/// The scan finds the faults that are there and no others: that a record is corrupt, or of another version, if and
/// only if one of the slots that were read holds such a record, and otherwise the faults are as they were.
pub proof fn law_scan_finds_the_faults_that_are_there(flash: Seq<u8>, faults: Errors, mask: u32, n: nat)
    requires
        n <= RECORDS,
        mask == error::STATE_CRC || mask == error::STATE_VERSION,
    ensures
        faults_after_scan(faults, flash, n).has(mask) <==> faults.has(mask) || exists|slot: int|
            0 <= slot < n && record::record_fault(#[trigger] slot_bytes(flash, slot)) == mask,
    decreases n,
{
    if n > 0 {
        law_scan_finds_the_faults_that_are_there(flash, faults, mask, (n - 1) as nat);
        let b = faults_after_scan(faults, flash, (n - 1) as nat).bits;
        let f = record::record_fault(slot_bytes(flash, n - 1));
        let crc = error::STATE_CRC;
        let version = error::STATE_VERSION;
        assert((b | f) & mask != 0 <==> b & mask != 0 || f == mask) by (bit_vector)
            requires
                crc == 0x0010,
                version == 0x0008,
                f == 0 || f == crc || f == version,
                mask == crc || mask == version,
        ;
        if exists|slot: int|
            0 <= slot < n && record::record_fault(#[trigger] slot_bytes(flash, slot)) == mask {
            let slot = choose|slot: int|
                0 <= slot < n && record::record_fault(#[trigger] slot_bytes(flash, slot)) == mask;
            if slot < n - 1 {
                assert(record::record_fault(slot_bytes(flash, slot)) == mask);
            }
        }
    }
}

/// A save that is finished leaves no fault for the next scan to find, where there was none.
pub proof fn law_save_leaves_no_fault(
    journal: Journal,
    counters: Counters,
    flash: Seq<u8>,
    faults: Errors,
)
    requires
        journal.keeps(flash),
        counters.version == COUNTERS_VERSION,
        forall|slot: int|
            0 <= slot < RECORDS ==> record::record_fault(#[trigger] slot_bytes(flash, slot)) == 0,
    ensures
        faults_after_scan(faults, journal.saving(counters).applied(flash), RECORDS as nat) == faults,
{
    let save = journal.saving(counters);
    let image = save.image();
    let after = save.applied(flash);
    record::law_record_round_trip(counters, save.seq);
    lemma_next_slot(journal, counters, flash);
    lemma_torn_slot(save, flash, RECORD as int / 2);
    assert(image.take(RECORD as int) =~= image);
    assert(torn_slot(image, RECORD as int / 2) =~= image);
    lemma_slots_after(save, flash, image);
    assert forall|slot: int| 0 <= slot < RECORDS implies record::record_fault(
        #[trigger] slot_bytes(after, slot),
    ) == 0 by {
        if slot != save.slot {
            assert(record::record_fault(slot_bytes(flash, slot)) == 0);
        }
    }
    lemma_faultless_scan(after, faults, RECORDS as nat);
}

/// Losing any records but the newest, as an erase that is interrupted can, does not change what opening the
/// journal finds: the same counters, and the same number to go on from.
pub proof fn law_lost_records_do_not_matter(
    journal: Journal,
    counters: Counters,
    at: int,
    before: Seq<u8>,
    after: Seq<u8>,
)
    requires
        Journal::opened(before) == (journal, counters),
        journal.tracks(before),
        after.len() == NVRAM_LEN,
        ring::newest(journal_seqs(before)) == Some(at),
        slot_bytes(after, at) == slot_bytes(before, at),
        forall|slot: int|
            0 <= slot < RECORDS ==> (#[trigger] journal_seqs(after)[slot]) is None || journal_seqs(
                after,
            )[slot] == journal_seqs(before)[slot],
    ensures
        Journal::opened(after).1 == counters,
        Journal::opened(after).0.seq == journal.seq,
        journal.tracks(after),
{
    let seqs = journal_seqs(after);
    ring::lemma_newest_holds(journal_seqs(before));
    assert(seqs[at] == Some(journal.seq));
    ring::lemma_tracks_loss(journal_seqs(before), seqs, journal.slot as int, journal.seq);
    ring::lemma_newest_of_tracked(seqs, at, journal.slot as int, journal.seq);
}

/// The slot of a save that the power cut after `words` words: so much of the record, the rest blank.
pub open spec fn torn_slot(image: Seq<u8>, words: int) -> Seq<u8> {
    Seq::new(RECORD as nat, |i: int| if i < 2 * words { image[i] } else { 0xff })
}

/// Everything the reader looks at in a record that is not blank stands before the padding.
proof fn lemma_padding_is_not_read(a: Seq<u8>, b: Seq<u8>)
    requires
        a.len() == RECORD,
        b.len() == RECORD,
        a.take(52) == b.take(52),
        !codec::blank(a),
        !codec::blank(b),
    ensures
        record::record_contents(a) == record::record_contents(b),
{
    reveal(record::record_contents);
    assert forall|i: int| 0 <= i < 52 implies #[trigger] a[i] == b[i] by {
        assert(a[i] == a.take(52)[i] && b[i] == b.take(52)[i]);
    }
    assert(a.take(50) =~= b.take(50));
}

/// What can be read of a record that was cut short after `words` words.
proof fn lemma_torn_contents(counters: Counters, seq: u16, words: int)
    requires
        counters.version == COUNTERS_VERSION,
        0 <= words <= RECORD / 2,
    ensures
        ({
            let torn = torn_slot(record::counters_record(counters, seq), words);
            &&& words <= 8 || !record::checksum_holds(torn) ==> record::record_contents(torn) is None
            &&& words >= 26 ==> record::checksum_holds(torn)
            &&& words >= 25 && record::checksum_holds(torn) ==> record::record_contents(torn) == Some(
                (seq, counters),
            )
        }),
{
    reveal(record::record_contents);
    let image = record::counters_record(counters, seq);
    record::law_record_round_trip(counters, seq);
    let torn = torn_slot(image, words);
    if words <= 8 {
        assert(torn[17] == 0xff);
    }
    if words >= 25 {
        assert(torn.take(50) =~= image.take(50));
        assert(torn[17] == image[17]);
        assert(record::state_of(image[17]) is Some);
        if words >= 26 {
            assert(torn[50] == image[50] && torn[51] == image[51]);
            assert(torn.take(52) =~= image.take(52));
            lemma_padding_is_not_read(torn, image);
        } else if record::checksum_holds(torn) {
            assert(torn[50] == 0xff && torn[51] == 0xff);
            assert(codec::u16_at(torn, 50) == 0xffff);
            assert(codec::u16_at(image, 50) == 0xffff);
            assert(image[50] == 0xff && image[51] == 0xff);
            assert(torn.take(52) =~= image.take(52));
            lemma_padding_is_not_read(torn, image);
        }
    }
}

/// A record that is cut short goes into its slot as far as it got.
proof fn lemma_torn_slot(save: JournalSave, flash: Seq<u8>, words: int)
    requires
        save.wf(),
        flash.len() == NVRAM_LEN,
        save.erases() || codec::blank(slot_bytes(flash, save.slot as int)),
        0 <= words <= RECORD / 2,
    ensures
        slot_bytes(save.torn(flash, words), save.slot as int) == torn_slot(save.image(), words),
{
    let image = save.image();
    let after = save.torn(flash, words);
    record::law_record_round_trip(save.counters, save.seq);
    lemma_slots_after(save, flash, image.take(2 * words));
    let there = slot_bytes(save.cleared(flash), save.slot as int);
    assert(codec::blank(there));
    let torn = torn_slot(image, words);
    assert forall|i: int| 0 <= i < RECORD implies #[trigger] slot_bytes(after, save.slot as int)[i]
        == torn[i] by {
        assert(there[i] == 0xff);
        let b = image[i];
        assert(0xffu8 & b == b) by (bit_vector);
    }
    assert(slot_bytes(after, save.slot as int) =~= torn);
}

/// A save that a power cut interrupts is harmless: what opening the journal then finds is either what was
/// there before or, if enough of the record had been written, the record itself. The first save of all is no
/// exception. Either way the journal that is opened carries on.
///
/// Up to eight words in it is always the former; from the twenty-sixth word on, always the latter. In
/// between, the half-written record must fail its checksum, as all but about one in 65536 do.
pub proof fn law_torn_save_is_harmless(
    journal: Journal,
    previous: Counters,
    counters: Counters,
    flash: Seq<u8>,
    words: int,
)
    requires
        Journal::opened(flash) == (journal, previous),
        journal.tracks(flash),
        counters.version == COUNTERS_VERSION,
        0 <= words <= RECORD / 2,
    ensures
        ({
            let save = journal.saving(counters);
            let cut = save.torn(flash, words);
            let found = Journal::opened(cut);
            let fails = words <= 8 || !record::checksum_holds(torn_slot(save.image(), words));
            &&& slot_bytes(cut, save.slot as int) == torn_slot(save.image(), words)
            &&& found.0.keeps(cut)
            &&& fails ==> found.0.seq == journal.seq && found.1 == previous
            &&& words >= 26 ==> !fails
            &&& words >= 25 && !fails ==> found == (journal.advanced(), counters)
        }),
{
    let save = journal.saving(counters);
    let cut = save.torn(flash, words);
    lemma_opened_stands(flash);
    lemma_next_slot(journal, counters, flash);
    law_every_save_keeps_the_journal(journal, counters, flash, words);
    law_opening_keeps_the_journal(journal.advanced(), cut);
    lemma_torn_contents(counters, save.seq, words);
    lemma_torn_slot(save, flash, words);
    if words <= 8 || !record::checksum_holds(torn_slot(save.image(), words)) {
        lemma_unreadable_save(journal, previous, counters, flash, words);
    } else if words >= 25 {
        lemma_opened_at(journal.advanced(), counters, cut);
    }
}

/// A save that leaves nothing readable in its slot changes nothing of what opening the journal finds, except where
/// the journal stands.
pub proof fn lemma_unreadable_save(
    journal: Journal,
    previous: Counters,
    counters: Counters,
    flash: Seq<u8>,
    words: int,
)
    requires
        Journal::opened(flash) == (journal, previous),
        journal.tracks(flash),
        0 <= words <= RECORD / 2,
        ({
            let save = journal.saving(counters);
            record::record_contents(slot_bytes(save.torn(flash, words), save.slot as int)) is None
        }),
    ensures
        ({
            let found = Journal::opened(journal.saving(counters).torn(flash, words));
            found.0.seq == journal.seq && found.1 == previous
        }),
{
    let save = journal.saving(counters);
    let after = save.torn(flash, words);
    let data = save.image().take(2 * words);
    record::law_record_round_trip(counters, save.seq);
    lemma_opened_stands(flash);
    lemma_slots_after(save, flash, data);
    lemma_seqs_after(save, flash, data);
    let seqs = journal_seqs(after);
    assert(seqs[save.slot as int] is None);
    ring::lemma_newest_holds(journal_seqs(flash));
    match ring::newest(journal_seqs(flash)) {
        Some(at) => {
            assert(at / RECORDS_PER_SEGMENT as int == journal.slot / RECORDS_PER_SEGMENT);
            assert(slot_bytes(after, at) == slot_bytes(flash, at));
            law_lost_records_do_not_matter(journal, previous, at, flash, after);
        },
        None => {
            assert forall|j: int| 0 <= j < seqs.len() implies #[trigger] seqs[j] is None by {
                assert(journal_seqs(flash)[j] is None);
            }
            ring::lemma_newest_holds(seqs);
        },
    }
}

/// A save after one that a power cut interrupted is read back like any other, and the journal is ready again: the
/// slot of the interrupted record is passed over, or erased. Until then the counters are those from before the
/// interrupted save, unless its record can be read.
pub proof fn law_save_after_a_torn_one_is_read_back(
    journal: Journal,
    previous: Counters,
    torn: Counters,
    counters: Counters,
    flash: Seq<u8>,
    words: int,
)
    requires
        Journal::opened(flash) == (journal, previous),
        journal.tracks(flash),
        counters.version == COUNTERS_VERSION,
        0 <= words <= RECORD / 2,
    ensures
        ({
            let save = journal.saving(torn);
            let cut = save.torn(flash, words);
            let found = Journal::opened(cut).0;
            let after = found.saving(counters).applied(cut);
            &&& record::record_contents(slot_bytes(cut, save.slot as int)) is None ==> Journal::opened(
                cut,
            ).1 == previous
            &&& Journal::opened(after) == (found.advanced(), counters)
            &&& found.advanced().keeps(after)
        }),
{
    let save = journal.saving(torn);
    let cut = save.torn(flash, words);
    lemma_opened_stands(flash);
    law_every_save_keeps_the_journal(journal, torn, flash, words);
    law_opening_keeps_the_journal(journal.advanced(), cut);
    if record::record_contents(slot_bytes(cut, save.slot as int)) is None {
        lemma_unreadable_save(journal, previous, torn, flash, words);
    }
    law_open_returns_last_save(Journal::opened(cut).0, counters, cut);
}

/// The journal after `n` more records.
pub open spec fn after_saves(journal: Journal, n: nat) -> Journal
    decreases n,
{
    if n == 0 {
        journal
    } else {
        after_saves(journal, (n - 1) as nat).advanced()
    }
}

/// Flash wears evenly and slowly: records go into the slots in turn, and only every eighth save erases a segment.
pub proof fn law_every_eighth_save_erases(journal: Journal, counters: Counters, n: nat)
    requires
        journal.wf(),
    ensures
        after_saves(journal, n).wf(),
        after_saves(journal, n).slot == (journal.slot + n) % RECORDS as int,
        after_saves(journal, n).saving(counters).erases() <==> (journal.slot + n + 1) % 8 == 0,
    decreases n,
{
    if n > 0 {
        law_every_eighth_save_erases(journal, counters, (n - 1) as nat);
    }
}

/// Saving counters touches neither the stored settings nor the event log, however far it gets.
pub proof fn law_save_keeps_out_of_other_segments(
    save: JournalSave,
    flash: Seq<u8>,
    words: int,
    i: int,
)
    requires
        save.wf(),
        flash.len() == NVRAM_LEN,
        0 <= words <= RECORD / 2,
        0 <= i < SEGMENT || SEGMENT + JOURNAL_SEGMENTS * SEGMENT <= i < NVRAM_LEN,
    ensures
        save.applied(flash)[i] == flash[i],
        save.torn(flash, words)[i] == flash[i],
        save.torn(flash, words).len() == NVRAM_LEN,
{
    record::law_record_round_trip(save.counters, save.seq);
    lemma_slot_segment(save.slot as int, slot_offset(save.slot as int));
}

/// The journal has twenty-four slots of sixty-four bytes, in the three segments behind the settings.
pub proof fn law_slots_are_side_by_side(slot: int)
    ensures
        slot_offset(slot) == 512 + 64 * slot,
        RECORDS == 24 && RECORDS_PER_SEGMENT == 8,
        0 <= slot < 24 ==> segment_end(slot) == 8 * (slot / 8) + 7,
{
}

} // verus!
