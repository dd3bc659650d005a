//! Telling the newest of a ring of numbered records.
//!
//! Records are numbered in the order they are written, and the numbers wrap. Newer means "ahead by less
//! than half the sequence space", which is the comparison that survives the numbers wrapping round.
use vstd::prelude::*;

verus! {

/// Half of the sequence space.
pub const HALF: u16 = 0x8000;

/// How many records ago `older` was written if `newer` was written just now, counting round the wrap.
pub open spec fn age(newer: u16, older: u16) -> int {
    if newer >= older {
        newer - older
    } else {
        newer - older + 0x1_0000
    }
}

/// The number after `seq`.
pub open spec fn following(seq: u16) -> u16 {
    if seq == 0xffff {
        0
    } else {
        (seq + 1) as u16
    }
}

/// Is a record numbered `a` at least as new as one numbered `b`?
pub fn is_newer(a: u16, b: u16) -> (newer: bool)
    ensures
        newer == (age(a, b) < HALF),
{
    a.wrapping_sub(b) < HALF
}

/// The number after `seq`.
pub fn next_seq(seq: u16) -> (next: u16)
    ensures
        next == following(seq),
{
    seq.wrapping_add(1)
}

/// The slot of the newest record, scanning the slots in order: a record takes over from the best so far
/// if it is at least as new.
///
/// `seqs` has the number of each slot's record, or `None` where the slot holds none that can be read.
pub open spec fn newest(seqs: Seq<Option<u16>>) -> Option<int>
    decreases seqs.len(),
{
    if seqs.len() == 0 {
        None
    } else {
        let best = newest(seqs.drop_last());
        match seqs.last() {
            None => best,
            Some(seq) => match best {
                None => Some(seqs.len() - 1),
                Some(b) => if age(seq, seqs[b]->0) < HALF {
                    Some(seqs.len() - 1)
                } else {
                    best
                },
            },
        }
    }
}

/// How many slots back from `slot` slot `other` lies, counting round a ring of `n`.
pub open spec fn slots_back(slot: int, other: int, n: int) -> int {
    if slot >= other {
        slot - other
    } else {
        slot - other + n
    }
}

/// The ring is as one writer leaves it who stands at `slot` and whose last record was number `seq`: the records
/// that can be read lie in the order in which they were written, and a step from one record to the next goes over
/// at least one slot.
///
/// It may go over more: a slot whose record was cut short is passed over, and its number is used again.
pub open spec fn tracks(seqs: Seq<Option<u16>>, slot: int, seq: u16) -> bool {
    let n = seqs.len() as int;
    &&& 0 <= slot < n
    &&& forall|j: int|
        0 <= j < n && (#[trigger] seqs[j]) is Some ==> age(seq, seqs[j]->0) <= slots_back(slot, j, n)
    &&& forall|i: int, j: int|
        #![trigger seqs[i], seqs[j]]
        0 <= i < n && 0 <= j < n && seqs[i] is Some && seqs[j] is Some && slots_back(slot, i, n)
            < slots_back(slot, j, n) ==> 0 < age(seq, seqs[j]->0) - age(seq, seqs[i]->0)
            <= slots_back(slot, j, n) - slots_back(slot, i, n)
}

/// The last slot from `from` to `to` that has been written to, or `from` if none of those behind it has.
pub open spec fn last_written(written: Seq<bool>, from: int, to: int) -> int
    decreases to - from,
{
    if to <= from {
        from
    } else if written[to] {
        to
    } else {
        last_written(written, from, to - 1)
    }
}

/// The scan finds a slot that holds a record, and finds none only if there is none.
pub proof fn lemma_newest_holds(seqs: Seq<Option<u16>>)
    ensures
        newest(seqs) matches Some(b) ==> 0 <= b < seqs.len() && seqs[b] is Some,
        newest(seqs) is None <==> forall|j: int| 0 <= j < seqs.len() ==> #[trigger] seqs[j] is None,
    decreases seqs.len(),
{
    if seqs.len() > 0 {
        lemma_newest_holds(seqs.drop_last());
        let front = seqs.drop_last();
        assert forall|j: int| 0 <= j < front.len() implies #[trigger] front[j] == seqs[j] by {}
        assert(seqs[seqs.len() - 1] == seqs.last());
        if newest(seqs) is None {
            assert forall|j: int| 0 <= j < seqs.len() implies #[trigger] seqs[j] is None by {
                if j < front.len() {
                    assert(front[j] is None);
                }
            }
        }
        if forall|j: int| 0 <= j < seqs.len() ==> #[trigger] seqs[j] is None {
            assert forall|j: int| 0 <= j < front.len() implies #[trigger] front[j] is None by {
                assert(seqs[j] is None);
            }
        }
    }
}

/// Where all the records lie within half the sequence space of each other, the scan finds the newest of
/// them: no other was written later.
///
/// `last` is any number that none of the records is ahead of.
pub proof fn law_newest_is_newest(seqs: Seq<Option<u16>>, last: u16)
    requires
        forall|j: int|
            0 <= j < seqs.len() && (#[trigger] seqs[j]) is Some ==> age(last, seqs[j]->0) < HALF,
    ensures
        newest(seqs) matches Some(b) ==> forall|j: int|
            0 <= j < seqs.len() && (#[trigger] seqs[j]) is Some ==> age(seqs[b]->0, seqs[j]->0) < HALF
                && age(last, seqs[b]->0) <= age(last, seqs[j]->0),
    decreases seqs.len(),
{
    if seqs.len() > 0 {
        let front = seqs.drop_last();
        assert forall|j: int| 0 <= j < front.len() implies #[trigger] front[j] == seqs[j] by {}
        assert forall|j: int| 0 <= j < front.len() && (#[trigger] front[j]) is Some implies age(
            last,
            front[j]->0,
        ) < HALF by {
            assert(seqs[j] is Some);
        }
        law_newest_is_newest(front, last);
        lemma_newest_holds(front);
        if let Some(b) = newest(seqs) {
            assert forall|j: int| 0 <= j < seqs.len() && (#[trigger] seqs[j]) is Some implies age(
                seqs[b]->0,
                seqs[j]->0,
            ) < HALF && age(last, seqs[b]->0) <= age(last, seqs[j]->0) by {
                if j < front.len() {
                    assert(front[j] is Some);
                }
                if newest(front) is Some {
                    let f = newest(front)->0;
                    assert(front[f] is Some && seqs[f] is Some);
                }
            }
        }
    }
}

/// Behind the last slot that has been written to, none has been.
pub proof fn lemma_last_written(written: Seq<bool>, from: int, to: int)
    requires
        from <= to,
    ensures
        from <= last_written(written, from, to) <= to,
        forall|j: int| last_written(written, from, to) < j <= to ==> !#[trigger] written[j],
    decreases to - from,
{
    if from < to && !written[to] {
        lemma_last_written(written, from, to - 1);
    }
}

/// Where none has been written to, none is the last.
pub proof fn lemma_none_written(written: Seq<bool>, from: int, to: int)
    requires
        forall|j: int| from < j <= to ==> !#[trigger] written[j],
    ensures
        last_written(written, from, to) == from,
    decreases to - from,
{
    if from < to {
        assert(!written[to]);
        lemma_none_written(written, from, to - 1);
    }
}

/// A record that takes the number after the newest one's is the newest in its turn, as long as no record lies half
/// the sequence space back.
pub proof fn lemma_next_is_newest(before: Seq<Option<u16>>, after: Seq<Option<u16>>, slot: int, seq: u16)
    requires
        before.len() == after.len(),
        forall|j: int|
            0 <= j < before.len() && (#[trigger] before[j]) is Some ==> age(seq, before[j]->0) + 1 < HALF,
        0 <= slot < after.len(),
        after[slot] == Some(following(seq)),
        forall|j: int|
            0 <= j < after.len() && j != slot ==> (#[trigger] after[j]) is None || after[j] == before[j],
    ensures
        newest(after) == Some(slot),
{
    let last = following(seq);
    lemma_newest_holds(after);
    assert forall|j: int| 0 <= j < after.len() && (#[trigger] after[j]) is Some implies age(last, after[j]->0)
        < HALF && (j != slot ==> age(last, after[j]->0) > 0) by {
        if j != slot {
            assert(before[j] is Some);
        }
    }
    law_newest_is_newest(after, last);
    assert(after[slot] is Some);
}

/// In a ring that one writer keeps, the scan finds the last record written.
pub proof fn lemma_newest_of_tracked(seqs: Seq<Option<u16>>, at: int, slot: int, seq: u16)
    requires
        tracks(seqs, slot, seq),
        seqs.len() < HALF,
        0 <= at < seqs.len(),
        seqs[at] == Some(seq),
    ensures
        newest(seqs) == Some(at),
{
    lemma_newest_holds(seqs);
    assert forall|j: int| 0 <= j < seqs.len() && (#[trigger] seqs[j]) is Some implies age(
        seq,
        seqs[j]->0,
    ) < HALF by {}
    law_newest_is_newest(seqs, seq);
    let n = seqs.len() as int;
    let b = newest(seqs)->0;
    assert(seqs[at] is Some);
    assert(age(seq, seqs[b]->0) <= age(seq, seqs[at]->0));
    assert(slots_back(slot, b, n) == slots_back(slot, at, n));
}

/// Whoever takes the ring over at its newest record keeps it too. Between that record and where the ring stood,
/// nothing can be read.
pub proof fn lemma_tracks_newest(seqs: Seq<Option<u16>>, at: int, slot: int, seq: u16)
    requires
        tracks(seqs, slot, seq),
        seqs.len() < HALF,
        newest(seqs) == Some(at),
    ensures
        0 <= at < seqs.len(),
        seqs[at] is Some,
        tracks(seqs, at, seqs[at]->0),
        forall|j: int|
            0 <= j < seqs.len() && slots_back(slot, j, seqs.len() as int) < slots_back(
                slot,
                at,
                seqs.len() as int,
            ) ==> (#[trigger] seqs[j]) is None,
{
    let n = seqs.len() as int;
    lemma_newest_holds(seqs);
    assert forall|j: int| 0 <= j < n && (#[trigger] seqs[j]) is Some implies age(seq, seqs[j]->0) < HALF by {}
    law_newest_is_newest(seqs, seq);
    let last = seqs[at]->0;
    assert forall|j: int| 0 <= j < n && slots_back(slot, j, n) < slots_back(slot, at, n) implies (
    #[trigger] seqs[j]) is None by {
        if seqs[j] is Some {
            assert(seqs[at] is Some);
            assert(age(seq, last) <= age(seq, seqs[j]->0));
        }
    }
    assert forall|j: int| 0 <= j < n && (#[trigger] seqs[j]) is Some implies {
        &&& slots_back(at, j, n) == slots_back(slot, j, n) - slots_back(slot, at, n)
        &&& age(last, seqs[j]->0) == age(seq, seqs[j]->0) - age(seq, last)
    } by {
        assert(seqs[at] is Some);
    }
}

/// Going on over slots in which nothing can be read leaves a ring that one writer keeps.
pub proof fn lemma_tracks_further(seqs: Seq<Option<u16>>, slot: int, further: int, seq: u16)
    requires
        tracks(seqs, slot, seq),
        slot <= further < seqs.len(),
        forall|j: int| slot < j <= further ==> (#[trigger] seqs[j]) is None,
    ensures
        tracks(seqs, further, seq),
{
    let n = seqs.len() as int;
    assert forall|j: int| 0 <= j < n && (#[trigger] seqs[j]) is Some implies slots_back(further, j, n)
        == slots_back(slot, j, n) + (further - slot) by {}
}

/// Writing the next record into the next slot, or failing to, leaves a ring that one writer keeps, whatever else
/// it wipes out.
pub proof fn lemma_tracks_advance(before: Seq<Option<u16>>, after: Seq<Option<u16>>, slot: int, seq: u16)
    requires
        tracks(before, slot, seq),
        before.len() == after.len(),
        before.len() < HALF,
        ({
            let next = (slot + 1) % before.len() as int;
            &&& after[next] is None || after[next] == Some(following(seq))
            &&& forall|j: int|
                0 <= j < after.len() && j != next ==> (#[trigger] after[j]) is None || after[j]
                    == before[j]
        }),
    ensures
        tracks(after, (slot + 1) % before.len() as int, following(seq)),
{
    let n = before.len() as int;
    let next = (slot + 1) % n;
    assert(next == if slot + 1 == n { 0 } else { slot + 1 }) by {
        if slot + 1 == n {
            vstd::arithmetic::div_mod::lemma_mod_self_0(n);
        } else {
            vstd::arithmetic::div_mod::lemma_small_mod((slot + 1) as nat, n as nat);
        }
    }
    assert forall|j: int| 0 <= j < n && (#[trigger] after[j]) is Some implies (if j == next {
        slots_back(next, j, n) == 0 && age(following(seq), after[j]->0) == 0
    } else {
        &&& before[j] == after[j]
        &&& slots_back(next, j, n) == slots_back(slot, j, n) + 1
        &&& age(following(seq), after[j]->0) == age(seq, before[j]->0) + 1
    }) by {
        if j != next {
            assert(before[j] is Some);
        }
    }
}

/// Losing records leaves a ring that one writer keeps.
pub proof fn lemma_tracks_loss(before: Seq<Option<u16>>, after: Seq<Option<u16>>, slot: int, seq: u16)
    requires
        tracks(before, slot, seq),
        before.len() == after.len(),
        forall|j: int|
            0 <= j < after.len() ==> (#[trigger] after[j]) is None || after[j] == before[j],
    ensures
        tracks(after, slot, seq),
{
    assert forall|j: int| 0 <= j < after.len() && (#[trigger] after[j]) is Some implies before[j]
        == after[j] by {}
}

/// Numbers go up by one and start again behind the last, and how long ago a number was given out is counted the same way round.
pub proof fn law_numbers_wrap(newer: u16, older: u16)
    ensures
        following(older) == (older + 1) % 0x1_0000,
        age(newer, older) == (newer - older) % 0x1_0000,
        age(following(older), older) == 1,
        age(newer, newer) == 0,
        age(newer, older) + age(older, newer) == (if newer == older {
            0int
        } else {
            0x1_0000
        }),
        HALF == 0x8000,
{
}

} // verus!
