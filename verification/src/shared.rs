//! What the tasks share: the machine's fault set, and the wish to have the coin acceptor shut.
//!
//! Both are atomics rather than mutexes or messages. The interesting operations on faults are set-a-bit and
//! clear-a-bit, which an atomic does without anyone waiting, and the acceptor must see the wish at its next poll
//! and not at its next message.
//!
//! The atomics are those of `portable_atomic`. Any task may write one at any time, so nothing is stated of what a
//! read of one gives. Whatever it gives, what is done with it is stated and proved: the functions here report the
//! set as it stood right after their own change.
use vstd::prelude::*;

use crate::error::{self, Errors};

verus! {

/// A word that tasks share.
#[verifier::external_type_specification]
#[verifier::external_body]
pub struct ExAtomicU32(portable_atomic::AtomicU32);

/// A flag that tasks share.
#[verifier::external_type_specification]
#[verifier::external_body]
pub struct ExAtomicBool(portable_atomic::AtomicBool);

/// `portable_atomic::AtomicU32::load`: what the word holds just now, which any task may have written.
#[verifier::external_body]
fn load(word: &portable_atomic::AtomicU32) -> (bits: u32) {
    word.load(core::sync::atomic::Ordering::Relaxed)
}

/// `portable_atomic::AtomicU32::fetch_or`: sets the bits of `mask` in the word. The result is what the word held
/// before, which any task may have written.
#[verifier::external_body]
fn fetch_or(word: &portable_atomic::AtomicU32, mask: u32) -> (before: u32) {
    word.fetch_or(mask, core::sync::atomic::Ordering::Relaxed)
}

/// `portable_atomic::AtomicU32::fetch_and`: clears every bit of the word that is not in `mask`. The result is what
/// the word held before, which any task may have written.
#[verifier::external_body]
fn fetch_and(word: &portable_atomic::AtomicU32, mask: u32) -> (before: u32) {
    word.fetch_and(mask, core::sync::atomic::Ordering::Relaxed)
}

/// `portable_atomic::AtomicBool::load`: how the flag stands just now, which any task may have set.
#[verifier::external_body]
pub(crate) fn load_flag(flag: &portable_atomic::AtomicBool) -> (on: bool) {
    flag.load(core::sync::atomic::Ordering::Relaxed)
}

/// `portable_atomic::AtomicBool::store`: sets the flag, for every task that reads it from now on.
#[verifier::external_body]
pub(crate) fn store_flag(flag: &portable_atomic::AtomicBool, on: bool) {
    flag.store(on, core::sync::atomic::Ordering::Relaxed)
}

/// No bit that names no fault.
pub open spec fn known(faults: Errors) -> bool {
    faults.bits & error::ALL == faults.bits
}

/// The faults present right now.
pub fn errors(word: &portable_atomic::AtomicU32) -> (now: Errors)
    ensures
        known(now),
{
    let bits = load(word);
    assert((bits & 0xffff) & 0xffff == bits & 0xffff) by (bit_vector);
    error::errors(bits)
}

/// Record the faults of `mask` as present. Faults already set stay set. Returns the faults as they stood then.
pub fn raise(word: &portable_atomic::AtomicU32, mask: u32) -> (now: Errors)
    ensures
        exists|before: u32| now == #[trigger] (Errors { bits: before & error::ALL }).with(mask),
{
    let before = fetch_or(word, mask);
    let mut now = error::errors(before);
    error::raise(&mut now, mask);
    now
}

/// Every bit but those of `mask`.
fn all_but(mask: u32) -> (rest: u32)
    ensures
        rest == !mask,
{
    !mask
}

/// Record the faults of `mask` as gone. Returns the faults as they stood then.
pub fn clear(word: &portable_atomic::AtomicU32, mask: u32) -> (now: Errors)
    ensures
        exists|before: u32| now == #[trigger] (Errors { bits: before & error::ALL }).without(mask),
{
    let before = fetch_and(word, all_but(mask));
    let mut now = error::errors(before);
    error::clear(&mut now, mask);
    now
}

/// Set the faults of `mask` to `present`, whichever way they were before. Returns the faults as they stood then.
pub fn set(word: &portable_atomic::AtomicU32, mask: u32, present: bool) -> (now: Errors)
    ensures
        exists|before: u32| now == #[trigger] (Errors { bits: before & error::ALL }).put(mask, present),
{
    if present {
        let now = raise(word, mask);
        proof {
            let before = choose|before: u32|
                now == #[trigger] (Errors { bits: before & error::ALL }).with(mask);
            assert(now == (Errors { bits: before & error::ALL }).put(mask, present));
        }
        now
    } else {
        let now = clear(word, mask);
        proof {
            let before = choose|before: u32|
                now == #[trigger] (Errors { bits: before & error::ALL }).without(mask);
            assert(now == (Errors { bits: before & error::ALL }).put(mask, present));
        }
        now
    }
}

/// What a task has found of the faults, if it started from `before` and ended with `after`: the faults it found
/// to be present, and those it found to be gone.
pub fn changes(before: Errors, after: Errors) -> (found: (u32, u32))
    ensures
        found.0 == after.bits & !before.bits,
        found.1 == before.bits & !after.bits,
{
    (after.bits & !before.bits, before.bits & !after.bits)
}

/// Record what a task has found of the faults, if it started from `before` and ended with `after`: first those it
/// found to be present, then those it found to be gone, as [`changes`] has them. Returns the faults as they stood
/// then.
///
/// What the word holds afterwards is not stated, since any task may write it between the two and right after
/// them; [`law_findings_of_others_stand`] says what the two changes come to where nobody does.
pub fn publish(word: &portable_atomic::AtomicU32, before: Errors, after: Errors) -> (now: Errors)
    ensures
        exists|held: u32|
            now == #[trigger] (Errors { bits: held & error::ALL }).without(before.bits & !after.bits),
{
    let (raised, cleared) = changes(before, after);
    raise(word, raised);
    clear(word, cleared)
}

/// Recording what a task has found touches only the faults that it found changed, so that what other tasks have
/// found stands. If nobody else has found anything, the outcome is what the task ended with.
pub proof fn law_findings_of_others_stand(before: Errors, after: Errors, held: Errors, other: u32)
    ensures
        ({
            let raised = after.bits & !before.bits;
            let cleared = before.bits & !after.bits;
            let now = held.with(raised).without(cleared);
            &&& other & raised == 0 && other & cleared == 0 ==> now.has(other) == held.has(other)
            &&& held == before ==> now == after
        }),
{
    let h = held.bits;
    let a = after.bits;
    let b = before.bits;
    assert(other & (a & !b) == 0 && other & (b & !a) == 0 ==> (((h | (a & !b)) & !(b & !a)) & other != 0
        <==> h & other != 0)) by (bit_vector);
    assert((b | (a & !b)) & !(b & !a) == a) by (bit_vector);
}

} // verus!
