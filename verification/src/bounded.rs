//! Bounded collections: text and lists that never grow past a size fixed at compile time.
//!
//! These are the collections of `heapless`, which keep their contents in place and have no allocator
//! behind them. What is stated here of their methods is not proved; everything else in this crate is
//! proved from it.
use vstd::prelude::*;

verus! {

/// Text of at most `N` bytes.
#[verifier::external_type_specification]
#[verifier::external_body]
pub struct ExBoundedString<const N: usize>(heapless::String<N>);

/// A list of at most `N` things.
#[verifier::external_type_specification]
#[verifier::external_body]
#[verifier::reject_recursive_types(T)]
pub struct ExBoundedVec<T, const N: usize>(heapless::Vec<T, N>);

/// How many bytes the text of one display row may take: sixteen characters of up to four bytes.
pub const ROW_BYTES: usize = 64;

/// How many bytes the text of a report may take.
pub const REPORT_BYTES: usize = 768;

/// How long a list of small numbers may be.
pub const LIST_LEN: usize = 32;

/// The characters a row's text holds.
pub uninterp spec fn row_chars(text: heapless::String<64>) -> Seq<char>;

/// The characters a report's text holds.
pub uninterp spec fn report_chars(text: heapless::String<768>) -> Seq<char>;

/// The numbers a list holds, in order.
pub uninterp spec fn list_items(list: heapless::Vec<u16, 32>) -> Seq<u16>;

/// `heapless::String::new`: no characters yet.
#[verifier::external_body]
pub(crate) fn row_new() -> (text: heapless::String<64>)
    ensures
        row_chars(text) == Seq::<char>::empty(),
{
    heapless::String::new()
}

/// `heapless::String::push_str`: appends the whole string if its bytes still fit, and otherwise leaves the
/// text as it was and says so.
#[verifier::external_body]
pub(crate) fn row_push(text: &mut heapless::String<64>, s: &str) -> (ok: bool)
    ensures
        ok == (vstd::utf8::encode_utf8(row_chars(*old(text))).len() + vstd::utf8::encode_utf8(s@).len()
            <= ROW_BYTES),
        row_chars(*final(text)) == (if ok {
            row_chars(*old(text)) + s@
        } else {
            row_chars(*old(text))
        }),
    no_unwind
{
    text.push_str(s).is_ok()
}

/// `heapless::String::as_str`: the characters, as a string.
#[verifier::external_body]
pub(crate) fn row_as_str(text: &heapless::String<64>) -> (s: &str)
    ensures
        s@ == row_chars(*text),
{
    text.as_str()
}

/// `heapless::String::new`: no characters yet.
#[verifier::external_body]
pub(crate) fn report_new() -> (text: heapless::String<768>)
    ensures
        report_chars(text) == Seq::<char>::empty(),
{
    heapless::String::new()
}

/// `heapless::String::push_str`: appends the whole string if its bytes still fit, and otherwise leaves the
/// text as it was and says so.
#[verifier::external_body]
pub(crate) fn report_push(text: &mut heapless::String<768>, s: &str) -> (ok: bool)
    ensures
        ok == (vstd::utf8::encode_utf8(report_chars(*old(text))).len() + vstd::utf8::encode_utf8(s@).len()
            <= REPORT_BYTES),
        report_chars(*final(text)) == (if ok {
            report_chars(*old(text)) + s@
        } else {
            report_chars(*old(text))
        }),
{
    text.push_str(s).is_ok()
}

/// `heapless::String::as_str`: the characters, as a string.
#[verifier::external_body]
pub(crate) fn report_as_str(text: &heapless::String<768>) -> (s: &str)
    ensures
        s@ == report_chars(*text),
{
    text.as_str()
}

/// `heapless::Vec::new`: an empty list.
#[verifier::external_body]
pub(crate) fn list_new() -> (list: heapless::Vec<u16, 32>)
    ensures
        list_items(list) == Seq::<u16>::empty(),
{
    heapless::Vec::new()
}

/// `heapless::Vec::push`: appends a number if there is room, and otherwise leaves the list as it was and
/// says so.
#[verifier::external_body]
pub(crate) fn list_push(list: &mut heapless::Vec<u16, 32>, item: u16) -> (ok: bool)
    ensures
        ok == (list_items(*old(list)).len() < LIST_LEN),
        list_items(*final(list)) == (if ok {
            list_items(*old(list)).push(item)
        } else {
            list_items(*old(list))
        }),
{
    list.push(item).is_ok()
}

/// `heapless::Vec::as_slice`: the numbers, in order.
#[verifier::external_body]
pub(crate) fn list_as_slice(list: &heapless::Vec<u16, 32>) -> (items: &[u16])
    ensures
        items@ == list_items(*list),
{
    list.as_slice()
}

/// `heapless::Vec::as_mut_slice`, and the exchange of two places of the slice it gives: the numbers at `i`
/// and `j` change places, and nothing else changes.
#[verifier::external_body]
pub(crate) fn list_swap(list: &mut heapless::Vec<u16, 32>, i: usize, j: usize)
    requires
        i < list_items(*old(list)).len(),
        j < list_items(*old(list)).len(),
    ensures
        list_items(*final(list)) == list_items(*old(list)).update(
            i as int,
            list_items(*old(list))[j as int],
        ).update(j as int, list_items(*old(list))[i as int]),
{
    list.as_mut_slice().swap(i, j)
}

} // verus!
