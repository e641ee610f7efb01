//! Comparisons of string slices, character by character, and the making of
//! strings.

use crate::spelling::{decimal, digit_char};
use vstd::prelude::*;
use vstd::string::StrSliceExecFns;

verus! {

/// Whether `text` begins with `prefix`.
pub fn starts_with(text: &str, prefix: &str) -> (b: bool)
    ensures
        b == prefix@.is_prefix_of(text@),
{
    let width = prefix.unicode_len();
    let len = text.unicode_len();
    if width > len {
        return false;
    }
    let mut i: usize = 0;
    while i < width
        invariant
            width == prefix@.len(),
            len == text@.len(),
            i <= width <= len,
            forall|j: int| 0 <= j < i ==> text@[j] == prefix@[j],
        decreases width - i,
    {
        if text.get_char(i) != prefix.get_char(i) {
            assert(text@.subrange(0, width as int)[i as int] != prefix@[i as int]);
            return false;
        }
        i = i + 1;
    }
    assert(prefix@ =~= text@.subrange(0, width as int));
    true
}

/// Whether the two slices hold the same characters.
pub fn same_text(a: &str, b: &str) -> (same: bool)
    ensures
        same == (a@ == b@),
{
    if a.unicode_len() != b.unicode_len() {
        return false;
    }
    let same = starts_with(a, b);
    proof {
        if same {
            assert(a@.subrange(0, b@.len() as int) =~= a@);
        }
    }
    same
}

/// What follows `prefix` in `text`, where `text` begins with it.
pub fn strip_prefix<'a>(text: &'a str, prefix: &str) -> (rest: Option<&'a str>)
    ensures
        match rest {
            Some(rest) => prefix@.is_prefix_of(text@) && rest@ == text@.skip(prefix@.len() as int),
            None => !prefix@.is_prefix_of(text@),
        },
{
    if starts_with(text, prefix) {
        let rest = text.substring_char(prefix.unicode_len(), text.unicode_len());
        assert(rest@ =~= text@.skip(prefix@.len() as int));
        Some(rest)
    } else {
        None
    }
}

/// Appends one character to a string. Calls `String::push` of std, which
/// adds the character at the end and changes nothing else.
#[verifier::external_body]
pub(crate) fn push_char(text: &mut String, c: char)
    ensures
        final(text)@ == old(text)@.push(c),
{
    text.push(c);
}

/// A number in decimal, without leading zeros.
pub fn decimal_string(n: usize) -> (text: String)
    ensures
        text@ == decimal(n as nat),
    decreases n,
{
    let digit: u8 = (n % 10) as u8;
    let c: char = ('0' as u8 + digit) as char;
    assert(c == digit_char((n % 10) as nat));
    let mut text = if n < 10 {
        String::new()
    } else {
        decimal_string(n / 10)
    };
    push_char(&mut text, c);
    proof {
        if n < 10 {
            assert(text@ =~= seq![digit_char(n as nat)]);
        }
    }
    text
}

} // verus!
