//! Finding texts in texts.
use vstd::prelude::*;

use crate::text;
use crate::text::is_white_space;

verus! {

/// Whether `needle` stands at position `at`.
pub open spec fn stands_at(text: Seq<char>, needle: Seq<char>, at: int) -> bool {
    0 <= at && at + needle.len() <= text.len() && text.subrange(at, at + needle.len()) == needle
}

/// Whether `needle` occurs in a text.
pub open spec fn occurs(text: Seq<char>, needle: Seq<char>) -> bool {
    exists|at: int| #[trigger] stands_at(text, needle, at)
}

/// How often `needle` occurs in a text from `from` on, counting from the left without
/// overlap.
pub open spec fn occurrences(text: Seq<char>, needle: Seq<char>, from: int) -> nat
    decreases text.len() - from,
{
    if needle.len() == 0 || from < 0 || from + needle.len() > text.len() {
        0
    } else if stands_at(text, needle, from) {
        1 + occurrences(text, needle, from + needle.len())
    } else {
        occurrences(text, needle, from + 1)
    }
}

fn is_at(chars: &Vec<char>, needle: &Vec<char>, at: usize) -> (r: bool)
    requires
        at + needle@.len() <= chars@.len(),
    ensures
        r == stands_at(chars@, needle@, at as int),
{
    let ghost piece = chars@.subrange(at as int, at + needle@.len());
    let mut index: usize = 0;
    while index < needle.len()
        invariant
            index <= needle@.len(),
            at + needle@.len() <= chars@.len(),
            piece == chars@.subrange(at as int, at + needle@.len()),
            forall|i: int| 0 <= i < index ==> #[trigger] piece[i] == needle@[i],
        decreases needle@.len() - index,
    {
        assert(piece[index as int] == chars@[at + index]);
        assert(at + index < chars.len());
        if chars[at + index] != needle[index] {
            assert(piece[index as int] != needle@[index as int]);
            return false;
        }
        index += 1;
    }
    assert(piece =~= needle@);
    true
}

/// Whether `needle` occurs in a text.
pub fn contains(text: &str, needle: &str) -> (r: bool)
    ensures
        r == occurs(text@, needle@),
{
    let chars = text::chars_of(text);
    let wanted = text::chars_of(needle);
    if wanted.len() > chars.len() {
        return false;
    }
    let last = chars.len() - wanted.len();
    let mut at: usize = 0;
    loop
        invariant
            chars@ == text@,
            wanted@ == needle@,
            last + wanted@.len() == chars@.len(),
            at <= last,
            forall|i: int| 0 <= i < at ==> !#[trigger] stands_at(text@, needle@, i),
        decreases last - at,
    {
        if is_at(&chars, &wanted, at) {
            return true;
        }
        if at == last {
            return false;
        }
        at += 1;
    }
}

/// How often `needle` occurs in a text.
pub fn count(text: &str, needle: &str) -> (r: usize)
    ensures
        r == occurrences(text@, needle@, 0),
        r <= text@.len(),
{
    let chars = text::chars_of(text);
    let wanted = text::chars_of(needle);
    let mut total: usize = 0;
    let mut at: usize = 0;
    if wanted.len() == 0 {
        return 0;
    }
    while at < chars.len() && wanted.len() <= chars.len() - at
        invariant
            chars@ == text@,
            wanted@ == needle@,
            wanted@.len() > 0,
            at <= chars@.len(),
            total <= at,
            occurrences(text@, needle@, 0) == total + occurrences(text@, needle@, at as int),
        decreases chars@.len() - at,
    {
        if is_at(&chars, &wanted, at) {
            total += 1;
            at += wanted.len();
        } else {
            at += 1;
        }
    }
    total
}

/// The lower-case form of a text.
///
/// Named after what `str::to_lowercase` returns.
pub uninterp spec fn lower_case(text: Seq<char>) -> Seq<char>;

/// Puts a text into lower case.
///
/// Trusted: `str::to_lowercase` depends on the text alone. What the lower-case form is,
/// by Unicode, is not stated.
#[verifier::external_body]
pub(crate) fn to_lower(text: &str) -> (r: String)
    ensures
        r@ == lower_case(text@),
{
    text.to_lowercase()
}

/// A text without the white space at its start.
pub open spec fn without_leading_space(text: Seq<char>) -> Seq<char>
    decreases text.len(),
{
    if text.len() > 0 && is_white_space(text[0]) {
        without_leading_space(text.drop_first())
    } else {
        text
    }
}

/// A text without the white space at its end.
pub open spec fn without_trailing_space(text: Seq<char>) -> Seq<char>
    decreases text.len(),
{
    if text.len() > 0 && is_white_space(text.last()) {
        without_trailing_space(text.drop_last())
    } else {
        text
    }
}

/// A text without the white space at either end.
pub open spec fn trimmed(text: Seq<char>) -> Seq<char> {
    without_trailing_space(without_leading_space(text))
}

/// Takes the white space off both ends of a text.
pub fn trim(text: &str) -> (r: String)
    ensures
        r@ == trimmed(text@),
{
    let chars = text::chars_of(text);
    let mut start: usize = 0;
    assert(text@.skip(0) =~= text@);
    while start < chars.len() && chars[start].is_whitespace()
        invariant
            start <= chars@.len(),
            chars@ == text@,
            without_leading_space(text@) == without_leading_space(text@.skip(start as int)),
        ensures
            start <= chars@.len(),
            without_leading_space(text@) == text@.skip(start as int),
        decreases chars@.len() - start,
    {
        proof {
            let rest = text@.skip(start as int);
            assert(rest[0] == text@[start as int]);
            assert(rest.drop_first() =~= text@.skip(start + 1));
        }
        start += 1;
    }
    let ghost rest = text@.skip(start as int);
    let mut end: usize = chars.len();
    assert(text@.subrange(start as int, end as int) =~= rest);
    while end > start && chars[end - 1].is_whitespace()
        invariant
            start <= end <= chars@.len(),
            chars@ == text@,
            without_trailing_space(rest) == without_trailing_space(
                text@.subrange(start as int, end as int),
            ),
        ensures
            start <= end <= chars@.len(),
            without_trailing_space(rest) == text@.subrange(start as int, end as int),
        decreases end,
    {
        proof {
            let left = text@.subrange(start as int, end as int);
            assert(left.last() == text@[end - 1]);
            assert(left.drop_last() =~= text@.subrange(start as int, end - 1));
        }
        end -= 1;
    }
    text::text_of(&chars, start, end)
}

} // verus!
