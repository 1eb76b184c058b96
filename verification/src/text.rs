//! Text as a sequence of characters: ordering, searching, splitting and formatting.
use vstd::prelude::*;
use vstd::string::*;
use vstd::utf8::*;

verus! {

/// Appends one character.
///
/// Trusted: `String::push` appends the given character to the end of the string.
pub assume_specification[ String::push ](s: &mut String, c: char)
    ensures
        final(s)@ == old(s)@.push(c),
;

/// Lexicographic order on byte sequences.
pub open spec fn bytes_precede(a: Seq<u8>, b: Seq<u8>) -> bool
    decreases a.len(),
{
    if b.len() == 0 {
        false
    } else if a.len() == 0 {
        true
    } else if a[0] != b[0] {
        a[0] < b[0]
    } else {
        bytes_precede(a.drop_first(), b.drop_first())
    }
}

/// The order of texts: lexicographic on their UTF-8 bytes, as `str` is ordered.
pub open spec fn precedes(a: Seq<char>, b: Seq<char>) -> bool {
    bytes_precede(encode_utf8(a), encode_utf8(b))
}

proof fn lemma_bytes_precede_total(a: Seq<u8>, b: Seq<u8>)
    ensures
        a != b ==> bytes_precede(a, b) || bytes_precede(b, a),
        !(bytes_precede(a, b) && bytes_precede(b, a)),
        a == b ==> !bytes_precede(a, b),
    decreases a.len(),
{
    if a.len() == 0 || b.len() == 0 {
        if a.len() == 0 && b.len() == 0 {
            assert(a =~= b);
        }
    } else if a[0] == b[0] {
        lemma_bytes_precede_total(a.drop_first(), b.drop_first());
        if a.drop_first() == b.drop_first() {
            assert(a =~= seq![a[0]] + a.drop_first());
            assert(b =~= seq![b[0]] + b.drop_first());
        }
    }
}

proof fn lemma_bytes_precede_transitive(a: Seq<u8>, b: Seq<u8>, c: Seq<u8>)
    requires
        bytes_precede(a, b),
        bytes_precede(b, c),
    ensures
        bytes_precede(a, c),
    decreases a.len(),
{
    if a.len() > 0 && a[0] == b[0] && b[0] == c[0] {
        lemma_bytes_precede_transitive(a.drop_first(), b.drop_first(), c.drop_first());
    }
}

/// Two texts with the same bytes are the same text.
pub proof fn lemma_encoding_is_injective(a: Seq<char>, b: Seq<char>)
    ensures
        encode_utf8(a) == encode_utf8(b) ==> a == b,
{
    encode_utf8_decode_utf8(a);
    encode_utf8_decode_utf8(b);
}

/// The order of texts is total: of two different texts exactly one comes first,
/// and no text comes before itself.
pub proof fn precedes_is_total(a: Seq<char>, b: Seq<char>)
    ensures
        a != b ==> precedes(a, b) || precedes(b, a),
        !(precedes(a, b) && precedes(b, a)),
        !precedes(a, a),
{
    lemma_bytes_precede_total(encode_utf8(a), encode_utf8(b));
    lemma_bytes_precede_total(encode_utf8(a), encode_utf8(a));
    lemma_encoding_is_injective(a, b);
}

/// The order of texts is transitive.
pub proof fn precedes_is_transitive(a: Seq<char>, b: Seq<char>, c: Seq<char>)
    requires
        precedes(a, b),
        precedes(b, c),
    ensures
        precedes(a, c),
{
    lemma_bytes_precede_transitive(encode_utf8(a), encode_utf8(b), encode_utf8(c));
}

/// Whether `a` comes strictly before `b`.
pub fn less(a: &str, b: &str) -> (r: bool)
    ensures
        r == precedes(a@, b@),
{
    let left = a.as_bytes();
    let right = b.as_bytes();
    let mut index: usize = 0;
    assert(left@.skip(0) =~= left@);
    assert(right@.skip(0) =~= right@);
    loop
        invariant
            index <= left@.len(),
            index <= right@.len(),
            left@ == encode_utf8(a@),
            right@ == encode_utf8(b@),
            precedes(a@, b@) == bytes_precede(left@.skip(index as int), right@.skip(index as int)),
        decreases right@.len() - index,
    {
        if index >= right.len() {
            return false;
        }
        if index >= left.len() {
            return true;
        }
        if left[index] != right[index] {
            return left[index] < right[index];
        }
        assert(left@.skip(index as int).drop_first() =~= left@.skip(index + 1));
        assert(right@.skip(index as int).drop_first() =~= right@.skip(index + 1));
        index += 1;
    }
}

/// Whether two texts hold the same characters.
pub fn same(a: &str, b: &str) -> (r: bool)
    ensures
        r == (a@ == b@),
{
    proof {
        lemma_encoding_is_injective(a@, b@);
    }
    let left = a.as_bytes();
    let right = b.as_bytes();
    if left.len() != right.len() {
        return false;
    }
    let mut index: usize = 0;
    while index < left.len()
        invariant
            index <= left@.len(),
            left@.len() == right@.len(),
            left@ == encode_utf8(a@),
            right@ == encode_utf8(b@),
            forall|i: int| 0 <= i < index ==> left@[i] == right@[i],
        decreases left@.len() - index,
    {
        if left[index] != right[index] {
            return false;
        }
        index += 1;
    }
    assert(left@ =~= right@);
    true
}

/// The characters of a text, one by one.
pub fn chars_of(text: &str) -> (r: Vec<char>)
    ensures
        r@ == text@,
{
    let mut out: Vec<char> = Vec::new();
    for c in rest: text.chars()
        invariant
            rest.seq() == text@,
            out@ == text@.take(rest.index() as int),
    {
        out.push(c);
        assert(out@ =~= text@.take(rest.index() + 1));
    }
    assert(out@ =~= text@);
    out
}

/// The text made of a range of characters.
pub fn text_of(chars: &Vec<char>, from: usize, to: usize) -> (r: String)
    requires
        from <= to <= chars@.len(),
    ensures
        r@ == chars@.subrange(from as int, to as int),
{
    let mut out = String::new();
    let mut index = from;
    while index < to
        invariant
            from <= index <= to <= chars@.len(),
            out@ == chars@.subrange(from as int, index as int),
        decreases to - index,
    {
        out.push(chars[index]);
        index += 1;
        assert(out@ =~= chars@.subrange(from as int, index as int));
    }
    out
}

/// Appending texts appends their bytes.
pub proof fn encoding_of_concatenation(a: Seq<char>, b: Seq<char>)
    ensures
        encode_utf8(a + b) == encode_utf8(a) + encode_utf8(b),
    decreases a.len(),
{
    if a.len() == 0 {
        assert(a + b =~= b);
        assert(encode_utf8(a) + encode_utf8(b) =~= encode_utf8(b));
    } else {
        encoding_of_concatenation(a.drop_first(), b);
        assert((a + b).drop_first() =~= a.drop_first() + b);
        assert((a + b)[0] == a[0]);
        assert(encode_utf8(a + b) =~= encode_utf8(a) + encode_utf8(b));
    }
}

/// The number of bytes of a text in UTF-8.
pub open spec fn byte_len(text: Seq<char>) -> nat {
    encode_utf8(text).len()
}

/// Only the empty text has no bytes.
pub proof fn empty_text_has_no_bytes(text: Seq<char>)
    ensures
        byte_len(text) == 0 <==> text.len() == 0,
{
}

/// The number of bytes of a character in UTF-8.
pub fn width(c: char) -> (r: usize)
    ensures
        r == byte_len(seq![c]),
        1 <= r <= 4,
{
    proof {
        char_is_scalar(c);
        assert(seq![c].drop_first() =~= Seq::<char>::empty());
        assert(encode_utf8(Seq::<char>::empty()).len() == 0);
    }
    let code = c as u32;
    if code < 0x80 {
        1
    } else if code < 0x800 {
        2
    } else if code < 0x10000 {
        3
    } else {
        4
    }
}

/// Whether a character is white space: the characters with the Unicode property
/// `White_Space`.
pub open spec fn is_white_space(c: char) -> bool {
    ||| '\u{9}' <= c <= '\u{d}'
    ||| c == ' '
    ||| c == '\u{85}'
    ||| c == '\u{a0}'
    ||| c == '\u{1680}'
    ||| '\u{2000}' <= c <= '\u{200a}'
    ||| c == '\u{2028}'
    ||| c == '\u{2029}'
    ||| c == '\u{202f}'
    ||| c == '\u{205f}'
    ||| c == '\u{3000}'
}

/// Whether a character is white space.
///
/// Trusted: `char::is_whitespace` tells whether the character has the Unicode property
/// `White_Space`, the characters listed by [`is_white_space`].
pub assume_specification[ char::is_whitespace ](c: char) -> (r: bool)
    ensures
        r == is_white_space(c),
;

/// The text of a byte sequence that may not be UTF-8.
///
/// Named after what `String::from_utf8_lossy` returns.
pub uninterp spec fn lossy_text(bytes: Seq<u8>) -> Seq<char>;

/// Reads bytes as UTF-8, putting a replacement character for what is not.
///
/// Trusted: `String::from_utf8_lossy` depends on the bytes alone, and valid UTF-8 comes
/// back unchanged. What stands for invalid bytes is not stated.
#[verifier::external_body]
pub(crate) fn decode_lossy(bytes: &[u8]) -> (r: String)
    ensures
        r@ == lossy_text(bytes@),
        valid_utf8(bytes@) ==> r@ == decode_utf8(bytes@),
{
    String::from_utf8_lossy(bytes).into_owned()
}

/// Reads bytes as UTF-8, if they are.
///
/// Trusted: `String::from_utf8` gives the text that valid UTF-8 stands for, and fails on
/// anything else.
#[verifier::external_body]
pub(crate) fn decode(bytes: Vec<u8>) -> (r: Option<String>)
    ensures
        match r {
            Some(text) => valid_utf8(bytes@) && text@ == decode_utf8(bytes@),
            None => !valid_utf8(bytes@),
        },
{
    String::from_utf8(bytes).ok()
}

/// A text without the run of `c` at its end.
pub open spec fn without_trailing(text: Seq<char>, c: char) -> Seq<char>
    decreases text.len(),
{
    if text.len() > 0 && text.last() == c {
        without_trailing(text.drop_last(), c)
    } else {
        text
    }
}

/// Takes the run of `c` off the end of a text.
pub fn trim_end_of(text: &str, c: char) -> (r: String)
    ensures
        r@ == without_trailing(text@, c),
{
    let chars = chars_of(text);
    let mut end: usize = chars.len();
    assert(text@.take(end as int) =~= text@);
    while end > 0 && chars[end - 1] == c
        invariant
            end <= chars@.len(),
            chars@ == text@,
            without_trailing(text@.take(end as int), c) == without_trailing(text@, c),
        decreases end,
    {
        assert(text@.take(end as int).drop_last() =~= text@.take(end - 1));
        end -= 1;
    }
    assert(text@.subrange(0, end as int) =~= text@.take(end as int));
    text_of(&chars, 0, end)
}

/// One text after the other.
pub fn plus(text: String, more: &str) -> (r: String)
    ensures
        r@ == text@ + more@,
{
    text.concat(more)
}

/// A text without any characters but white space.
pub open spec fn blank(text: Seq<char>) -> bool {
    forall|i: int| 0 <= i < text.len() ==> is_white_space(#[trigger] text[i])
}

/// Whether a text has no characters but white space.
pub fn is_blank(text: &str) -> (r: bool)
    ensures
        r == blank(text@),
{
    let chars = chars_of(text);
    let mut index: usize = 0;
    while index < chars.len()
        invariant
            index <= chars@.len(),
            chars@ == text@,
            forall|i: int| 0 <= i < index ==> is_white_space(#[trigger] text@[i]),
        decreases chars@.len() - index,
    {
        if !chars[index].is_whitespace() {
            assert(!is_white_space(text@[index as int]));
            return false;
        }
        index += 1;
    }
    true
}

/// Whether a text begins with another.
pub fn starts_with(text: &str, prefix: &str) -> (r: bool)
    ensures
        r == prefix@.is_prefix_of(text@),
{
    let chars = chars_of(text);
    let wanted = chars_of(prefix);
    if wanted.len() > chars.len() {
        return false;
    }
    let mut index: usize = 0;
    while index < wanted.len()
        invariant
            index <= wanted@.len() <= chars@.len(),
            chars@ == text@,
            wanted@ == prefix@,
            forall|i: int| 0 <= i < index ==> #[trigger] prefix@[i] == text@[i],
        decreases wanted@.len() - index,
    {
        if chars[index] != wanted[index] {
            assert(text@.subrange(0, prefix@.len() as int)[index as int] != prefix@[index as int]);
            return false;
        }
        index += 1;
    }
    assert(prefix@ =~= text@.subrange(0, prefix@.len() as int));
    true
}

/// The first `count` characters, or all where there are fewer.
pub open spec fn head_of(text: Seq<char>, count: nat) -> Seq<char> {
    if text.len() <= count {
        text
    } else {
        text.take(count as int)
    }
}

/// The first `count` characters of a text, or all where there are fewer.
pub fn first_chars(text: &str, count: usize) -> (r: String)
    ensures
        r@ == head_of(text@, count as nat),
{
    let chars = chars_of(text);
    let end = if chars.len() <= count {
        chars.len()
    } else {
        count
    };
    let r = text_of(&chars, 0, end);
    assert(r@ =~= head_of(text@, count as nat));
    r
}

/// The part of a text after the last `c`, or all of it where there is none.
pub open spec fn after_last(text: Seq<char>, c: char) -> Seq<char>
    decreases text.len(),
{
    if text.len() == 0 || text.last() == c {
        Seq::empty()
    } else {
        after_last(text.drop_last(), c).push(text.last())
    }
}

/// The part of a text after the last `c`, or all of it where there is none.
pub fn last_part(text: &str, c: char) -> (r: String)
    ensures
        r@ == after_last(text@, c),
{
    let chars = chars_of(text);
    let mut start: usize = chars.len();
    assert(text@.take(start as int) =~= text@);
    assert(after_last(text@, c) =~= after_last(text@, c) + text@.skip(start as int));
    while start > 0 && chars[start - 1] != c
        invariant
            start <= chars@.len(),
            chars@ == text@,
            after_last(text@, c) == after_last(text@.take(start as int), c) + text@.skip(
                start as int,
            ),
        ensures
            start <= chars@.len(),
            after_last(text@, c) == after_last(text@.take(start as int), c) + text@.skip(
                start as int,
            ),
            start > 0 ==> text@[start - 1] == c,
        decreases start,
    {
        proof {
            let left = text@.take(start as int);
            assert(left.last() == text@[start - 1]);
            assert(left.drop_last() =~= text@.take(start - 1));
            assert(after_last(left, c) + text@.skip(start as int) =~= after_last(
                left.drop_last(),
                c,
            ) + text@.skip(start - 1));
        }
        start -= 1;
    }
    proof {
        let left = text@.take(start as int);
        if start > 0 {
            assert(left.last() == text@[start - 1]);
        }
        assert(after_last(text@, c) =~= text@.skip(start as int));
    }
    let r = text_of(&chars, start, chars.len());
    assert(r@ =~= text@.skip(start as int));
    r
}

/// Where `c` first stands in a text from `from` on, or the length of the text.
pub open spec fn first_index(text: Seq<char>, c: char, from: int) -> int
    decreases text.len() - from,
{
    if 0 <= from < text.len() && text[from] != c {
        first_index(text, c, from + 1)
    } else {
        from
    }
}

/// Splits a text at the first `c`, which belongs to neither part.
pub fn split_first(text: &str, c: char) -> (r: Option<(String, String)>)
    ensures
        match r {
            Some((left, right)) => {
                let at = first_index(text@, c, 0);
                at < text@.len() && left@ == text@.take(at) && right@ == text@.skip(at + 1)
            },
            None => first_index(text@, c, 0) == text@.len(),
        },
{
    let chars = chars_of(text);
    let mut index: usize = 0;
    while index < chars.len()
        invariant
            index <= chars@.len(),
            chars@ == text@,
            first_index(text@, c, 0) == first_index(text@, c, index as int),
        decreases chars@.len() - index,
    {
        if chars[index] == c {
            let left = text_of(&chars, 0, index);
            let right = text_of(&chars, index + 1, chars.len());
            assert(left@ =~= text@.take(index as int));
            assert(right@ =~= text@.skip(index + 1));
            return Some((left, right));
        }
        index += 1;
    }
    None
}

pub open spec fn is_digit(c: char) -> bool {
    '0' <= c <= '9'
}

/// The number that decimal digits stand for.
pub open spec fn digits_value(digits: Seq<char>) -> nat
    decreases digits.len(),
{
    if digits.len() == 0 {
        0
    } else {
        10 * digits_value(digits.drop_last()) + (digits.last() as nat - '0' as nat) as nat
    }
}

/// A text without the plus sign in front.
pub open spec fn unsigned_part(text: Seq<char>) -> Seq<char> {
    if text.len() > 0 && text[0] == '+' {
        text.skip(1)
    } else {
        text
    }
}

pub open spec fn all_digits(text: Seq<char>) -> bool {
    forall|i: int| 0 <= i < text.len() ==> is_digit(#[trigger] text[i])
}

/// The number that a text stands for: decimal digits, with or without a plus sign in
/// front, whose value fits 64 bits.
pub open spec fn number_in(text: Seq<char>) -> Option<u64> {
    let digits = unsigned_part(text);
    if digits.len() > 0 && all_digits(digits) && digits_value(digits) <= u64::MAX {
        Some(digits_value(digits) as u64)
    } else {
        None
    }
}

/// More digits make no smaller number.
pub proof fn digits_value_grows(digits: Seq<char>, k: int)
    requires
        0 <= k <= digits.len(),
    ensures
        digits_value(digits.take(k)) <= digits_value(digits),
    decreases digits.len(),
{
    if k < digits.len() {
        digits_value_grows(digits.drop_last(), k);
        assert(digits.drop_last().take(k) =~= digits.take(k));
    } else {
        assert(digits.take(k) =~= digits);
    }
}

/// The number that a text stands for.
pub fn parse_number(text: &str) -> (r: Option<u64>)
    ensures
        r == number_in(text@),
{
    let chars = chars_of(text);
    let start: usize = if chars.len() > 0 && chars[0] == '+' {
        1
    } else {
        0
    };
    let ghost digits = unsigned_part(text@);
    assert(text@.skip(0) =~= text@);
    if start == chars.len() {
        return None;
    }
    let mut value: u64 = 0;
    let mut index: usize = start;
    assert(digits.take(0) =~= Seq::empty());
    while index < chars.len()
        invariant
            start <= index <= chars@.len(),
            start < chars@.len(),
            chars@ == text@,
            digits == text@.skip(start as int),
            digits == unsigned_part(text@),
            value == digits_value(digits.take(index - start)),
            forall|i: int| 0 <= i < index - start ==> is_digit(#[trigger] digits[i]),
        decreases chars@.len() - index,
    {
        let c = chars[index];
        assert(digits[index - start] == c);
        if c < '0' || '9' < c {
            assert(!is_digit(digits[index - start]));
            return None;
        }
        let unit = c as u64 - '0' as u64;
        proof {
            let longer = digits.take(index - start + 1);
            assert(longer.drop_last() =~= digits.take(index - start));
            assert(longer.last() == c);
            assert(digits_value(longer) == 10 * value + unit);
            digits_value_grows(digits, index - start + 1);
        }
        if value > (u64::MAX - unit) / 10 {
            return None;
        }
        value = value * 10 + unit;
        index += 1;
    }
    assert(digits.take(index - start) =~= digits);
    Some(value)
}

/// A line without the carriage return at its end.
pub open spec fn without_return(line: Seq<char>) -> Seq<char> {
    if line.len() > 0 && line.last() == '\r' {
        line.drop_last()
    } else {
        line
    }
}

/// The lines of a text. A line ends with a line feed, or with a carriage return and a
/// line feed, which do not belong to it; the last line may end with the text.
pub open spec fn lines_of(text: Seq<char>) -> Seq<Seq<char>>
    decreases text.len(),
{
    let end = first_index(text, '\n', 0);
    if text.len() == 0 {
        Seq::empty()
    } else if 0 <= end < text.len() {
        seq![without_return(text.take(end))] + lines_of(text.skip(end + 1))
    } else {
        seq![text]
    }
}

/// The first place of `c` is the first.
pub proof fn first_index_is_first(text: Seq<char>, c: char, from: int)
    requires
        0 <= from <= text.len(),
    ensures
        from <= first_index(text, c, from) <= text.len(),
        forall|i: int| from <= i < first_index(text, c, from) ==> #[trigger] text[i] != c,
        first_index(text, c, from) < text.len() ==> text[first_index(text, c, from)] == c,
    decreases text.len() - from,
{
    if from < text.len() && text[from] != c {
        first_index_is_first(text, c, from + 1);
    }
}

/// Where `c` first stands, seen from a later position.
proof fn lemma_first_index_of_rest(text: Seq<char>, c: char, from: int, to: int)
    requires
        0 <= from <= to <= text.len(),
        forall|i: int| from <= i < to ==> #[trigger] text[i] != c,
    ensures
        first_index(text.skip(from), c, 0) == first_index(text, c, to) - from,
{
    let rest = text.skip(from);
    first_index_is_first(rest, c, 0);
    first_index_is_first(text, c, to);
    let a = first_index(rest, c, 0);
    let b = first_index(text, c, to) - from;
    if a < b {
        assert(rest[a] == text[from + a]);
    }
    if b < a {
        assert(rest[b] == text[from + b]);
    }
}

/// Cuts a text into its lines.
pub fn split_lines(text: &str) -> (r: Vec<String>)
    ensures
        views_of(r@) == lines_of(text@),
{
    let chars = chars_of(text);
    let mut out: Vec<String> = Vec::new();
    let mut start: usize = 0;
    let mut index: usize = 0;
    assert(text@.skip(0) =~= text@);
    assert(views_of(out@) + lines_of(text@) =~= lines_of(text@));
    while index < chars.len()
        invariant
            start <= index <= chars@.len(),
            chars@ == text@,
            forall|i: int| start <= i < index ==> #[trigger] text@[i] != '\n',
            lines_of(text@) == views_of(out@) + lines_of(text@.skip(start as int)),
        decreases chars@.len() - index,
    {
        if chars[index] == '\n' {
            let ghost rest = text@.skip(start as int);
            let ghost held = out@;
            let ghost end = index - start;
            proof {
                lemma_first_index_of_rest(text@, '\n', start as int, index as int);
                assert(rest.take(end) =~= text@.subrange(start as int, index as int));
                assert(rest.skip(end + 1) =~= text@.skip(index + 1));
            }
            let line = if index > start && chars[index - 1] == '\r' {
                text_of(&chars, start, index - 1)
            } else {
                text_of(&chars, start, index)
            };
            assert(line@ =~= without_return(rest.take(end)));
            out.push(line);
            proof {
                assert(views_of(out@) =~= views_of(held).push(line@));
                assert(views_of(out@) + lines_of(text@.skip(index + 1)) =~= views_of(held) + (
                seq![line@] + lines_of(text@.skip(index + 1))));
            }
            start = index + 1;
        }
        index += 1;
    }
    let ghost rest = text@.skip(start as int);
    if start < chars.len() {
        proof {
            lemma_first_index_of_rest(text@, '\n', start as int, index as int);
        }
        let ghost held = out@;
        let line = text_of(&chars, start, chars.len());
        assert(line@ =~= rest);
        out.push(line);
        assert(views_of(out@) =~= views_of(held) + seq![rest]);
    } else {
        assert(views_of(out@) + lines_of(rest) =~= views_of(out@));
    }
    out
}

/// The lines with line feeds between them.
pub open spec fn joined_lines(lines: Seq<Seq<char>>) -> Seq<char>
    decreases lines.len(),
{
    if lines.len() == 0 {
        Seq::empty()
    } else if lines.len() == 1 {
        lines[0]
    } else {
        joined_lines(lines.drop_last()) + seq!['\n'] + lines.last()
    }
}

/// Puts lines together with line feeds between them.
pub fn join_lines(lines: &Vec<String>) -> (r: String)
    ensures
        r@ == joined_lines(views_of(lines@)),
{
    let ghost views = views_of(lines@);
    let mut out = String::new();
    let mut index: usize = 0;
    assert(views.take(0) =~= Seq::empty());
    while index < lines.len()
        invariant
            index <= lines@.len(),
            views == views_of(lines@),
            out@ == joined_lines(views.take(index as int)),
        decreases lines@.len() - index,
    {
        proof {
            let longer = views.take(index + 1);
            assert(longer.drop_last() =~= views.take(index as int));
            assert(longer.last() == lines@[index as int]@);
        }
        if index > 0 {
            out.push('\n');
        }
        let ghost held = out@;
        out = plus(out, lines[index].as_str());
        proof {
            if index == 0 {
                assert(out@ =~= lines@[0]@);
                assert(views.take(1)[0] == lines@[0]@);
            } else {
                assert(out@ =~= joined_lines(views.take(index + 1)));
            }
        }
        index += 1;
    }
    assert(views.take(index as int) =~= views);
    out
}

/// Whether the last character is `c`.
pub open spec fn ends_with(text: Seq<char>, c: char) -> bool {
    text.len() > 0 && text.last() == c
}

/// The parts of a text between the places where `c` stands.
pub open spec fn parts_between(text: Seq<char>, c: char) -> Seq<Seq<char>>
    decreases text.len(),
{
    let at = first_index(text, c, 0);
    if 0 <= at < text.len() {
        seq![text.take(at)] + parts_between(text.skip(at + 1), c)
    } else {
        seq![text]
    }
}

/// Cuts a text at every `c`.
pub fn split_at_every(text: &str, c: char) -> (r: Vec<String>)
    ensures
        views_of(r@) == parts_between(text@, c),
{
    let chars = chars_of(text);
    let mut out: Vec<String> = Vec::new();
    let mut start: usize = 0;
    let mut index: usize = 0;
    assert(text@.skip(0) =~= text@);
    assert(views_of(out@) + parts_between(text@, c) =~= parts_between(text@, c));
    while index < chars.len()
        invariant
            start <= index <= chars@.len(),
            chars@ == text@,
            forall|i: int| start <= i < index ==> #[trigger] text@[i] != c,
            parts_between(text@, c) == views_of(out@) + parts_between(text@.skip(start as int), c),
        decreases chars@.len() - index,
    {
        if chars[index] == c {
            let ghost rest = text@.skip(start as int);
            let ghost held = out@;
            let ghost end = index - start;
            proof {
                lemma_first_index_of_rest(text@, c, start as int, index as int);
                assert(rest.take(end) =~= text@.subrange(start as int, index as int));
                assert(rest.skip(end + 1) =~= text@.skip(index + 1));
            }
            let part = text_of(&chars, start, index);
            out.push(part);
            proof {
                assert(views_of(out@) =~= views_of(held).push(part@));
                assert(views_of(out@) + parts_between(text@.skip(index + 1), c) =~= views_of(held)
                    + (seq![part@] + parts_between(text@.skip(index + 1), c)));
            }
            start = index + 1;
        }
        index += 1;
    }
    let ghost rest = text@.skip(start as int);
    let ghost held = out@;
    proof {
        lemma_first_index_of_rest(text@, c, start as int, index as int);
    }
    let part = text_of(&chars, start, chars.len());
    assert(part@ =~= rest);
    out.push(part);
    assert(views_of(out@) =~= views_of(held) + seq![rest]);
    out
}

/// What an optional text holds.
pub open spec fn view_of(text: Option<String>) -> Option<Seq<char>> {
    match text {
        Some(some) => Some(some@),
        None => None,
    }
}

/// What each of a number of texts holds.
pub open spec fn views_of(texts: Seq<String>) -> Seq<Seq<char>> {
    Seq::new(texts.len(), |i: int| texts[i]@)
}

/// Decimal digits of a number, without leading zeros.
pub open spec fn decimal_digits(n: nat) -> Seq<char>
    decreases n,
{
    if n < 10 {
        seq![(('0' as u32) + n) as char]
    } else {
        decimal_digits(n / 10).push((('0' as u32) + n % 10) as char)
    }
}

fn digit(n: u8) -> (r: char)
    requires
        n < 10,
    ensures
        r == (('0' as u32) + n) as char,
{
    (48u8 + n) as char
}

/// The decimal form of a number.
pub fn decimal(n: u64) -> (r: String)
    ensures
        r@ == decimal_digits(n as nat),
    decreases n,
{
    if n < 10 {
        let mut out = String::new();
        out.push(digit(n as u8));
        assert(out@ =~= decimal_digits(n as nat));
        out
    } else {
        let mut out = decimal(n / 10);
        out.push(digit((n % 10) as u8));
        out
    }
}

/// Copies a list of texts.
pub fn copies(texts: &Vec<String>) -> (r: Vec<String>)
    ensures
        r@ == texts@,
{
    let r = texts.clone();
    assert(r@ =~= texts@);
    r
}

} // verus!
