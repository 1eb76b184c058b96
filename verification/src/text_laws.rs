//! What holds of cutting, joining and ordering texts.
use vstd::prelude::*;
use vstd::utf8::encode_utf8;

use crate::text::{
    after_last, all_digits, blank, bytes_precede, decimal_digits, digits_value, first_index,
    first_index_is_first, head_of, is_digit, is_white_space, joined_lines, lines_of, number_in,
    parts_between, precedes, without_trailing,
};

verus! {

/// Whether the first difference of two byte sequences is at `k`, and `a` comes first by it.
spec fn differs_at(a: Seq<u8>, b: Seq<u8>, k: int) -> bool {
    &&& 0 <= k <= a.len()
    &&& k < b.len()
    &&& a.take(k) == b.take(k)
    &&& k == a.len() || a[k] < b[k]
}

proof fn lemma_first_difference(a: Seq<u8>, b: Seq<u8>) -> (k: int)
    requires
        bytes_precede(a, b),
    ensures
        differs_at(a, b, k),
    decreases a.len(),
{
    if a.len() == 0 {
        assert(a.take(0) =~= b.take(0));
        0
    } else if a[0] != b[0] {
        assert(a.take(0) =~= b.take(0));
        0
    } else {
        let k = lemma_first_difference(a.drop_first(), b.drop_first());
        assert(a.take(k + 1) =~= seq![a[0]] + a.drop_first().take(k));
        assert(b.take(k + 1) =~= seq![b[0]] + b.drop_first().take(k));
        k + 1
    }
}

proof fn lemma_difference_decides(a: Seq<u8>, b: Seq<u8>, k: int)
    requires
        differs_at(a, b, k),
    ensures
        bytes_precede(a, b),
    decreases k,
{
    if k > 0 {
        assert(a[0] == a.take(k)[0]);
        assert(b[0] == b.take(k)[0]);
        assert(a.drop_first().take(k - 1) =~= a.take(k).drop_first());
        assert(b.drop_first().take(k - 1) =~= b.take(k).drop_first());
        lemma_difference_decides(a.drop_first(), b.drop_first(), k - 1);
    }
}

/// Texts are ordered by the first byte in which their UTF-8 forms differ; a text comes
/// before all that it is the start of.
pub proof fn first_difference_decides(a: Seq<char>, b: Seq<char>)
    ensures
        precedes(a, b) <==> exists|k: int|
            #![trigger encode_utf8(a).take(k)]
            0 <= k <= encode_utf8(a).len() && k < encode_utf8(b).len() && encode_utf8(a).take(k)
                == encode_utf8(b).take(k) && (k == encode_utf8(a).len() || encode_utf8(a)[k]
                < encode_utf8(b)[k]),
{
    let (left, right) = (encode_utf8(a), encode_utf8(b));
    if precedes(a, b) {
        let k = lemma_first_difference(left, right);
        assert(left.take(k) == right.take(k));
    }
    if exists|k: int|
        #![trigger left.take(k)]
        0 <= k <= left.len() && k < right.len() && left.take(k) == right.take(k) && (k == left.len()
            || left[k] < right[k]) {
        let k = choose|k: int|
            #![trigger left.take(k)]
            0 <= k <= left.len() && k < right.len() && left.take(k) == right.take(k) && (k
                == left.len() || left[k] < right[k]);
        lemma_difference_decides(left, right, k);
    }
}

/// Taking a run of a character off the end takes all of it and nothing else.
pub proof fn trimming_takes_the_whole_run(text: Seq<char>, c: char)
    ensures
        without_trailing(text, c).len() <= text.len(),
        without_trailing(text, c) == text.take(without_trailing(text, c).len() as int),
        forall|i: int| without_trailing(text, c).len() <= i < text.len() ==> #[trigger] text[i] == c,
        without_trailing(text, c).len() > 0 ==> without_trailing(text, c).last() != c,
    decreases text.len(),
{
    let rest = without_trailing(text, c);
    if text.len() > 0 && text.last() == c {
        trimming_takes_the_whole_run(text.drop_last(), c);
        assert(text.take(rest.len() as int) =~= text.drop_last().take(rest.len() as int));
        assert forall|i: int| rest.len() <= i < text.len() implies #[trigger] text[i] == c by {
            if i < text.len() - 1 {
                assert(text.drop_last()[i] == c);
            }
        }
    } else {
        assert(text.take(text.len() as int) =~= text);
    }
}

/// The head of a text is its start, as long as asked for or as long as there is.
pub proof fn head_is_the_start(text: Seq<char>, count: nat)
    ensures
        head_of(text, count) == text.take(head_of(text, count).len() as int),
        head_of(text, count).len() <= count,
        head_of(text, count).len() == count || head_of(text, count).len() == text.len(),
        head_of(text, count).len() <= text.len(),
{
    assert(text.take(text.len() as int) =~= text);
}

/// The last part holds the separator nowhere, and what stands before it is empty or ends
/// with the separator.
pub proof fn last_part_follows_the_last_separator(text: Seq<char>, c: char)
    ensures
        exists|before: Seq<char>|
            #![trigger before + after_last(text, c)]
            text == before + after_last(text, c) && (before.len() == 0 || before.last() == c),
        !after_last(text, c).contains(c),
    decreases text.len(),
{
    let part = after_last(text, c);
    if text.len() == 0 || text.last() == c {
        assert(text =~= text + part);
        assert(!part.contains(c));
    } else {
        last_part_follows_the_last_separator(text.drop_last(), c);
        let less = after_last(text.drop_last(), c);
        let before = choose|before: Seq<char>|
            #![trigger before + less]
            text.drop_last() == before + less && (before.len() == 0 || before.last() == c);
        assert(text =~= text.drop_last().push(text.last()));
        assert(before + part =~= (before + less).push(text.last()));
        assert(text == before + part);
        if part.contains(c) {
            let i = choose|i: int| 0 <= i < part.len() && part[i] == c;
            assert(less[i] == c);
        }
    }
}

proof fn lemma_first_index_after(line: Seq<char>, c: char, rest: Seq<char>)
    requires
        !line.contains(c),
    ensures
        first_index(line + seq![c] + rest, c, 0) == line.len(),
        (line + seq![c] + rest).take(line.len() as int) == line,
        (line + seq![c] + rest).skip((line.len() + 1) as int) == rest,
{
    let all = line + seq![c] + rest;
    first_index_is_first(all, c, 0);
    let at = first_index(all, c, 0);
    assert(all[line.len() as int] == c);
    if at < line.len() {
        assert(all[at] == line[at]);
        assert(line.contains(line[at]));
    }
    assert(all.take(line.len() as int) =~= line);
    assert(all.skip((line.len() + 1) as int) =~= rest);
}

/// A line feed ends a line: what stands before the first one is the first line, without
/// the carriage return that may stand before it, and the other lines are those of what
/// follows. A text without a line feed is one line, and the empty text has none.
pub proof fn line_feeds_end_lines(line: Seq<char>, rest: Seq<char>)
    requires
        !line.contains('\n'),
    ensures
        lines_of(line + seq!['\n'] + rest) == seq![
            if line.len() > 0 && line.last() == '\r' {
                line.drop_last()
            } else {
                line
            },
        ] + lines_of(rest),
        lines_of(line) == if line.len() == 0 {
            Seq::<Seq<char>>::empty()
        } else {
            seq![line]
        },
{
    lemma_first_index_after(line, '\n', rest);
    first_index_is_first(line, '\n', 0);
    let at = first_index(line, '\n', 0);
    if at < line.len() {
        assert(line.contains(line[at]));
    }
}

/// The parts of a text are what stands between its separators: one more than there are
/// separators.
pub proof fn separators_end_parts(part: Seq<char>, c: char, rest: Seq<char>)
    requires
        !part.contains(c),
    ensures
        parts_between(part + seq![c] + rest, c) == seq![part] + parts_between(rest, c),
        parts_between(part, c) == seq![part],
{
    lemma_first_index_after(part, c, rest);
    first_index_is_first(part, c, 0);
    let at = first_index(part, c, 0);
    if at < part.len() {
        assert(part.contains(part[at]));
    }
}

/// Lines are joined by a line feed between each two, and nothing else is added.
pub proof fn joining_puts_line_feeds_between(a: Seq<Seq<char>>, b: Seq<Seq<char>>, line: Seq<char>)
    requires
        a.len() > 0,
        b.len() > 0,
    ensures
        joined_lines(a + b) == joined_lines(a) + seq!['\n'] + joined_lines(b),
        joined_lines(seq![line]) == line,
        joined_lines(Seq::empty()) == Seq::<char>::empty(),
    decreases b.len(),
{
    let all = a + b;
    assert(all.last() == b.last());
    if b.len() == 1 {
        assert(all.drop_last() =~= a);
        assert(b[0] == b.last());
    } else {
        joining_puts_line_feeds_between(a, b.drop_last(), line);
        assert(all.drop_last() =~= a + b.drop_last());
        assert(joined_lines(all) =~= joined_lines(a) + seq!['\n'] + joined_lines(b));
    }
}

/// Each digit counts ten times as much as the one behind it.
pub proof fn digits_count_in_tens(digits: Seq<char>, c: char)
    requires
        '0' <= c <= '9',
    ensures
        digits_value(digits.push(c)) == 10 * digits_value(digits) + (c as int - '0' as int),
        digits_value(Seq::empty()) == 0,
{
    assert(digits.push(c).drop_last() =~= digits);
}

proof fn lemma_decimal_digits(n: nat)
    ensures
        decimal_digits(n).len() > 0,
        all_digits(decimal_digits(n)),
        digits_value(decimal_digits(n)) == n,
        n > 0 ==> decimal_digits(n)[0] != '0',
    decreases n,
{
    let digits = decimal_digits(n);
    if n < 10 {
        assert(digits.drop_last() =~= Seq::empty());
        assert(digits_value(digits.drop_last()) == 0);
    } else {
        lemma_decimal_digits(n / 10);
        assert(digits.drop_last() =~= decimal_digits(n / 10));
        assert(digits[0] == decimal_digits(n / 10)[0]);
    }
}

/// The decimal form of a number is made of digits, begins with no needless zero, and is
/// read back as the number.
pub proof fn decimal_form_is_read_back(n: u64)
    ensures
        number_in(decimal_digits(n as nat)) == Some(n),
        digits_value(decimal_digits(n as nat)) == n,
        forall|i: int|
            0 <= i < decimal_digits(n as nat).len() ==> '0' <= #[trigger] decimal_digits(
                n as nat,
            )[i] <= '9',
        n > 0 ==> decimal_digits(n as nat)[0] != '0',
        n == 0 ==> decimal_digits(n as nat).len() == 1,
{
    lemma_decimal_digits(n as nat);
    let digits = decimal_digits(n as nat);
    assert(is_digit(digits[0]));
    assert forall|i: int| 0 <= i < digits.len() implies '0' <= #[trigger] digits[i] <= '9' by {
        assert(is_digit(digits[i]));
    }
}

/// A number is read from decimal digits alone, with or without a plus sign in front.
pub proof fn numbers_are_digits(digits: Seq<char>)
    requires
        digits.len() > 0,
        forall|i: int| 0 <= i < digits.len() ==> '0' <= #[trigger] digits[i] <= '9',
    ensures
        number_in(digits) == if digits_value(digits) <= u64::MAX {
            Some(digits_value(digits) as u64)
        } else {
            None
        },
        number_in(seq!['+'] + digits) == number_in(digits),
{
    assert((seq!['+'] + digits).skip(1) =~= digits);
    assert(digits[0] != '+');
}

/// Nothing else is read as a number.
pub proof fn other_texts_are_no_numbers(text: Seq<char>)
    requires
        text.len() == 0 || text == seq!['+'] || exists|i: int|
            0 <= i < text.len() && !('0' <= #[trigger] text[i] <= '9') && !(i == 0 && text[i] == '+'),
    ensures
        number_in(text) is None,
{
    if text.len() > 0 && text != seq!['+'] {
        let i = choose|i: int|
            0 <= i < text.len() && !('0' <= #[trigger] text[i] <= '9') && !(i == 0 && text[i] == '+');
        if text[0] == '+' {
            assert(text.skip(1)[i - 1] == text[i]);
            assert(!is_digit(text.skip(1)[i - 1]));
        } else {
            assert(!is_digit(text[i]));
        }
    }
}

/// White space is what Unicode gives that property: the tab, the line feed and the two after
/// it, the carriage return, the next line, and the spaces and separators.
pub proof fn white_space_is_that_of_unicode(c: char)
    ensures
        is_white_space(c) <==> {
            ||| c as u32 == 0x09
            ||| c as u32 == 0x0a
            ||| c as u32 == 0x0b
            ||| c as u32 == 0x0c
            ||| c as u32 == 0x0d
            ||| c as u32 == 0x20
            ||| c as u32 == 0x85
            ||| c as u32 == 0xa0
            ||| c as u32 == 0x1680
            ||| 0x2000 <= c as u32 <= 0x200a
            ||| c as u32 == 0x2028
            ||| c as u32 == 0x2029
            ||| c as u32 == 0x202f
            ||| c as u32 == 0x205f
            ||| c as u32 == 0x3000
        },
{
}

/// A text is blank exactly if it holds nothing but white space.
pub proof fn blank_texts_hold_white_space_alone(text: Seq<char>)
    ensures
        blank(text) <==> text.filter(|c: char| !is_white_space(c)).len() == 0,
    decreases text.len(),
{
    reveal(Seq::filter);
    let dark = |c: char| !is_white_space(c);
    if text.len() > 0 {
        let rest = text.drop_last();
        blank_texts_hold_white_space_alone(rest);
        if blank(text) {
            assert forall|i: int| 0 <= i < rest.len() implies is_white_space(#[trigger] rest[i]) by {
                assert(rest[i] == text[i]);
            }
            assert(is_white_space(text[text.len() - 1]));
        }
        if blank(rest) && is_white_space(text.last()) {
            assert forall|i: int| 0 <= i < text.len() implies is_white_space(#[trigger] text[i]) by {
                if i < rest.len() {
                    assert(rest[i] == text[i]);
                }
            }
        }
    }
}

} // verus!
