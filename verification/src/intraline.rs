//! Differences within a line: which words of a changed line are new.
use vstd::prelude::*;
use vstd::utf8::encode_utf8;

use crate::text;
use crate::text::{byte_len, encoding_of_concatenation, is_white_space};

verus! {

/// A range of a line that changed, in bytes.
#[derive(Debug, Clone, Copy, PartialEq, Eq, Structural)]
pub struct Span {
    pub start: usize,
    pub end: usize,
}

/// Whether a character belongs to a word: an ASCII letter or digit, or an underscore.
pub open spec fn is_word(c: char) -> bool {
    ||| '0' <= c <= '9'
    ||| 'A' <= c <= 'Z'
    ||| 'a' <= c <= 'z'
    ||| c == '_'
}

/// Where the run of word characters that starts at `from` ends.
pub open spec fn word_end(text: Seq<char>, from: int) -> int
    decreases text.len() - from,
{
    if 0 <= from < text.len() && is_word(text[from]) {
        word_end(text, from + 1)
    } else {
        from
    }
}

/// Where the token that starts at `from` ends: a token is a whole run of word characters,
/// or one character of any other kind.
pub open spec fn token_end(text: Seq<char>, from: int) -> int {
    if is_word(text[from]) {
        word_end(text, from)
    } else {
        from + 1
    }
}

proof fn lemma_word_end(text: Seq<char>, from: int)
    requires
        0 <= from <= text.len(),
    ensures
        from <= word_end(text, from) <= text.len(),
        forall|i: int| from <= i < word_end(text, from) ==> is_word(#[trigger] text[i]),
        word_end(text, from) < text.len() ==> !is_word(text[word_end(text, from)]),
    decreases text.len() - from,
{
    if from < text.len() && is_word(text[from]) {
        lemma_word_end(text, from + 1);
    }
}

/// The tokens of the text from position `from` on.
pub open spec fn tokens_from(text: Seq<char>, from: int) -> Seq<Seq<char>>
    decreases text.len() - from,
{
    if 0 <= from < token_end(text, from) <= text.len() {
        seq![text.subrange(from, token_end(text, from))] + tokens_from(
            text,
            token_end(text, from),
        )
    } else {
        Seq::empty()
    }
}

/// The tokens of a text.
pub open spec fn tokens(text: Seq<char>) -> Seq<Seq<char>> {
    tokens_from(text, 0)
}

/// The texts one after the other.
pub open spec fn joined(parts: Seq<Seq<char>>) -> Seq<char>
    decreases parts.len(),
{
    if parts.len() == 0 {
        Seq::empty()
    } else {
        joined(parts.drop_last()) + parts.last()
    }
}

/// Where token number `index` starts, in bytes.
pub open spec fn offset(tokens: Seq<Seq<char>>, index: int) -> nat {
    byte_len(joined(tokens.take(index)))
}

proof fn lemma_joined_push(parts: Seq<Seq<char>>, part: Seq<char>)
    ensures
        joined(parts.push(part)) == joined(parts) + part,
{
    assert(parts.push(part).drop_last() =~= parts);
}

proof fn lemma_joined_concat(a: Seq<Seq<char>>, b: Seq<Seq<char>>)
    ensures
        joined(a + b) == joined(a) + joined(b),
    decreases b.len(),
{
    if b.len() == 0 {
        assert(a + b =~= a);
        assert(joined(a) + joined(b) =~= joined(a));
    } else {
        lemma_joined_concat(a, b.drop_last());
        assert((a + b).drop_last() =~= a + b.drop_last());
        assert(joined(a + b) =~= joined(a) + joined(b));
    }
}

proof fn lemma_tokens_from_cover(text: Seq<char>, from: int)
    requires
        0 <= from <= text.len(),
    ensures
        joined(tokens_from(text, from)) == text.skip(from),
        forall|k: int|
            0 <= k < tokens_from(text, from).len() ==> (#[trigger] tokens_from(text, from)[k]).len()
                > 0,
    decreases text.len() - from,
{
    if from < text.len() {
        lemma_word_end(text, from);
        let end = token_end(text, from);
        if is_word(text[from]) {
            lemma_word_end(text, from + 1);
        }
        lemma_tokens_from_cover(text, end);
        let first = text.subrange(from, end);
        let rest = tokens_from(text, end);
        lemma_joined_concat(seq![first], rest);
        assert(seq![first].drop_last() =~= Seq::<Seq<char>>::empty());
        assert(joined(seq![first]) =~= first) by {
            reveal_with_fuel(joined, 2);
        }
        assert(text.skip(from) =~= first + text.skip(end));
    } else {
        assert(text.skip(from) =~= Seq::empty());
    }
}

/// Cutting a text into tokens loses nothing, and no token is empty.
pub proof fn tokens_cover_the_text(text: Seq<char>)
    ensures
        joined(tokens(text)) == text,
        forall|k: int| 0 <= k < tokens(text).len() ==> (#[trigger] tokens(text)[k]).len() > 0,
{
    lemma_tokens_from_cover(text, 0);
    assert(text.skip(0) =~= text);
}

/// Whether a character is an ASCII letter, a digit or an underscore.
spec fn letter_or_digit(c: char) -> bool {
    ('a' <= c && c <= 'z') || ('A' <= c && c <= 'Z') || ('0' <= c && c <= '9') || c == '_'
}

proof fn lemma_words_stay_whole(text: Seq<char>, from: int, k: int)
    requires
        0 <= from <= text.len(),
        0 <= k < tokens_from(text, from).len(),
    ensures
        ({
            let parts = tokens_from(text, from);
            &&& parts[k].len() > 0
            &&& (forall|i: int| 0 <= i < parts[k].len() ==> letter_or_digit(#[trigger] parts[k][i]))
                || (parts[k].len() == 1 && !letter_or_digit(parts[k][0]))
            &&& k + 1 < parts.len() ==> !(letter_or_digit(parts[k].last()) && letter_or_digit(
                parts[k + 1][0],
            ))
        }),
    decreases text.len() - from,
{
    lemma_word_end(text, from);
    if from < text.len() && is_word(text[from]) {
        lemma_word_end(text, from + 1);
    }
    let end = token_end(text, from);
    let rest = tokens_from(text, end);
    if k > 0 {
        lemma_words_stay_whole(text, end, k - 1);
        assert(tokens_from(text, from)[k] == rest[k - 1]);
        if k < rest.len() {
            assert(tokens_from(text, from)[k + 1] == rest[k]);
        }
    } else {
        let first = text.subrange(from, end);
        assert forall|i: int| 0 <= i < first.len() && is_word(text[from]) implies letter_or_digit(
            #[trigger] first[i],
        ) by {
            assert(first[i] == text[from + i]);
        }
        assert(first.last() == text[end - 1]);
        if rest.len() > 0 {
            assert(tokens_from(text, from)[1] == rest[0]);
            assert(rest[0][0] == text[end]);
        }
    }
}

proof fn lemma_joined_is_flat(parts: Seq<Seq<char>>)
    ensures
        joined(parts) == parts.flatten(),
    decreases parts.len(),
{
    parts.lemma_flatten_and_flatten_alt_are_equivalent();
    if parts.len() > 0 {
        lemma_joined_is_flat(parts.drop_last());
        parts.drop_last().lemma_flatten_and_flatten_alt_are_equivalent();
    }
}

/// A line is cut between words: each token is a whole run of letters, digits and
/// underscores, or one other character, and the tokens one after the other are the line.
pub proof fn words_stay_whole(text: Seq<char>, k: int)
    requires
        0 <= k < tokens(text).len(),
    ensures
        tokens(text).flatten() == text,
        tokens(text)[k].len() > 0,
        (forall|i: int|
            0 <= i < tokens(text)[k].len() ==> ({
                let c = #[trigger] tokens(text)[k][i];
                ('a' <= c && c <= 'z') || ('A' <= c && c <= 'Z') || ('0' <= c && c <= '9') || c
                    == '_'
            })) || (tokens(text)[k].len() == 1 && ({
            let c = tokens(text)[k][0];
            !(('a' <= c && c <= 'z') || ('A' <= c && c <= 'Z') || ('0' <= c && c <= '9') || c
                == '_')
        })),
        k + 1 < tokens(text).len() ==> ({
            let (c, d) = (tokens(text)[k].last(), tokens(text)[k + 1][0]);
            !(('a' <= c && c <= 'z') || ('A' <= c && c <= 'Z') || ('0' <= c && c <= '9') || c
                == '_') || !(('a' <= d && d <= 'z') || ('A' <= d && d <= 'Z') || ('0' <= d && d
                <= '9') || d == '_')
        }),
{
    tokens_cover_the_text(text);
    lemma_joined_is_flat(tokens(text));
    lemma_words_stay_whole(text, 0, k);
    let part = tokens(text)[k];
    if forall|i: int| 0 <= i < part.len() ==> letter_or_digit(#[trigger] part[i]) {
        assert forall|i: int| 0 <= i < part.len() implies ({
            let c = #[trigger] part[i];
            ('a' <= c && c <= 'z') || ('A' <= c && c <= 'Z') || ('0' <= c && c <= '9') || c == '_'
        }) by {
            assert(letter_or_digit(part[i]));
        }
    }
}

fn in_word(c: char) -> (r: bool)
    ensures
        r == is_word(c),
{
    ('0' <= c && c <= '9') || ('A' <= c && c <= 'Z') || ('a' <= c && c <= 'z') || c == '_'
}

/// Cuts a line into tokens, each with the byte at which it starts.
///
/// Comparing by tokens reads better than comparing by characters: a renamed identifier
/// is marked as a whole, not as a few scattered letters.
pub fn tokenize(text: &str) -> (r: Vec<(usize, String)>)
    ensures
        r@.len() == tokens(text@).len(),
        forall|k: int|
            0 <= k < r@.len() ==> (#[trigger] r@[k]).1@ == tokens(text@)[k] && r@[k].0 == offset(
                tokens(text@),
                k,
            ),
{
    let ghost all = tokens(text@);
    let chars = text::chars_of(text);
    let bytes = text.as_bytes().len();
    let mut out: Vec<(usize, String)> = Vec::new();
    let ghost mut found: Seq<Seq<char>> = Seq::empty();
    let mut index: usize = 0;
    let mut start: usize = 0;
    proof {
        assert(found + tokens_from(text@, 0) =~= all);
        assert(joined(found) =~= text@.take(0));
        assert(byte_len(joined(found)) == 0);
    }
    while index < chars.len()
        invariant
            chars@ == text@,
            bytes == byte_len(text@),
            index <= chars@.len(),
            all == found + tokens_from(text@, index as int),
            joined(found) == text@.take(index as int),
            start == byte_len(joined(found)),
            out@.len() == found.len(),
            all == tokens(text@),
            forall|k: int|
                0 <= k < out@.len() ==> (#[trigger] out@[k]).1@ == found[k] && out@[k].0 == offset(
                    all,
                    k,
                ),
        decreases chars@.len() - index,
    {
        let first = index;
        let ghost rest = tokens_from(text@, first as int);
        let mut size: usize = 0;
        let word = in_word(chars[index]);
        proof {
            lemma_word_end(text@, first as int);
            if word {
                lemma_word_end(text@, first + 1);
            }
            assert(text@.subrange(first as int, first as int) =~= Seq::empty());
            lemma_piece_grows(text@, first as int, first as int);
        }
        if word {
            while index < chars.len() && in_word(chars[index])
                invariant
                    chars@ == text@,
                    bytes == byte_len(text@),
                    first <= index <= chars@.len(),
                    word_end(text@, first as int) == word_end(text@, index as int),
                    joined(found) == text@.take(first as int),
                    start == byte_len(joined(found)),
                    size == byte_len(text@.subrange(first as int, index as int)),
                    start + size <= bytes,
                decreases chars@.len() - index,
            {
                proof {
                    lemma_piece_grows(text@, first as int, index as int);
                }
                size += text::width(chars[index]);
                index += 1;
            }
        } else {
            size = text::width(chars[index]);
            index += 1;
        }
        let piece = text::text_of(&chars, first, index);
        out.push((start, piece));
        proof {
            assert(index == token_end(text@, first as int));
            let before = found;
            let part = piece@;
            assert(part == text@.subrange(first as int, index as int));
            assert(rest == seq![part] + tokens_from(text@, index as int));
            found = before.push(part);
            assert(all =~= found + tokens_from(text@, index as int));
            lemma_joined_push(before, part);
            assert(joined(found) =~= text@.take(index as int));
            encoding_of_concatenation(joined(before), part);
            assert(all.take(before.len() as int) =~= before);
        }
        start += size;
    }
    proof {
        assert(all =~= found);
    }
    out
}

/// The bytes of a piece of text grow by those of the next character, and stay within
/// those of the text.
proof fn lemma_piece_grows(text: Seq<char>, from: int, to: int)
    requires
        0 <= from <= to < text.len(),
    ensures
        byte_len(text.subrange(from, to + 1)) == byte_len(text.subrange(from, to)) + byte_len(
            seq![text[to]],
        ),
        byte_len(text.take(from)) + byte_len(text.subrange(from, to + 1)) <= byte_len(text),
{
    let piece = text.subrange(from, to);
    assert(text.subrange(from, to + 1) =~= piece + seq![text[to]]);
    encoding_of_concatenation(piece, seq![text[to]]);
    let longer = text.subrange(from, to + 1);
    encoding_of_concatenation(text.take(from), longer);
    encoding_of_concatenation(text.take(from) + longer, text.skip(to + 1));
    assert(text.take(from) + longer + text.skip(to + 1) =~= text);
}

/// The number of tokens that two lines have in common at the start.
pub open spec fn common_start(a: Seq<Seq<char>>, b: Seq<Seq<char>>) -> nat
    decreases a.len(),
{
    if a.len() > 0 && b.len() > 0 && a[0] == b[0] {
        1 + common_start(a.drop_first(), b.drop_first())
    } else {
        0
    }
}

/// The number of tokens that two lines have in common at the end.
pub open spec fn common_end(a: Seq<Seq<char>>, b: Seq<Seq<char>>) -> nat
    decreases a.len(),
{
    if a.len() > 0 && b.len() > 0 && a.last() == b.last() {
        1 + common_end(a.drop_last(), b.drop_last())
    } else {
        0
    }
}

/// The number of tokens in common at the end, once those in common at the start are
/// taken off.
pub open spec fn common_rest(a: Seq<Seq<char>>, b: Seq<Seq<char>>) -> nat {
    let start = common_start(a, b);
    common_end(a.skip(start as int), b.skip(start as int))
}

/// The range between `start` tokens at the start and `end` tokens at the end, if any.
pub open spec fn span_between(tokens: Seq<Seq<char>>, start: nat, end: nat) -> Seq<Span> {
    if start + end >= tokens.len() {
        Seq::empty()
    } else {
        seq![
            Span {
                start: offset(tokens, start as int) as usize,
                end: offset(tokens, tokens.len() - end) as usize,
            },
        ]
    }
}

/// The changed ranges of a line, compared with another version of it.
pub open spec fn spans_of(line: Seq<char>, other: Seq<char>) -> Seq<Span> {
    span_between(
        tokens(line),
        common_start(tokens(line), tokens(other)),
        common_rest(tokens(line), tokens(other)),
    )
}

proof fn lemma_common_start(a: Seq<Seq<char>>, b: Seq<Seq<char>>)
    ensures
        common_start(a, b) == common_start(b, a),
        common_start(a, b) <= a.len(),
        common_start(a, b) <= b.len(),
        a.take(common_start(a, b) as int) == b.take(common_start(a, b) as int),
    decreases a.len(),
{
    let n = common_start(a, b) as int;
    if a.len() > 0 && b.len() > 0 && a[0] == b[0] {
        lemma_common_start(a.drop_first(), b.drop_first());
        assert(a.take(n) =~= seq![a[0]] + a.drop_first().take(n - 1));
        assert(b.take(n) =~= seq![b[0]] + b.drop_first().take(n - 1));
    } else {
        assert(a.take(n) =~= b.take(n));
    }
}

proof fn lemma_common_end(a: Seq<Seq<char>>, b: Seq<Seq<char>>)
    ensures
        common_end(a, b) == common_end(b, a),
        common_end(a, b) <= a.len(),
        common_end(a, b) <= b.len(),
        a.skip(a.len() - common_end(a, b)) == b.skip(b.len() - common_end(a, b)),
    decreases a.len(),
{
    let n = common_end(a, b) as int;
    if a.len() > 0 && b.len() > 0 && a.last() == b.last() {
        lemma_common_end(a.drop_last(), b.drop_last());
        let m = n - 1;
        assert(a.skip(a.len() - n) =~= a.drop_last().skip(a.len() - 1 - m).push(a.last()));
        assert(b.skip(b.len() - n) =~= b.drop_last().skip(b.len() - 1 - m).push(b.last()));
    } else {
        assert(a.skip(a.len() - n) =~= b.skip(b.len() - n));
    }
}

/// What the two counts of common tokens mean.
proof fn lemma_common(a: Seq<Seq<char>>, b: Seq<Seq<char>>)
    ensures
        common_start(a, b) == common_start(b, a),
        common_rest(a, b) == common_rest(b, a),
        common_start(a, b) + common_rest(a, b) <= a.len(),
        common_start(a, b) + common_rest(a, b) <= b.len(),
        a.take(common_start(a, b) as int) == b.take(common_start(a, b) as int),
        a.skip(a.len() - common_rest(a, b)) == b.skip(b.len() - common_rest(a, b)),
{
    let start = common_start(a, b) as int;
    let end = common_rest(a, b) as int;
    lemma_common_start(a, b);
    lemma_common_end(a.skip(start), b.skip(start));
    assert(a.skip(start).skip(a.skip(start).len() - end) =~= a.skip(a.len() - end));
    assert(b.skip(start).skip(b.skip(start).len() - end) =~= b.skip(b.len() - end));
}

/// The changed ranges of the two versions of a line.
///
/// What the versions have in common at the start and at the end is taken off; what is
/// left between is the change. This is far cheaper than a longest common subsequence,
/// and as good where one word was changed.
#[verifier::spinoff_prover]
pub fn changed_spans(old: &str, new: &str) -> (r: (Vec<Span>, Vec<Span>))
    ensures
        r.0@ == spans_of(old@, new@),
        r.1@ == spans_of(new@, old@),
{
    let ghost a = tokens(old@);
    let ghost b = tokens(new@);
    let old_tokens = tokenize(old);
    let new_tokens = tokenize(new);
    let mut prefix: usize = 0;
    assert(a.skip(0) =~= a);
    assert(b.skip(0) =~= b);
    while prefix < old_tokens.len() && prefix < new_tokens.len() && text::same(
        old_tokens[prefix].1.as_str(),
        new_tokens[prefix].1.as_str(),
    )
        invariant
            old_tokens@.len() == a.len(),
            new_tokens@.len() == b.len(),
            forall|k: int| 0 <= k < a.len() ==> (#[trigger] old_tokens@[k]).1@ == a[k],
            forall|k: int| 0 <= k < b.len() ==> (#[trigger] new_tokens@[k]).1@ == b[k],
            prefix <= a.len(),
            prefix <= b.len(),
            common_start(a, b) == prefix + common_start(a.skip(prefix as int), b.skip(prefix as int)),
        decreases a.len() - prefix,
    {
        proof {
            assert(a.skip(prefix as int)[0] == a[prefix as int]);
            assert(b.skip(prefix as int)[0] == b[prefix as int]);
            assert(a.skip(prefix as int).drop_first() =~= a.skip(prefix + 1));
            assert(b.skip(prefix as int).drop_first() =~= b.skip(prefix + 1));
        }
        prefix += 1;
    }
    let ghost left = a.skip(prefix as int);
    let ghost right = b.skip(prefix as int);
    proof {
        assert(prefix == common_start(a, b)) by {
            if prefix < a.len() && prefix < b.len() {
                assert(left[0] == a[prefix as int]);
                assert(right[0] == b[prefix as int]);
            }
        }
        assert(left.take(left.len() as int) =~= left);
        assert(right.take(right.len() as int) =~= right);
    }
    let mut suffix: usize = 0;
    while suffix < old_tokens.len() - prefix && suffix < new_tokens.len() - prefix && text::same(
        old_tokens[old_tokens.len() - 1 - suffix].1.as_str(),
        new_tokens[new_tokens.len() - 1 - suffix].1.as_str(),
    )
        invariant
            old_tokens@.len() == a.len(),
            new_tokens@.len() == b.len(),
            forall|k: int| 0 <= k < a.len() ==> (#[trigger] old_tokens@[k]).1@ == a[k],
            forall|k: int| 0 <= k < b.len() ==> (#[trigger] new_tokens@[k]).1@ == b[k],
            prefix <= a.len(),
            prefix <= b.len(),
            left == a.skip(prefix as int),
            right == b.skip(prefix as int),
            suffix <= left.len(),
            suffix <= right.len(),
            common_end(left, right) == suffix + common_end(
                left.take(left.len() - suffix),
                right.take(right.len() - suffix),
            ),
        decreases left.len() - suffix,
    {
        proof {
            let l = left.take(left.len() - suffix);
            let r = right.take(right.len() - suffix);
            assert(l.last() == a[a.len() - 1 - suffix]);
            assert(r.last() == b[b.len() - 1 - suffix]);
            assert(l.drop_last() =~= left.take(left.len() - suffix - 1));
            assert(r.drop_last() =~= right.take(right.len() - suffix - 1));
        }
        suffix += 1;
    }
    proof {
        assert(suffix == common_end(left, right)) by {
            if suffix < left.len() && suffix < right.len() {
                let l = left.take(left.len() - suffix);
                let r = right.take(right.len() - suffix);
                assert(l.last() == a[a.len() - 1 - suffix]);
                assert(r.last() == b[b.len() - 1 - suffix]);
            }
        }
        lemma_common(a, b);
        tokens_cover_the_text(old@);
        tokens_cover_the_text(new@);
    }
    (
        middle_span(&old_tokens, prefix, suffix, old),
        middle_span(&new_tokens, prefix, suffix, new),
    )
}

fn middle_span(
    tokens: &Vec<(usize, String)>,
    prefix: usize,
    suffix: usize,
    text: &str,
) -> (r: Vec<Span>)
    requires
        tokens@.len() == self::tokens(text@).len(),
        forall|k: int|
            0 <= k < tokens@.len() ==> (#[trigger] tokens@[k]).0 == offset(self::tokens(text@), k),
        prefix + suffix <= tokens@.len(),
    ensures
        r@ == span_between(self::tokens(text@), prefix as nat, suffix as nat),
{
    let ghost all = self::tokens(text@);
    if suffix >= tokens.len() - prefix {
        return Vec::new();
    }
    let start = tokens[prefix].0;
    let end = if suffix == 0 {
        proof {
            assert(all.take(all.len() as int) =~= all);
            tokens_cover_the_text(text@);
        }
        text.as_bytes().len()
    } else {
        tokens[tokens.len() - suffix].0
    };
    let mut out: Vec<Span> = Vec::new();
    out.push(Span { start, end });
    assert(out@ =~= span_between(all, prefix as nat, suffix as nat));
    out
}

/// Outside the changed ranges the two versions of a line agree, and the ranges lie within
/// the lines. Neither line has a changed range exactly if the lines are the same.
pub proof fn spans_cover_the_change(old: Seq<char>, new: Seq<char>)
    requires
        byte_len(old) <= usize::MAX,
        byte_len(new) <= usize::MAX,
    ensures
        exists|start: Seq<char>, end: Seq<char>, a: Seq<char>, b: Seq<char>|
            old == #[trigger] (start + a + end) && new == #[trigger] (start + b + end)
                && spans_of(old, new) == (if a.len() == 0 {
                Seq::empty()
            } else {
                seq![
                    Span {
                        start: byte_len(start) as usize,
                        end: byte_len(start + a) as usize,
                    },
                ]
            }) && spans_of(new, old) == (if b.len() == 0 {
                Seq::empty()
            } else {
                seq![
                    Span {
                        start: byte_len(start) as usize,
                        end: byte_len(start + b) as usize,
                    },
                ]
            }),
        spans_of(old, new).len() == 0 && spans_of(new, old).len() == 0 <==> old == new,
{
    let s = tokens(old);
    let t = tokens(new);
    lemma_common(s, t);
    tokens_cover_the_text(old);
    tokens_cover_the_text(new);
    let p = common_start(s, t) as int;
    let q = common_rest(s, t) as int;
    let start = joined(s.take(p));
    let end = joined(s.skip(s.len() - q));
    let a = joined(s.subrange(p, s.len() - q));
    let b = joined(t.subrange(p, t.len() - q));
    lemma_middle(s, p, q);
    lemma_middle(t, p, q);
    assert(old == start + a + end);
    assert(new == start + b + end);
    if old == new {
        lemma_common_start_of_same(s);
    }
    if a.len() == 0 && b.len() == 0 {
        assert(start + a + end =~= start + b + end);
    }
}

proof fn lemma_common_start_ends(a: Seq<Seq<char>>, b: Seq<Seq<char>>)
    ensures
        common_start(a, b) <= a.len(),
        common_start(a, b) <= b.len(),
        common_start(a, b) == a.len() || common_start(a, b) == b.len() || a[common_start(
            a,
            b,
        ) as int] != b[common_start(a, b) as int],
    decreases a.len(),
{
    if a.len() > 0 && b.len() > 0 && a[0] == b[0] {
        lemma_common_start_ends(a.drop_first(), b.drop_first());
    }
}

proof fn lemma_common_end_ends(a: Seq<Seq<char>>, b: Seq<Seq<char>>)
    ensures
        common_end(a, b) <= a.len(),
        common_end(a, b) <= b.len(),
        common_end(a, b) == a.len() || common_end(a, b) == b.len() || a[a.len() - 1 - common_end(
            a,
            b,
        )] != b[b.len() - 1 - common_end(a, b)],
    decreases a.len(),
{
    if a.len() > 0 && b.len() > 0 && a.last() == b.last() {
        lemma_common_end_ends(a.drop_last(), b.drop_last());
    }
}

/// Nothing but the change is marked: of the tokens of the two lines, `start` at the start
/// and `end` at the end are the same, no more of them are, and the range between is what is
/// marked.
pub proof fn only_the_change_is_marked(old: Seq<char>, new: Seq<char>)
    ensures
        exists|start: nat, end: nat|
            #![trigger tokens(old).take(start as int), tokens(new).take(end as int)]
            {
                let (s, t) = (tokens(old), tokens(new));
                &&& start + end <= s.len()
                &&& start + end <= t.len()
                &&& s.take(start as int) == t.take(start as int)
                &&& s.skip(s.len() - end) == t.skip(t.len() - end)
                &&& start == s.len() || start == t.len() || s[start as int] != t[start as int]
                &&& start + end == s.len() || start + end == t.len() || s[s.len() - 1 - end]
                    != t[t.len() - 1 - end]
                &&& spans_of(old, new) == if start + end == s.len() {
                    Seq::<Span>::empty()
                } else {
                    seq![
                        Span {
                            start: encode_utf8(s.take(start as int).flatten()).len() as usize,
                            end: encode_utf8(s.take(s.len() - end).flatten()).len() as usize,
                        },
                    ]
                }
            },
{
    let (s, t) = (tokens(old), tokens(new));
    lemma_common(s, t);
    let start = common_start(s, t);
    let end = common_rest(s, t);
    lemma_common_start_ends(s, t);
    lemma_common_end_ends(s.skip(start as int), t.skip(start as int));
    lemma_joined_is_flat(s.take(start as int));
    lemma_joined_is_flat(s.take(s.len() - end));
    assert(s.take(start as int) == t.take(start as int));
    assert(t.take(end as int) == t.take(end as int));
}

proof fn lemma_common_start_of_same(s: Seq<Seq<char>>)
    ensures
        common_start(s, s) == s.len(),
    decreases s.len(),
{
    if s.len() > 0 {
        lemma_common_start_of_same(s.drop_first());
    }
}

proof fn lemma_middle(s: Seq<Seq<char>>, p: int, q: int)
    requires
        0 <= p,
        0 <= q,
        p + q <= s.len(),
        forall|k: int| 0 <= k < s.len() ==> (#[trigger] s[k]).len() > 0,
    ensures
        joined(s) == joined(s.take(p)) + joined(s.subrange(p, s.len() - q)) + joined(
            s.skip(s.len() - q),
        ),
        joined(s.take(s.len() - q)) == joined(s.take(p)) + joined(s.subrange(p, s.len() - q)),
        joined(s.subrange(p, s.len() - q)).len() == 0 <==> p + q == s.len(),
{
    let middle = s.subrange(p, s.len() - q);
    lemma_joined_concat(s.take(p), middle);
    assert(s.take(p) + middle =~= s.take(s.len() - q));
    lemma_joined_concat(s.take(s.len() - q), s.skip(s.len() - q));
    assert(s.take(s.len() - q) + s.skip(s.len() - q) =~= s);
    if middle.len() > 0 {
        assert(middle.last() == s[s.len() - q - 1]);
    }
}

/// A text without its white space.
pub open spec fn without_white_space(text: Seq<char>) -> Seq<char> {
    text.filter(|c: char| !is_white_space(c))
}

fn dense(text: &str) -> (r: String)
    ensures
        r@ == without_white_space(text@),
{
    let ghost visible = |c: char| !is_white_space(c);
    let mut out = String::new();
    proof {
        reveal(Seq::filter);
    }
    for c in rest: text.chars()
        invariant
            rest.seq() == text@,
            visible == (|c: char| !is_white_space(c)),
            out@ == text@.take(rest.index() as int).filter(visible),
    {
        proof {
            reveal(Seq::filter);
            let longer = text@.take(rest.index() + 1);
            assert(longer.drop_last() =~= text@.take(rest.index() as int));
            assert(longer.last() == c);
        }
        if !c.is_whitespace() {
            out.push(c);
        }
    }
    assert(text@.take(text@.len() as int) =~= text@);
    out
}

/// Whether two versions of a line differ in nothing but white space.
pub fn is_whitespace_only_change(old: &str, new: &str) -> (r: bool)
    ensures
        r == (without_white_space(old@) == without_white_space(new@)),
{
    let left = dense(old);
    let right = dense(new);
    text::same(left.as_str(), right.as_str())
}

} // verus!
