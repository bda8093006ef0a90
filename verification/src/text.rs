//! Text that the library reads and writes: digits, numbers, white space and
//! comma-separated lists.

use crate::set_diff::{distinct, first_occurrences, lemma_first_occurrences_push, models, push_once};
use vstd::prelude::*;
use vstd::string::*;

verus! {

/// The digits of the bases up to sixteen, by value.
pub open spec fn digit_alphabet() -> Seq<char> {
    seq!['0', '1', '2', '3', '4', '5', '6', '7', '8', '9', 'a', 'b', 'c', 'd', 'e', 'f']
}

/// The digit that stands for `d`, for `0 <= d < 16`.
pub open spec fn digit(d: int) -> char {
    digit_alphabet()[d]
}

/// The one-character text of a digit.
pub fn digit_text(d: u8) -> (s: &'static str)
    requires
        d < 16,
    ensures
        s@ == seq![digit(d as int)],
{
    proof {
        reveal_strlit("0");
        reveal_strlit("1");
        reveal_strlit("2");
        reveal_strlit("3");
        reveal_strlit("4");
        reveal_strlit("5");
        reveal_strlit("6");
        reveal_strlit("7");
        reveal_strlit("8");
        reveal_strlit("9");
        reveal_strlit("a");
        reveal_strlit("b");
        reveal_strlit("c");
        reveal_strlit("d");
        reveal_strlit("e");
        reveal_strlit("f");
    }
    let s = match d {
        0 => "0",
        1 => "1",
        2 => "2",
        3 => "3",
        4 => "4",
        5 => "5",
        6 => "6",
        7 => "7",
        8 => "8",
        9 => "9",
        10 => "a",
        11 => "b",
        12 => "c",
        13 => "d",
        14 => "e",
        _ => "f",
    };
    assert(s@ =~= seq![digit(d as int)]);
    s
}

/// The decimal digits of a natural number, without leading zeros.
pub open spec fn decimal_digits(value: nat) -> Seq<char>
    decreases value,
{
    if value < 10 {
        seq![digit(value as int)]
    } else {
        decimal_digits(value / 10).push(digit((value % 10) as int))
    }
}

/// The decimal text of an integer: a minus sign where it is negative, then
/// its digits.
pub open spec fn decimal_text(value: int) -> Seq<char> {
    if value < 0 {
        seq!['-'] + decimal_digits((-value) as nat)
    } else {
        decimal_digits(value as nat)
    }
}

/// Appends the decimal digits of `value` to `out`.
pub fn push_decimal_digits(out: &mut String, value: u64)
    ensures
        final(out)@ == old(out)@ + decimal_digits(value as nat),
    decreases value,
{
    if value >= 10 {
        push_decimal_digits(out, value / 10);
    }
    out.append(digit_text((value % 10) as u8));
    assert(out@ =~= old(out)@ + decimal_digits(value as nat));
}

/// Appends the decimal text of `value` to `out`.
pub fn push_decimal(out: &mut String, value: i64)
    ensures
        final(out)@ == old(out)@ + decimal_text(value as int),
{
    if value < 0 {
        proof {
            reveal_strlit("-");
        }
        out.append("-");
        let magnitude: u64 = if value == i64::MIN {
            0x8000_0000_0000_0000u64
        } else {
            (-value) as u64
        };
        push_decimal_digits(out, magnitude);
        assert(out@ =~= old(out)@ + decimal_text(value as int));
    } else {
        push_decimal_digits(out, value as u64);
    }
}

/// Writes an integer in decimal.
pub fn format_decimal(value: i64) -> (text: String)
    ensures
        text@ == decimal_text(value as int),
{
    let mut text = String::new();
    push_decimal(&mut text, value);
    assert(text@ =~= decimal_text(value as int));
    text
}

/// The characters of a text, in order.
pub fn chars_of(text: &str) -> (chars: Vec<char>)
    ensures
        chars@ == text@,
{
    let mut chars: Vec<char> = Vec::new();
    let source = text.chars();
    for c in it: source
        invariant
            it.seq() == text@,
            chars@ == it.seq().take(it.index()),
    {
        chars.push(c);
        proof {
            assert(chars@ =~= it.seq().take(it.index() + 1));
        }
    }
    proof {
        assert(chars@ =~= text@);
    }
    chars
}

/// Whether a character is white space: one of the characters that Unicode
/// gives the property `White_Space`.
pub open spec fn white_space(c: char) -> bool {
    let code = c as u32;
    ||| 0x09 <= code <= 0x0d
    ||| code == 0x20
    ||| code == 0x85
    ||| code == 0xa0
    ||| code == 0x1680
    ||| 0x2000 <= code <= 0x200a
    ||| code == 0x2028
    ||| code == 0x2029
    ||| code == 0x202f
    ||| code == 0x205f
    ||| code == 0x3000
}

/// Whether a character is white space.
pub fn is_white_space(c: char) -> (yes: bool)
    ensures
        yes == white_space(c),
{
    let code = c as u32;
    (0x09 <= code && code <= 0x0d) || code == 0x20 || code == 0x85 || code == 0xa0 || code
        == 0x1680 || (0x2000 <= code && code <= 0x200a) || code == 0x2028 || code == 0x2029
        || code == 0x202f || code == 0x205f || code == 0x3000
}

/// A text without the white space at its start and at its end.
pub open spec fn trimmed(text: Seq<char>) -> Seq<char>
    decreases text.len(),
{
    if text.len() == 0 {
        text
    } else if white_space(text.first()) {
        trimmed(text.drop_first())
    } else if white_space(text.last()) {
        trimmed(text.drop_last())
    } else {
        text
    }
}

/// The trimmed text is what stands between the first and the last character
/// that is no white space.
pub proof fn lemma_trimmed_is_subrange(text: Seq<char>, from: int, to: int)
    requires
        0 <= from <= to <= text.len(),
        forall|i: int| 0 <= i < from ==> white_space(#[trigger] text[i]),
        forall|i: int| to <= i < text.len() ==> white_space(#[trigger] text[i]),
        from < to ==> !white_space(text[from]) && !white_space(text[to - 1]),
    ensures
        trimmed(text) == text.subrange(from, to),
    decreases text.len(),
{
    if text.len() == 0 {
        assert(text.subrange(from, to) =~= text);
    } else if white_space(text.first()) {
        let rest = text.drop_first();
        if from == 0 {
            assert(to == 0);
            assert forall|i: int| 0 <= i < rest.len() implies white_space(#[trigger] rest[i]) by {
                assert(rest[i] == text[i + 1]);
            }
            lemma_trimmed_is_subrange(rest, 0, 0);
            assert(rest.subrange(0, 0) =~= text.subrange(from, to));
        } else {
            assert forall|i: int| 0 <= i < from - 1 implies white_space(#[trigger] rest[i]) by {
                assert(rest[i] == text[i + 1]);
            }
            assert forall|i: int| to - 1 <= i < rest.len() implies white_space(
                #[trigger] rest[i],
            ) by {
                assert(rest[i] == text[i + 1]);
            }
            lemma_trimmed_is_subrange(rest, from - 1, to - 1);
            assert(rest.subrange(from - 1, to - 1) =~= text.subrange(from, to));
        }
    } else if white_space(text.last()) {
        let rest = text.drop_last();
        assert(from == 0);
        assert(to < text.len());
        assert forall|i: int| to <= i < rest.len() implies white_space(#[trigger] rest[i]) by {
            assert(rest[i] == text[i]);
        }
        lemma_trimmed_is_subrange(rest, from, to);
        assert(rest.subrange(from, to) =~= text.subrange(from, to));
    } else {
        assert(from == 0);
        assert(to == text.len());
        assert(text.subrange(from, to) =~= text);
    }
}

/// Finds where the trimmed part of `chars[from..to]` begins and ends.
pub fn trim_bounds(chars: &Vec<char>, from: usize, to: usize) -> (bounds: (usize, usize))
    requires
        from <= to <= chars.len(),
    ensures
        from <= bounds.0 <= bounds.1 <= to,
        chars@.subrange(bounds.0 as int, bounds.1 as int) == trimmed(
            chars@.subrange(from as int, to as int),
        ),
{
    let mut start = from;
    while start < to && is_white_space(chars[start])
        invariant
            from <= start <= to <= chars.len(),
            forall|i: int| from <= i < start ==> white_space(#[trigger] chars[i]),
        decreases to - start,
    {
        start += 1;
    }
    let mut end = to;
    while end > start && is_white_space(chars[end - 1])
        invariant
            start <= end <= to <= chars.len(),
            forall|i: int| end <= i < to ==> white_space(#[trigger] chars[i]),
        decreases end,
    {
        end -= 1;
    }
    proof {
        let piece = chars@.subrange(from as int, to as int);
        assert forall|i: int| 0 <= i < start - from implies white_space(#[trigger] piece[i]) by {
            assert(piece[i] == chars[from + i]);
        }
        assert forall|i: int| end - from <= i < piece.len() implies white_space(
            #[trigger] piece[i],
        ) by {
            assert(piece[i] == chars[from + i]);
        }
        lemma_trimmed_is_subrange(piece, start - from, end - from);
        assert(piece.subrange(start - from, end - from) =~= chars@.subrange(
            start as int,
            end as int,
        ));
    }
    (start, end)
}

/// A text without the white space at its start and at its end.
pub fn trim(text: &str) -> (result: String)
    ensures
        result@ == trimmed(text@),
{
    let chars = chars_of(text);
    let (from, to) = trim_bounds(&chars, 0, chars.len());
    proof {
        assert(chars@.subrange(0, chars.len() as int) =~= text@);
    }
    String::from_str(text.substring_char(from, to))
}

/// The pieces of a text between the occurrences of a separator: one more
/// piece than there are separators.
pub open spec fn split_on(text: Seq<char>, separator: char) -> Seq<Seq<char>>
    decreases text.len(),
{
    if text.len() == 0 {
        seq![Seq::empty()]
    } else {
        let front = split_on(text.drop_last(), separator);
        if text.last() == separator {
            front.push(Seq::empty())
        } else {
            front.drop_last().push(front.last().push(text.last()))
        }
    }
}

/// The pieces of a list, trimmed.
pub open spec fn trimmed_pieces(pieces: Seq<Seq<char>>) -> Seq<Seq<char>> {
    Seq::new(pieces.len(), |i: int| trimmed(pieces[i]))
}

/// The labels that a comma-separated list names: its pieces, trimmed.
pub open spec fn listed_labels(input: Seq<char>) -> Seq<Seq<char>> {
    trimmed_pieces(split_on(input, ','))
}

/// Reads a comma-separated list of tags. White space around a tag is
/// dropped, and a tag that is named several times is taken where it is
/// named first. A list without any text names one tag, the empty one.
pub fn parse_tags(input: &str) -> (tags: Vec<String>)
    ensures
        distinct(tags@),
        models(tags@) == first_occurrences(listed_labels(input@)),
{
    let chars = chars_of(input);
    let mut tags: Vec<String> = Vec::new();
    let mut start: usize = 0;
    let mut i: usize = 0;
    let ghost mut done: Seq<Seq<char>> = Seq::empty();
    proof {
        assert(chars@.take(0) =~= Seq::<char>::empty());
        assert(split_on(chars@.take(0), ',') =~= done.push(chars@.subrange(0, 0)));
        assert(models(tags@) =~= first_occurrences(trimmed_pieces(done)));
    }
    while i < chars.len()
        invariant
            start <= i <= chars.len(),
            chars@ == input@,
            distinct(tags@),
            split_on(chars@.take(i as int), ',') == done.push(
                chars@.subrange(start as int, i as int),
            ),
            models(tags@) == first_occurrences(trimmed_pieces(done)),
        decreases chars.len() - i,
    {
        let ghost seen = chars@.take(i as int);
        proof {
            assert(chars@.take(i + 1).drop_last() =~= seen);
            assert(chars@.take(i + 1).last() == chars[i as int]);
        }
        if chars[i] == ',' {
            let ghost piece = chars@.subrange(start as int, i as int);
            let (from, to) = trim_bounds(&chars, start, i);
            let tag = String::from_str(input.substring_char(from, to));
            proof {
                assert(trimmed_pieces(done.push(piece)) =~= trimmed_pieces(done).push(
                    trimmed(piece),
                ));
                lemma_first_occurrences_push(trimmed_pieces(done), trimmed(piece));
            }
            push_once(&mut tags, tag);
            proof {
                done = done.push(piece);
                assert(chars@.subrange(i + 1, i + 1) =~= Seq::<char>::empty());
                assert(split_on(chars@.take(i + 1), ',') =~= done.push(
                    chars@.subrange(i + 1, i + 1),
                ));
            }
            start = i + 1;
        } else {
            proof {
                let front = done.push(chars@.subrange(start as int, i as int));
                assert(front.drop_last() =~= done);
                assert(front.last().push(chars[i as int]) =~= chars@.subrange(
                    start as int,
                    i + 1,
                ));
            }
        }
        i += 1;
    }
    let ghost piece = chars@.subrange(start as int, i as int);
    let (from, to) = trim_bounds(&chars, start, i);
    let tag = String::from_str(input.substring_char(from, to));
    proof {
        assert(chars@.take(i as int) =~= input@);
        assert(trimmed_pieces(done.push(piece)) =~= trimmed_pieces(done).push(trimmed(piece)));
        lemma_first_occurrences_push(trimmed_pieces(done), trimmed(piece));
    }
    push_once(&mut tags, tag);
    tags
}

/// Whether a text ends with another.
pub open spec fn ends_with(text: Seq<char>, suffix: Seq<char>) -> bool {
    suffix.len() <= text.len() && text.subrange(text.len() - suffix.len(), text.len() as int)
        == suffix
}

/// Whether `chars` ends with `suffix`.
pub fn has_suffix(chars: &Vec<char>, suffix: &Vec<char>) -> (yes: bool)
    ensures
        yes == ends_with(chars@, suffix@),
{
    if suffix.len() > chars.len() {
        return false;
    }
    let offset = chars.len() - suffix.len();
    let mut i: usize = 0;
    while i < suffix.len()
        invariant
            i <= suffix.len(),
            offset + suffix.len() == chars.len(),
            forall|j: int| 0 <= j < i ==> chars[offset + j] == #[trigger] suffix[j],
        decreases suffix.len() - i,
    {
        if chars[offset + i] != suffix[i] {
            proof {
                assert(chars@.subrange(offset as int, chars.len() as int)[i as int] == chars[offset
                    + i]);
            }
            return false;
        }
        i += 1;
    }
    proof {
        assert(chars@.subrange(offset as int, chars.len() as int) =~= suffix@);
    }
    true
}

} // verus!
