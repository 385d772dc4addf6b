//! Pieces of text: numbers in decimal, and trimming of white space.

use vstd::prelude::*;
use vstd::utf8::encode_utf8;

verus! {

/// The character that stands for a digit.
pub open spec fn digit(d: int) -> char {
    seq!['0', '1', '2', '3', '4', '5', '6', '7', '8', '9'][d]
}

/// A number written in decimal, without leading zeros.
pub open spec fn decimal(n: nat) -> Seq<char>
    decreases n,
{
    if n < 10 {
        seq![digit(n as int)]
    } else {
        decimal(n / 10).push(digit((n % 10) as int))
    }
}

/// The text of one digit.
fn digit_text(d: usize) -> (text: &'static str)
    requires
        d < 10,
    ensures
        text@ == seq![digit(d as int)],
{
    proof {
        reveal_strlit("0");
        reveal_strlit("1");
        reveal_strlit("2");
        reveal_strlit("3");
        reveal_strlit("4");
        reveal_strlit("5");
        reveal_strlit("6");
        reveal_strlit("7");
        reveal_strlit("8");
        reveal_strlit("9");
    }
    match d {
        0 => "0",
        1 => "1",
        2 => "2",
        3 => "3",
        4 => "4",
        5 => "5",
        6 => "6",
        7 => "7",
        8 => "8",
        _ => "9",
    }
}

/// Writes a number in decimal, without leading zeros.
pub fn decimal_string(n: usize) -> (text: String)
    ensures
        text@ == decimal(n as nat),
{
    let mut text = String::from_str(digit_text(n % 10));
    let mut rest: usize = n / 10;
    while rest > 0
        invariant
            decimal(n as nat) == if rest > 0 {
                decimal(rest as nat) + text@
            } else {
                text@
            },
        decreases rest,
    {
        let ghost tail = text@;
        let front = String::from_str(digit_text(rest % 10));
        text = front.concat(text.as_str());
        proof {
            let d = seq![digit((rest % 10) as int)];
            if rest >= 10 {
                assert(decimal((rest / 10) as nat).push(digit((rest % 10) as int)) + tail
                    == decimal((rest / 10) as nat) + (d + tail));
            }
        }
        rest = rest / 10;
    }
    text
}

/// Whether a character is white space, as Unicode's property `White_Space`
/// has it.
pub uninterp spec fn is_white_space(c: char) -> bool;

/// `char::is_whitespace`: its answer is the one that `is_white_space`
/// names. Which characters those are is not stated here.
pub assume_specification[ char::is_whitespace ](c: char) -> (white: bool)
    ensures
        white == is_white_space(c),
;

/// The text without the white space it begins with.
pub open spec fn trim_start(text: Seq<char>) -> Seq<char>
    decreases text.len(),
{
    if text.len() > 0 && is_white_space(text.first()) {
        trim_start(text.drop_first())
    } else {
        text
    }
}

/// The text without the white space it ends with.
pub open spec fn trim_end(text: Seq<char>) -> Seq<char>
    decreases text.len(),
{
    if text.len() > 0 && is_white_space(text.last()) {
        trim_end(text.drop_last())
    } else {
        text
    }
}

/// The text without the white space at either end.
pub open spec fn trimmed(text: Seq<char>) -> Seq<char> {
    trim_end(trim_start(text))
}

/// Where all before `from` is white space and the character at `from`, if
/// there is one, is not, trimming the start leaves what begins at `from`.
pub proof fn lemma_trim_start(text: Seq<char>, from: int)
    requires
        0 <= from <= text.len(),
        forall|k: int| 0 <= k < from ==> is_white_space(#[trigger] text[k]),
        from < text.len() ==> !is_white_space(text[from]),
    ensures
        trim_start(text) == text.subrange(from, text.len() as int),
    decreases text.len(),
{
    if from == 0 {
        assert(text.subrange(0, text.len() as int) == text);
    } else {
        let rest = text.drop_first();
        assert forall|k: int| 0 <= k < from - 1 implies is_white_space(#[trigger] rest[k]) by {
            assert(rest[k] == text[k + 1]);
        }
        lemma_trim_start(rest, from - 1);
        assert(rest.subrange(from - 1, rest.len() as int) == text.subrange(from, text.len() as int));
    }
}

/// Where all from `to` on is white space and the character before `to`, if
/// there is one, is not, trimming the end leaves what stands before `to`.
pub proof fn lemma_trim_end(text: Seq<char>, to: int)
    requires
        0 <= to <= text.len(),
        forall|k: int| to <= k < text.len() ==> is_white_space(#[trigger] text[k]),
        0 < to ==> !is_white_space(text[to - 1]),
    ensures
        trim_end(text) == text.subrange(0, to),
    decreases text.len(),
{
    if to == text.len() {
        assert(text.subrange(0, to) == text);
    } else {
        let rest = text.drop_last();
        lemma_trim_end(rest, to);
        assert(rest.subrange(0, to) == text.subrange(0, to));
    }
}

/// A text has no more characters than its encoding has bytes.
pub proof fn lemma_characters_fit(text: Seq<char>)
    ensures
        text.len() <= encode_utf8(text).len(),
    decreases text.len(),
{
    if text.len() > 0 {
        lemma_characters_fit(text.drop_first());
    }
}

/// The text without the white space at either end.
pub fn trim(text: &str) -> (kept: &str)
    ensures
        kept@ == trimmed(text@),
{
    let n = text.as_bytes().len();
    proof {
        lemma_characters_fit(text@);
    }
    let mut start: usize = 0;
    let mut end: usize = 0;
    let mut seen = false;
    let mut i: usize = 0;
    for c in it: text.chars()
        invariant
            it.seq() == text@,
            text@.len() <= n,
            i == it.index(),
            seen ==> start < end <= i,
            seen ==> !is_white_space(text@[start as int]),
            seen ==> !is_white_space(text@[end - 1]),
            seen ==> forall|k: int| 0 <= k < start ==> is_white_space(#[trigger] text@[k]),
            seen ==> forall|k: int| end <= k < i ==> is_white_space(#[trigger] text@[k]),
            !seen ==> start == 0 && end == 0,
            !seen ==> forall|k: int| 0 <= k < i ==> is_white_space(#[trigger] text@[k]),
    {
        if !c.is_whitespace() {
            if !seen {
                start = i;
                seen = true;
            }
            end = i + 1;
        }
        i += 1;
    }
    proof {
        let s = text@;
        if seen {
            lemma_trim_start(s, start as int);
            let tail = s.subrange(start as int, s.len() as int);
            lemma_trim_end(tail, end - start);
            assert(tail.subrange(0, end - start) == s.subrange(start as int, end as int));
        } else {
            lemma_trim_start(s, s.len() as int);
            assert(s.subrange(s.len() as int, s.len() as int) == s.subrange(0, 0));
        }
    }
    text.substring_char(start, end)
}

} // verus!
