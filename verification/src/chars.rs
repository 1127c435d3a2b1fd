//! Character classes of the language, and maximal runs of characters of one
//! class.
use vstd::prelude::*;
use vstd::string::*;

verus! {

/// The character that stands where no character is: before the first read and
/// at or past the end of the text.
pub const SENTINEL: char = '\0';

/// Blank characters: space, tab, line feed, form feed and carriage return.
pub open spec fn spec_is_blank(c: char) -> bool {
    c == ' ' || c == '\t' || c == '\n' || c == '\x0C' || c == '\r'
}

/// The decimal digits `0` to `9`.
pub open spec fn spec_is_digit(c: char) -> bool {
    '0' <= c <= '9'
}

/// The characters a word may begin with: the letters `a` to `z` and `A` to `Z`,
/// and the underscore.
pub open spec fn spec_is_word_start(c: char) -> bool {
    'a' <= c <= 'z' || 'A' <= c <= 'Z' || c == '_'
}

/// The characters a word may go on with: those it may begin with, and the digits.
pub open spec fn spec_is_word_part(c: char) -> bool {
    spec_is_word_start(c) || spec_is_digit(c)
}

/// Whether `c` is a blank character.
#[verifier::when_used_as_spec(spec_is_blank)]
pub fn is_blank(c: char) -> (b: bool)
    ensures
        b == spec_is_blank(c),
{
    c == ' ' || c == '\t' || c == '\n' || c == '\x0C' || c == '\r'
}

/// Whether `c` is a decimal digit.
#[verifier::when_used_as_spec(spec_is_digit)]
pub fn is_digit(c: char) -> (b: bool)
    ensures
        b == spec_is_digit(c),
{
    '0' <= c && c <= '9'
}

/// Whether a word may begin with `c`.
#[verifier::when_used_as_spec(spec_is_word_start)]
pub fn is_word_start(c: char) -> (b: bool)
    ensures
        b == spec_is_word_start(c),
{
    ('a' <= c && c <= 'z') || ('A' <= c && c <= 'Z') || c == '_'
}

/// Whether a word may go on with `c`.
#[verifier::when_used_as_spec(spec_is_word_part)]
pub fn is_word_part(c: char) -> (b: bool)
    ensures
        b == spec_is_word_part(c),
{
    is_word_start(c) || is_digit(c)
}

/// The blank characters, as a class.
pub open spec fn blanks() -> spec_fn(char) -> bool {
    |c: char| is_blank(c)
}

/// The digits, as a class.
pub open spec fn digits() -> spec_fn(char) -> bool {
    |c: char| is_digit(c)
}

/// The characters of a word, as a class.
pub open spec fn word_parts() -> spec_fn(char) -> bool {
    |c: char| is_word_part(c)
}

/// The character of `s` at index `i`, or the sentinel where `s` has none.
pub open spec fn char_at(s: Seq<char>, i: int) -> char {
    if 0 <= i < s.len() {
        s[i]
    } else {
        SENTINEL
    }
}

/// The end of the maximal run of characters of `class` that starts at `from`:
/// the first index at or after `from` at which `s` has no character of
/// `class`. Outside the text no run starts, and the result is `from`.
pub open spec fn run_end(s: Seq<char>, class: spec_fn(char) -> bool, from: int) -> int
    decreases s.len() - from,
{
    if 0 <= from < s.len() && class(s[from]) {
        run_end(s, class, from + 1)
    } else {
        from
    }
}

/// A run lies inside the text, holds only characters of its class, and is
/// maximal: it ends where the text ends or the class does.
pub proof fn lemma_run_end(s: Seq<char>, class: spec_fn(char) -> bool, from: int)
    ensures
        from <= run_end(s, class, from),
        0 <= from <= s.len() ==> run_end(s, class, from) <= s.len(),
        0 <= from ==> forall|k: int| from <= k < run_end(s, class, from) ==> class(#[trigger] s[k]),
        0 <= run_end(s, class, from) < s.len() ==> !class(s[run_end(s, class, from)]),
    decreases s.len() - from,
{
    if 0 <= from < s.len() && class(s[from]) {
        lemma_run_end(s, class, from + 1);
    }
}

/// The end of a run is the only index of which `lemma_run_end` holds: the
/// one that has the class before it, from the start of the run on, and not
/// on it.
pub proof fn lemma_run_end_unique(s: Seq<char>, class: spec_fn(char) -> bool, from: int, end: int)
    requires
        0 <= from <= end <= s.len(),
        forall|k: int| from <= k < end ==> class(#[trigger] s[k]),
        end < s.len() ==> !class(s[end]),
    ensures
        run_end(s, class, from) == end,
    decreases end - from,
{
    if from < end {
        lemma_run_end_unique(s, class, from + 1, end);
    }
}

/// White space in the sense of Unicode: the characters that trimming a line
/// takes off its ends.
pub open spec fn spec_is_white_space(c: char) -> bool {
    ||| '\u{9}' <= c <= '\u{D}'
    ||| c == ' '
    ||| c == '\u{85}'
    ||| c == '\u{A0}'
    ||| c == '\u{1680}'
    ||| '\u{2000}' <= c <= '\u{200A}'
    ||| c == '\u{2028}'
    ||| c == '\u{2029}'
    ||| c == '\u{202F}'
    ||| c == '\u{205F}'
    ||| c == '\u{3000}'
}

/// Whether `c` is white space in the sense of Unicode.
#[verifier::when_used_as_spec(spec_is_white_space)]
pub fn is_white_space(c: char) -> (b: bool)
    ensures
        b == spec_is_white_space(c),
{
    ('\u{9}' <= c && c <= '\u{D}') || c == ' ' || c == '\u{85}' || c == '\u{A0}' || c
        == '\u{1680}' || ('\u{2000}' <= c && c <= '\u{200A}') || c == '\u{2028}' || c
        == '\u{2029}' || c == '\u{202F}' || c == '\u{205F}' || c == '\u{3000}'
}

/// White space, as a class.
pub open spec fn white_spaces() -> spec_fn(char) -> bool {
    |c: char| is_white_space(c)
}

/// Where the content of the first `upto` characters of `s` ends: behind the
/// last of them that is no white space, or at 0 where all are.
pub open spec fn content_end(s: Seq<char>, upto: int) -> int
    decreases upto,
{
    if 0 < upto <= s.len() && is_white_space(s[upto - 1]) {
        content_end(s, upto - 1)
    } else {
        upto
    }
}

/// The content of a prefix ends at the one index that has only white space
/// from it on and a character that is none right before it.
pub proof fn lemma_content_end_unique(s: Seq<char>, upto: int, end: int)
    requires
        0 <= end <= upto <= s.len(),
        forall|k: int| end <= k < upto ==> is_white_space(#[trigger] s[k]),
        end > 0 ==> !is_white_space(s[end - 1]),
    ensures
        content_end(s, upto) == end,
    decreases upto - end,
{
    if end < upto {
        lemma_content_end_unique(s, upto - 1, end);
    }
}

/// A text without the white space at its two ends.
pub open spec fn trimmed(s: Seq<char>) -> Seq<char> {
    let start = run_end(s, white_spaces(), 0);
    let end = content_end(s, s.len() as int);
    if start <= end {
        s.subrange(start, end)
    } else {
        Seq::empty()
    }
}

/// Whether two strings hold the same characters.
pub fn same_text(a: &str, b: &str) -> (same: bool)
    ensures
        same == (a@ == b@),
{
    let len = a.unicode_len();
    if len != b.unicode_len() {
        return false;
    }
    let mut i: usize = 0;
    while i < len
        invariant
            len == a@.len(),
            len == b@.len(),
            i <= len,
            forall|k: int| 0 <= k < i ==> a@[k] == b@[k],
        decreases len - i,
    {
        if a.get_char(i) != b.get_char(i) {
            return false;
        }
        i += 1;
    }
    assert(a@ =~= b@);
    true
}

} // verus!
