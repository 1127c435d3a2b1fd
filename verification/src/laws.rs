//! What holds of the lexer on every text: laws that relate its calls to one
//! another, each proved from the grammar.
use crate::chars::{
    blanks, char_at, digits, is_blank, is_digit, is_word_part, is_word_start, lemma_run_end,
    lemma_run_end_unique, run_end, word_parts, SENTINEL,
};
use crate::grammar::{
    cursor_after, first_token, is_pair_at, lemma_cursor_after_bounds, lemma_next_cursor_bounds,
    next_cursor, nth_token, sign_token, token_at, token_end, token_start, tokens_from, tokens_of,
};
use crate::lexer::Lexer;
use crate::token::{word_token, TokenView};
use vstd::prelude::*;

verus! {

/// What a lexer hands out depends on its text and its cursor, and on nothing
/// else: two lexers over the same text, at the same place, have the same
/// current character, give the same token next, and the same tokens after
/// it. So two lexers made for one text give the same tokens from first to
/// last.
pub proof fn law_same_text_same_tokens(a: Lexer, b: Lexer)
    requires
        a.wf(),
        b.wf(),
        a.text() == b.text(),
        a.cursor() == b.cursor(),
    ensures
        a.current() == b.current(),
        a.upcoming() == b.upcoming(),
        next_cursor(a.text(), a.cursor()) == next_cursor(b.text(), b.cursor()),
        forall|n: nat| nth_token(a.text(), a.cursor(), n) == nth_token(b.text(), b.cursor(), n),
        tokens_from(a.text(), a.cursor()) == tokens_from(b.text(), b.cursor()),
{
}

/// The characters that begin a token of their own kind: the sentinel, the
/// digits, the characters a word begins with, and the signs of the language.
pub open spec fn is_known(c: char) -> bool {
    c == SENTINEL || is_digit(c) || is_word_start(c) || sign_token(c) != TokenView::Illegal
}

/// A character that the language does not know is a token by itself, the
/// token `Illegal`, and no other character gives that token: words, numbers,
/// signs and the end of input never do.
pub proof fn law_unknown_characters_are_illegal(s: Seq<char>, at: int)
    ensures
        token_at(s, at) == TokenView::Illegal <==> !is_known(char_at(s, at)),
        !is_known(char_at(s, at)) ==> 0 <= at < s.len() && token_end(s, at) == at + 1,
{
}

/// Whether nothing but blanks and sentinels is left of `s` from `from` on.
pub open spec fn void_from(s: Seq<char>, from: int) -> bool {
    forall|k: int| from <= k < s.len() ==> is_blank(#[trigger] s[k]) || s[k] == SENTINEL
}

/// The end of input is final: once a lexer has handed it out, with nothing
/// but blanks and sentinels left behind the cursor, every later call hands
/// it out again. At the true end of the text nothing at all is left, and
/// there the lexer does not even move any more.
pub proof fn law_end_of_input_is_final(s: Seq<char>, cursor: int, n: nat)
    requires
        0 <= cursor <= s.len() + 1,
        first_token(s, cursor) == TokenView::EOF,
        void_from(s, next_cursor(s, cursor)),
    ensures
        nth_token(s, cursor, n) == TokenView::EOF,
        void_from(s, cursor_after(s, cursor, n)),
        cursor_after(s, cursor, n) > s.len() ==> cursor_after(s, cursor, n + 1) == cursor_after(
            s,
            cursor,
            n,
        ),
    decreases n,
{
    lemma_cursor_after_bounds(s, cursor, n);
    lemma_next_cursor_bounds(s, cursor_after(s, cursor, n));
    if n == 0 {
        lemma_run_end(s, blanks(), cursor);
        lemma_next_cursor_bounds(s, cursor);
        assert forall|k: int| cursor <= k < s.len() implies is_blank(#[trigger] s[k]) || s[k]
            == SENTINEL by {
            if k < token_start(s, cursor) {
                assert(blanks()(s[k]));
            }
        }
    } else {
        let before = cursor_after(s, cursor, (n - 1) as nat);
        law_end_of_input_is_final(s, cursor, (n - 1) as nat);
        lemma_cursor_after_bounds(s, cursor, (n - 1) as nat);
        lemma_next_cursor_bounds(s, before);
        lemma_void_gives_end_of_input(s, cursor_after(s, cursor, n));
    }
}

/// Where nothing but blanks and sentinels is left, the next token is the end
/// of input.
pub proof fn lemma_void_gives_end_of_input(s: Seq<char>, cursor: int)
    requires
        0 <= cursor <= s.len() + 1,
        void_from(s, cursor),
    ensures
        first_token(s, cursor) == TokenView::EOF,
{
    lemma_run_end(s, blanks(), cursor);
}

/// A text of blanks, and so the empty text, holds no token: from the first
/// call on, a lexer over it hands out the end of input, however often it is
/// asked.
pub proof fn law_blank_text_has_no_token(s: Seq<char>, n: nat)
    requires
        all_blank(s),
    ensures
        nth_token(s, 0, n) == TokenView::EOF,
        tokens_of(s) == Seq::<TokenView>::empty(),
{
    assert(void_from(s, 0));
    lemma_void_gives_end_of_input(s, 0);
    lemma_next_cursor_bounds(s, 0);
    law_end_of_input_is_final(s, 0, n);
}

/// The reserved words.
pub open spec fn is_reserved(word: Seq<char>) -> bool {
    ||| word == "fn"@
    ||| word == "let"@
    ||| word == "true"@
    ||| word == "false"@
    ||| word == "if"@
    ||| word == "else"@
    ||| word == "return"@
}

/// Reserved words come first: a word that is reserved gives the token of
/// that reserved word and never an identifier, and every other word gives
/// the identifier that carries it, however close to a reserved word it is.
pub proof fn law_reserved_words_come_first(word: Seq<char>)
    ensures
        word == "fn"@ ==> word_token(word) == TokenView::Function,
        word == "let"@ ==> word_token(word) == TokenView::Let,
        word == "true"@ ==> word_token(word) == TokenView::True,
        word == "false"@ ==> word_token(word) == TokenView::False,
        word == "if"@ ==> word_token(word) == TokenView::If,
        word == "else"@ ==> word_token(word) == TokenView::Else,
        word == "return"@ ==> word_token(word) == TokenView::Return,
        is_reserved(word) <==> !(word_token(word) is Ident),
        !is_reserved(word) ==> word_token(word) == TokenView::Ident(word),
{
    lemma_reserved_words_differ();
}

/// No two reserved words are the same text.
proof fn lemma_reserved_words_differ()
    ensures
        "fn"@.len() == 2 && "fn"@[0] == 'f',
        "if"@.len() == 2 && "if"@[0] == 'i',
        "let"@.len() == 3,
        "true"@.len() == 4 && "true"@[0] == 't',
        "else"@.len() == 4 && "else"@[0] == 'e',
        "false"@.len() == 5,
        "return"@.len() == 6,
{
    reveal_strlit("fn");
    reveal_strlit("let");
    reveal_strlit("true");
    reveal_strlit("false");
    reveal_strlit("if");
    reveal_strlit("else");
    reveal_strlit("return");
}

/// A word in the text is read whole before it is looked up: the token of a
/// word is that of the maximal run of word characters, so a reserved word
/// with more word characters behind it is an identifier.
pub proof fn law_words_are_read_whole(s: Seq<char>, at: int)
    requires
        0 <= at < s.len(),
        is_word_start(s[at]),
    ensures
        token_at(s, at) == word_token(s.subrange(at, token_end(s, at))),
        at < token_end(s, at) <= s.len(),
        forall|k: int| at <= k < token_end(s, at) ==> is_word_part(#[trigger] s[k]),
        !is_word_part(char_at(s, token_end(s, at))),
{
    lemma_run_end(s, word_parts(), at);
    lemma_run_end(s, word_parts(), at + 1);
    assert(run_end(s, word_parts(), at) == run_end(s, word_parts(), at + 1));
    assert forall|k: int| at <= k < token_end(s, at) implies is_word_part(#[trigger] s[k]) by {
        assert(word_parts()(s[k]));
    }
}

/// `=` and `!` are told from `==` and `!=` by the one character behind them:
/// with a `=` there the two characters are one token, and the next token
/// begins behind both; with anything else there, or nothing, the first
/// character is a token by itself.
pub proof fn law_one_or_two_characters(s: Seq<char>, at: int)
    requires
        0 <= at < s.len(),
        s[at] == '=' || s[at] == '!',
    ensures
        char_at(s, at + 1) == '=' ==> token_end(s, at) == at + 2 && token_start(
            s,
            token_end(s, at),
        ) >= at + 2,
        char_at(s, at + 1) == '=' && s[at] == '=' ==> token_at(s, at) == TokenView::EQ,
        char_at(s, at + 1) == '=' && s[at] == '!' ==> token_at(s, at) == TokenView::NE,
        char_at(s, at + 1) != '=' ==> token_end(s, at) == at + 1,
        char_at(s, at + 1) != '=' && s[at] == '=' ==> token_at(s, at) == TokenView::Assign,
        char_at(s, at + 1) != '=' && s[at] == '!' ==> token_at(s, at) == TokenView::Bang,
{
    lemma_run_end(s, blanks(), at + 2);
}

/// `s` with the characters of `gap` put in before index `at`.
pub open spec fn with_gap(s: Seq<char>, at: int, gap: Seq<char>) -> Seq<char> {
    s.subrange(0, at) + gap + s.subrange(at, s.len() as int)
}

/// Whether `gap` holds nothing but blanks.
pub open spec fn all_blank(gap: Seq<char>) -> bool {
    forall|i: int| 0 <= i < gap.len() ==> is_blank(#[trigger] gap[i])
}

/// Whether index `at` lies inside the token that a lexer at `cursor` takes
/// next: behind its first character and before its end.
pub open spec fn splits_token(s: Seq<char>, cursor: int, at: int) -> bool {
    token_start(s, cursor) < at < next_cursor(s, cursor)
}

/// Whether index `at` of `s` lies between tokens: inside none of the tokens
/// that a lexer takes from the start of `s`. Such an index lies before the
/// first character of a token, or among the blanks, or at the very end.
pub open spec fn between_tokens(s: Seq<char>, at: int) -> bool {
    forall|n: nat| !splits_token(s, #[trigger] cursor_after(s, 0, n), at)
}

/// Taking tokens never moves the cursor back.
pub proof fn lemma_cursor_after_grows(s: Seq<char>, earlier: nat, later: nat)
    requires
        earlier <= later,
    ensures
        0 <= cursor_after(s, 0, earlier) <= cursor_after(s, 0, later) <= s.len() + 1,
    decreases later,
{
    lemma_cursor_after_bounds(s, 0, earlier);
    if earlier < later {
        let before = (later - 1) as nat;
        lemma_cursor_after_grows(s, earlier, before);
        lemma_next_cursor_bounds(s, cursor_after(s, 0, before));
    }
}

/// The places where a lexer stands between two calls lie between tokens, and
/// so do the blanks that it then stands before, up to the first character of
/// the next token.
pub proof fn lemma_gaps_lie_between_tokens(s: Seq<char>, n: nat, at: int)
    requires
        cursor_after(s, 0, n) <= at <= token_start(s, cursor_after(s, 0, n)),
    ensures
        between_tokens(s, at),
{
    assert forall|k: nat| !splits_token(s, #[trigger] cursor_after(s, 0, k), at) by {
        if k < n {
            lemma_cursor_after_grows(s, k + 1, n);
        } else if k > n {
            lemma_cursor_after_grows(s, n + 1, k);
            lemma_cursor_after_bounds(s, 0, n);
            lemma_cursor_after_bounds(s, 0, k);
            lemma_next_cursor_bounds(s, cursor_after(s, 0, n));
            lemma_next_cursor_bounds(s, cursor_after(s, 0, k));
        }
    }
}

/// Whether `s` from index `a` on is the same text as `t` from index `b` on.
spec fn same_rest(s: Seq<char>, a: int, t: Seq<char>, b: int) -> bool {
    &&& 0 <= a <= s.len()
    &&& 0 <= b <= t.len()
    &&& s.len() - a == t.len() - b
    &&& forall|k: int| a <= k < s.len() ==> #[trigger] s[k] == t[k - a + b]
}

/// Whether `t` begins with the first `p` characters of `s` and goes on with
/// a blank.
spec fn same_start(s: Seq<char>, t: Seq<char>, p: int) -> bool {
    &&& 0 <= p <= s.len()
    &&& p < t.len()
    &&& forall|k: int| 0 <= k < p ==> #[trigger] t[k] == s[k]
    &&& is_blank(t[p])
}

/// In two texts with the same rest, runs that begin at matching places end
/// at matching places.
proof fn lemma_run_end_same_rest(
    s: Seq<char>,
    a: int,
    t: Seq<char>,
    b: int,
    class: spec_fn(char) -> bool,
    from: int,
)
    requires
        same_rest(s, a, t, b),
        a <= from,
    ensures
        run_end(s, class, from) - a == run_end(t, class, from - a + b) - b,
    decreases s.len() - from,
{
    if from < s.len() {
        assert(s[from] == t[from - a + b]);
        if class(s[from]) {
            lemma_run_end_same_rest(s, a, t, b, class, from + 1);
        }
    }
}

/// In two texts with the same rest, the same token begins at matching
/// places, and ends at matching places.
proof fn lemma_token_same_rest(s: Seq<char>, a: int, t: Seq<char>, b: int, at: int)
    requires
        same_rest(s, a, t, b),
        a <= at,
    ensures
        token_at(s, at) == token_at(t, at - a + b),
        token_end(s, at) - a == token_end(t, at - a + b) - b,
{
    let at2 = at - a + b;
    if at < s.len() {
        assert(s[at] == t[at2]);
    }
    if at + 1 < s.len() {
        assert(s[at + 1] == t[at2 + 1]);
    }
    lemma_run_end_same_rest(s, a, t, b, digits(), at);
    lemma_run_end_same_rest(s, a, t, b, word_parts(), at);
    lemma_run_end(s, digits(), at);
    lemma_run_end(s, word_parts(), at);
    if at < s.len() {
        assert(s.subrange(at, run_end(s, digits(), at)) =~= t.subrange(
            at2,
            run_end(t, digits(), at2),
        ));
        assert(s.subrange(at, run_end(s, word_parts(), at)) =~= t.subrange(
            at2,
            run_end(t, word_parts(), at2),
        ));
    }
}

/// In two texts with the same rest, lexers at matching places take the same
/// token and come to stand at matching places.
proof fn lemma_step_same_rest(s: Seq<char>, a: int, t: Seq<char>, b: int, cursor: int)
    requires
        same_rest(s, a, t, b),
        a <= cursor,
    ensures
        first_token(s, cursor) == first_token(t, cursor - a + b),
        next_cursor(s, cursor) - a == next_cursor(t, cursor - a + b) - b,
{
    lemma_run_end_same_rest(s, a, t, b, blanks(), cursor);
    lemma_run_end(s, blanks(), cursor);
    lemma_token_same_rest(s, a, t, b, token_start(s, cursor));
}

/// A token that ends at or before index `p` of `s` is the same token in
/// every text that begins as `s` does up to `p` and has a blank there.
proof fn lemma_step_same_start(s: Seq<char>, t: Seq<char>, p: int, cursor: int)
    requires
        same_start(s, t, p),
        0 <= cursor,
        next_cursor(s, cursor) <= p,
    ensures
        first_token(t, cursor) == first_token(s, cursor),
        next_cursor(t, cursor) == next_cursor(s, cursor),
{
    let at = token_start(s, cursor);
    lemma_run_end(s, blanks(), cursor);
    lemma_run_end(s, digits(), at);
    lemma_run_end(s, word_parts(), at);
    assert(at < p);
    assert forall|k: int| cursor <= k < at implies blanks()(#[trigger] t[k]) by {
        assert(blanks()(s[k]));
    }
    lemma_run_end_unique(t, blanks(), cursor, at);
    let c = s[at];
    assert(t[at] == c);
    if at + 1 < p {
        assert(t[at + 1] == s[at + 1]);
    }
    if is_pair_at(s, at) {
    } else if is_digit(c) {
        let end = run_end(s, digits(), at);
        assert forall|k: int| at <= k < end implies digits()(#[trigger] t[k]) by {
            assert(digits()(s[k]));
        }
        if end < p {
            assert(t[end] == s[end]);
        }
        lemma_run_end_unique(t, digits(), at, end);
        assert(s.subrange(at, end) =~= t.subrange(at, end));
    } else if is_word_start(c) {
        let end = run_end(s, word_parts(), at);
        assert forall|k: int| at <= k < end implies word_parts()(#[trigger] t[k]) by {
            assert(word_parts()(s[k]));
        }
        if end < p {
            assert(t[end] == s[end]);
        }
        lemma_run_end_unique(t, word_parts(), at, end);
        assert(s.subrange(at, end) =~= t.subrange(at, end));
    }
}

/// Where a cursor of `s` stands in `s` with a gap of `width` characters put
/// in at `at`: where it stood if that is at or before the gap, else further
/// on by the width of the gap.
spec fn moved(at: int, width: int, cursor: int) -> int {
    if cursor <= at {
        cursor
    } else {
        cursor + width
    }
}

/// One step of two lexers, one over `s` and one over `s` with blanks put in
/// at `at`: from matching places they take the same token and come to stand
/// at matching places, unless `at` lies inside the token taken.
proof fn lemma_step_with_gap(s: Seq<char>, at: int, gap: Seq<char>, cursor: int)
    requires
        0 <= at <= s.len(),
        all_blank(gap),
        0 <= cursor <= s.len() + 1,
        !splits_token(s, cursor, at),
    ensures
        first_token(with_gap(s, at, gap), moved(at, gap.len() as int, cursor)) == first_token(
            s,
            cursor,
        ),
        next_cursor(with_gap(s, at, gap), moved(at, gap.len() as int, cursor)) == moved(
            at,
            gap.len() as int,
            next_cursor(s, cursor),
        ),
{
    let t = with_gap(s, at, gap);
    let width = gap.len() as int;
    lemma_next_cursor_bounds(s, cursor);
    if width == 0 {
        assert(t =~= s);
    } else if cursor > at {
        assert(same_rest(s, at, t, at + width));
        lemma_step_same_rest(s, at, t, at + width, cursor);
    } else if next_cursor(s, cursor) <= at {
        assert(is_blank(gap[0]));
        assert(same_start(s, t, at));
        lemma_step_same_start(s, t, at, cursor);
    } else {
        // The blanks before the token hold the place of the gap.
        let start = token_start(s, cursor);
        assert(at <= start);
        lemma_run_end(s, blanks(), cursor);
        assert forall|k: int| cursor <= k < start + width implies blanks()(#[trigger] t[k]) by {
            if k < at {
                assert(blanks()(s[k]));
            } else if k < at + width {
                assert(is_blank(gap[k - at]));
            } else {
                assert(blanks()(s[k - width]));
            }
        }
        if start < s.len() {
            assert(t[start + width] == s[start]);
        }
        lemma_run_end_unique(t, blanks(), cursor, start + width);
        assert(same_rest(s, at, t, at + width));
        lemma_token_same_rest(s, at, t, at + width, start);
    }
}

/// Any number of steps of the two lexers of `lemma_step_with_gap`: as long
/// as `at` lies between tokens they keep to matching places and take the
/// same tokens.
proof fn lemma_steps_with_gap(s: Seq<char>, at: int, gap: Seq<char>, n: nat)
    requires
        0 <= at <= s.len(),
        all_blank(gap),
        between_tokens(s, at),
    ensures
        cursor_after(with_gap(s, at, gap), 0, n) == moved(
            at,
            gap.len() as int,
            cursor_after(s, 0, n),
        ),
        nth_token(with_gap(s, at, gap), 0, n) == nth_token(s, 0, n),
    decreases n,
{
    if n > 0 {
        let before = (n - 1) as nat;
        lemma_steps_with_gap(s, at, gap, before);
        lemma_cursor_after_bounds(s, 0, before);
        assert(!splits_token(s, cursor_after(s, 0, before), at));
        lemma_step_with_gap(s, at, gap, cursor_after(s, 0, before));
    }
    lemma_cursor_after_bounds(s, 0, n);
    assert(!splits_token(s, cursor_after(s, 0, n), at));
    lemma_step_with_gap(s, at, gap, cursor_after(s, 0, n));
}

/// The tokens up to the first end of input, for the two lexers of
/// `lemma_steps_with_gap` after `n` steps.
proof fn lemma_rest_with_gap(s: Seq<char>, at: int, gap: Seq<char>, n: nat)
    requires
        0 <= at <= s.len(),
        all_blank(gap),
        between_tokens(s, at),
    ensures
        tokens_from(with_gap(s, at, gap), cursor_after(with_gap(s, at, gap), 0, n))
            == tokens_from(s, cursor_after(s, 0, n)),
    decreases s.len() + 1 - cursor_after(s, 0, n),
{
    let t = with_gap(s, at, gap);
    let cursor = cursor_after(s, 0, n);
    lemma_steps_with_gap(s, at, gap, n);
    lemma_cursor_after_bounds(s, 0, n);
    lemma_cursor_after_bounds(t, 0, n);
    lemma_next_cursor_bounds(s, cursor);
    if cursor <= s.len() && first_token(s, cursor) != TokenView::EOF {
        lemma_rest_with_gap(s, at, gap, n + 1);
    }
}

/// Blanks between tokens change nothing: put in any run of spaces, tabs and
/// line ends where no token is split, and the lexer hands out the same
/// tokens, call for call. Read from right to left it says the same of
/// taking such a run out, as long as the place still lies between tokens
/// once the run is gone; the two words of `a b` do not stay two without
/// their blank.
pub proof fn law_blanks_between_tokens(s: Seq<char>, at: int, gap: Seq<char>)
    requires
        0 <= at <= s.len(),
        all_blank(gap),
        between_tokens(s, at),
    ensures
        forall|n: nat| nth_token(with_gap(s, at, gap), 0, n) == nth_token(s, 0, n),
        tokens_of(with_gap(s, at, gap)) == tokens_of(s),
{
    assert forall|n: nat| nth_token(with_gap(s, at, gap), 0, n) == nth_token(s, 0, n) by {
        lemma_steps_with_gap(s, at, gap, n);
    }
    lemma_rest_with_gap(s, at, gap, 0);
}

} // verus!
