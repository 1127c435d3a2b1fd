//! The lexical grammar: which token a text holds at a position, where that
//! token ends, and the sequence of tokens that a text is cut into.
use crate::chars::{
    blanks, char_at, digits, is_digit, is_word_start, lemma_run_end, run_end, word_parts,
    SENTINEL,
};
use crate::token::{number_token, word_token, TokenView};
use vstd::prelude::*;

verus! {

/// The token of a character that neither begins a longer token nor ends the
/// input: its own token for a sign of the language, `Illegal` for all others.
pub open spec fn sign_token(c: char) -> TokenView {
    if c == '=' {
        TokenView::Assign
    } else if c == '+' {
        TokenView::Plus
    } else if c == '-' {
        TokenView::Minus
    } else if c == '!' {
        TokenView::Bang
    } else if c == '*' {
        TokenView::Asterisk
    } else if c == '/' {
        TokenView::Slash
    } else if c == '<' {
        TokenView::LT
    } else if c == '>' {
        TokenView::GT
    } else if c == ',' {
        TokenView::Comma
    } else if c == ';' {
        TokenView::Semicolon
    } else if c == '(' {
        TokenView::LParen
    } else if c == ')' {
        TokenView::RParen
    } else if c == '{' {
        TokenView::LBrace
    } else if c == '}' {
        TokenView::RBrace
    } else {
        TokenView::Illegal
    }
}

/// Whether the two characters at `at` are `==` or `!=`.
pub open spec fn is_pair_at(s: Seq<char>, at: int) -> bool {
    (char_at(s, at) == '=' || char_at(s, at) == '!') && char_at(s, at + 1) == '='
}

/// The token that begins at index `at` of `s`, where `at` is not the index of
/// a blank. Where the text has no character, or has the sentinel, that token
/// is the end of input.
pub open spec fn token_at(s: Seq<char>, at: int) -> TokenView {
    let c = char_at(s, at);
    if c == SENTINEL {
        TokenView::EOF
    } else if is_pair_at(s, at) {
        if c == '=' {
            TokenView::EQ
        } else {
            TokenView::NE
        }
    } else if is_digit(c) {
        number_token(s.subrange(at, run_end(s, digits(), at)))
    } else if is_word_start(c) {
        word_token(s.subrange(at, run_end(s, word_parts(), at)))
    } else {
        sign_token(c)
    }
}

/// Where the cursor stands after the token that begins at `at`: behind its
/// last character. The end of input takes the cursor one past the end of the
/// text, where it rests.
pub open spec fn token_end(s: Seq<char>, at: int) -> int {
    let c = char_at(s, at);
    if at >= s.len() {
        s.len() as int + 1
    } else if is_pair_at(s, at) {
        at + 2
    } else if is_digit(c) {
        run_end(s, digits(), at)
    } else if is_word_start(c) {
        run_end(s, word_parts(), at)
    } else {
        at + 1
    }
}

/// Where the next token begins for a cursor at `cursor`: behind the blanks
/// that the cursor stands before.
pub open spec fn token_start(s: Seq<char>, cursor: int) -> int {
    run_end(s, blanks(), cursor)
}

/// The next token for a cursor at `cursor`.
pub open spec fn first_token(s: Seq<char>, cursor: int) -> TokenView {
    token_at(s, token_start(s, cursor))
}

/// Where the cursor stands once the next token was taken.
pub open spec fn next_cursor(s: Seq<char>, cursor: int) -> int {
    token_end(s, token_start(s, cursor))
}

/// Taking a token moves a cursor inside the text forward, and never beyond
/// one past the end of the text.
pub proof fn lemma_next_cursor_bounds(s: Seq<char>, cursor: int)
    requires
        0 <= cursor <= s.len() + 1,
    ensures
        cursor <= token_start(s, cursor) <= s.len() + 1,
        cursor <= s.len() ==> token_start(s, cursor) <= s.len(),
        cursor <= s.len() ==> cursor < next_cursor(s, cursor),
        token_start(s, cursor) < next_cursor(s, cursor) || next_cursor(s, cursor) == s.len() + 1,
        next_cursor(s, cursor) <= s.len() + 1,
        cursor == s.len() + 1 ==> next_cursor(s, cursor) == cursor,
{
    lemma_run_end(s, blanks(), cursor);
    let at = token_start(s, cursor);
    lemma_run_end(s, digits(), at);
    lemma_run_end(s, word_parts(), at);
    if 0 <= at < s.len() {
        if is_digit(s[at]) {
            assert(run_end(s, digits(), at) == run_end(s, digits(), at + 1));
            lemma_run_end(s, digits(), at + 1);
        } else if is_word_start(s[at]) {
            assert(run_end(s, word_parts(), at) == run_end(s, word_parts(), at + 1));
            lemma_run_end(s, word_parts(), at + 1);
        }
    }
}

/// The tokens that a lexer hands out from `cursor` on, up to the first end of
/// input, which is not among them.
pub open spec fn tokens_from(s: Seq<char>, cursor: int) -> Seq<TokenView>
    decreases s.len() + 1 - cursor,
{
    if 0 <= cursor <= s.len() && first_token(s, cursor) != TokenView::EOF {
        proof {
            lemma_next_cursor_bounds(s, cursor);
        }
        seq![first_token(s, cursor)] + tokens_from(s, next_cursor(s, cursor))
    } else {
        Seq::empty()
    }
}

/// The tokens of a text: those that a lexer hands out from its start up to
/// the first end of input.
pub open spec fn tokens_of(s: Seq<char>) -> Seq<TokenView> {
    tokens_from(s, 0)
}

/// Where the cursor of a lexer stands after `n` tokens were taken from
/// `cursor` on.
pub open spec fn cursor_after(s: Seq<char>, cursor: int, n: nat) -> int
    decreases n,
{
    if n == 0 {
        cursor
    } else {
        next_cursor(s, cursor_after(s, cursor, (n - 1) as nat))
    }
}

/// The token that the call number `n` of a lexer hands out, the calls
/// counted from 0 and the lexer at `cursor` before the first of them.
pub open spec fn nth_token(s: Seq<char>, cursor: int, n: nat) -> TokenView {
    first_token(s, cursor_after(s, cursor, n))
}

/// However many tokens were taken, the cursor has not gone back, and stands
/// in the text or one past its end.
pub proof fn lemma_cursor_after_bounds(s: Seq<char>, cursor: int, n: nat)
    requires
        0 <= cursor <= s.len() + 1,
    ensures
        cursor <= cursor_after(s, cursor, n) <= s.len() + 1,
    decreases n,
{
    if n > 0 {
        lemma_cursor_after_bounds(s, cursor, (n - 1) as nat);
        lemma_next_cursor_bounds(s, cursor_after(s, cursor, (n - 1) as nat));
    }
}

} // verus!
