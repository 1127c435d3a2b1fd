//! The lexer: a cursor over a source text that hands out one token per call.
use crate::chars::{
    blanks, char_at, digits, is_blank, is_digit, is_word_part, lemma_run_end,
    lemma_run_end_unique, run_end, word_parts, SENTINEL,
};
use crate::grammar::{first_token, next_cursor, token_start};
use crate::token::{Token, TokenView};
use vstd::prelude::*;
use vstd::string::*;

verus! {

/// A lexer over one source text.
///
/// Its state is the text, a cursor that marks the next character to read,
/// and the current character: the one read last.
pub struct Lexer {
    input: String,
    next_position: usize,
    current_char: char,
}

impl Lexer {
    /// The source text.
    pub closed spec fn text(&self) -> Seq<char> {
        self.input@
    }

    /// The cursor: the index of the next character to read.
    pub closed spec fn cursor(&self) -> int {
        self.next_position as int
    }

    /// The current character.
    pub closed spec fn current(&self) -> char {
        self.current_char
    }

    /// The invariant of a lexer: the cursor stands in the text or at most one
    /// past its end, and the current character is the one before the cursor,
    /// the sentinel where there is none. The text is short enough for the
    /// cursor to stand one past its end.
    pub open spec fn wf(&self) -> bool {
        &&& self.text().len() < usize::MAX
        &&& 0 <= self.cursor() <= self.text().len() + 1
        &&& self.current() == char_at(self.text(), self.cursor() - 1)
    }

    /// The token that the next call of `next_token` cuts from the text.
    pub open spec fn upcoming(&self) -> TokenView {
        first_token(self.text(), self.cursor())
    }

    /// A lexer at the start of `input`, with nothing read yet.
    ///
    /// The cursor counts in `usize` and comes to rest one past the end of
    /// the text, so the text must be shorter than `usize::MAX` characters.
    pub fn new(input: String) -> (lexer: Lexer)
        requires
            input@.len() < usize::MAX,
        ensures
            lexer.wf(),
            lexer.text() == input@,
            lexer.cursor() == 0,
            lexer.current() == SENTINEL,
    {
        Lexer { input, next_position: 0, current_char: SENTINEL }
    }

    /// The index of the next character to read.
    pub fn position(&self) -> (position: usize)
        ensures
            position == self.cursor(),
    {
        self.next_position
    }

    /// The character read last, or the sentinel.
    pub fn current_char(&self) -> (c: char)
        ensures
            c == self.current(),
    {
        self.current_char
    }

    /// Reads the character under the cursor and moves the cursor behind it.
    /// At the end of the text the sentinel is read, and the cursor comes to
    /// rest one past the end: from there on reading changes nothing.
    pub fn read_char(&mut self)
        requires
            old(self).wf(),
        ensures
            final(self).wf(),
            final(self).text() == old(self).text(),
            final(self).current() == char_at(old(self).text(), old(self).cursor()),
            final(self).cursor() == (if old(self).cursor() <= old(self).text().len() {
                old(self).cursor() + 1
            } else {
                old(self).cursor()
            }),
    {
        let len = self.input.as_str().unicode_len();
        if self.next_position >= len {
            self.current_char = SENTINEL;
        } else {
            self.current_char = self.input.as_str().get_char(self.next_position);
        }
        if self.next_position <= len {
            self.next_position += 1;
        }
    }

    /// Takes back the last read: the cursor moves one character back, and
    /// the current character is again the one before the cursor. There must
    /// be a read to take back: the cursor does not stand at the start.
    pub fn push_back(&mut self)
        requires
            old(self).wf(),
            old(self).cursor() >= 1,
        ensures
            final(self).wf(),
            final(self).text() == old(self).text(),
            final(self).cursor() == old(self).cursor() - 1,
            final(self).current() == char_at(old(self).text(), old(self).cursor() - 2),
    {
        self.next_position -= 1;
        if self.next_position == 0 {
            self.current_char = SENTINEL;
        } else {
            self.current_char = self.input.as_str().get_char(self.next_position - 1);
        }
    }

    /// The character under the cursor, if the text has one there. The lexer
    /// does not move.
    pub fn peek_char(&self) -> (next: Option<char>)
        ensures
            next == (if 0 <= self.cursor() < self.text().len() {
                Some(self.text()[self.cursor()])
            } else {
                None
            }),
    {
        if self.next_position >= self.input.as_str().unicode_len() {
            None
        } else {
            Some(self.input.as_str().get_char(self.next_position))
        }
    }

    /// Reads the maximal run of characters that `predicate` accepts and that
    /// begins with the current character, and returns it. Afterwards the
    /// cursor stands behind the run, on the first character that
    /// `predicate` refused, and the current character is the last of the
    /// run. The run is empty where `predicate` refuses the current
    /// character.
    ///
    /// A character must have been read, and `predicate` must refuse the
    /// sentinel, so that the run ends where the text does.
    pub fn read_consecutive_chars<F: Fn(char) -> bool>(&mut self, predicate: F) -> (run: String)
        requires
            old(self).wf(),
            old(self).cursor() >= 1,
            forall|c: char| call_requires(predicate, (c,)),
            !call_ensures(predicate, (SENTINEL,), true),
        ensures
            final(self).wf(),
            final(self).text() == old(self).text(),
            old(self).cursor() - 1 <= final(self).cursor() <= old(self).text().len(),
            run@ == old(self).text().subrange(old(self).cursor() - 1, final(self).cursor()),
            forall|k: int|
                old(self).cursor() - 1 <= k < final(self).cursor() ==> call_ensures(
                    predicate,
                    (#[trigger] old(self).text()[k],),
                    true,
                ),
            call_ensures(predicate, (char_at(old(self).text(), final(self).cursor()),), false),
    {
        let start = self.next_position - 1;
        while predicate(self.current_char)
            invariant
                self.wf(),
                self.text() == old(self).text(),
                start == old(self).cursor() - 1,
                start < self.cursor(),
                forall|c: char| call_requires(predicate, (c,)),
                !call_ensures(predicate, (SENTINEL,), true),
                forall|k: int|
                    start <= k < self.cursor() - 1 ==> call_ensures(
                        predicate,
                        (#[trigger] self.text()[k],),
                        true,
                    ),
            decreases self.text().len() + 1 - self.cursor(),
        {
            self.read_char();
        }
        self.push_back();
        let end = self.next_position;
        self.input.as_str().substring_char(start, end).to_string()
    }

    /// Reads on while the current character is a blank. Afterwards the
    /// current character is the first one that is no blank, at or behind the
    /// one that was current before.
    pub fn skip_whitespace(&mut self)
        requires
            old(self).wf(),
        ensures
            final(self).wf(),
            final(self).text() == old(self).text(),
            final(self).cursor() == run_end(old(self).text(), blanks(), old(self).cursor() - 1)
                + 1,
            !is_blank(final(self).current()),
    {
        while is_blank(self.current_char)
            invariant
                self.wf(),
                self.text() == old(self).text(),
                run_end(self.text(), blanks(), self.cursor() - 1) == run_end(
                    old(self).text(),
                    blanks(),
                    old(self).cursor() - 1,
                ),
            decreases self.text().len() + 1 - self.cursor(),
        {
            self.read_char();
        }
    }

    /// Cuts the next token from the text: skips the blanks before it, reads
    /// it whole, and leaves the cursor behind its last character, which is
    /// then the current character. The token and the place where the lexer
    /// comes to stand depend on the text and the cursor alone.
    ///
    /// An integer literal that `i32` cannot hold has no token: the caller
    /// keeps such a call from happening (`try_next_token` tests for it).
    pub fn next_token(&mut self) -> (token: Token)
        requires
            old(self).wf(),
            old(self).upcoming().fits(),
        ensures
            final(self).wf(),
            final(self).text() == old(self).text(),
            token@ == old(self).upcoming(),
            final(self).cursor() == next_cursor(old(self).text(), old(self).cursor()),
    {
        self.read_char();
        self.skip_whitespace();
        proof {
            lemma_run_end(self.text(), blanks(), old(self).cursor());
        }
        let ghost at = token_start(self.text(), old(self).cursor());

        match self.current_char {
            ';' => Token::Semicolon,
            '(' => Token::LParen,
            ')' => Token::RParen,
            ',' => Token::Comma,
            '+' => Token::Plus,
            '-' => Token::Minus,
            '*' => Token::Asterisk,
            '/' => Token::Slash,
            '<' => Token::LT,
            '>' => Token::GT,
            '{' => Token::LBrace,
            '}' => Token::RBrace,
            '\0' => Token::EOF,
            '=' => {
                if let Some('=') = self.peek_char() {
                    self.read_char();
                    Token::EQ
                } else {
                    Token::Assign
                }
            },
            '!' => {
                if let Some('=') = self.peek_char() {
                    self.read_char();
                    Token::NE
                } else {
                    Token::Bang
                }
            },
            '0'..='9' => {
                let number = self.read_consecutive_chars(is_digit);
                proof {
                    lemma_run_end_unique(self.text(), digits(), at, self.cursor());
                }
                match Token::from_digits(number.as_str()) {
                    Some(token) => token,
                    None => vstd::pervasive::unreached(),
                }
            },
            'a'..='z' | 'A'..='Z' | '_' => {
                let ident = self.read_consecutive_chars(is_word_part);
                proof {
                    lemma_run_end_unique(self.text(), word_parts(), at, self.cursor());
                }
                Token::from_word(ident)
            },
            _ => Token::Illegal,
        }
    }

    /// Whether the next token is one that `Token` can hold: it is, unless
    /// the text goes on with an integer literal worth more than `i32::MAX`.
    /// The lexer does not move.
    pub fn upcoming_fits(&self) -> (fits: bool)
        requires
            self.wf(),
        ensures
            fits == self.upcoming().fits(),
    {
        let text = self.input.as_str();
        let len = text.unicode_len();
        let mut at = self.next_position;
        while at < len && is_blank(text.get_char(at))
            invariant
                len == text@.len(),
                self.cursor() <= at <= len + 1,
                token_start(text@, at as int) == token_start(text@, self.cursor()),
            decreases len - at,
        {
            at += 1;
        }
        if at < len && is_digit(text.get_char(at)) {
            let mut end = at + 1;
            while end < len && is_digit(text.get_char(end))
                invariant
                    len == text@.len(),
                    at < end <= len,
                    forall|k: int| at <= k < end ==> is_digit(#[trigger] text@[k]),
                decreases len - end,
            {
                end += 1;
            }
            proof {
                lemma_run_end_unique(text@, digits(), at as int, end as int);
            }
            Token::from_digits(text.substring_char(at, end)).is_some()
        } else {
            true
        }
    }

    /// Cuts the next token from the text, as `next_token` does, where there
    /// is one. Where the text goes on with an integer literal that `i32`
    /// cannot hold, there is none, and the lexer stays as it is.
    pub fn try_next_token(&mut self) -> (token: Option<Token>)
        requires
            old(self).wf(),
        ensures
            final(self).wf(),
            final(self).text() == old(self).text(),
            token is Some <==> old(self).upcoming().fits(),
            token matches Some(t) ==> t@ == old(self).upcoming() && final(self).cursor()
                == next_cursor(old(self).text(), old(self).cursor()),
            token is None ==> *final(self) == *old(self),
    {
        if self.upcoming_fits() {
            Some(self.next_token())
        } else {
            None
        }
    }
}

} // verus!
