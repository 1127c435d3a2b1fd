//! The parser's front: a lexer and the two tokens that the parser looks at.
use crate::ast::Program;
use crate::grammar::{first_token, next_cursor};
use crate::lexer::Lexer;
use crate::token::{Token, TokenView};
use vstd::prelude::*;

verus! {

/// A parser over the tokens of one lexer. It holds the current token and the
/// one behind it, and takes every token from the lexer in order.
pub struct Parser {
    lexer: Lexer,
    current_token: Token,
    peek_token: Token,
}

impl Parser {
    /// The lexer that the tokens come from.
    pub closed spec fn lexer(&self) -> Lexer {
        self.lexer
    }

    /// The current token.
    pub closed spec fn current(&self) -> TokenView {
        self.current_token@
    }

    /// The token behind the current one.
    pub closed spec fn peek(&self) -> TokenView {
        self.peek_token@
    }

    /// A parser over the tokens of `lexer`, with the first of them as its
    /// current token and the second as the one behind: two tokens are taken
    /// from the lexer. At the end of the input both are the end of input.
    pub fn new(lexer: Lexer) -> (parser: Parser)
        requires
            lexer.wf(),
            lexer.upcoming().fits(),
            first_token(lexer.text(), next_cursor(lexer.text(), lexer.cursor())).fits(),
        ensures
            parser.lexer().wf(),
            parser.lexer().text() == lexer.text(),
            parser.current() == lexer.upcoming(),
            parser.peek() == first_token(lexer.text(), next_cursor(lexer.text(), lexer.cursor())),
            parser.lexer().cursor() == next_cursor(
                lexer.text(),
                next_cursor(lexer.text(), lexer.cursor()),
            ),
    {
        let mut parser = Parser { lexer, current_token: Token::EOF, peek_token: Token::EOF };
        parser.next_token();
        parser.next_token();
        parser
    }

    /// A parser over the tokens of `lexer`, as `new` makes it, where `Token`
    /// can hold the first two tokens. Where one of them is an integer literal
    /// too large to decode, there is no parser.
    pub fn try_new(lexer: Lexer) -> (parser: Option<Parser>)
        requires
            lexer.wf(),
        ensures
            parser is Some <==> lexer.upcoming().fits() && first_token(
                lexer.text(),
                next_cursor(lexer.text(), lexer.cursor()),
            ).fits(),
            parser matches Some(p) ==> p.lexer().wf() && p.lexer().text() == lexer.text(),
            parser matches Some(p) ==> p.current() == lexer.upcoming(),
            parser matches Some(p) ==> p.peek() == first_token(
                lexer.text(),
                next_cursor(lexer.text(), lexer.cursor()),
            ),
            parser matches Some(p) ==> p.lexer().cursor() == next_cursor(
                lexer.text(),
                next_cursor(lexer.text(), lexer.cursor()),
            ),
    {
        let mut lexer = lexer;
        match lexer.try_next_token() {
            None => None,
            Some(current_token) => match lexer.try_next_token() {
                None => None,
                Some(peek_token) => Some(Parser { lexer, current_token, peek_token }),
            },
        }
    }

    /// The current token.
    pub fn current_token(&self) -> (token: &Token)
        ensures
            token@ == self.current(),
    {
        &self.current_token
    }

    /// The token behind the current one.
    pub fn peek_token(&self) -> (token: &Token)
        ensures
            token@ == self.peek(),
    {
        &self.peek_token
    }

    /// Moves on by one token: the token behind becomes the current one, and
    /// the next token of the lexer takes its place.
    pub fn next_token(&mut self)
        requires
            old(self).lexer().wf(),
            old(self).lexer().upcoming().fits(),
        ensures
            final(self).lexer().wf(),
            final(self).lexer().text() == old(self).lexer().text(),
            final(self).lexer().cursor() == next_cursor(
                old(self).lexer().text(),
                old(self).lexer().cursor(),
            ),
            final(self).current() == old(self).peek(),
            final(self).peek() == old(self).lexer().upcoming(),
    {
        self.current_token = self.peek_token.clone();
        self.peek_token = self.lexer.next_token();
    }

    /// Moves on by one token, as `next_token` does, where `Token` can hold
    /// the next token of the lexer, and says whether it did. Where that
    /// token is an integer literal too large to decode, the parser stays as
    /// it is.
    pub fn try_next_token(&mut self) -> (moved: bool)
        requires
            old(self).lexer().wf(),
        ensures
            final(self).lexer().wf(),
            moved == old(self).lexer().upcoming().fits(),
            !moved ==> *final(self) == *old(self),
            final(self).lexer().text() == old(self).lexer().text(),
            moved ==> final(self).lexer().cursor() == next_cursor(
                old(self).lexer().text(),
                old(self).lexer().cursor(),
            ),
            moved ==> final(self).current() == old(self).peek(),
            moved ==> final(self).peek() == old(self).lexer().upcoming(),
    {
        if self.lexer.upcoming_fits() {
            self.next_token();
            true
        } else {
            false
        }
    }

    /// Parses the program. No grammar is defined yet: there is no program
    /// for any input, and the parser stays as it is.
    pub fn parse_program(&mut self) -> (program: Option<Program>)
        ensures
            program is None,
            *final(self) == *old(self),
    {
        None
    }
}

} // verus!
