//! The token model: the closed set of lexical categories, and how a matched
//! word or digit run becomes a token.
use crate::chars::{is_digit, same_text};
use vstd::prelude::*;
use vstd::string::*;

verus! {

/// A token as a mathematical value: its category and, where it has one, its
/// payload. An identifier carries its text, an integer literal its value,
/// which here is not bounded by any machine width.
pub enum TokenView {
    Illegal,
    EOF,
    Ident(Seq<char>),
    Int(int),
    Assign,
    Plus,
    Minus,
    Bang,
    Asterisk,
    Slash,
    LT,
    GT,
    EQ,
    NE,
    Comma,
    Semicolon,
    LParen,
    RParen,
    LBrace,
    RBrace,
    Function,
    Let,
    True,
    False,
    If,
    Else,
    Return,
}

/// A lexical token.
#[derive(Debug)]
pub enum Token {
    /// A character that begins no token.
    Illegal,
    /// The end of the input.
    EOF,
    /// A name that is no reserved word.
    Ident(String),
    /// An integer literal, decoded.
    Int(i32),
    /// `=`
    Assign,
    /// `+`
    Plus,
    /// `-`
    Minus,
    /// `!`
    Bang,
    /// `*`
    Asterisk,
    /// `/`
    Slash,
    /// `<`
    LT,
    /// `>`
    GT,
    /// `==`
    EQ,
    /// `!=`
    NE,
    /// `,`
    Comma,
    /// `;`
    Semicolon,
    /// `(`
    LParen,
    /// `)`
    RParen,
    /// `{`
    LBrace,
    /// `}`
    RBrace,
    /// `fn`
    Function,
    /// `let`
    Let,
    /// `true`
    True,
    /// `false`
    False,
    /// `if`
    If,
    /// `else`
    Else,
    /// `return`
    Return,
}

impl View for Token {
    type V = TokenView;

    open spec fn view(&self) -> TokenView {
        match self {
            Token::Illegal => TokenView::Illegal,
            Token::EOF => TokenView::EOF,
            Token::Ident(name) => TokenView::Ident(name@),
            Token::Int(value) => TokenView::Int(*value as int),
            Token::Assign => TokenView::Assign,
            Token::Plus => TokenView::Plus,
            Token::Minus => TokenView::Minus,
            Token::Bang => TokenView::Bang,
            Token::Asterisk => TokenView::Asterisk,
            Token::Slash => TokenView::Slash,
            Token::LT => TokenView::LT,
            Token::GT => TokenView::GT,
            Token::EQ => TokenView::EQ,
            Token::NE => TokenView::NE,
            Token::Comma => TokenView::Comma,
            Token::Semicolon => TokenView::Semicolon,
            Token::LParen => TokenView::LParen,
            Token::RParen => TokenView::RParen,
            Token::LBrace => TokenView::LBrace,
            Token::RBrace => TokenView::RBrace,
            Token::Function => TokenView::Function,
            Token::Let => TokenView::Let,
            Token::True => TokenView::True,
            Token::False => TokenView::False,
            Token::If => TokenView::If,
            Token::Else => TokenView::Else,
            Token::Return => TokenView::Return,
        }
    }
}

impl TokenView {
    /// Whether a `Token` can hold this value: every token but an integer
    /// literal outside the range of `i32`.
    pub open spec fn fits(self) -> bool {
        self matches TokenView::Int(value) ==> i32::MIN <= value <= i32::MAX
    }
}

/// The views of a sequence of tokens, in order.
pub open spec fn views(tokens: Seq<Token>) -> Seq<TokenView> {
    tokens.map_values(|t: Token| t@)
}

/// Whether `Token` can hold every one of `tokens`.
pub open spec fn all_fit(tokens: Seq<TokenView>) -> bool {
    forall|i: int| 0 <= i < tokens.len() ==> (#[trigger] tokens[i]).fits()
}

/// Whether `shown` holds the tokens of `all` that come before the first one
/// that `Token` cannot hold, where `all` has such a one.
pub open spec fn stops_at_misfit(shown: Seq<TokenView>, all: Seq<TokenView>) -> bool {
    &&& shown.len() < all.len()
    &&& shown == all.take(shown.len() as int)
    &&& all_fit(shown)
    &&& !all[shown.len() as int].fits()
}

/// `Token` can hold the view of every token.
pub proof fn lemma_views_fit(tokens: Seq<Token>)
    ensures
        all_fit(views(tokens)),
{
    assert forall|i: int| 0 <= i < views(tokens).len() implies (#[trigger] views(
        tokens,
    )[i]).fits() by {
        assert(views(tokens)[i] == tokens[i]@);
    }
}

/// The number that the digit `c` stands for.
pub open spec fn digit_value(c: char) -> int {
    c as int - '0' as int
}

/// The number that a run of digits writes in base ten; leading zeros count
/// for nothing.
pub open spec fn decimal_value(digits: Seq<char>) -> int
    decreases digits.len(),
{
    if digits.len() == 0 {
        0
    } else {
        10 * decimal_value(digits.drop_last()) + digit_value(digits.last())
    }
}

/// A digit run: one digit or more, and nothing else.
pub open spec fn is_digit_run(s: Seq<char>) -> bool {
    s.len() > 0 && forall|i: int| 0 <= i < s.len() ==> is_digit(#[trigger] s[i])
}

/// The token that a digit run stands for.
pub open spec fn number_token(digits: Seq<char>) -> TokenView {
    TokenView::Int(decimal_value(digits))
}

/// The token that a word stands for: its own token if the word is reserved,
/// else an identifier that carries the word.
pub open spec fn word_token(word: Seq<char>) -> TokenView {
    if word == "fn"@ {
        TokenView::Function
    } else if word == "let"@ {
        TokenView::Let
    } else if word == "true"@ {
        TokenView::True
    } else if word == "false"@ {
        TokenView::False
    } else if word == "if"@ {
        TokenView::If
    } else if word == "else"@ {
        TokenView::Else
    } else if word == "return"@ {
        TokenView::Return
    } else {
        TokenView::Ident(word)
    }
}

/// A digit run is worth at least as much as each of its prefixes, and never
/// less than zero.
pub proof fn lemma_decimal_value_grows(digits: Seq<char>, n: int)
    requires
        0 <= n <= digits.len(),
        forall|i: int| 0 <= i < digits.len() ==> is_digit(#[trigger] digits[i]),
    ensures
        0 <= decimal_value(digits.take(n)) <= decimal_value(digits),
    decreases digits.len() - n,
{
    if n == digits.len() {
        assert(digits.take(n) == digits);
        lemma_decimal_value_nonnegative(digits);
    } else {
        lemma_decimal_value_grows(digits, n + 1);
        let longer = digits.take(n + 1);
        assert(longer.drop_last() == digits.take(n));
        assert(is_digit(digits[n]));
        lemma_decimal_value_nonnegative(digits.take(n));
    }
}

/// A run of digits is worth zero or more.
pub proof fn lemma_decimal_value_nonnegative(digits: Seq<char>)
    requires
        forall|i: int| 0 <= i < digits.len() ==> is_digit(#[trigger] digits[i]),
    ensures
        0 <= decimal_value(digits),
    decreases digits.len(),
{
    if digits.len() > 0 {
        lemma_decimal_value_nonnegative(digits.drop_last());
        assert(is_digit(digits[digits.len() - 1]));
    }
}

/// The number that the digit `c` stands for.
fn digit_of(c: char) -> (d: i32)
    requires
        is_digit(c),
    ensures
        d == digit_value(c),
        0 <= d <= 9,
{
    (c as u32 - '0' as u32) as i32
}

impl Token {
    /// The token of a matched word: a reserved word gives its own token, any
    /// other word an identifier that owns the text.
    pub fn from_word(word: String) -> (token: Token)
        ensures
            token@ == word_token(word@),
    {
        let text = word.as_str();
        if same_text(text, "fn") {
            Token::Function
        } else if same_text(text, "let") {
            Token::Let
        } else if same_text(text, "true") {
            Token::True
        } else if same_text(text, "false") {
            Token::False
        } else if same_text(text, "if") {
            Token::If
        } else if same_text(text, "else") {
            Token::Else
        } else if same_text(text, "return") {
            Token::Return
        } else {
            Token::Ident(word)
        }
    }

    /// The integer literal that a digit run writes, if `i32` can hold it.
    /// There is none for a text that is no digit run, and none for a run
    /// worth more than `i32::MAX`: the value is never cut down to fit.
    pub fn from_digits(digits: &str) -> (token: Option<Token>)
        ensures
            token is Some <==> is_digit_run(digits@) && decimal_value(digits@) <= i32::MAX,
            token matches Some(t) ==> t@ == number_token(digits@),
    {
        let len = digits.unicode_len();
        if len == 0 {
            return None;
        }
        let mut value: i32 = 0;
        let mut i: usize = 0;
        while i < len
            invariant
                len == digits@.len(),
                i <= len,
                forall|k: int| 0 <= k < i ==> is_digit(#[trigger] digits@[k]),
                0 <= value,
                value == decimal_value(digits@.take(i as int)),
            decreases len - i,
        {
            let c = digits.get_char(i);
            if !is_digit(c) {
                return None;
            }
            let d = digit_of(c);
            proof {
                assert(digits@.take(i + 1).drop_last() == digits@.take(i as int));
                if is_digit_run(digits@) {
                    lemma_decimal_value_grows(digits@, i + 1);
                }
            }
            if value > (i32::MAX - d) / 10 {
                return None;
            }
            value = value * 10 + d;
            i += 1;
        }
        assert(digits@.take(len as int) == digits@);
        Some(Token::Int(value))
    }
}

impl Clone for Token {
    /// A copy that is the same token: an identifier's text is copied with it.
    fn clone(&self) -> (copy: Token)
        ensures
            copy == *self,
    {
        match self {
            Token::Illegal => Token::Illegal,
            Token::EOF => Token::EOF,
            Token::Ident(name) => Token::Ident(name.clone()),
            Token::Int(value) => Token::Int(*value),
            Token::Assign => Token::Assign,
            Token::Plus => Token::Plus,
            Token::Minus => Token::Minus,
            Token::Bang => Token::Bang,
            Token::Asterisk => Token::Asterisk,
            Token::Slash => Token::Slash,
            Token::LT => Token::LT,
            Token::GT => Token::GT,
            Token::EQ => Token::EQ,
            Token::NE => Token::NE,
            Token::Comma => Token::Comma,
            Token::Semicolon => Token::Semicolon,
            Token::LParen => Token::LParen,
            Token::RParen => Token::RParen,
            Token::LBrace => Token::LBrace,
            Token::RBrace => Token::RBrace,
            Token::Function => Token::Function,
            Token::Let => Token::Let,
            Token::True => Token::True,
            Token::False => Token::False,
            Token::If => Token::If,
            Token::Else => Token::Else,
            Token::Return => Token::Return,
        }
    }
}

impl PartialEq for Token {
    /// Two tokens are equal when they are of one category and, where the
    /// category has a payload, carry equal payloads.
    fn eq(&self, other: &Token) -> (equal: bool) {
        match (self, other) {
            (Token::Illegal, Token::Illegal) => true,
            (Token::EOF, Token::EOF) => true,
            (Token::Ident(a), Token::Ident(b)) => *a == *b,
            (Token::Int(a), Token::Int(b)) => *a == *b,
            (Token::Assign, Token::Assign) => true,
            (Token::Plus, Token::Plus) => true,
            (Token::Minus, Token::Minus) => true,
            (Token::Bang, Token::Bang) => true,
            (Token::Asterisk, Token::Asterisk) => true,
            (Token::Slash, Token::Slash) => true,
            (Token::LT, Token::LT) => true,
            (Token::GT, Token::GT) => true,
            (Token::EQ, Token::EQ) => true,
            (Token::NE, Token::NE) => true,
            (Token::Comma, Token::Comma) => true,
            (Token::Semicolon, Token::Semicolon) => true,
            (Token::LParen, Token::LParen) => true,
            (Token::RParen, Token::RParen) => true,
            (Token::LBrace, Token::LBrace) => true,
            (Token::RBrace, Token::RBrace) => true,
            (Token::Function, Token::Function) => true,
            (Token::Let, Token::Let) => true,
            (Token::True, Token::True) => true,
            (Token::False, Token::False) => true,
            (Token::If, Token::If) => true,
            (Token::Else, Token::Else) => true,
            (Token::Return, Token::Return) => true,
            _ => false,
        }
    }
}

impl vstd::std_specs::cmp::PartialEqSpecImpl for Token {
    open spec fn obeys_eq_spec() -> bool {
        true
    }

    open spec fn eq_spec(&self, other: &Token) -> bool {
        self@ == other@
    }
}

impl Eq for Token {

}

} // verus!
