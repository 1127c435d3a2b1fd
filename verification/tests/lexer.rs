use script_lexer::lexer::Lexer;
use script_lexer::token::Token;

fn ident(name: &str) -> Token {
    Token::Ident(name.to_string())
}

/// Takes tokens up to and with the first end of input.
fn drain(input: &str) -> Vec<Token> {
    let mut lexer = Lexer::new(input.to_string());
    let mut tokens = Vec::new();
    loop {
        let token = lexer.next_token();
        let done = token == Token::EOF;
        tokens.push(token);
        if done {
            return tokens;
        }
    }
}

#[test]
fn test_next_token() {
    let input = r#"
        let five = 5;
        let ten = 10;
        let add = fn(x, y) {
            x + y;
        };
        let result = add(five, ten);

        !-/*5;
        5 < 10 > 5;

        if (5 < 10) {
            return true;
        } else {
            return false;
        }

        10 == 10;
        10 != 9;
        "#
    .to_string();
    let expected = vec![
        Token::Let,
        Token::Ident("five".to_string()),
        Token::Assign,
        Token::Int(5),
        Token::Semicolon,
        Token::Let,
        Token::Ident("ten".to_string()),
        Token::Assign,
        Token::Int(10),
        Token::Semicolon,
        Token::Let,
        Token::Ident("add".to_string()),
        Token::Assign,
        Token::Function,
        Token::LParen,
        Token::Ident("x".to_string()),
        Token::Comma,
        Token::Ident("y".to_string()),
        Token::RParen,
        Token::LBrace,
        Token::Ident("x".to_string()),
        Token::Plus,
        Token::Ident("y".to_string()),
        Token::Semicolon,
        Token::RBrace,
        Token::Semicolon,
        Token::Let,
        Token::Ident("result".to_string()),
        Token::Assign,
        Token::Ident("add".to_string()),
        Token::LParen,
        Token::Ident("five".to_string()),
        Token::Comma,
        Token::Ident("ten".to_string()),
        Token::RParen,
        Token::Semicolon,
        Token::Bang,
        Token::Minus,
        Token::Slash,
        Token::Asterisk,
        Token::Int(5),
        Token::Semicolon,
        Token::Int(5),
        Token::LT,
        Token::Int(10),
        Token::GT,
        Token::Int(5),
        Token::Semicolon,
        Token::If,
        Token::LParen,
        Token::Int(5),
        Token::LT,
        Token::Int(10),
        Token::RParen,
        Token::LBrace,
        Token::Return,
        Token::True,
        Token::Semicolon,
        Token::RBrace,
        Token::Else,
        Token::LBrace,
        Token::Return,
        Token::False,
        Token::Semicolon,
        Token::RBrace,
        Token::Int(10),
        Token::EQ,
        Token::Int(10),
        Token::Semicolon,
        Token::Int(10),
        Token::NE,
        Token::Int(9),
        Token::Semicolon,
        Token::EOF,
    ];

    let mut l = Lexer::new(input.to_string());

    for test in expected {
        let tok = l.next_token();
        assert_eq!(tok, test);
    }
}

#[test]
fn signs_and_delimiters() {
    assert_eq!(
        drain("=+(){},;"),
        vec![
            Token::Assign,
            Token::Plus,
            Token::LParen,
            Token::RParen,
            Token::LBrace,
            Token::RBrace,
            Token::Comma,
            Token::Semicolon,
            Token::EOF,
        ]
    );
}

#[test]
fn let_statement() {
    assert_eq!(
        drain("let five = 5;"),
        vec![
            Token::Let,
            ident("five"),
            Token::Assign,
            Token::Int(5),
            Token::Semicolon,
            Token::EOF,
        ]
    );
}

#[test]
fn prefix_operators() {
    assert_eq!(
        drain("!-/*5;"),
        vec![
            Token::Bang,
            Token::Minus,
            Token::Slash,
            Token::Asterisk,
            Token::Int(5),
            Token::Semicolon,
            Token::EOF,
        ]
    );
}

#[test]
fn comparisons() {
    assert_eq!(
        drain("5 < 10 > 5;"),
        vec![
            Token::Int(5),
            Token::LT,
            Token::Int(10),
            Token::GT,
            Token::Int(5),
            Token::Semicolon,
            Token::EOF,
        ]
    );
}

#[test]
fn equal_and_not_equal() {
    assert_eq!(
        drain("10 == 10; 10 != 9;"),
        vec![
            Token::Int(10),
            Token::EQ,
            Token::Int(10),
            Token::Semicolon,
            Token::Int(10),
            Token::NE,
            Token::Int(9),
            Token::Semicolon,
            Token::EOF,
        ]
    );
}

#[test]
fn conditional() {
    assert_eq!(
        drain("if (5 < 10) { return true; } else { return false; }"),
        vec![
            Token::If,
            Token::LParen,
            Token::Int(5),
            Token::LT,
            Token::Int(10),
            Token::RParen,
            Token::LBrace,
            Token::Return,
            Token::True,
            Token::Semicolon,
            Token::RBrace,
            Token::Else,
            Token::LBrace,
            Token::Return,
            Token::False,
            Token::Semicolon,
            Token::RBrace,
            Token::EOF,
        ]
    );
}

#[test]
fn empty_input_is_one_end_of_input() {
    assert_eq!(drain(""), vec![Token::EOF]);
    assert_eq!(drain(" \t\r\n"), vec![Token::EOF]);
}

#[test]
fn same_input_same_tokens() {
    let input = "let x1 = 10 != y; @ fn";
    assert_eq!(drain(input), drain(input));
    assert_eq!(
        drain(input),
        vec![
            Token::Let,
            ident("x1"),
            Token::Assign,
            Token::Int(10),
            Token::NE,
            ident("y"),
            Token::Semicolon,
            Token::Illegal,
            Token::Function,
            Token::EOF,
        ]
    );
}

#[test]
fn unknown_characters_are_illegal_tokens() {
    assert_eq!(
        drain("@ $ # ? a~b"),
        vec![
            Token::Illegal,
            Token::Illegal,
            Token::Illegal,
            Token::Illegal,
            ident("a"),
            Token::Illegal,
            ident("b"),
            Token::EOF,
        ]
    );
    assert_eq!(drain("\u{e9}x"), vec![Token::Illegal, ident("x"), Token::EOF]);
    assert_eq!(drain("a\u{b}b"), vec![ident("a"), Token::Illegal, ident("b"), Token::EOF]);
}

#[test]
fn end_of_input_repeats() {
    let mut lexer = Lexer::new("x ".to_string());
    assert_eq!(lexer.next_token(), ident("x"));
    for _ in 0..5 {
        assert_eq!(lexer.next_token(), Token::EOF);
        assert_eq!(lexer.position(), 3);
        assert_eq!(lexer.current_char(), '\0');
    }
}

#[test]
fn sentinel_in_the_text_is_an_end_of_input() {
    let mut lexer = Lexer::new("a\0b".to_string());
    assert_eq!(lexer.next_token(), ident("a"));
    assert_eq!(lexer.next_token(), Token::EOF);
    assert_eq!(lexer.next_token(), ident("b"));
    assert_eq!(lexer.next_token(), Token::EOF);
    assert_eq!(lexer.next_token(), Token::EOF);
}

#[test]
fn reserved_words_are_not_identifiers() {
    assert_eq!(
        drain("fn let true false if else return"),
        vec![
            Token::Function,
            Token::Let,
            Token::True,
            Token::False,
            Token::If,
            Token::Else,
            Token::Return,
            Token::EOF,
        ]
    );
}

#[test]
fn words_near_reserved_words_are_identifiers() {
    assert_eq!(
        drain("lets iffy Let fn_ _if return1 tru"),
        vec![
            ident("lets"),
            ident("iffy"),
            ident("Let"),
            ident("fn_"),
            ident("_if"),
            ident("return1"),
            ident("tru"),
            Token::EOF,
        ]
    );
}

#[test]
fn words_hold_digits_and_underscores() {
    assert_eq!(drain("foo2"), vec![ident("foo2"), Token::EOF]);
    assert_eq!(drain("_a_1 __"), vec![ident("_a_1"), ident("__"), Token::EOF]);
    assert_eq!(drain("2foo"), vec![Token::Int(2), ident("foo"), Token::EOF]);
}

#[test]
fn assign_or_equal() {
    assert_eq!(drain("="), vec![Token::Assign, Token::EOF]);
    assert_eq!(drain("=="), vec![Token::EQ, Token::EOF]);
    assert_eq!(drain("==="), vec![Token::EQ, Token::Assign, Token::EOF]);
    assert_eq!(drain("= ="), vec![Token::Assign, Token::Assign, Token::EOF]);
    assert_eq!(drain("=a"), vec![Token::Assign, ident("a"), Token::EOF]);
    assert_eq!(drain("==a"), vec![Token::EQ, ident("a"), Token::EOF]);
    assert_eq!(drain("=!"), vec![Token::Assign, Token::Bang, Token::EOF]);
}

#[test]
fn bang_or_not_equal() {
    assert_eq!(drain("!"), vec![Token::Bang, Token::EOF]);
    assert_eq!(drain("!="), vec![Token::NE, Token::EOF]);
    assert_eq!(drain("!=="), vec![Token::NE, Token::Assign, Token::EOF]);
    assert_eq!(drain("! ="), vec![Token::Bang, Token::Assign, Token::EOF]);
    assert_eq!(drain("!!="), vec![Token::Bang, Token::NE, Token::EOF]);
    assert_eq!(drain("!=5"), vec![Token::NE, Token::Int(5), Token::EOF]);
}

#[test]
fn the_token_behind_a_pair_starts_behind_both_characters() {
    let mut lexer = Lexer::new("a==b".to_string());
    assert_eq!(lexer.next_token(), ident("a"));
    assert_eq!(lexer.position(), 1);
    assert_eq!(lexer.next_token(), Token::EQ);
    assert_eq!(lexer.position(), 3);
    assert_eq!(lexer.current_char(), '=');
    assert_eq!(lexer.next_token(), ident("b"));
    assert_eq!(lexer.position(), 4);
}

#[test]
fn blanks_between_tokens_change_nothing() {
    let tight = drain("let five=5;if(x!=y){return!true;}");
    assert_eq!(drain("let five = 5 ; if ( x != y ) { return ! true ; }"), tight);
    assert_eq!(
        drain("\n\tlet five\r\n=\x0C5;\n\n\nif(x \t !=y){return!true;}   "),
        tight
    );
    assert_eq!(
        tight,
        vec![
            Token::Let,
            ident("five"),
            Token::Assign,
            Token::Int(5),
            Token::Semicolon,
            Token::If,
            Token::LParen,
            ident("x"),
            Token::NE,
            ident("y"),
            Token::RParen,
            Token::LBrace,
            Token::Return,
            Token::Bang,
            Token::True,
            Token::Semicolon,
            Token::RBrace,
            Token::EOF,
        ]
    );
}

#[test]
fn a_run_may_end_the_input() {
    assert_eq!(drain("ab"), vec![ident("ab"), Token::EOF]);
    assert_eq!(drain("5"), vec![Token::Int(5), Token::EOF]);
    assert_eq!(drain("let five = 5"), vec![
        Token::Let,
        ident("five"),
        Token::Assign,
        Token::Int(5),
        Token::EOF,
    ]);
}

#[test]
fn integer_literals_are_decoded() {
    assert_eq!(drain("0"), vec![Token::Int(0), Token::EOF]);
    assert_eq!(drain("007"), vec![Token::Int(7), Token::EOF]);
    assert_eq!(drain("1234567890"), vec![Token::Int(1234567890), Token::EOF]);
    assert_eq!(drain("2147483647"), vec![Token::Int(i32::MAX), Token::EOF]);
    assert_eq!(drain("00000000002147483647"), vec![Token::Int(i32::MAX), Token::EOF]);
    assert_eq!(drain("-5"), vec![Token::Minus, Token::Int(5), Token::EOF]);
}

#[test]
fn an_integer_literal_too_large_has_no_token() {
    for input in ["2147483648", "  2147483648;", "99999999999999999999999", "4294967296"] {
        let mut lexer = Lexer::new(input.to_string());
        assert!(!lexer.upcoming_fits());
        assert_eq!(lexer.try_next_token(), None);
        assert_eq!(lexer.position(), 0);
        assert_eq!(lexer.current_char(), '\0');
    }
    let mut lexer = Lexer::new("a 2147483648".to_string());
    assert!(lexer.upcoming_fits());
    assert_eq!(lexer.try_next_token(), Some(ident("a")));
    assert_eq!(lexer.position(), 1);
    assert!(!lexer.upcoming_fits());
    assert_eq!(lexer.try_next_token(), None);
    assert_eq!(lexer.position(), 1);
    assert_eq!(lexer.current_char(), 'a');
}

#[test]
fn try_next_token_goes_as_next_token() {
    let input = "let x = 2147483647 == y;";
    let mut checked = Lexer::new(input.to_string());
    let mut plain = Lexer::new(input.to_string());
    for _ in 0..9 {
        assert!(checked.upcoming_fits());
        let token = plain.next_token();
        assert_eq!(checked.try_next_token(), Some(token));
        assert_eq!(checked.position(), plain.position());
        assert_eq!(checked.current_char(), plain.current_char());
    }
    assert_eq!(plain.next_token(), Token::EOF);
}

#[test]
fn a_new_lexer_has_read_nothing() {
    let lexer = Lexer::new("abc".to_string());
    assert_eq!(lexer.position(), 0);
    assert_eq!(lexer.current_char(), '\0');
    assert_eq!(lexer.peek_char(), Some('a'));
    let lexer = Lexer::new(String::new());
    assert_eq!(lexer.position(), 0);
    assert_eq!(lexer.current_char(), '\0');
    assert_eq!(lexer.peek_char(), None);
}

#[test]
fn read_char_moves_one_character_and_rests_behind_the_end() {
    let mut lexer = Lexer::new("ab".to_string());
    lexer.read_char();
    assert_eq!((lexer.position(), lexer.current_char()), (1, 'a'));
    lexer.read_char();
    assert_eq!((lexer.position(), lexer.current_char()), (2, 'b'));
    lexer.read_char();
    assert_eq!((lexer.position(), lexer.current_char()), (3, '\0'));
    lexer.read_char();
    assert_eq!((lexer.position(), lexer.current_char()), (3, '\0'));
    lexer.read_char();
    assert_eq!((lexer.position(), lexer.current_char()), (3, '\0'));
}

#[test]
fn push_back_takes_one_read_back() {
    let mut lexer = Lexer::new("ab".to_string());
    lexer.read_char();
    lexer.read_char();
    lexer.read_char();
    assert_eq!((lexer.position(), lexer.current_char()), (3, '\0'));
    lexer.push_back();
    assert_eq!((lexer.position(), lexer.current_char()), (2, 'b'));
    lexer.push_back();
    assert_eq!((lexer.position(), lexer.current_char()), (1, 'a'));
    lexer.push_back();
    assert_eq!((lexer.position(), lexer.current_char()), (0, '\0'));
    lexer.read_char();
    assert_eq!((lexer.position(), lexer.current_char()), (1, 'a'));
}

#[test]
fn peek_char_does_not_move() {
    let mut lexer = Lexer::new("=!".to_string());
    assert_eq!(lexer.peek_char(), Some('='));
    assert_eq!(lexer.peek_char(), Some('='));
    assert_eq!(lexer.position(), 0);
    lexer.read_char();
    assert_eq!(lexer.peek_char(), Some('!'));
    assert_eq!((lexer.position(), lexer.current_char()), (1, '='));
    lexer.read_char();
    assert_eq!(lexer.peek_char(), None);
    lexer.read_char();
    assert_eq!(lexer.peek_char(), None);
}

#[test]
fn skip_whitespace_stops_on_the_first_character_that_is_no_blank() {
    let mut lexer = Lexer::new(" \t\n\x0C\r x".to_string());
    lexer.skip_whitespace();
    assert_eq!((lexer.position(), lexer.current_char()), (0, '\0'));
    lexer.read_char();
    lexer.skip_whitespace();
    assert_eq!((lexer.position(), lexer.current_char()), (7, 'x'));
    lexer.skip_whitespace();
    assert_eq!((lexer.position(), lexer.current_char()), (7, 'x'));

    let mut lexer = Lexer::new("  ".to_string());
    lexer.read_char();
    lexer.skip_whitespace();
    assert_eq!((lexer.position(), lexer.current_char()), (3, '\0'));

    let mut lexer = Lexer::new(" \u{b}".to_string());
    lexer.read_char();
    lexer.skip_whitespace();
    assert_eq!((lexer.position(), lexer.current_char()), (2, '\u{b}'));
}

#[test]
fn read_consecutive_chars_reads_the_maximal_run() {
    let mut lexer = Lexer::new("123abc;".to_string());
    lexer.read_char();
    let run = lexer.read_consecutive_chars(|c: char| c.is_ascii_digit());
    assert_eq!(run, "123");
    assert_eq!((lexer.position(), lexer.current_char()), (3, '3'));
    lexer.read_char();
    let run = lexer.read_consecutive_chars(|c: char| c.is_ascii_alphanumeric() || c == '_');
    assert_eq!(run, "abc");
    assert_eq!((lexer.position(), lexer.current_char()), (6, 'c'));
    lexer.read_char();
    let run = lexer.read_consecutive_chars(|c: char| c.is_ascii_digit());
    assert_eq!(run, "");
    assert_eq!((lexer.position(), lexer.current_char()), (6, 'c'));
}

#[test]
fn read_consecutive_chars_stops_at_the_end_of_the_text() {
    let mut lexer = Lexer::new("x42".to_string());
    lexer.read_char();
    lexer.read_char();
    let run = lexer.read_consecutive_chars(script_lexer::chars::is_digit);
    assert_eq!(run, "42");
    assert_eq!((lexer.position(), lexer.current_char()), (3, '2'));
    assert_eq!(lexer.next_token(), Token::EOF);
}
