//! The decisions of the interactive loop: when a line ends the session, and
//! what is shown for a line that does not.
use crate::chars::{
    is_white_space, lemma_content_end_unique, lemma_run_end_unique, same_text, trimmed,
    white_spaces,
};
use crate::grammar::{lemma_next_cursor_bounds, tokens_from, tokens_of};
use crate::lexer::Lexer;
use crate::token::{all_fit, lemma_views_fit, stops_at_misfit, views, Token};
use vstd::prelude::*;
use vstd::string::*;

verus! {

/// The interactive loop's fixed settings.
pub struct Repl {
    prompt: String,
}

/// What the loop does with a line that was read.
pub enum Reply {
    /// The session is over: the loop says goodbye and stops.
    Quit,
    /// The line was cut into these tokens: the loop shows them and goes on.
    Tokens(Vec<Token>),
    /// The line holds an integer literal too large to decode. These are the
    /// tokens before it: the loop shows them, and cannot go on.
    Overflow(Vec<Token>),
}

/// Whether a line ends the session: the empty line does, which stands for
/// the end of the input, and so does a line that holds the word `exit` and
/// besides it only white space.
pub open spec fn ends_session(line: Seq<char>) -> bool {
    line.len() == 0 || trimmed(line) == "exit"@
}

impl Repl {
    /// The text that the loop shows before it reads a line.
    pub closed spec fn prompt_text(&self) -> Seq<char> {
        self.prompt@
    }

    /// The loop's settings, with the prompt `>> `.
    pub fn new() -> (repl: Repl)
        ensures
            repl.prompt_text() == ">> "@,
    {
        Repl { prompt: ">> ".to_string() }
    }

    /// The text that the loop shows before it reads a line.
    pub fn prompt(&self) -> (prompt: &str)
        ensures
            prompt@ == self.prompt_text(),
    {
        self.prompt.as_str()
    }

    /// Whether `line` ends the session.
    pub fn is_exit(line: &str) -> (exit: bool)
        ensures
            exit == ends_session(line@),
    {
        let len = line.unicode_len();
        if len == 0 {
            return true;
        }
        let mut start: usize = 0;
        while start < len && is_white_space(line.get_char(start))
            invariant
                len == line@.len(),
                start <= len,
                forall|k: int| 0 <= k < start ==> is_white_space(#[trigger] line@[k]),
            decreases len - start,
        {
            start += 1;
        }
        let mut end: usize = len;
        while end > start && is_white_space(line.get_char(end - 1))
            invariant
                len == line@.len(),
                start <= end <= len,
                forall|k: int| end <= k < len ==> is_white_space(#[trigger] line@[k]),
            decreases end,
        {
            end -= 1;
        }
        proof {
            lemma_run_end_unique(line@, white_spaces(), 0, start as int);
            if end > start {
                lemma_content_end_unique(line@, len as int, end as int);
            } else {
                lemma_content_end_unique(line@, len as int, 0);
            }
            assert(trimmed(line@) =~= line@.subrange(start as int, end as int));
        }
        same_text(line.substring_char(start, end), "exit")
    }

    /// Decides what the loop does with `line`. A line that ends the session
    /// gives `Quit`. Any other line is cut into tokens, up to its end of
    /// input: `Tokens` holds them all, unless one of them is an integer
    /// literal too large to decode, and then `Overflow` holds those before
    /// the first such literal.
    ///
    /// As for a lexer, the line must be shorter than `usize::MAX`
    /// characters.
    pub fn eval(&self, line: String) -> (reply: Reply)
        requires
            line@.len() < usize::MAX,
        ensures
            reply is Quit <==> ends_session(line@),
            reply is Tokens <==> !ends_session(line@) && all_fit(tokens_of(line@)),
            reply is Overflow <==> !ends_session(line@) && !all_fit(tokens_of(line@)),
            reply matches Reply::Tokens(tokens) ==> views(tokens@) == tokens_of(line@),
            reply matches Reply::Overflow(tokens) ==> stops_at_misfit(
                views(tokens@),
                tokens_of(line@),
            ),
    {
        if Repl::is_exit(line.as_str()) {
            return Reply::Quit;
        }
        let mut lexer = Lexer::new(line);
        let mut tokens: Vec<Token> = Vec::new();
        loop
            invariant
                lexer.wf(),
                lexer.text() == line@,
                !ends_session(line@),
                views(tokens@) + tokens_from(line@, lexer.cursor()) == tokens_of(line@),
            decreases line@.len() + 1 - lexer.cursor(),
        {
            proof {
                lemma_next_cursor_bounds(lexer.text(), lexer.cursor());
            }
            match lexer.try_next_token() {
                None => {
                    proof {
                        lemma_views_fit(tokens@);
                        assert(tokens_of(line@)[tokens.len() as int] == lexer.upcoming());
                        assert(views(tokens@) =~= tokens_of(line@).take(tokens.len() as int));
                    }
                    return Reply::Overflow(tokens);
                },
                Some(token) => {
                    if token == Token::EOF {
                        return Reply::Tokens(tokens);
                    }
                    tokens.push(token);
                },
            }
        }
    }
}

} // verus!
