//! The lexer of the command language.
//!
//! A command string is cut into tokens one character at a time. Seven
//! characters open a delimited form; every other character is a command of
//! its own. The lexer never fails: a form that the input ends before closing
//! yields what was read of it.

use vstd::prelude::*;
use std::collections::VecDeque;
use crate::number::{parse_i32, parse_int};
use crate::text::{chars_of, string_push};
pub use crate::token::{extract_argument, extract_integer, extract_var, Token, TokenView};

verus! {

/// The character that stands for `c` behind a backslash: `n` gives a
/// newline, any other character itself.
pub open spec fn unescape(c: char) -> char {
    if c == 'n' {
        '\n'
    } else {
        c
    }
}

/// Reads up to the first `close`: the text before it, and what follows it.
/// Without a `close` the whole of `s` is the text.
pub open spec fn scan_until(s: Seq<char>, close: char) -> (Seq<char>, Seq<char>)
    decreases s.len(),
{
    if s.len() == 0 {
        (seq![], seq![])
    } else if s[0] == close {
        (seq![], s.drop_first())
    } else {
        let (text, rest) = scan_until(s.drop_first(), close);
        (seq![s[0]] + text, rest)
    }
}

/// Reads a string literal behind its opening quote: up to the first quote
/// that no backslash stands before. A backslash and the character behind it
/// give one character of the text.
pub open spec fn scan_string(s: Seq<char>) -> (Seq<char>, Seq<char>)
    decreases s.len(),
{
    if s.len() == 0 {
        (seq![], seq![])
    } else if s[0] == '\\' {
        if s.len() == 1 {
            (seq![], seq![])
        } else {
            let (text, rest) = scan_string(s.skip(2));
            (seq![unescape(s[1])] + text, rest)
        }
    } else if s[0] == '"' {
        (seq![], s.drop_first())
    } else {
        let (text, rest) = scan_string(s.drop_first());
        (seq![s[0]] + text, rest)
    }
}

/// Reads a nested form behind its opening delimiter, `depth` levels deep: up
/// to the `close` that brings the depth to zero. Inner delimiters belong to
/// the text. A backslash and the character behind it give one character of
/// the text, which opens and closes nothing.
pub open spec fn scan_nested(s: Seq<char>, open: char, close: char, depth: nat) -> (
    Seq<char>,
    Seq<char>,
)
    decreases s.len(),
{
    if s.len() == 0 {
        (seq![], seq![])
    } else if s[0] == '\\' {
        if s.len() == 1 {
            (seq![], seq![])
        } else {
            let (text, rest) = scan_nested(s.skip(2), open, close, depth);
            (seq![unescape(s[1])] + text, rest)
        }
    } else if s[0] == open {
        let (text, rest) = scan_nested(s.drop_first(), open, close, depth + 1);
        (seq![s[0]] + text, rest)
    } else if s[0] == close {
        if depth <= 1 {
            (seq![], s.drop_first())
        } else {
            let (text, rest) = scan_nested(s.drop_first(), open, close, (depth - 1) as nat);
            (seq![s[0]] + text, rest)
        }
    } else {
        let (text, rest) = scan_nested(s.drop_first(), open, close, depth);
        (seq![s[0]] + text, rest)
    }
}

/// The number that the text between `*` and `;` stands for: zero where it
/// writes no `i32`.
pub open spec fn integer_of(text: Seq<char>) -> i32 {
    match parse_i32(text) {
        Some(v) => v,
        None => 0,
    }
}

/// The first token of a non-empty input, and the input that follows it.
pub open spec fn lex_one(s: Seq<char>) -> (TokenView, Seq<char>)
    recommends
        s.len() > 0,
{
    let c = s[0];
    let tail = s.drop_first();
    if c == '#' {
        (TokenView::Comment(scan_until(tail, '#').0), scan_until(tail, '#').1)
    } else if c == '(' {
        (TokenView::Expr(scan_nested(tail, '(', ')', 1).0), scan_nested(tail, '(', ')', 1).1)
    } else if c == '*' {
        (TokenView::Integer(integer_of(scan_until(tail, ';').0)), scan_until(tail, ';').1)
    } else if c == '{' {
        (TokenView::Code(scan_nested(tail, '{', '}', 1).0), scan_nested(tail, '{', '}', 1).1)
    } else if c == '^' {
        (TokenView::MultiLengthCommand(scan_until(tail, '^').0), scan_until(tail, '^').1)
    } else if c == '"' {
        (TokenView::StringLiteral(scan_string(tail).0), scan_string(tail).1)
    } else if c == '$' {
        (TokenView::Var(scan_until(tail, '$').0), scan_until(tail, '$').1)
    } else {
        (TokenView::Command(c), tail)
    }
}

/// A token that only separates others: a blank, a newline or a comment.
pub open spec fn is_separator(t: TokenView) -> bool {
    t == TokenView::Command(' ') || t == TokenView::Command('\n') || t is Comment
}

/// The length of the text that a token carries.
pub open spec fn payload_len(t: TokenView) -> nat {
    match t {
        TokenView::Command(_) => 0,
        TokenView::Integer(_) => 0,
        TokenView::MultiLengthCommand(s) => s.len(),
        TokenView::StringLiteral(s) => s.len(),
        TokenView::Var(s) => s.len(),
        TokenView::Expr(s) => s.len(),
        TokenView::Code(s) => s.len(),
        TokenView::Comment(s) => s.len(),
    }
}

/// What `scan_until` gives is no longer than what it read.
pub proof fn lemma_scan_until_len(s: Seq<char>, close: char)
    ensures
        scan_until(s, close).0.len() + scan_until(s, close).1.len() <= s.len(),
    decreases s.len(),
{
    if s.len() > 0 && s[0] != close {
        lemma_scan_until_len(s.drop_first(), close);
    }
}

/// What `scan_string` gives is no longer than what it read.
pub proof fn lemma_scan_string_len(s: Seq<char>)
    ensures
        scan_string(s).0.len() + scan_string(s).1.len() <= s.len(),
    decreases s.len(),
{
    if s.len() == 0 {
    } else if s[0] == '\\' {
        if s.len() > 1 {
            lemma_scan_string_len(s.skip(2));
        }
    } else if s[0] != '"' {
        lemma_scan_string_len(s.drop_first());
    }
}

/// What `scan_nested` gives is no longer than what it read.
pub proof fn lemma_scan_nested_len(s: Seq<char>, open: char, close: char, depth: nat)
    ensures
        scan_nested(s, open, close, depth).0.len() + scan_nested(s, open, close, depth).1.len()
            <= s.len(),
    decreases s.len(),
{
    if s.len() == 0 {
    } else if s[0] == '\\' {
        if s.len() > 1 {
            lemma_scan_nested_len(s.skip(2), open, close, depth);
        }
    } else if s[0] == open {
        lemma_scan_nested_len(s.drop_first(), open, close, depth + 1);
    } else if s[0] == close {
        if depth > 1 {
            lemma_scan_nested_len(s.drop_first(), open, close, (depth - 1) as nat);
        }
    } else {
        lemma_scan_nested_len(s.drop_first(), open, close, depth);
    }
}

/// A token and the input behind it are together shorter than the input
/// that they were read from.
pub proof fn lemma_lex_one_shrinks(s: Seq<char>)
    requires
        s.len() > 0,
    ensures
        payload_len(lex_one(s).0) + lex_one(s).1.len() < s.len(),
{
    let tail = s.drop_first();
    lemma_scan_until_len(tail, '#');
    lemma_scan_until_len(tail, ';');
    lemma_scan_until_len(tail, '^');
    lemma_scan_until_len(tail, '$');
    lemma_scan_string_len(tail);
    lemma_scan_nested_len(tail, '(', ')', 1);
    lemma_scan_nested_len(tail, '{', '}', 1);
}

/// The tokens of a command string, without the separators.
pub open spec fn tokens_of(s: Seq<char>) -> Seq<TokenView>
    decreases s.len(),
{
    if s.len() == 0 {
        seq![]
    } else {
        proof {
            lemma_lex_one_shrinks(s);
        }
        let (t, rest) = lex_one(s);
        if is_separator(t) {
            tokens_of(rest)
        } else {
            seq![t] + tokens_of(rest)
        }
    }
}

/// A character that opens a delimited form.
pub open spec fn is_delimiter(c: char) -> bool {
    c == '#' || c == '(' || c == '*' || c == '{' || c == '^' || c == '"' || c == '$'
}

/// A blank or a newline.
pub open spec fn is_blank(c: char) -> bool {
    c == ' ' || c == '\n'
}

/// The test for a character that is neither a blank nor a newline.
pub open spec fn not_blank() -> spec_fn(char) -> bool {
    |c: char| !is_blank(c)
}

/// The test for a blank or a newline.
pub open spec fn blank() -> spec_fn(char) -> bool {
    |c: char| is_blank(c)
}

/// A text in which no character opens a delimited form is lexed into one
/// command for each of its characters but the blanks and newlines, in the
/// order of the text: as many tokens as the text has characters, less the
/// blanks and newlines.
pub proof fn lemma_plain_text_tokens(s: Seq<char>)
    requires
        forall|i: int| 0 <= i < s.len() ==> !is_delimiter(#[trigger] s[i]),
    ensures
        tokens_of(s).len() == s.filter(not_blank()).len(),
        forall|i: int|
            0 <= i < tokens_of(s).len() ==> #[trigger] tokens_of(s)[i] == TokenView::Command(
                s.filter(not_blank())[i],
            ),
        tokens_of(s).len() == s.len() - s.filter(blank()).len(),
    decreases s.len(),
{
    if s.len() == 0 {
        s.lemma_filter_len(not_blank());
        s.lemma_filter_len(blank());
    } else {
        let c = s[0];
        let rest = s.drop_first();
        assert(!is_delimiter(c));
        assert forall|i: int| 0 <= i < rest.len() implies !is_delimiter(#[trigger] rest[i]) by {
            assert(rest[i] == s[i + 1]);
        }
        lemma_plain_text_tokens(rest);
        assert(s =~= seq![c] + rest);
        rest.lemma_filter_prepend(c, not_blank());
        rest.lemma_filter_prepend(c, blank());
        assert(lex_one(s) == (TokenView::Command(c), rest));
        let kept = rest.filter(not_blank());
        if is_blank(c) {
            assert(s.filter(not_blank()) =~= kept);
            assert(s.filter(blank()) =~= seq![c] + rest.filter(blank()));
        } else {
            assert(s.filter(not_blank()) =~= seq![c] + kept);
            assert(s.filter(blank()) =~= rest.filter(blank()));
            assert(!is_separator(TokenView::Command(c)));
            assert(tokens_of(s) == seq![TokenView::Command(c)] + tokens_of(rest));
            assert forall|i: int| 0 <= i < tokens_of(s).len() implies #[trigger] tokens_of(s)[i]
                == TokenView::Command(s.filter(not_blank())[i]) by {
                if i > 0 {
                    assert(tokens_of(s)[i] == tokens_of(rest)[i - 1]);
                }
            }
        }
    }
}

/// The views of the tokens in `v`.
pub open spec fn views_of(v: Seq<Token>) -> Seq<TokenView> {
    Seq::new(v.len(), |i: int| v[i]@)
}

/// Appending `c` to what was read is putting it in front of what is to come.
proof fn lemma_append_step(text: Seq<char>, c: char, more: Seq<char>)
    ensures
        text + (seq![c] + more) == text.push(c) + more,
{
    assert(text + (seq![c] + more) =~= text.push(c) + more);
}

/// A lexer over the characters that are left of its input.
pub struct Lexer {
    /// The characters that are yet to be read.
    pub input: VecDeque<char>,
}

impl Lexer {
    /// A lexer at the start of `input`.
    pub fn new(input: &str) -> (res: Self)
        ensures
            res.input@ == input@,
    {
        let chars = chars_of(input);
        let mut queue: VecDeque<char> = VecDeque::new();
        let mut i: usize = 0;
        while i < chars.len()
            invariant
                i <= chars.len(),
                queue@ == chars@.take(i as int),
            decreases chars.len() - i,
        {
            queue.push_back(chars[i]);
            proof {
                assert(chars@.take(i + 1) =~= chars@.take(i as int).push(chars@[i as int]));
            }
            i = i + 1;
        }
        proof {
            assert(chars@.take(chars.len() as int) =~= chars@);
        }
        Self { input: queue }
    }

    /// Reads up to the first `close`, which it takes from the input too.
    fn read_until(&mut self, close: char) -> (arg: String)
        ensures
            arg@ == scan_until(old(self).input@, close).0,
            final(self).input@ == scan_until(old(self).input@, close).1,
    {
        let mut arg = String::new();
        let ghost start = self.input@;
        while self.input.len() > 0
            invariant
                start == old(self).input@,
                scan_until(start, close).0 == arg@ + scan_until(self.input@, close).0,
                scan_until(start, close).1 == scan_until(self.input@, close).1,
            decreases self.input@.len(),
        {
            let ghost before = self.input@;
            let ghost text = arg@;
            let nc = self.input.pop_front().unwrap();
            if nc == close {
                proof {
                    assert(text + Seq::<char>::empty() =~= text);
                }
                return arg;
            }
            string_push(&mut arg, nc);
            proof {
                assert(text + (seq![nc] + scan_until(self.input@, close).0) =~= text.push(nc)
                    + scan_until(self.input@, close).0);
            }
        }
        proof {
            assert(arg@ + Seq::<char>::empty() =~= arg@);
        }
        arg
    }

    /// Reads a string literal behind its opening quote.
    fn read_string(&mut self) -> (arg: String)
        ensures
            arg@ == scan_string(old(self).input@).0,
            final(self).input@ == scan_string(old(self).input@).1,
    {
        let mut arg = String::new();
        let ghost start = self.input@;
        while self.input.len() > 0
            invariant
                start == old(self).input@,
                scan_string(start).0 == arg@ + scan_string(self.input@).0,
                scan_string(start).1 == scan_string(self.input@).1,
            decreases self.input@.len(),
        {
            let ghost before = self.input@;
            let ghost text = arg@;
            let nc = self.input.pop_front().unwrap();
            if nc == '\\' {
                match self.input.pop_front() {
                    None => {
                        proof {
                            assert(text + Seq::<char>::empty() =~= text);
                        }
                        return arg;
                    },
                    Some(ec) => {
                        let pushed = if ec == 'n' {
                            '\n'
                        } else {
                            ec
                        };
                        string_push(&mut arg, pushed);
                        proof {
                            assert(self.input@ =~= before.skip(2));
                            assert(text + (seq![pushed] + scan_string(self.input@).0)
                                =~= text.push(pushed) + scan_string(self.input@).0);
                        }
                    },
                }
            } else if nc == '"' {
                proof {
                    assert(text + Seq::<char>::empty() =~= text);
                }
                return arg;
            } else {
                string_push(&mut arg, nc);
                proof {
                    assert(text + (seq![nc] + scan_string(self.input@).0) =~= text.push(nc)
                        + scan_string(self.input@).0);
                }
            }
        }
        proof {
            assert(arg@ + Seq::<char>::empty() =~= arg@);
        }
        arg
    }

    /// Reads a nested form behind its opening delimiter.
    fn read_nested(&mut self, open: char, close: char) -> (arg: String)
        requires
            open != '\\',
            close != '\\',
            open != close,
        ensures
            arg@ == scan_nested(old(self).input@, open, close, 1).0,
            final(self).input@ == scan_nested(old(self).input@, open, close, 1).1,
    {
        let mut arg = String::new();
        // The number of inner forms that are open.
        let mut inner: usize = 0;
        let ghost start = self.input@;
        let total = self.input.len();
        while self.input.len() > 0
            invariant
                start == old(self).input@,
                open != '\\',
                close != '\\',
                open != close,
                total == start.len(),
                inner + self.input@.len() <= total,
                scan_nested(start, open, close, 1).0 == arg@ + scan_nested(
                    self.input@,
                    open,
                    close,
                    (inner + 1) as nat,
                ).0,
                scan_nested(start, open, close, 1).1 == scan_nested(
                    self.input@,
                    open,
                    close,
                    (inner + 1) as nat,
                ).1,
            decreases self.input@.len(),
        {
            let ghost before = self.input@;
            let ghost text = arg@;
            let nc = self.input.pop_front().unwrap();
            if nc == '\\' {
                match self.input.pop_front() {
                    None => {
                        proof {
                            assert(text + Seq::<char>::empty() =~= text);
                        }
                        return arg;
                    },
                    Some(ec) => {
                        let pushed = if ec == 'n' {
                            '\n'
                        } else {
                            ec
                        };
                        string_push(&mut arg, pushed);
                        proof {
                            assert(self.input@ =~= before.skip(2));
                            lemma_append_step(
                                text,
                                pushed,
                                scan_nested(self.input@, open, close, (inner + 1) as nat).0,
                            );
                        }
                    },
                }
            } else if nc == open {
                inner = inner + 1;
                string_push(&mut arg, nc);
                proof {
                    lemma_append_step(
                        text,
                        nc,
                        scan_nested(self.input@, open, close, (inner + 1) as nat).0,
                    );
                }
            } else if nc == close {
                if inner == 0 {
                    proof {
                        assert(text + Seq::<char>::empty() =~= text);
                    }
                    return arg;
                }
                inner = inner - 1;
                string_push(&mut arg, nc);
                proof {
                    lemma_append_step(
                        text,
                        nc,
                        scan_nested(self.input@, open, close, (inner + 1) as nat).0,
                    );
                }
            } else {
                string_push(&mut arg, nc);
                proof {
                    lemma_append_step(
                        text,
                        nc,
                        scan_nested(self.input@, open, close, (inner + 1) as nat).0,
                    );
                }
            }
        }
        proof {
            assert(arg@ + Seq::<char>::empty() =~= arg@);
        }
        arg
    }

    /// Takes the next token from the input. At the end of the input there is
    /// none.
    pub fn next_token(&mut self) -> (res: Option<Token>)
        ensures
            old(self).input@.len() == 0 ==> res is None && final(self).input@ == old(
                self,
            ).input@,
            old(self).input@.len() > 0 ==> {
                &&& res is Some
                &&& res->0@ == lex_one(old(self).input@).0
                &&& final(self).input@ == lex_one(old(self).input@).1
            },
    {
        match self.input.pop_front() {
            None => None,
            Some(c) => {
                if c == '#' {
                    Some(Token::Comment(self.read_until('#')))
                } else if c == '(' {
                    Some(Token::Expr(self.read_nested('(', ')')))
                } else if c == '*' {
                    let arg = self.read_until(';');
                    let digits = chars_of(arg.as_str());
                    let value = match parse_int(&digits) {
                        Some(v) => v,
                        None => 0,
                    };
                    Some(Token::Integer(value))
                } else if c == '{' {
                    Some(Token::Code(self.read_nested('{', '}')))
                } else if c == '^' {
                    Some(Token::MultiLengthCommand(self.read_until('^')))
                } else if c == '"' {
                    Some(Token::StringLiteral(self.read_string()))
                } else if c == '$' {
                    Some(Token::Var(self.read_until('$')))
                } else {
                    Some(Token::Command(c))
                }
            },
        }
    }

    /// Reads the whole input into tokens and leaves out the separators:
    /// blanks, newlines and comments.
    pub fn tokenize(&mut self) -> (tokens: Vec<Token>)
        ensures
            views_of(tokens@) == tokens_of(old(self).input@),
            final(self).input@.len() == 0,
    {
        let mut tokens: Vec<Token> = Vec::new();
        let ghost start = self.input@;
        loop
            invariant
                tokens_of(start) == views_of(tokens@) + tokens_of(self.input@),
            ensures
                views_of(tokens@) == tokens_of(start),
                self.input@.len() == 0,
            decreases self.input@.len(),
        {
            let ghost before = self.input@;
            let ghost done = views_of(tokens@);
            match self.next_token() {
                None => {
                    proof {
                        assert(done + Seq::<TokenView>::empty() =~= done);
                    }
                    break ;
                },
                Some(token) => {
                    proof {
                        lemma_lex_one_shrinks(before);
                    }
                    let keep = match &token {
                        Token::Command(c) => *c != ' ' && *c != '\n',
                        Token::Comment(_) => false,
                        _ => true,
                    };
                    if keep {
                        tokens.push(token);
                        proof {
                            assert(views_of(tokens@) =~= done.push(token@));
                            assert(done + (seq![token@] + tokens_of(self.input@)) =~= done.push(
                                token@,
                            ) + tokens_of(self.input@));
                        }
                    }
                },
            }
        }
        tokens
    }
}

} // verus!
