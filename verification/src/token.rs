//! The tokens of the command language.

use vstd::prelude::*;
use vstd::std_specs::cmp::PartialEqSpecImpl;

verus! {

/// One token of a command string.
#[derive(Debug)]
pub enum Token {
    /// A single character, dispatched by its value.
    Command(char),
    /// The name of a command of several characters, written between `^`.
    MultiLengthCommand(String),
    /// A text, written between `"`.
    StringLiteral(String),
    /// The name of a variable, written between `$`.
    Var(String),
    /// A number, written between `*` and `;`.
    Integer(i32),
    /// The text of an expression that is yet to be evaluated, written between
    /// parentheses.
    Expr(String),
    /// The text of commands that are yet to be run, written between braces.
    Code(String),
    /// A remark, written between `#`.
    Comment(String),
}

/// What a token is, with its text as a sequence of characters.
pub enum TokenView {
    Command(char),
    MultiLengthCommand(Seq<char>),
    StringLiteral(Seq<char>),
    Var(Seq<char>),
    Integer(i32),
    Expr(Seq<char>),
    Code(Seq<char>),
    Comment(Seq<char>),
}

impl View for Token {
    type V = TokenView;

    open spec fn view(&self) -> TokenView {
        match self {
            Token::Command(c) => TokenView::Command(*c),
            Token::MultiLengthCommand(s) => TokenView::MultiLengthCommand(s@),
            Token::StringLiteral(s) => TokenView::StringLiteral(s@),
            Token::Var(s) => TokenView::Var(s@),
            Token::Integer(i) => TokenView::Integer(*i),
            Token::Expr(s) => TokenView::Expr(s@),
            Token::Code(s) => TokenView::Code(s@),
            Token::Comment(s) => TokenView::Comment(s@),
        }
    }
}

impl Clone for Token {
    fn clone(&self) -> (res: Self)
        ensures
            res@ == self@,
    {
        match self {
            Token::Command(c) => Token::Command(*c),
            Token::MultiLengthCommand(s) => Token::MultiLengthCommand(s.clone()),
            Token::StringLiteral(s) => Token::StringLiteral(s.clone()),
            Token::Var(s) => Token::Var(s.clone()),
            Token::Integer(i) => Token::Integer(*i),
            Token::Expr(s) => Token::Expr(s.clone()),
            Token::Code(s) => Token::Code(s.clone()),
            Token::Comment(s) => Token::Comment(s.clone()),
        }
    }
}

impl PartialEq for Token {
    fn eq(&self, other: &Token) -> (res: bool) {
        match (self, other) {
            (Token::Command(a), Token::Command(b)) => *a == *b,
            (Token::MultiLengthCommand(a), Token::MultiLengthCommand(b)) => *a == *b,
            (Token::StringLiteral(a), Token::StringLiteral(b)) => *a == *b,
            (Token::Var(a), Token::Var(b)) => *a == *b,
            (Token::Integer(a), Token::Integer(b)) => *a == *b,
            (Token::Expr(a), Token::Expr(b)) => *a == *b,
            (Token::Code(a), Token::Code(b)) => *a == *b,
            (Token::Comment(a), Token::Comment(b)) => *a == *b,
            _ => false,
        }
    }
}

impl PartialEqSpecImpl for Token {
    open spec fn obeys_eq_spec() -> bool {
        true
    }

    open spec fn eq_spec(&self, other: &Token) -> bool {
        self@ == other@
    }
}

/// The text of a string literal; nothing for any other token.
pub fn extract_argument(token: Token) -> (res: Option<String>)
    ensures
        match token@ {
            TokenView::StringLiteral(s) => res is Some && res->0@ == s,
            _ => res is None,
        },
{
    match token {
        Token::StringLiteral(arg) => Some(arg),
        _ => None,
    }
}

/// The name of a variable token; nothing for any other token.
pub fn extract_var(token: Token) -> (res: Option<String>)
    ensures
        match token@ {
            TokenView::Var(s) => res is Some && res->0@ == s,
            _ => res is None,
        },
{
    match token {
        Token::Var(arg) => Some(arg),
        _ => None,
    }
}

/// The number of an integer token; nothing for any other token.
pub fn extract_integer(token: Token) -> (res: Option<i32>)
    ensures
        res == match token@ {
            TokenView::Integer(i) => Some(i),
            _ => None,
        },
{
    match token {
        Token::Integer(arg) => Some(arg),
        _ => None,
    }
}

} // verus!
