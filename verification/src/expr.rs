//! The expression evaluator.
//!
//! An expression is an operator followed by its operands. `^CT^` counts the
//! occurrences of a pattern in the text; the other operators take two
//! integers. An operand is a literal, a variable or, for an integer, an
//! expression in parentheses.

use vstd::prelude::*;
use crate::error::ExecError;
use crate::lexer::{lemma_lex_one_shrinks, lex_one, is_separator, payload_len, tokens_of, views_of, Lexer};
use crate::search::{count_matches, count_occurrences};
use crate::store::VariableStore;
use crate::text::chars_of;
use crate::token::{Token, TokenView};

verus! {

/// The quotient of `a` by `b`, rounded towards zero.
pub open spec fn trunc_div(a: int, b: int) -> int
    recommends
        b != 0,
{
    if a >= 0 && b > 0 {
        a / b
    } else if a < 0 && b > 0 {
        -((-a) / b)
    } else if a >= 0 && b < 0 {
        -(a / (-b))
    } else {
        (-a) / (-b)
    }
}

/// The remainder of `a` by `b` that goes with `trunc_div`: it has the sign of
/// `a`.
pub open spec fn trunc_rem(a: int, b: int) -> int
    recommends
        b != 0,
{
    let m = if b < 0 {
        -b
    } else {
        b
    };
    if a >= 0 {
        a % m
    } else {
        -((-a) % m)
    }
}

/// `v` as an `i32`, where it is one.
pub open spec fn checked(v: int) -> Result<i32, ExecError> {
    if i32::MIN <= v <= i32::MAX {
        Ok(v as i32)
    } else {
        Err(ExecError::Overflow)
    }
}

/// One for true, zero for false.
pub open spec fn truth(b: bool) -> i32 {
    if b {
        1
    } else {
        0
    }
}

/// What the operator `op` makes of `a` and `b`. `x` multiplies, `!` tests
/// for inequality.
pub open spec fn apply_op(op: TokenView, a: i32, b: i32) -> Result<i32, ExecError> {
    match op {
        TokenView::Command(c) => {
            if c == '+' {
                checked(a + b)
            } else if c == '-' {
                checked(a - b)
            } else if c == 'x' {
                checked(a * b)
            } else if c == '/' {
                if b == 0 {
                    Err(ExecError::DivisionByZero)
                } else {
                    checked(trunc_div(a as int, b as int))
                }
            } else if c == '%' {
                if b == 0 {
                    Err(ExecError::DivisionByZero)
                } else if a == i32::MIN && b == -1 {
                    Err(ExecError::Overflow)
                } else {
                    checked(trunc_rem(a as int, b as int))
                }
            } else if c == '=' {
                Ok(truth(a == b))
            } else if c == '>' {
                Ok(truth(a > b))
            } else if c == '<' {
                Ok(truth(a < b))
            } else if c == '!' {
                Ok(truth(a != b))
            } else {
                Err(ExecError::UnknownOperation)
            }
        },
        _ => Err(ExecError::UnknownOperation),
    }
}

/// The integer that the variable `name` holds.
pub open spec fn lookup_int(name: Seq<char>, vars: Map<Seq<char>, TokenView>) -> Result<
    i32,
    ExecError,
> {
    if !vars.contains_key(name) {
        Err(ExecError::UndefinedVariable)
    } else {
        match vars[name] {
            TokenView::Integer(v) => Ok(v),
            _ => Err(ExecError::TypeMismatch),
        }
    }
}

/// The text that the variable `name` holds.
pub open spec fn lookup_text(name: Seq<char>, vars: Map<Seq<char>, TokenView>) -> Result<
    Seq<char>,
    ExecError,
> {
    if !vars.contains_key(name) {
        Err(ExecError::UndefinedVariable)
    } else {
        match vars[name] {
            TokenView::StringLiteral(s) => Ok(s),
            _ => Err(ExecError::TypeMismatch),
        }
    }
}

/// The text that an operand stands for: a string literal, or a variable
/// that holds one.
pub open spec fn resolve_text(t: TokenView, vars: Map<Seq<char>, TokenView>) -> Result<
    Seq<char>,
    ExecError,
> {
    match t {
        TokenView::StringLiteral(s) => Ok(s),
        TokenView::Var(name) => lookup_text(name, vars),
        _ => Err(ExecError::TypeMismatch),
    }
}

/// The number of occurrences of `pat` in `text`, as an `i32`.
pub open spec fn count_i32(text: Seq<char>, pat: Seq<char>) -> Result<i32, ExecError> {
    checked(count_matches(text, pat) as int)
}

/// Every token of a text is shorter than the text.
pub proof fn lemma_tokens_payload(s: Seq<char>, i: int)
    requires
        0 <= i < tokens_of(s).len(),
    ensures
        payload_len(tokens_of(s)[i]) < s.len(),
    decreases s.len(),
{
    lemma_lex_one_shrinks(s);
    let (t, rest) = lex_one(s);
    if is_separator(t) {
        lemma_tokens_payload(rest, i);
    } else if i > 0 {
        lemma_tokens_payload(rest, i - 1);
    }
}

/// The integer that an operand stands for: a literal, a variable that holds
/// an integer, or the value of an expression.
pub open spec fn resolve_int(
    t: TokenView,
    vars: Map<Seq<char>, TokenView>,
    text: Seq<char>,
) -> Result<i32, ExecError>
    decreases payload_len(t), 1int,
{
    match t {
        TokenView::Integer(v) => Ok(v),
        TokenView::Var(name) => lookup_int(name, vars),
        TokenView::Expr(e) => eval_expr(e, vars, text),
        _ => Err(ExecError::TypeMismatch),
    }
}

/// The value of the expression `expr`, with the variables `vars` and the
/// buffer text `text`.
pub open spec fn eval_expr(
    expr: Seq<char>,
    vars: Map<Seq<char>, TokenView>,
    text: Seq<char>,
) -> Result<i32, ExecError>
    decreases expr.len(), 0int,
{
    let tokens = tokens_of(expr);
    if tokens.len() == 0 {
        Err(ExecError::FormulaEval)
    } else if tokens[0] == TokenView::MultiLengthCommand("CT"@) {
        if tokens.len() < 2 {
            Err(ExecError::FormulaEval)
        } else {
            match resolve_text(tokens[1], vars) {
                Ok(pat) => count_i32(text, pat),
                Err(e) => Err(e),
            }
        }
    } else if tokens.len() < 3 {
        Err(ExecError::FormulaEval)
    } else {
        proof {
            lemma_tokens_payload(expr, 1);
            lemma_tokens_payload(expr, 2);
        }
        match resolve_int(tokens[1], vars, text) {
            Err(e) => Err(e),
            Ok(a) => match resolve_int(tokens[2], vars, text) {
                Err(e) => Err(e),
                Ok(b) => apply_op(tokens[0], a, b),
            },
        }
    }
}

/// The quotient of `a` by `b`, rounded towards zero.
fn div_trunc(a: i32, b: i32) -> (r: i64)
    requires
        b != 0,
    ensures
        r == trunc_div(a as int, b as int),
        -0x8000_0000 <= r <= 0x8000_0000,
{
    let wa: i64 = a as i64;
    let wb: i64 = b as i64;
    let ma: i64 = if wa < 0 {
        -wa
    } else {
        wa
    };
    let mb: i64 = if wb < 0 {
        -wb
    } else {
        wb
    };
    let q: i64 = ma / mb;
    proof {
        assert(0 <= ma / mb <= ma) by (nonlinear_arith)
            requires
                0 <= ma,
                0 < mb,
        ;
    }
    if (wa < 0) == (wb < 0) {
        q
    } else {
        -q
    }
}

/// The remainder of `a` by `b`, with the sign of `a`.
fn rem_trunc(a: i32, b: i32) -> (r: i64)
    requires
        b != 0,
    ensures
        r == trunc_rem(a as int, b as int),
        -0x8000_0000 <= r <= 0x8000_0000,
{
    let wa: i64 = a as i64;
    let wb: i64 = b as i64;
    let ma: i64 = if wa < 0 {
        -wa
    } else {
        wa
    };
    let mb: i64 = if wb < 0 {
        -wb
    } else {
        wb
    };
    let m: i64 = ma % mb;
    proof {
        assert(0 <= ma % mb < mb) by (nonlinear_arith)
            requires
                0 <= ma,
                0 < mb,
        ;
    }
    if wa < 0 {
        -m
    } else {
        m
    }
}

/// `v` as an `i32`, where it is one.
fn narrow(v: i64) -> (res: Result<i32, ExecError>)
    ensures
        res == checked(v as int),
{
    if v < -0x8000_0000 || v > 0x7FFF_FFFF {
        Err(ExecError::Overflow)
    } else {
        Ok(v as i32)
    }
}

/// One for true, zero for false.
fn truth_value(b: bool) -> (res: i32)
    ensures
        res == truth(b),
{
    if b {
        1
    } else {
        0
    }
}

/// Applies the operator `op` to `a` and `b`.
pub fn apply_operator(op: &Token, a: i32, b: i32) -> (res: Result<i32, ExecError>)
    ensures
        res == apply_op(op@, a, b),
{
    let c: char = match op {
        Token::Command(c) => *c,
        _ => {
            return Err(ExecError::UnknownOperation);
        },
    };
    let wa: i64 = a as i64;
    let wb: i64 = b as i64;
    if c == '+' {
        narrow(wa + wb)
    } else if c == '-' {
        narrow(wa - wb)
    } else if c == 'x' {
        proof {
            assert(-0x4000_0000_0000_0000 <= wa * wb <= 0x4000_0000_0000_0000) by (nonlinear_arith)
                requires
                    -0x8000_0000 <= wa <= 0x8000_0000,
                    -0x8000_0000 <= wb <= 0x8000_0000,
            ;
        }
        narrow(wa * wb)
    } else if c == '/' {
        if b == 0 {
            Err(ExecError::DivisionByZero)
        } else {
            narrow(div_trunc(a, b))
        }
    } else if c == '%' {
        if b == 0 {
            Err(ExecError::DivisionByZero)
        } else if a == i32::MIN && b == -1 {
            Err(ExecError::Overflow)
        } else {
            narrow(rem_trunc(a, b))
        }
    } else if c == '=' {
        Ok(truth_value(a == b))
    } else if c == '>' {
        Ok(truth_value(a > b))
    } else if c == '<' {
        Ok(truth_value(a < b))
    } else if c == '!' {
        Ok(truth_value(a != b))
    } else {
        Err(ExecError::UnknownOperation)
    }
}

/// The text that an operand stands for.
pub fn operand_text(t: &Token, vars: &VariableStore) -> (res: Result<String, ExecError>)
    requires
        vars.wf(),
    ensures
        match res {
            Ok(s) => resolve_text(t@, vars@) == Ok::<Seq<char>, ExecError>(s@),
            Err(e) => resolve_text(t@, vars@) == Err::<Seq<char>, ExecError>(e),
        },
{
    match t {
        Token::StringLiteral(s) => Ok(s.clone()),
        Token::Var(name) => match vars.lookup(name) {
            None => Err(ExecError::UndefinedVariable),
            Some(Token::StringLiteral(s)) => Ok(s.clone()),
            Some(_) => Err(ExecError::TypeMismatch),
        },
        _ => Err(ExecError::TypeMismatch),
    }
}

/// The integer that an operand stands for.
pub fn operand_int(t: &Token, vars: &VariableStore, buffer: &String) -> (res: Result<
    i32,
    ExecError,
>)
    requires
        vars.wf(),
    ensures
        res == resolve_int(t@, vars@, buffer@),
    decreases payload_len(t@), 1int,
{
    match t {
        Token::Integer(v) => Ok(*v),
        Token::Var(name) => match vars.lookup(name) {
            None => Err(ExecError::UndefinedVariable),
            Some(Token::Integer(v)) => Ok(*v),
            Some(_) => Err(ExecError::TypeMismatch),
        },
        Token::Expr(e) => evaluate(e.as_str(), vars, buffer),
        _ => Err(ExecError::TypeMismatch),
    }
}

/// Whether `t` is the operator that counts occurrences.
fn is_count_operator(t: &Token) -> (res: bool)
    ensures
        res == (t@ == TokenView::MultiLengthCommand("CT"@)),
{
    match t {
        Token::MultiLengthCommand(name) => {
            let ct = "CT".to_owned();
            *name == ct
        },
        _ => false,
    }
}

/// Evaluates the expression `expr`, with the variables `vars` and the text
/// of `buffer`.
pub fn evaluate(expr: &str, vars: &VariableStore, buffer: &String) -> (res: Result<
    i32,
    ExecError,
>)
    requires
        vars.wf(),
    ensures
        res == eval_expr(expr@, vars@, buffer@),
    decreases expr@.len(), 0int,
{
    let mut lexer = Lexer::new(expr);
    let tokens = lexer.tokenize();
    let ghost views = tokens_of(expr@);
    assert(views == views_of(tokens@));
    if tokens.len() == 0 {
        return Err(ExecError::FormulaEval);
    }
    assert(views[0] == tokens@[0]@);
    if is_count_operator(&tokens[0]) {
        if tokens.len() < 2 {
            return Err(ExecError::FormulaEval);
        }
        assert(views[1] == tokens@[1]@);
        let pat = match operand_text(&tokens[1], vars) {
            Ok(pat) => pat,
            Err(e) => {
                return Err(e);
            },
        };
        let text = chars_of(buffer.as_str());
        let pattern = chars_of(pat.as_str());
        return match count_occurrences(&text, &pattern) {
            Some(n) => Ok(n),
            None => Err(ExecError::Overflow),
        };
    }
    if tokens.len() < 3 {
        return Err(ExecError::FormulaEval);
    }
    assert(views[1] == tokens@[1]@);
    assert(views[2] == tokens@[2]@);
    proof {
        lemma_tokens_payload(expr@, 1);
        lemma_tokens_payload(expr@, 2);
    }
    let a = match operand_int(&tokens[1], vars, buffer) {
        Ok(a) => a,
        Err(e) => {
            return Err(e);
        },
    };
    let b = match operand_int(&tokens[2], vars, buffer) {
        Ok(b) => b,
        Err(e) => {
            return Err(e);
        },
    };
    apply_operator(&tokens[0], a, b)
}

} // verus!
