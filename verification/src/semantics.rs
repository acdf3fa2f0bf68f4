//! What the commands mean: the change that each command makes to the
//! editor's state, the tokens that it takes as operands, and what it asks
//! for beyond that.

use vstd::prelude::*;
use vstd::utf8::*;
use crate::error::ExecError;
use crate::expr::{eval_expr, lookup_int, resolve_int, resolve_text};
use crate::lexer::tokens_of;
use crate::number::decimal;
use crate::search::is_first_match;
use crate::token::TokenView;

verus! {

/// The state that the commands work on: the text on both sides of the
/// cursor, the file name, and the variables.
pub struct State {
    /// The characters before the cursor.
    pub left: Seq<char>,
    /// The characters from the cursor on.
    pub right: Seq<char>,
    /// The name of the buffer's file.
    pub filename: Seq<char>,
    /// The variables.
    pub vars: Map<Seq<char>, TokenView>,
}

impl State {
    /// The whole text.
    pub open spec fn text(self) -> Seq<char> {
        self.left + self.right
    }
}

/// What a command asks for beyond its change of the state.
pub enum EffectView {
    /// Nothing.
    Nothing,
    /// Run this code once.
    Run(Seq<char>),
    /// Run this code so many times.
    Repeat(Seq<char>, i32),
    /// Run this code again and again.
    Forever(Seq<char>),
    /// Leave out the rest of the command string.
    Abort,
    /// Show the text.
    Print,
    /// End the program.
    Quit,
    /// Write the text to the buffer's file.
    Save,
    /// Read the buffer's file into the text.
    Load,
    /// Run the commands in the file of this name.
    Import(Seq<char>),
}

/// What running one command gives: the state after it, the number of tokens
/// that it took as operands, and what it asks for.
pub struct Step {
    pub state: State,
    pub advance: nat,
    pub effect: EffectView,
}

/// A command that changes nothing and takes no operand.
pub open spec fn stay(st: State) -> Result<Step, ExecError> {
    Ok(Step { state: st, advance: 0, effect: EffectView::Nothing })
}

/// A command that leaves the state `st` and took `advance` operands.
pub open spec fn moved(st: State, advance: nat) -> Result<Step, ExecError> {
    Ok(Step { state: st, advance, effect: EffectView::Nothing })
}

/// A command that keeps the state, took `advance` operands and asks for
/// `effect`.
pub open spec fn asks(st: State, advance: nat, effect: EffectView) -> Result<Step, ExecError> {
    Ok(Step { state: st, advance, effect })
}

/// The state with the cursor one character further left.
pub open spec fn move_left_state(st: State) -> State {
    if st.left.len() == 0 {
        st
    } else {
        State { left: st.left.drop_last(), right: seq![st.left.last()] + st.right, ..st }
    }
}

/// The state with the cursor one character further right.
pub open spec fn move_right_state(st: State) -> State {
    if st.right.len() == 0 {
        st
    } else {
        State { left: st.left.push(st.right[0]), right: st.right.drop_first(), ..st }
    }
}

/// The state without the character before the cursor.
pub open spec fn remove_state(st: State) -> State {
    if st.left.len() == 0 {
        st
    } else {
        State { left: st.left.drop_last(), ..st }
    }
}

/// The state with an empty text.
pub open spec fn clear_state(st: State) -> State {
    State { left: seq![], right: seq![], ..st }
}

/// The state with `text` inserted at the cursor.
pub open spec fn insert_state(st: State, text: Seq<char>) -> State {
    State { left: st.left + text, ..st }
}

/// The state with the cursor at the byte offset `to`, where that is the
/// start of a character of the text; the same state for any other offset.
pub open spec fn jump_state(st: State, to: int) -> State {
    let bytes = encode_utf8(st.text());
    if 0 <= to < bytes.len() && is_char_boundary(bytes, to) {
        State {
            left: decode_utf8(bytes.subrange(0, to)),
            right: decode_utf8(bytes.subrange(to, bytes.len() as int)),
            ..st
        }
    } else {
        st
    }
}

/// The state with the cursor in front of the first occurrence of `pat`;
/// the same state where there is none.
pub open spec fn search_state(st: State, pat: Seq<char>) -> State {
    if exists|k: int| is_first_match(st.text(), pat, k) {
        let k = choose|k: int| is_first_match(st.text(), pat, k);
        State { left: st.text().take(k), right: st.text().skip(k), ..st }
    } else {
        st
    }
}

/// The text that the operand of an insertion stands for: a text, or the
/// decimal digits of an integer; either as a literal or in a variable.
pub open spec fn insert_operand(t: TokenView, vars: Map<Seq<char>, TokenView>) -> Result<
    Seq<char>,
    ExecError,
> {
    match t {
        TokenView::StringLiteral(s) => Ok(s),
        TokenView::Integer(v) => Ok(decimal(v as int)),
        TokenView::Var(name) => {
            if !vars.contains_key(name) {
                Err(ExecError::UndefinedVariable)
            } else {
                match vars[name] {
                    TokenView::StringLiteral(s) => Ok(s),
                    TokenView::Integer(v) => Ok(decimal(v as int)),
                    _ => Err(ExecError::TypeMismatch),
                }
            }
        },
        _ => Err(ExecError::TypeMismatch),
    }
}

/// The integer that the operand of a jump stands for: a literal, or a
/// variable that holds an integer.
pub open spec fn jump_operand(t: TokenView, vars: Map<Seq<char>, TokenView>) -> Result<
    i32,
    ExecError,
> {
    match t {
        TokenView::Integer(v) => Ok(v),
        TokenView::Var(name) => lookup_int(name, vars),
        _ => Err(ExecError::TypeMismatch),
    }
}

/// The value that a definition binds: the value of a variable, the value of
/// an expression, or the operand itself.
pub open spec fn value_operand(t: TokenView, st: State) -> Result<TokenView, ExecError> {
    match t {
        TokenView::Var(name) => {
            if st.vars.contains_key(name) {
                Ok(st.vars[name])
            } else {
                Err(ExecError::UndefinedVariable)
            }
        },
        TokenView::Expr(e) => match eval_expr(e, st.vars, st.text()) {
            Ok(v) => Ok(TokenView::Integer(v)),
            Err(e) => Err(e),
        },
        _ => Ok(t),
    }
}

/// `a`: inserts the text of its operand at the cursor.
pub open spec fn insert_spec(st: State, ts: Seq<TokenView>, pc: int) -> Result<Step, ExecError> {
    if pc + 1 >= ts.len() {
        stay(st)
    } else {
        match insert_operand(ts[pc + 1], st.vars) {
            Ok(text) => moved(insert_state(st, text), 1),
            Err(e) => Err(e),
        }
    }
}

/// `t`: puts the cursor at the byte offset that its operand gives.
pub open spec fn jump_spec(st: State, ts: Seq<TokenView>, pc: int) -> Result<Step, ExecError> {
    if pc + 1 >= ts.len() {
        stay(st)
    } else {
        match jump_operand(ts[pc + 1], st.vars) {
            Ok(to) => moved(jump_state(st, to as int), 1),
            Err(e) => Err(e),
        }
    }
}

/// `s`: puts the cursor in front of the first occurrence of its operand.
pub open spec fn search_spec(st: State, ts: Seq<TokenView>, pc: int) -> Result<Step, ExecError> {
    if pc + 1 >= ts.len() {
        stay(st)
    } else {
        match resolve_text(ts[pc + 1], st.vars) {
            Ok(pat) => moved(search_state(st, pat), 1),
            Err(e) => Err(e),
        }
    }
}

/// `@`: binds the variable that its first operand names to the value of its
/// second. A first operand that is no variable name binds nothing.
pub open spec fn define_spec(st: State, ts: Seq<TokenView>, pc: int) -> Result<Step, ExecError> {
    if pc + 2 >= ts.len() {
        stay(st)
    } else {
        match ts[pc + 1] {
            TokenView::Var(name) => match value_operand(ts[pc + 2], st) {
                Ok(v) => moved(State { vars: st.vars.insert(name, v), ..st }, 2),
                Err(e) => Err(e),
            },
            _ => moved(st, 2),
        }
    }
}

/// `!`: names the buffer's file after its operand.
pub open spec fn set_filename_spec(st: State, ts: Seq<TokenView>, pc: int) -> Result<
    Step,
    ExecError,
> {
    if pc + 1 >= ts.len() {
        stay(st)
    } else {
        match resolve_text(ts[pc + 1], st.vars) {
            Ok(name) => moved(State { filename: name, ..st }, 1),
            Err(e) => Err(e),
        }
    }
}

/// `=`: runs its third operand where the first two are the same token, its
/// fourth where they are not.
pub open spec fn equal_spec(st: State, ts: Seq<TokenView>, pc: int) -> Result<Step, ExecError> {
    if pc + 4 >= ts.len() {
        stay(st)
    } else {
        match (ts[pc + 3], ts[pc + 4]) {
            (TokenView::Code(same), TokenView::Code(other)) => {
                if ts[pc + 1] == ts[pc + 2] {
                    asks(st, 4, EffectView::Run(same))
                } else {
                    asks(st, 4, EffectView::Run(other))
                }
            },
            _ => stay(st),
        }
    }
}

/// `M`: runs its operand.
pub open spec fn execute_func_spec(st: State, ts: Seq<TokenView>, pc: int) -> Result<
    Step,
    ExecError,
> {
    if pc + 1 >= ts.len() {
        stay(st)
    } else {
        match ts[pc + 1] {
            TokenView::Code(code) => asks(st, 1, EffectView::Run(code)),
            _ => stay(st),
        }
    }
}

/// `l`: runs the commands in the file that its operand names.
pub open spec fn import_spec(st: State, ts: Seq<TokenView>, pc: int) -> Result<Step, ExecError> {
    if pc + 1 >= ts.len() {
        stay(st)
    } else {
        match ts[pc + 1] {
            TokenView::StringLiteral(path) => asks(st, 1, EffectView::Import(path)),
            _ => stay(st),
        }
    }
}

/// `^LI^`: runs its operand again and again.
pub open spec fn loop_inf_spec(st: State, ts: Seq<TokenView>, pc: int) -> Result<Step, ExecError> {
    if pc + 1 >= ts.len() {
        stay(st)
    } else {
        match ts[pc + 1] {
            TokenView::Code(code) => asks(st, 1, EffectView::Forever(code)),
            _ => stay(st),
        }
    }
}

/// `^Lo^`: runs its second operand as many times as its first says.
pub open spec fn loop_count_spec(st: State, ts: Seq<TokenView>, pc: int) -> Result<
    Step,
    ExecError,
> {
    if pc + 2 >= ts.len() {
        stay(st)
    } else {
        match (ts[pc + 1], ts[pc + 2]) {
            (TokenView::Integer(count), TokenView::Code(code)) => asks(
                st,
                2,
                EffectView::Repeat(code, count),
            ),
            _ => stay(st),
        }
    }
}

/// `^IF^`: runs its second operand where the first is greater than zero, its
/// third where it is not.
pub open spec fn if_integer_spec(st: State, ts: Seq<TokenView>, pc: int) -> Result<
    Step,
    ExecError,
> {
    if pc + 3 >= ts.len() {
        stay(st)
    } else {
        match (ts[pc + 2], ts[pc + 3]) {
            (TokenView::Code(positive), TokenView::Code(other)) => match resolve_int(
                ts[pc + 1],
                st.vars,
                st.text(),
            ) {
                Ok(v) => {
                    if v > 0 {
                        asks(st, 3, EffectView::Run(positive))
                    } else {
                        asks(st, 3, EffectView::Run(other))
                    }
                },
                Err(e) => Err(e),
            },
            _ => stay(st),
        }
    }
}

/// A command of several characters. An unknown name does nothing.
pub open spec fn multicommand_spec(
    st: State,
    ts: Seq<TokenView>,
    pc: int,
    name: Seq<char>,
) -> Result<Step, ExecError> {
    if name == "LI"@ {
        loop_inf_spec(st, ts, pc)
    } else if name == "Lo"@ {
        loop_count_spec(st, ts, pc)
    } else if name == "IF"@ {
        if_integer_spec(st, ts, pc)
    } else {
        stay(st)
    }
}

/// A character that is no built-in command: runs the code that the variable
/// of that name holds, if it holds code.
pub open spec fn macro_spec(st: State, c: char) -> Result<Step, ExecError> {
    if st.vars.contains_key(seq![c]) {
        match st.vars[seq![c]] {
            TokenView::Code(code) => asks(st, 0, EffectView::Run(code)),
            _ => stay(st),
        }
    } else {
        stay(st)
    }
}

/// The command at `pc` of the tokens `ts`, run in the state `st`.
pub open spec fn dispatch_spec(st: State, ts: Seq<TokenView>, pc: int) -> Result<Step, ExecError>
    recommends
        0 <= pc < ts.len(),
{
    match ts[pc] {
        TokenView::Command(c) => {
            if c == 'a' {
                insert_spec(st, ts, pc)
            } else if c == 'b' {
                moved(move_left_state(st), 0)
            } else if c == 'f' {
                moved(move_right_state(st), 0)
            } else if c == 'r' {
                moved(remove_state(st), 0)
            } else if c == 'R' {
                moved(clear_state(st), 0)
            } else if c == 'v' {
                asks(st, 0, EffectView::Print)
            } else if c == 'q' {
                asks(st, 0, EffectView::Quit)
            } else if c == '#' {
                asks(st, 0, EffectView::Abort)
            } else if c == 't' {
                jump_spec(st, ts, pc)
            } else if c == 's' {
                search_spec(st, ts, pc)
            } else if c == '@' {
                define_spec(st, ts, pc)
            } else if c == '!' {
                set_filename_spec(st, ts, pc)
            } else if c == 'S' {
                asks(st, 0, EffectView::Save)
            } else if c == 'x' {
                asks(st, 0, EffectView::Load)
            } else if c == '=' {
                equal_spec(st, ts, pc)
            } else if c == 'M' {
                execute_func_spec(st, ts, pc)
            } else if c == 'l' {
                import_spec(st, ts, pc)
            } else {
                macro_spec(st, c)
            }
        },
        TokenView::MultiLengthCommand(name) => multicommand_spec(st, ts, pc, name),
        _ => stay(st),
    }
}

/// A command takes its operands from the tokens that follow it.
pub proof fn lemma_dispatch_advance(st: State, ts: Seq<TokenView>, pc: int)
    requires
        0 <= pc < ts.len(),
    ensures
        dispatch_spec(st, ts, pc) matches Ok(step) ==> pc + step.advance < ts.len()
            && step.advance <= 4,
{
}

/// How often the code of a frame is still to be run, the run under way
/// included.
#[derive(Debug, Clone, Copy, PartialEq, Eq, Structural)]
pub enum Passes {
    /// So many times; at least once.
    Times(i32),
    /// Again and again.
    Forever,
}

/// Code that is being run: its tokens, the place of the next command, and
/// how often it is to be run.
pub struct FrameView {
    pub tokens: Seq<TokenView>,
    pub pc: nat,
    pub passes: Passes,
}

/// What a step of the interpreter leaves to its caller.
pub enum ActionView {
    /// Nothing is left to run.
    Idle,
    /// Nothing; there may be more to run.
    Continue,
    /// Show the text.
    Print,
    /// End the program.
    Quit,
    /// Write the text to the buffer's file.
    Save,
    /// Read the buffer's file and put what it holds behind the text.
    Load,
    /// Read the file of this name and run the commands in it.
    Import(Seq<char>),
}

/// The frame that runs `code` from its start.
pub open spec fn fresh_frame(code: Seq<char>, passes: Passes) -> FrameView {
    FrameView { tokens: tokens_of(code), pc: 0, passes }
}

/// The stack after the frame `top` has come to its end: the frame starts
/// over where it has runs left, and leaves the stack where it has none.
pub open spec fn after_pass(below: Seq<FrameView>, top: FrameView) -> Seq<FrameView> {
    match top.passes {
        Passes::Forever => below.push(FrameView { pc: 0, ..top }),
        Passes::Times(n) => {
            if n > 1 {
                below.push(FrameView { pc: 0, passes: Passes::Times((n - 1) as i32), ..top })
            } else {
                below
            }
        },
    }
}

/// The stack after a command of the frame `top`, which has moved on behind
/// the command and its operands already, asked for `effect`.
pub open spec fn after_effect(below: Seq<FrameView>, top: FrameView, effect: EffectView) -> Seq<
    FrameView,
> {
    match effect {
        EffectView::Run(code) => below.push(top).push(fresh_frame(code, Passes::Times(1))),
        EffectView::Repeat(code, n) => {
            if n >= 1 {
                below.push(top).push(fresh_frame(code, Passes::Times(n)))
            } else {
                below.push(top)
            }
        },
        EffectView::Forever(code) => below.push(top).push(fresh_frame(code, Passes::Forever)),
        EffectView::Abort => below.push(FrameView { pc: top.tokens.len(), ..top }),
        EffectView::Quit => Seq::empty(),
        _ => below.push(top),
    }
}

/// What is left to the caller of a step whose command asked for `effect`.
pub open spec fn action_of(effect: EffectView) -> ActionView {
    match effect {
        EffectView::Print => ActionView::Print,
        EffectView::Quit => ActionView::Quit,
        EffectView::Save => ActionView::Save,
        EffectView::Load => ActionView::Load,
        EffectView::Import(path) => ActionView::Import(path),
        _ => ActionView::Continue,
    }
}

/// One step of the interpreter: the state and the stack after it, and what
/// it leaves to the caller. With an empty stack nothing happens. A frame at
/// its end starts over or leaves. Otherwise the command at the program
/// counter of the innermost frame is run; a failure empties the stack.
pub open spec fn step_spec(st: State, stack: Seq<FrameView>) -> (
    State,
    Seq<FrameView>,
    Result<ActionView, ExecError>,
) {
    if stack.len() == 0 {
        (st, stack, Ok(ActionView::Idle))
    } else {
        let top = stack.last();
        let below = stack.drop_last();
        if top.pc >= top.tokens.len() {
            (st, after_pass(below, top), Ok(ActionView::Continue))
        } else {
            match dispatch_spec(st, top.tokens, top.pc as int) {
                Err(e) => (st, Seq::empty(), Err(e)),
                Ok(step) => (
                    step.state,
                    after_effect(
                        below,
                        FrameView { pc: top.pc + step.advance + 1, ..top },
                        step.effect,
                    ),
                    Ok(action_of(step.effect)),
                ),
            }
        }
    }
}

/// Up to `limit` steps of the interpreter, one after the other, until a
/// step leaves something to the caller or fails. Where the limit is reached
/// first, the caller is told to continue.
pub open spec fn run_spec(st: State, stack: Seq<FrameView>, limit: nat) -> (
    State,
    Seq<FrameView>,
    Result<ActionView, ExecError>,
)
    decreases limit,
{
    if limit == 0 {
        (st, stack, Ok(ActionView::Continue))
    } else {
        let (next, rest, res) = step_spec(st, stack);
        if res == Ok::<ActionView, ExecError>(ActionView::Continue) {
            run_spec(next, rest, (limit - 1) as nat)
        } else {
            (next, rest, res)
        }
    }
}

} // verus!
