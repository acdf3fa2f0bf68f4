//! The command interpreter.
//!
//! The interpreter owns the buffer and the variables and runs command
//! strings over them, one command at a time. Code that a command runs
//! (the body of a loop, a branch, a macro) is put on a stack of frames, each
//! with its own tokens and its own program counter. Printing, files and the
//! end of the program are left to the caller: `step` says what is asked for.

use vstd::prelude::*;
use crate::buffer::ViewBuffer;
use crate::error::ExecError;
use crate::expr::{eval_expr, evaluate, operand_int, operand_text};
use crate::lexer::{views_of, Lexer};
use crate::number::int_to_string;
use crate::search::{is_first_match, no_match};
use crate::semantics::{
    define_spec, dispatch_spec, equal_spec, execute_func_spec, fresh_frame, if_integer_spec,
    import_spec, insert_operand, insert_spec, jump_operand, jump_spec, lemma_dispatch_advance,
    loop_count_spec, loop_inf_spec, macro_spec, multicommand_spec, run_spec, search_spec,
    search_state,
    set_filename_spec, step_spec, value_operand, ActionView, EffectView, FrameView, Passes,
    State, Step,
};
use crate::store::VariableStore;
use crate::text::string_push;
use crate::token::{Token, TokenView};

verus! {

/// What a command asks for beyond its change of buffer and variables.
#[derive(Debug)]
pub enum Effect {
    /// Nothing.
    Nothing,
    /// Run this code once.
    Run(String),
    /// Run this code so many times.
    Repeat(String, i32),
    /// Run this code again and again.
    Forever(String),
    /// Leave out the rest of the command string.
    Abort,
    /// Show the text.
    Print,
    /// End the program.
    Quit,
    /// Write the text to the buffer's file.
    Save,
    /// Read the buffer's file into the text.
    Load,
    /// Run the commands in the file of this name.
    Import(String),
}

impl View for Effect {
    type V = EffectView;

    open spec fn view(&self) -> EffectView {
        match self {
            Effect::Nothing => EffectView::Nothing,
            Effect::Run(code) => EffectView::Run(code@),
            Effect::Repeat(code, n) => EffectView::Repeat(code@, *n),
            Effect::Forever(code) => EffectView::Forever(code@),
            Effect::Abort => EffectView::Abort,
            Effect::Print => EffectView::Print,
            Effect::Quit => EffectView::Quit,
            Effect::Save => EffectView::Save,
            Effect::Load => EffectView::Load,
            Effect::Import(path) => EffectView::Import(path@),
        }
    }
}

/// What running one command gave: the number of tokens that it took as
/// operands, and what it asks for.
#[derive(Debug)]
pub struct Outcome {
    pub advance: usize,
    pub effect: Effect,
}

/// The result `res` and the state `after` are what `expected` says of a
/// command that asks for nothing. A command that fails leaves the state as
/// it was `before`.
pub open spec fn as_expected(
    expected: Result<Step, ExecError>,
    before: State,
    after: State,
    res: Result<usize, ExecError>,
) -> bool {
    match expected {
        Ok(step) => res == Ok::<usize, ExecError>(step.advance as usize) && after == step.state
            && step.effect == EffectView::Nothing,
        Err(e) => res == Err::<usize, ExecError>(e) && after == before,
    }
}

/// The result `res` and the state `after` are what `expected` says. A
/// command that fails leaves the state as it was `before`.
pub open spec fn as_asked(
    expected: Result<Step, ExecError>,
    before: State,
    after: State,
    res: Result<Outcome, ExecError>,
) -> bool {
    match expected {
        Ok(step) => {
            &&& res is Ok
            &&& res->Ok_0.advance == step.advance
            &&& res->Ok_0.effect@ == step.effect
            &&& after == step.state
        },
        Err(e) => res == Err::<Outcome, ExecError>(e) && after == before,
    }
}

/// Code that is being run: its tokens, the place of the next command, and
/// how often it is to be run.
#[derive(Debug)]
pub struct Frame {
    pub tokens: Vec<Token>,
    pub pc: usize,
    pub passes: Passes,
}

impl View for Frame {
    type V = FrameView;

    open spec fn view(&self) -> FrameView {
        FrameView { tokens: views_of(self.tokens@), pc: self.pc as nat, passes: self.passes }
    }
}

impl Frame {
    /// The frame that runs `code` from its start.
    pub fn fresh(code: &str, passes: Passes) -> (res: Frame)
        ensures
            res@ == fresh_frame(code@, passes),
    {
        let mut lexer = Lexer::new(code);
        Frame { tokens: lexer.tokenize(), pc: 0, passes }
    }
}

/// What a step of the interpreter leaves to its caller.
#[derive(Debug, PartialEq, Eq)]
pub enum Action {
    /// Nothing is left to run.
    Idle,
    /// Nothing; there may be more to run.
    Continue,
    /// Show the text.
    Print,
    /// End the program.
    Quit,
    /// Write the text to the buffer's file.
    Save,
    /// Read the buffer's file and put what it holds behind the text.
    Load,
    /// Read the file of this name and run the commands in it.
    Import(String),
}

impl View for Action {
    type V = ActionView;

    open spec fn view(&self) -> ActionView {
        match self {
            Action::Idle => ActionView::Idle,
            Action::Continue => ActionView::Continue,
            Action::Print => ActionView::Print,
            Action::Quit => ActionView::Quit,
            Action::Save => ActionView::Save,
            Action::Load => ActionView::Load,
            Action::Import(path) => ActionView::Import(path@),
        }
    }
}

/// The editor: a buffer, the variables, and the code that is being run.
pub struct PLECo {
    /// The text buffer.
    pub buffer: ViewBuffer,
    /// The variables.
    pub vars: VariableStore,
    /// The code that is being run, the innermost last.
    pub frames: Vec<Frame>,
}

impl PLECo {
    /// The cursor stands on a character boundary, and the variables are in
    /// order.
    pub open spec fn wf(&self) -> bool {
        self.buffer.wf() && self.vars.wf()
    }

    /// The state that the commands work on.
    pub open spec fn state(&self) -> State {
        State {
            left: self.buffer.left(),
            right: self.buffer.right(),
            filename: self.buffer.filename@,
            vars: self.vars@,
        }
    }

    /// The frames, with their tokens as views.
    pub open spec fn stack(&self) -> Seq<FrameView> {
        Seq::new(self.frames@.len(), |i: int| self.frames@[i]@)
    }

    /// An editor with an empty buffer for the file `tmp.txt`, nothing to
    /// run, and the variable `HOME` bound to the path `home`, if there is
    /// one.
    pub fn new(home: Option<String>) -> (res: Self)
        ensures
            res.wf(),
            res.stack() == Seq::<FrameView>::empty(),
            res.state().left == Seq::<char>::empty(),
            res.state().right == Seq::<char>::empty(),
            res.state().filename == "tmp.txt"@,
            res.state().vars == (match home {
                Some(path) => Map::<Seq<char>, TokenView>::empty().insert(
                    "HOME"@,
                    TokenView::StringLiteral(path@),
                ),
                None => Map::<Seq<char>, TokenView>::empty(),
            }),
    {
        let buffer = ViewBuffer::new("tmp.txt");
        let mut vars = VariableStore::new();
        match home {
            Some(path) => {
                vars.define("HOME".to_owned(), Token::StringLiteral(path));
            },
            None => {},
        }
        let res = Self { buffer, vars, frames: Vec::new() };
        proof {
            assert(res.stack() =~= Seq::<FrameView>::empty());
        }
        res
    }

    /// The text that the operand of an insertion stands for.
    fn insert_text_of(&self, t: &Token) -> (res: Result<String, ExecError>)
        requires
            self.wf(),
        ensures
            match res {
                Ok(s) => insert_operand(t@, self.vars@) == Ok::<Seq<char>, ExecError>(s@),
                Err(e) => insert_operand(t@, self.vars@) == Err::<Seq<char>, ExecError>(e),
            },
    {
        match t {
            Token::StringLiteral(s) => Ok(s.clone()),
            Token::Integer(v) => Ok(int_to_string(*v)),
            Token::Var(name) => match self.vars.lookup(name) {
                None => Err(ExecError::UndefinedVariable),
                Some(Token::StringLiteral(s)) => Ok(s.clone()),
                Some(Token::Integer(v)) => Ok(int_to_string(*v)),
                Some(_) => Err(ExecError::TypeMismatch),
            },
            _ => Err(ExecError::TypeMismatch),
        }
    }

    /// `a`: inserts the text of its operand at the cursor.
    pub fn cmd_insert(&mut self, pc: usize, commands: &Vec<Token>) -> (res: Result<
        usize,
        ExecError,
    >)
        requires
            old(self).wf(),
        ensures
            final(self).wf(),
            final(self).frames == old(self).frames,
            as_expected(
                insert_spec(old(self).state(), views_of(commands@), pc as int),
                old(self).state(),
                final(self).state(),
                res,
            ),
    {
        if pc >= commands.len() || commands.len() - pc <= 1 {
            return Ok(0);
        }
        let text = match self.insert_text_of(&commands[pc + 1]) {
            Ok(text) => text,
            Err(e) => {
                return Err(e);
            },
        };
        self.buffer.insert_text(text.as_str());
        Ok(1)
    }

    /// The integer that the operand of a jump stands for.
    fn jump_target_of(&self, t: &Token) -> (res: Result<i32, ExecError>)
        requires
            self.wf(),
        ensures
            res == jump_operand(t@, self.vars@),
    {
        match t {
            Token::Integer(v) => Ok(*v),
            Token::Var(name) => match self.vars.lookup(name) {
                None => Err(ExecError::UndefinedVariable),
                Some(Token::Integer(v)) => Ok(*v),
                Some(_) => Err(ExecError::TypeMismatch),
            },
            _ => Err(ExecError::TypeMismatch),
        }
    }

    /// `t`: puts the cursor at the byte offset that its operand gives.
    pub fn cmd_jump_cur(&mut self, pc: usize, commands: &Vec<Token>) -> (res: Result<
        usize,
        ExecError,
    >)
        requires
            old(self).wf(),
        ensures
            final(self).wf(),
            final(self).frames == old(self).frames,
            as_expected(
                jump_spec(old(self).state(), views_of(commands@), pc as int),
                old(self).state(),
                final(self).state(),
                res,
            ),
    {
        if pc >= commands.len() || commands.len() - pc <= 1 {
            return Ok(0);
        }
        let to = match self.jump_target_of(&commands[pc + 1]) {
            Ok(to) => to,
            Err(e) => {
                return Err(e);
            },
        };
        proof {
            self.buffer.lemma_gap();
        }
        self.buffer.jump(to);
        Ok(1)
    }

    /// `s`: puts the cursor in front of the first occurrence of its operand.
    pub fn cmd_search(&mut self, pc: usize, commands: &Vec<Token>) -> (res: Result<
        usize,
        ExecError,
    >)
        requires
            old(self).wf(),
        ensures
            final(self).wf(),
            final(self).frames == old(self).frames,
            as_expected(
                search_spec(old(self).state(), views_of(commands@), pc as int),
                old(self).state(),
                final(self).state(),
                res,
            ),
    {
        if pc >= commands.len() || commands.len() - pc <= 1 {
            return Ok(0);
        }
        let pattern = match operand_text(&commands[pc + 1], &self.vars) {
            Ok(pattern) => pattern,
            Err(e) => {
                return Err(e);
            },
        };
        proof {
            self.buffer.lemma_gap();
        }
        self.buffer.search(pattern.as_str());
        proof {
            let st = old(self).state();
            let text = st.text();
            assert(text == old(self).buffer.buffer@);
            if exists|k: int| is_first_match(text, pattern@, k) {
                let k = choose|k: int| is_first_match(text, pattern@, k);
                assert(is_first_match(old(self).buffer.buffer@, pattern@, k));
                assert(self.buffer.left() == text.take(k));
                assert(self.buffer.right() == text.skip(k));
                assert(self.state() == search_state(st, pattern@));
            } else {
                assert(no_match(text, pattern@));
                assert(self.buffer.cursor == old(self).buffer.cursor);
                assert(self.state() == search_state(st, pattern@));
            }
        }
        Ok(1)
    }

    /// Evaluates the expression `expr` with the editor's variables and text.
    pub fn process_expr(&self, expr: &str) -> (res: Result<i32, ExecError>)
        requires
            self.wf(),
        ensures
            res == eval_expr(expr@, self.state().vars, self.state().text()),
    {
        proof {
            self.buffer.lemma_gap();
        }
        evaluate(expr, &self.vars, &self.buffer.buffer)
    }

    /// The value that a definition binds.
    fn value_of(&self, t: &Token) -> (res: Result<Token, ExecError>)
        requires
            self.wf(),
        ensures
            match res {
                Ok(v) => value_operand(t@, self.state()) == Ok::<TokenView, ExecError>(v@),
                Err(e) => value_operand(t@, self.state()) == Err::<TokenView, ExecError>(e),
            },
    {
        proof {
            self.buffer.lemma_gap();
        }
        match t {
            Token::Var(name) => match self.vars.lookup(name) {
                Some(value) => Ok(value.clone()),
                None => Err(ExecError::UndefinedVariable),
            },
            Token::Expr(e) => match self.process_expr(e.as_str()) {
                Ok(v) => Ok(Token::Integer(v)),
                Err(e) => Err(e),
            },
            _ => Ok(t.clone()),
        }
    }

    /// `@`: binds the variable that its first operand names to the value of
    /// its second.
    pub fn cmd_define(&mut self, pc: usize, commands: &Vec<Token>) -> (res: Result<
        usize,
        ExecError,
    >)
        requires
            old(self).wf(),
        ensures
            final(self).wf(),
            final(self).frames == old(self).frames,
            as_expected(
                define_spec(old(self).state(), views_of(commands@), pc as int),
                old(self).state(),
                final(self).state(),
                res,
            ),
    {
        if pc >= commands.len() || commands.len() - pc <= 2 {
            return Ok(0);
        }
        match &commands[pc + 1] {
            Token::Var(name) => {
                let value = match self.value_of(&commands[pc + 2]) {
                    Ok(value) => value,
                    Err(e) => {
                        return Err(e);
                    },
                };
                self.vars.define(name.clone(), value);
                Ok(2)
            },
            _ => Ok(2),
        }
    }

    /// `!`: names the buffer's file after its operand.
    pub fn cmd_set_filename(&mut self, pc: usize, commands: &Vec<Token>) -> (res: Result<
        usize,
        ExecError,
    >)
        requires
            old(self).wf(),
        ensures
            final(self).wf(),
            final(self).frames == old(self).frames,
            as_expected(
                set_filename_spec(old(self).state(), views_of(commands@), pc as int),
                old(self).state(),
                final(self).state(),
                res,
            ),
    {
        if pc >= commands.len() || commands.len() - pc <= 1 {
            return Ok(0);
        }
        let name = match operand_text(&commands[pc + 1], &self.vars) {
            Ok(name) => name,
            Err(e) => {
                return Err(e);
            },
        };
        self.buffer.set_filename(name);
        Ok(1)
    }

    /// `=`: runs its third operand where the first two are the same token,
    /// its fourth where they are not.
    pub fn cmd_equal(&self, pc: usize, commands: &Vec<Token>) -> (res: Result<Outcome, ExecError>)
        ensures
            as_asked(
                equal_spec(self.state(), views_of(commands@), pc as int),
                self.state(),
                self.state(),
                res,
            ),
    {
        if pc >= commands.len() || commands.len() - pc <= 4 {
            return Ok(Outcome { advance: 0, effect: Effect::Nothing });
        }
        match (&commands[pc + 3], &commands[pc + 4]) {
            (Token::Code(same), Token::Code(other)) => {
                if commands[pc + 1] == commands[pc + 2] {
                    Ok(Outcome { advance: 4, effect: Effect::Run(same.clone()) })
                } else {
                    Ok(Outcome { advance: 4, effect: Effect::Run(other.clone()) })
                }
            },
            _ => Ok(Outcome { advance: 0, effect: Effect::Nothing }),
        }
    }

    /// `M`: runs its operand.
    pub fn cmd_execute_func(&self, pc: usize, commands: &Vec<Token>) -> (res: Result<
        Outcome,
        ExecError,
    >)
        ensures
            as_asked(
                execute_func_spec(self.state(), views_of(commands@), pc as int),
                self.state(),
                self.state(),
                res,
            ),
    {
        if pc >= commands.len() || commands.len() - pc <= 1 {
            return Ok(Outcome { advance: 0, effect: Effect::Nothing });
        }
        match &commands[pc + 1] {
            Token::Code(code) => Ok(Outcome { advance: 1, effect: Effect::Run(code.clone()) }),
            _ => Ok(Outcome { advance: 0, effect: Effect::Nothing }),
        }
    }

    /// `l`: runs the commands in the file that its operand names.
    pub fn cmd_import(&self, pc: usize, commands: &Vec<Token>) -> (res: Result<Outcome, ExecError>)
        ensures
            as_asked(
                import_spec(self.state(), views_of(commands@), pc as int),
                self.state(),
                self.state(),
                res,
            ),
    {
        if pc >= commands.len() || commands.len() - pc <= 1 {
            return Ok(Outcome { advance: 0, effect: Effect::Nothing });
        }
        match &commands[pc + 1] {
            Token::StringLiteral(path) => Ok(
                Outcome { advance: 1, effect: Effect::Import(path.clone()) },
            ),
            _ => Ok(Outcome { advance: 0, effect: Effect::Nothing }),
        }
    }

    /// `^LI^`: runs its operand again and again.
    pub fn cmd_loop_inf(&self, pc: usize, commands: &Vec<Token>) -> (res: Result<
        Outcome,
        ExecError,
    >)
        ensures
            as_asked(
                loop_inf_spec(self.state(), views_of(commands@), pc as int),
                self.state(),
                self.state(),
                res,
            ),
    {
        if pc >= commands.len() || commands.len() - pc <= 1 {
            return Ok(Outcome { advance: 0, effect: Effect::Nothing });
        }
        match &commands[pc + 1] {
            Token::Code(code) => Ok(Outcome { advance: 1, effect: Effect::Forever(code.clone()) }),
            _ => Ok(Outcome { advance: 0, effect: Effect::Nothing }),
        }
    }

    /// `^Lo^`: runs its second operand as many times as its first says.
    pub fn cmd_loop_count(&self, pc: usize, commands: &Vec<Token>) -> (res: Result<
        Outcome,
        ExecError,
    >)
        ensures
            as_asked(
                loop_count_spec(self.state(), views_of(commands@), pc as int),
                self.state(),
                self.state(),
                res,
            ),
    {
        if pc >= commands.len() || commands.len() - pc <= 2 {
            return Ok(Outcome { advance: 0, effect: Effect::Nothing });
        }
        match (&commands[pc + 1], &commands[pc + 2]) {
            (Token::Integer(count), Token::Code(code)) => Ok(
                Outcome { advance: 2, effect: Effect::Repeat(code.clone(), *count) },
            ),
            _ => Ok(Outcome { advance: 0, effect: Effect::Nothing }),
        }
    }

    /// `^IF^`: runs its second operand where the first is greater than
    /// zero, its third where it is not.
    pub fn cmd_if_integer(&self, pc: usize, commands: &Vec<Token>) -> (res: Result<
        Outcome,
        ExecError,
    >)
        requires
            self.wf(),
        ensures
            as_asked(
                if_integer_spec(self.state(), views_of(commands@), pc as int),
                self.state(),
                self.state(),
                res,
            ),
    {
        if pc >= commands.len() || commands.len() - pc <= 3 {
            return Ok(Outcome { advance: 0, effect: Effect::Nothing });
        }
        match (&commands[pc + 2], &commands[pc + 3]) {
            (Token::Code(positive), Token::Code(other)) => {
                proof {
                    self.buffer.lemma_gap();
                }
                let value = match operand_int(&commands[pc + 1], &self.vars, &self.buffer.buffer) {
                    Ok(value) => value,
                    Err(e) => {
                        return Err(e);
                    },
                };
                if value > 0 {
                    Ok(Outcome { advance: 3, effect: Effect::Run(positive.clone()) })
                } else {
                    Ok(Outcome { advance: 3, effect: Effect::Run(other.clone()) })
                }
            },
            _ => Ok(Outcome { advance: 0, effect: Effect::Nothing }),
        }
    }

    /// A command of several characters.
    pub fn handle_multicommand(&self, pc: usize, commands: &Vec<Token>, cmd: &String) -> (res:
        Result<Outcome, ExecError>)
        requires
            self.wf(),
        ensures
            as_asked(
                multicommand_spec(self.state(), views_of(commands@), pc as int, cmd@),
                self.state(),
                self.state(),
                res,
            ),
    {
        if *cmd == "LI".to_owned() {
            return self.cmd_loop_inf(pc, commands);
        }
        if *cmd == "Lo".to_owned() {
            return self.cmd_loop_count(pc, commands);
        }
        if *cmd == "IF".to_owned() {
            return self.cmd_if_integer(pc, commands);
        }
        Ok(Outcome { advance: 0, effect: Effect::Nothing })
    }

    /// A character that is no built-in command: runs the code that the
    /// variable of that name holds, if it holds code.
    fn call_macro(&self, c: char) -> (res: Result<Outcome, ExecError>)
        requires
            self.wf(),
        ensures
            as_asked(macro_spec(self.state(), c), self.state(), self.state(), res),
    {
        let mut name = String::new();
        string_push(&mut name, c);
        proof {
            assert(name@ =~= seq![c]);
        }
        match self.vars.lookup(&name) {
            Some(Token::Code(code)) => Ok(Outcome { advance: 0, effect: Effect::Run(code.clone()) }),
            _ => Ok(Outcome { advance: 0, effect: Effect::Nothing }),
        }
    }

    /// Runs the command at `pc` of `commands`.
    pub fn dispatch(&mut self, pc: usize, commands: &Vec<Token>) -> (res: Result<
        Outcome,
        ExecError,
    >)
        requires
            old(self).wf(),
            pc < commands.len(),
        ensures
            final(self).wf(),
            final(self).frames == old(self).frames,
            as_asked(
                dispatch_spec(old(self).state(), views_of(commands@), pc as int),
                old(self).state(),
                final(self).state(),
                res,
            ),
    {
        match &commands[pc] {
            Token::Command(c) => {
                let c: char = *c;
                if c == 'a' {
                    quiet(self.cmd_insert(pc, commands))
                } else if c == 'b' {
                    self.buffer.cur_move_left();
                    Ok(Outcome { advance: 0, effect: Effect::Nothing })
                } else if c == 'f' {
                    self.buffer.cur_move_right();
                    Ok(Outcome { advance: 0, effect: Effect::Nothing })
                } else if c == 'r' {
                    self.buffer.remove_char();
                    Ok(Outcome { advance: 0, effect: Effect::Nothing })
                } else if c == 'R' {
                    self.buffer.clear();
                    Ok(Outcome { advance: 0, effect: Effect::Nothing })
                } else if c == 'v' {
                    Ok(Outcome { advance: 0, effect: Effect::Print })
                } else if c == 'q' {
                    Ok(Outcome { advance: 0, effect: Effect::Quit })
                } else if c == '#' {
                    Ok(Outcome { advance: 0, effect: Effect::Abort })
                } else if c == 't' {
                    quiet(self.cmd_jump_cur(pc, commands))
                } else if c == 's' {
                    quiet(self.cmd_search(pc, commands))
                } else if c == '@' {
                    quiet(self.cmd_define(pc, commands))
                } else if c == '!' {
                    quiet(self.cmd_set_filename(pc, commands))
                } else if c == 'S' {
                    Ok(Outcome { advance: 0, effect: Effect::Save })
                } else if c == 'x' {
                    Ok(Outcome { advance: 0, effect: Effect::Load })
                } else if c == '=' {
                    self.cmd_equal(pc, commands)
                } else if c == 'M' {
                    self.cmd_execute_func(pc, commands)
                } else if c == 'l' {
                    self.cmd_import(pc, commands)
                } else {
                    self.call_macro(c)
                }
            },
            Token::MultiLengthCommand(cmd) => self.handle_multicommand(pc, commands, cmd),
            _ => Ok(Outcome { advance: 0, effect: Effect::Nothing }),
        }
    }

    /// Puts the commands of `command` on the stack, to be run once before
    /// anything that is on it already.
    pub fn handle_command(&mut self, command: &str)
        ensures
            final(self).buffer == old(self).buffer,
            final(self).vars == old(self).vars,
            final(self).stack() == old(self).stack().push(
                fresh_frame(command@, Passes::Times(1)),
            ),
    {
        let frame = Frame::fresh(command, Passes::Times(1));
        self.frames.push(frame);
        proof {
            assert(self.stack() =~= old(self).stack().push(
                fresh_frame(command@, Passes::Times(1)),
            ));
        }
    }

    /// Runs one step: the command at the program counter of the innermost
    /// frame, or the end of that frame. Says what is left to the caller.
    pub fn step(&mut self) -> (res: Result<Action, ExecError>)
        requires
            old(self).wf(),
        ensures
            final(self).wf(),
            final(self).state() == step_spec(old(self).state(), old(self).stack()).0,
            final(self).stack() == step_spec(old(self).state(), old(self).stack()).1,
            match step_spec(old(self).state(), old(self).stack()).2 {
                Ok(action) => res is Ok && res->Ok_0@ == action,
                Err(e) => res == Err::<Action, ExecError>(e),
            },
    {
        let ghost stack = self.stack();
        let mut frame = match self.frames.pop() {
            None => {
                return Ok(Action::Idle);
            },
            Some(frame) => frame,
        };
        let ghost top = frame@;
        let ghost below = self.stack();
        proof {
            assert(top == stack.last());
            assert(below =~= stack.drop_last());
        }
        if frame.pc >= frame.tokens.len() {
            match frame.passes {
                Passes::Forever => {
                    frame.pc = 0;
                    self.frames.push(frame);
                    proof {
                        assert(self.stack() =~= below.push(FrameView { pc: 0, ..top }));
                    }
                },
                Passes::Times(n) => {
                    if n > 1 {
                        frame.pc = 0;
                        frame.passes = Passes::Times(n - 1);
                        self.frames.push(frame);
                        proof {
                            assert(self.stack() =~= below.push(
                                FrameView { pc: 0, passes: Passes::Times((n - 1) as i32), ..top },
                            ));
                        }
                    }
                },
            }
            return Ok(Action::Continue);
        }
        proof {
            lemma_dispatch_advance(self.state(), top.tokens, top.pc as int);
        }
        let outcome = match self.dispatch(frame.pc, &frame.tokens) {
            Ok(outcome) => outcome,
            Err(e) => {
                self.frames.clear();
                proof {
                    assert(self.stack() =~= Seq::<FrameView>::empty());
                }
                return Err(e);
            },
        };
        frame.pc = frame.pc + outcome.advance + 1;
        let ghost moved = frame@;
        match outcome.effect {
            Effect::Run(code) => {
                self.frames.push(frame);
                self.frames.push(Frame::fresh(code.as_str(), Passes::Times(1)));
                proof {
                    assert(self.stack() =~= below.push(moved).push(
                        fresh_frame(code@, Passes::Times(1)),
                    ));
                }
                Ok(Action::Continue)
            },
            Effect::Repeat(code, n) => {
                self.frames.push(frame);
                if n >= 1 {
                    self.frames.push(Frame::fresh(code.as_str(), Passes::Times(n)));
                    proof {
                        assert(self.stack() =~= below.push(moved).push(
                            fresh_frame(code@, Passes::Times(n)),
                        ));
                    }
                } else {
                    proof {
                        assert(self.stack() =~= below.push(moved));
                    }
                }
                Ok(Action::Continue)
            },
            Effect::Forever(code) => {
                self.frames.push(frame);
                self.frames.push(Frame::fresh(code.as_str(), Passes::Forever));
                proof {
                    assert(self.stack() =~= below.push(moved).push(
                        fresh_frame(code@, Passes::Forever),
                    ));
                }
                Ok(Action::Continue)
            },
            Effect::Abort => {
                frame.pc = frame.tokens.len();
                self.frames.push(frame);
                proof {
                    assert(self.stack() =~= below.push(
                        FrameView { pc: moved.tokens.len(), ..moved },
                    ));
                }
                Ok(Action::Continue)
            },
            Effect::Quit => {
                self.frames.clear();
                proof {
                    assert(self.stack() =~= Seq::<FrameView>::empty());
                }
                Ok(Action::Quit)
            },
            Effect::Nothing => {
                self.frames.push(frame);
                proof {
                    assert(self.stack() =~= below.push(moved));
                }
                Ok(Action::Continue)
            },
            Effect::Print => {
                self.frames.push(frame);
                proof {
                    assert(self.stack() =~= below.push(moved));
                }
                Ok(Action::Print)
            },
            Effect::Save => {
                self.frames.push(frame);
                proof {
                    assert(self.stack() =~= below.push(moved));
                }
                Ok(Action::Save)
            },
            Effect::Load => {
                self.frames.push(frame);
                proof {
                    assert(self.stack() =~= below.push(moved));
                }
                Ok(Action::Load)
            },
            Effect::Import(path) => {
                self.frames.push(frame);
                proof {
                    assert(self.stack() =~= below.push(moved));
                }
                Ok(Action::Import(path))
            },
        }
    }

    /// Runs steps until one leaves something to the caller or fails, but no
    /// more than `limit` of them. `Continue` says that the limit was reached.
    pub fn resume(&mut self, limit: usize) -> (res: Result<Action, ExecError>)
        requires
            old(self).wf(),
        ensures
            final(self).wf(),
            final(self).state() == run_spec(old(self).state(), old(self).stack(), limit as nat).0,
            final(self).stack() == run_spec(old(self).state(), old(self).stack(), limit as nat).1,
            match run_spec(old(self).state(), old(self).stack(), limit as nat).2 {
                Ok(action) => res is Ok && res->Ok_0@ == action,
                Err(e) => res == Err::<Action, ExecError>(e),
            },
    {
        let mut left: usize = limit;
        while left > 0
            invariant
                self.wf(),
                run_spec(old(self).state(), old(self).stack(), limit as nat) == run_spec(
                    self.state(),
                    self.stack(),
                    left as nat,
                ),
            decreases left,
        {
            match self.step() {
                Ok(Action::Continue) => {
                    left = left - 1;
                },
                other => {
                    return other;
                },
            }
        }
        Ok(Action::Continue)
    }

    /// Whether nothing is left to run.
    pub fn is_idle(&self) -> (res: bool)
        ensures
            res == (self.stack().len() == 0),
    {
        self.frames.len() == 0
    }
}

/// The outcome of a command that asks for nothing.
fn quiet(res: Result<usize, ExecError>) -> (out: Result<Outcome, ExecError>)
    ensures
        match res {
            Ok(advance) => out is Ok && out->Ok_0.advance == advance && out->Ok_0.effect
                == Effect::Nothing,
            Err(e) => out == Err::<Outcome, ExecError>(e),
        },
{
    match res {
        Ok(advance) => Ok(Outcome { advance, effect: Effect::Nothing }),
        Err(e) => Err(e),
    }
}

} // verus!
