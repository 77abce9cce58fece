//! The calculator session: one explicit context value holding the
//! input buffer, the operand stack, the current view mode and the quit
//! flag, together with the handlers that drive it.
//!
//! Two paths mutate the session.  A quick-command check runs after
//! every appended character: a buffer that is exactly one reserved
//! token fires immediately and clears the buffer.  On submission the
//! whole buffer is parsed and routed to the handler of the current
//! mode; only the stack mode has behavior in this version.

use crate::dispatch::{dispatch, dispatch_model};
use crate::errors::ErrorKind;
use crate::operand::{Operand, OperandModel, stack_view};
use crate::parse::{LineModel, ParsedLine, line_model_of, parse_line};
use crate::terminal::TerminalSize;
use vstd::prelude::*;

verus! {

/// Whether the event loop keeps running.
#[derive(Clone, Copy, PartialEq, Eq, Structural, Debug)]
pub enum LoopControl {
    Continue,
    Break,
}

/// The view the UI currently routes input to.
#[derive(Clone, Copy, PartialEq, Eq, Structural, Debug)]
pub enum AppMode {
    Stack,
    Program,
    Matrix,
    Variables,
}

/// The fixed cycle of view modes.
pub open spec fn next_mode(m: AppMode) -> AppMode {
    match m {
        AppMode::Stack => AppMode::Program,
        AppMode::Program => AppMode::Matrix,
        AppMode::Matrix => AppMode::Variables,
        AppMode::Variables => AppMode::Stack,
    }
}

impl AppMode {
    /// The next mode in the fixed cycle.
    pub fn next(&self) -> (r: AppMode)
        ensures
            r == next_mode(*self),
    {
        match self {
            AppMode::Stack => AppMode::Program,
            AppMode::Program => AppMode::Matrix,
            AppMode::Matrix => AppMode::Variables,
            AppMode::Variables => AppMode::Stack,
        }
    }
}

/// Arrow-key behavior of a view mode.  In this version every view
/// ignores the arrows, but the hooks keep one uniform signature so
/// the control loop can route arrow keys without caring which mode is
/// current.
pub trait ModeBehavior: Sized {
    /// Reacts to the up arrow; a no-op in every current view.
    fn on_up_arrow(&mut self, context: &mut AppContext)
        ensures
            *final(self) == *old(self),
            *final(context) == *old(context),
    ;

    /// Reacts to the down arrow; a no-op in every current view.
    fn on_down_arrow(&mut self, context: &mut AppContext)
        ensures
            *final(self) == *old(self),
            *final(context) == *old(context),
    ;

    /// Reacts to the left arrow; a no-op in every current view.
    fn on_left_arrow(&mut self, context: &mut AppContext)
        ensures
            *final(self) == *old(self),
            *final(context) == *old(context),
    ;

    /// Reacts to the right arrow; a no-op in every current view.
    fn on_right_arrow(&mut self, context: &mut AppContext)
        ensures
            *final(self) == *old(self),
            *final(context) == *old(context),
    ;
}

impl ModeBehavior for AppMode {
    fn on_up_arrow(&mut self, context: &mut AppContext) {
        match self {
            AppMode::Stack => {},
            AppMode::Program => {},
            AppMode::Matrix => {},
            AppMode::Variables => {},
        }
    }

    fn on_down_arrow(&mut self, context: &mut AppContext) {
        match self {
            AppMode::Stack => {},
            AppMode::Program => {},
            AppMode::Matrix => {},
            AppMode::Variables => {},
        }
    }

    fn on_left_arrow(&mut self, context: &mut AppContext) {
        match self {
            AppMode::Stack => {},
            AppMode::Program => {},
            AppMode::Matrix => {},
            AppMode::Variables => {},
        }
    }

    fn on_right_arrow(&mut self, context: &mut AppContext) {
        match self {
            AppMode::Stack => {},
            AppMode::Program => {},
            AppMode::Matrix => {},
            AppMode::Variables => {},
        }
    }
}

/// A decoded keystroke the engine reacts to.  The UI translates raw
/// terminal events into these plain values.
#[derive(Clone, Copy, PartialEq, Eq, Structural, Debug)]
pub enum KeyInput {
    /// Cycle to the next mode.
    Tab,
    /// Delete the last buffered character.
    Backspace,
    /// Submit the buffer as one line.
    Enter,
    /// Append one character to the buffer.
    Character(char),
}

/// The bit pattern of the demo scalar 3.14.
pub const DEMO_SCALAR_BITS: u64 = 0x4009_1EB8_51EB_851F;

/// The bit pattern of 1.0.
pub const ONE_BITS: u64 = 0x3FF0_0000_0000_0000;

/// The bit pattern of 2.0.
pub const TWO_BITS: u64 = 0x4000_0000_0000_0000;

/// The bit pattern of 3.0.
pub const THREE_BITS: u64 = 0x4008_0000_0000_0000;

/// The bit pattern of 4.0.
pub const FOUR_BITS: u64 = 0x4010_0000_0000_0000;

/// The bit pattern of 5.0.
pub const FIVE_BITS: u64 = 0x4014_0000_0000_0000;

/// The bit pattern of 6.0.
pub const SIX_BITS: u64 = 0x4018_0000_0000_0000;

/// The bit pattern of 7.0.
pub const SEVEN_BITS: u64 = 0x401C_0000_0000_0000;

/// The bit pattern of 8.0.
pub const EIGHT_BITS: u64 = 0x4020_0000_0000_0000;

/// The bit pattern of 9.0.
pub const NINE_BITS: u64 = 0x4022_0000_0000_0000;

/// The stack a fresh session starts with: one scalar, one single-row
/// matrix and one two-row matrix, for the UI to show off.
pub open spec fn demo_stack() -> Seq<OperandModel> {
    seq![
        OperandModel::Num(DEMO_SCALAR_BITS),
        OperandModel::Mat(seq![seq![ONE_BITS, TWO_BITS, THREE_BITS]]),
        OperandModel::Mat(
            seq![seq![FOUR_BITS, FIVE_BITS, SIX_BITS], seq![SEVEN_BITS, EIGHT_BITS, NINE_BITS]],
        ),
    ]
}

/// The whole session state, passed explicitly into every handler: no
/// hidden statics.
pub struct AppContext {
    /// The characters typed since the last submission or quick match.
    pub input_buffer: Vec<char>,
    /// The terminal geometry the UI last reported.
    pub terminal_size: TerminalSize,
    /// The view mode input is routed to.
    pub current_mode: AppMode,
    /// Set once a quick `quit` fires; the event loop then stops.
    pub should_quit: LoopControl,
    /// The operand stack, oldest value first.
    pub stack: Vec<Operand>,
}

impl AppContext {
    /// Every operand on the stack is well-formed.  Every handler
    /// preserves this.
    pub open spec fn wf(self) -> bool {
        forall|i: int|
            0 <= i < stack_view(self.stack@).len() ==> (#[trigger] stack_view(
                self.stack@,
            )[i]).wf()
    }
}

impl Default for AppContext {
    /// A fresh session: empty buffer, stack mode, the demo stack, and
    /// a zero terminal size for the UI to overwrite with the real one.
    fn default() -> (r: AppContext)
        ensures
            r.input_buffer@ == Seq::<char>::empty(),
            r.terminal_size == (TerminalSize { cols: 0, rows: 0 }),
            r.current_mode == AppMode::Stack,
            r.should_quit == LoopControl::Continue,
            stack_view(r.stack@) == demo_stack(),
            r.wf(),
    {
        let mut row1: Vec<u64> = Vec::new();
        row1.push(ONE_BITS);
        row1.push(TWO_BITS);
        row1.push(THREE_BITS);
        let mut row2a: Vec<u64> = Vec::new();
        row2a.push(FOUR_BITS);
        row2a.push(FIVE_BITS);
        row2a.push(SIX_BITS);
        let mut row2b: Vec<u64> = Vec::new();
        row2b.push(SEVEN_BITS);
        row2b.push(EIGHT_BITS);
        row2b.push(NINE_BITS);
        let mut one_row: Vec<Vec<u64>> = Vec::new();
        one_row.push(row1);
        let mut two_rows: Vec<Vec<u64>> = Vec::new();
        two_rows.push(row2a);
        two_rows.push(row2b);
        let mut stack: Vec<Operand> = Vec::new();
        stack.push(Operand::Number(DEMO_SCALAR_BITS));
        stack.push(Operand::Matrix(one_row));
        stack.push(Operand::Matrix(two_rows));
        let r = AppContext {
            input_buffer: Vec::new(),
            terminal_size: TerminalSize { cols: 0, rows: 0 },
            current_mode: AppMode::Stack,
            should_quit: LoopControl::Continue,
            stack,
        };
        proof {
            assert(stack_view(r.stack@) =~~= demo_stack());
            assert(r.wf());
        }
        r
    }
}

/// The reserved quick token that ends the session.
pub open spec fn quit_word() -> Seq<char> {
    seq!['q', 'u', 'i', 't']
}

/// The reserved quick token that empties the stack.
pub open spec fn clear_word() -> Seq<char> {
    seq!['c', 'l', 'e', 'a', 'r']
}

/// The reserved bare-operator quick tokens.  They are reserved but
/// inert in this version: they only clear the buffer.
pub open spec fn is_operator_word(s: Seq<char>) -> bool {
    s == seq!['*'] || s == seq!['/'] || s == seq!['+'] || s == seq!['-'] || s == seq!['^']
}

/// Whether the buffer is exactly one reserved quick token.
pub open spec fn is_quick_word(s: Seq<char>) -> bool {
    s == quit_word() || s == clear_word() || is_operator_word(s)
}

/// How one quick-command check transforms the session: a full match
/// fires its action and clears the buffer; anything else leaves the
/// session untouched.  Mode and terminal size never change here.
pub open spec fn quick_effect(pre: AppContext, post: AppContext) -> bool {
    &&& post.current_mode == pre.current_mode
    &&& post.terminal_size == pre.terminal_size
    &&& (pre.input_buffer@ == quit_word() ==> post.should_quit == LoopControl::Break
        && post.input_buffer@ == Seq::<char>::empty() && post.stack == pre.stack)
    &&& (pre.input_buffer@ == clear_word() ==> post.should_quit == pre.should_quit
        && post.input_buffer@ == Seq::<char>::empty() && post.stack@.len() == 0)
    &&& (is_operator_word(pre.input_buffer@) ==> post.should_quit == pre.should_quit
        && post.input_buffer@ == Seq::<char>::empty() && post.stack == pre.stack)
    &&& (!is_quick_word(pre.input_buffer@) ==> post == pre)
}

fn buf_is_quit(b: &Vec<char>) -> (r: bool)
    ensures
        r <==> b@ == quit_word(),
{
    let r = b.len() == 4 && b[0] == 'q' && b[1] == 'u' && b[2] == 'i' && b[3] == 't';
    proof {
        if r {
            assert(b@ =~= quit_word());
        }
    }
    r
}

fn buf_is_clear(b: &Vec<char>) -> (r: bool)
    ensures
        r <==> b@ == clear_word(),
{
    let r = b.len() == 5 && b[0] == 'c' && b[1] == 'l' && b[2] == 'e' && b[3] == 'a' && b[4] == 'r';
    proof {
        if r {
            assert(b@ =~= clear_word());
        }
    }
    r
}

fn buf_is_operator(b: &Vec<char>) -> (r: bool)
    ensures
        r <==> is_operator_word(b@),
{
    let r = b.len() == 1 && (b[0] == '*' || b[0] == '/' || b[0] == '+' || b[0] == '-' || b[0]
        == '^');
    proof {
        if r {
            assert(b@ =~= seq![b@[0]]);
        }
    }
    r
}

/// Runs the quick-command check against the live buffer: fired
/// actions take effect immediately, without waiting for submission.
pub fn parse_quick_cmds(context: &mut AppContext)
    ensures
        quick_effect(*old(context), *final(context)),
        old(context).wf() ==> final(context).wf(),
{
    if buf_is_quit(&context.input_buffer) {
        context.should_quit = LoopControl::Break;
        context.input_buffer.clear();
    } else if buf_is_clear(&context.input_buffer) {
        context.stack.clear();
        context.input_buffer.clear();
        proof {
            assert(stack_view(final(context).stack@) =~= Seq::<OperandModel>::empty());
        }
    } else if buf_is_operator(&context.input_buffer) {
        context.input_buffer.clear();
    }
}

/// Law: once a full `quit` match has fired, the termination flag is
/// set and the buffer is empty, and a further quick-command check is a
/// no-op: the match fires exactly once per full match, and only a
/// buffer that is the whole token (never a substring) fires it.
pub proof fn lemma_quit_fires_once(pre: AppContext, mid: AppContext, post: AppContext)
    requires
        pre.input_buffer@ == quit_word(),
        quick_effect(pre, mid),
        quick_effect(mid, post),
    ensures
        mid.should_quit == LoopControl::Break,
        mid.input_buffer@ == Seq::<char>::empty(),
        post == mid,
{
    assert(quit_word().len() == 4);
    assert(clear_word().len() == 5);
    assert(seq!['*'].len() == 1);
    assert(seq!['/'].len() == 1);
    assert(seq!['+'].len() == 1);
    assert(seq!['-'].len() == 1);
    assert(seq!['^'].len() == 1);
    assert(Seq::<char>::empty().len() == 0);
    assert(!is_quick_word(Seq::<char>::empty()));
}

/// Routes a parsed line in stack mode: a literal is pushed, a call is
/// dispatched.  Every literal the parser yields is well-formed, which
/// is what the requirement asks of the caller.
pub fn stack_mode_flow(parsed: ParsedLine, context: &mut AppContext) -> (r: Result<(), ErrorKind>)
    requires
        (match parsed@ {
            LineModel::Lit(op) => op.wf(),
            LineModel::Call { .. } => true,
        }),
    ensures
        final(context).input_buffer == old(context).input_buffer,
        final(context).current_mode == old(context).current_mode,
        final(context).terminal_size == old(context).terminal_size,
        final(context).should_quit == old(context).should_quit,
        (match parsed@ {
            LineModel::Lit(op) => r is Ok && stack_view(final(context).stack@) == stack_view(
                old(context).stack@,
            ).push(op),
            LineModel::Call { name, .. } => {
                let dm = dispatch_model(name, stack_view(old(context).stack@));
                &&& (r is Ok <==> dm is Ok)
                &&& (dm is Ok ==> stack_view(final(context).stack@) == dm->Ok_0)
                &&& (dm is Err ==> r->Err_0 == dm->Err_0 && final(context).stack == old(
                    context,
                ).stack)
            },
        }),
        old(context).wf() ==> final(context).wf(),
{
    match parsed {
        ParsedLine::Literal(op) => {
            let ghost pre_view = stack_view(context.stack@);
            let ghost opm = op@;
            context.stack.push(op);
            proof {
                assert(stack_view(final(context).stack@) =~= pre_view.push(opm));
                if old(context).wf() {
                    assert forall|i: int|
                        0 <= i < stack_view(final(context).stack@).len() implies (
                    #[trigger] stack_view(final(context).stack@)[i]).wf() by {
                        if i < pre_view.len() {
                            assert(stack_view(old(context).stack@)[i].wf());
                        }
                    }
                }
            }
            Ok(())
        },
        ParsedLine::Call { name, args } => {
            let r = dispatch(&name, &args, &mut context.stack);
            proof {
                if old(context).wf() && r is Ok {
                    crate::dispatch::lemma_dispatch_wf(name@, stack_view(old(context).stack@));
                }
            }
            r
        },
    }
}

/// The stack-mode handler's siblings: the program, variables and
/// matrix views are defined to be no-ops in this version, but keep the
/// same signature so the mode-cycling control loop routes uniformly.
pub fn program_mode_flow(parsed: ParsedLine, context: &mut AppContext) -> (r: Result<
    (),
    ErrorKind,
>)
    ensures
        *final(context) == *old(context),
        r is Ok,
{
    Ok(())
}

/// See `program_mode_flow`.
pub fn variables_mode_flow(parsed: ParsedLine, context: &mut AppContext) -> (r: Result<
    (),
    ErrorKind,
>)
    ensures
        *final(context) == *old(context),
        r is Ok,
{
    Ok(())
}

/// See `program_mode_flow`.
pub fn matrix_mode_flow(parsed: ParsedLine, context: &mut AppContext) -> (r: Result<
    (),
    ErrorKind,
>)
    ensures
        *final(context) == *old(context),
        r is Ok,
{
    Ok(())
}

/// How one submission transforms the session: the buffer is parsed,
/// the parsed line is routed to the current mode's handler, and the
/// buffer is cleared whatever happened.
pub open spec fn submit_effect(pre: AppContext, post: AppContext, r: Result<
    (),
    ErrorKind,
>) -> bool {
    &&& post.input_buffer@ == Seq::<char>::empty()
    &&& post.current_mode == pre.current_mode
    &&& post.terminal_size == pre.terminal_size
    &&& post.should_quit == pre.should_quit
    &&& (line_model_of(pre.input_buffer@) is None ==> r == Err::<(), ErrorKind>(
        ErrorKind::ParseError,
    ) && post.stack == pre.stack)
    &&& (line_model_of(pre.input_buffer@) is Some && pre.current_mode != AppMode::Stack ==> r is Ok
        && post.stack == pre.stack)
    &&& (line_model_of(pre.input_buffer@) is Some && pre.current_mode == AppMode::Stack ==> (
    match line_model_of(pre.input_buffer@).unwrap() {
        LineModel::Lit(op) => r is Ok && stack_view(post.stack@) == stack_view(pre.stack@).push(op),
        LineModel::Call { name, .. } => {
            let dm = dispatch_model(name, stack_view(pre.stack@));
            &&& (r is Ok <==> dm is Ok)
            &&& (dm is Ok ==> stack_view(post.stack@) == dm->Ok_0)
            &&& (dm is Err ==> r->Err_0 == dm->Err_0 && post.stack == pre.stack)
        },
    }))
}

/// Parses the buffer, routes the result into the current mode's
/// handler, clears the buffer, and surfaces any error as a value.
pub fn submit_line(context: &mut AppContext) -> (r: Result<(), ErrorKind>)
    ensures
        submit_effect(*old(context), *final(context), r),
        old(context).wf() ==> final(context).wf(),
{
    let parsed = parse_line(&context.input_buffer);
    context.input_buffer.clear();
    match parsed {
        Err(e) => Err(e),
        Ok(line) => match context.current_mode {
            AppMode::Stack => stack_mode_flow(line, context),
            AppMode::Program => program_mode_flow(line, context),
            AppMode::Variables => variables_mode_flow(line, context),
            AppMode::Matrix => matrix_mode_flow(line, context),
        },
    }
}

/// How appending one character transforms the session: the character
/// joins the buffer, then one quick-command check runs against the
/// grown buffer.
pub open spec fn type_char_effect(pre: AppContext, post: AppContext, c: char) -> bool {
    let grown = pre.input_buffer@.push(c);
    &&& post.current_mode == pre.current_mode
    &&& post.terminal_size == pre.terminal_size
    &&& (grown == quit_word() ==> post.should_quit == LoopControl::Break && post.input_buffer@
        == Seq::<char>::empty() && post.stack == pre.stack)
    &&& (grown == clear_word() ==> post.should_quit == pre.should_quit && post.input_buffer@
        == Seq::<char>::empty() && post.stack@.len() == 0)
    &&& (is_operator_word(grown) ==> post.should_quit == pre.should_quit && post.input_buffer@
        == Seq::<char>::empty() && post.stack == pre.stack)
    &&& (!is_quick_word(grown) ==> post.should_quit == pre.should_quit && post.input_buffer@
        == grown && post.stack == pre.stack)
}

/// Appends one typed character to the buffer and runs the
/// quick-command check on the grown buffer, immediately.
pub fn process_char(context: &mut AppContext, c: char)
    ensures
        type_char_effect(*old(context), *final(context), c),
        old(context).wf() ==> final(context).wf(),
{
    context.input_buffer.push(c);
    parse_quick_cmds(context);
}

/// How the mode-cycling key transforms the session: only the mode
/// advances.
pub open spec fn tab_effect(pre: AppContext, post: AppContext) -> bool {
    &&& post.current_mode == next_mode(pre.current_mode)
    &&& post.input_buffer == pre.input_buffer
    &&& post.stack == pre.stack
    &&& post.should_quit == pre.should_quit
    &&& post.terminal_size == pre.terminal_size
}

/// How deleting one character transforms the session: the last
/// buffered character goes, and nothing else moves.
pub open spec fn backspace_effect(pre: AppContext, post: AppContext) -> bool {
    &&& post.input_buffer@ == (if pre.input_buffer@.len() > 0 {
        pre.input_buffer@.drop_last()
    } else {
        pre.input_buffer@
    })
    &&& post.current_mode == pre.current_mode
    &&& post.stack == pre.stack
    &&& post.should_quit == pre.should_quit
    &&& post.terminal_size == pre.terminal_size
}

/// Reacts to one decoded keystroke: Tab cycles the mode, Backspace
/// deletes one buffered character, Enter submits the buffer, and any
/// other character is appended (with the quick-command check run on
/// the grown buffer).
pub fn process_key(context: &mut AppContext, key: KeyInput) -> (r: Result<(), ErrorKind>)
    ensures
        old(context).wf() ==> final(context).wf(),
        key == KeyInput::Tab ==> r is Ok && tab_effect(*old(context), *final(context)),
        key == KeyInput::Backspace ==> r is Ok && backspace_effect(*old(context), *final(context)),
        key == KeyInput::Enter ==> submit_effect(*old(context), *final(context), r),
        key matches KeyInput::Character(c) ==> r is Ok && type_char_effect(
            *old(context),
            *final(context),
            c,
        ),
{
    match key {
        KeyInput::Tab => {
            context.current_mode = context.current_mode.next();
            Ok(())
        },
        KeyInput::Backspace => {
            let _ = context.input_buffer.pop();
            Ok(())
        },
        KeyInput::Enter => submit_line(context),
        KeyInput::Character(c) => {
            process_char(context, c);
            Ok(())
        },
    }
}

} // verus!
