//! The session context: quick commands, key handling and submission.

use blang::errors::ErrorKind;
use blang::operand::Operand;
use blang::session::{
    parse_quick_cmds, process_char, process_key, submit_line, AppContext, AppMode, KeyInput,
    LoopControl,
};
use blang::terminal::TerminalSize;

fn type_word(context: &mut AppContext, word: &str) {
    for c in word.chars() {
        process_char(context, c);
    }
}

fn fresh() -> AppContext {
    let mut context = AppContext::default();
    context.stack.clear();
    context
}

#[test]
fn default_session_state() {
    let context = AppContext::default();
    assert!(context.input_buffer.is_empty());
    assert_eq!(context.current_mode, AppMode::Stack);
    assert_eq!(context.should_quit, LoopControl::Continue);
    assert_eq!(context.terminal_size, TerminalSize::new(0, 0));
    let want = vec![
        Operand::Number(3.14f64.to_bits()),
        Operand::Matrix(vec![vec![
            1.0f64.to_bits(),
            2.0f64.to_bits(),
            3.0f64.to_bits(),
        ]]),
        Operand::Matrix(vec![
            vec![4.0f64.to_bits(), 5.0f64.to_bits(), 6.0f64.to_bits()],
            vec![7.0f64.to_bits(), 8.0f64.to_bits(), 9.0f64.to_bits()],
        ]),
    ];
    assert_eq!(context.stack, want);
}

#[test]
fn quick_quit_fires_on_full_match() {
    let mut context = fresh();
    type_word(&mut context, "quit");
    assert_eq!(context.should_quit, LoopControl::Break);
    assert!(context.input_buffer.is_empty());
}

#[test]
fn quick_quit_fires_exactly_once() {
    let mut context = fresh();
    type_word(&mut context, "quit");
    assert_eq!(context.should_quit, LoopControl::Break);
    // The buffer was cleared by the match: the very next check is a
    // no-op until the token is typed out in full again.
    context.should_quit = LoopControl::Continue;
    parse_quick_cmds(&mut context);
    assert_eq!(context.should_quit, LoopControl::Continue);
    type_word(&mut context, "qui");
    assert_eq!(context.should_quit, LoopControl::Continue);
    process_char(&mut context, 't');
    assert_eq!(context.should_quit, LoopControl::Break);
}

#[test]
fn quick_quit_ignores_substring_match() {
    let mut context = fresh();
    type_word(&mut context, "xquit");
    assert_eq!(context.should_quit, LoopControl::Continue);
    assert_eq!(context.input_buffer, "xquit".chars().collect::<Vec<char>>());
}

#[test]
fn quick_clear_empties_the_stack() {
    let mut context = AppContext::default();
    assert_eq!(context.stack.len(), 3);
    type_word(&mut context, "clear");
    assert!(context.stack.is_empty());
    assert!(context.input_buffer.is_empty());
    assert_eq!(context.should_quit, LoopControl::Continue);
}

#[test]
fn quick_operators_only_clear_the_buffer() {
    for op in ["*", "/", "+", "-", "^"] {
        let mut context = AppContext::default();
        type_word(&mut context, op);
        assert!(context.input_buffer.is_empty(), "operator {:?}", op);
        assert_eq!(context.stack.len(), 3);
        assert_eq!(context.should_quit, LoopControl::Continue);
    }
}

#[test]
fn submit_pushes_literal() {
    let mut context = fresh();
    type_word(&mut context, "2.5");
    submit_line(&mut context).unwrap();
    assert!(context.input_buffer.is_empty());
    assert_eq!(context.stack, vec![Operand::Number(2.5f64.to_bits())]);
}

#[test]
fn submit_matrix_literal() {
    let mut context = fresh();
    type_word(&mut context, "1 2; 3 4");
    submit_line(&mut context).unwrap();
    assert_eq!(
        context.stack,
        vec![Operand::Matrix(vec![
            vec![1.0f64.to_bits(), 2.0f64.to_bits()],
            vec![3.0f64.to_bits(), 4.0f64.to_bits()],
        ])]
    );
}

#[test]
fn submit_routes_calls() {
    let mut context = fresh();
    type_word(&mut context, "1.5");
    submit_line(&mut context).unwrap();
    type_word(&mut context, "2.25");
    submit_line(&mut context).unwrap();
    type_word(&mut context, ".add");
    submit_line(&mut context).unwrap();
    assert_eq!(context.stack, vec![Operand::Number(3.75f64.to_bits())]);
}

#[test]
fn submit_call_ignores_extra_args() {
    // The built-in functions take no arguments and ignore any that
    // the call carries verbatim.
    let mut context = fresh();
    type_word(&mut context, "1.5");
    submit_line(&mut context).unwrap();
    type_word(&mut context, "2.25");
    submit_line(&mut context).unwrap();
    type_word(&mut context, ".add 1 2");
    submit_line(&mut context).unwrap();
    assert_eq!(context.stack, vec![Operand::Number(3.75f64.to_bits())]);
}

#[test]
fn submit_surfaces_parse_error_and_clears_buffer() {
    let mut context = fresh();
    type_word(&mut context, "abc");
    assert_eq!(submit_line(&mut context), Err(ErrorKind::ParseError));
    assert!(context.input_buffer.is_empty());
    assert!(context.stack.is_empty());
}

#[test]
fn submit_surfaces_dispatch_errors() {
    let mut context = fresh();
    type_word(&mut context, ".add");
    assert_eq!(submit_line(&mut context), Err(ErrorKind::StackUnderflow));
    type_word(&mut context, ".nope");
    assert_eq!(submit_line(&mut context), Err(ErrorKind::UnknownFunction));
    type_word(&mut context, "..");
    assert_eq!(submit_line(&mut context), Err(ErrorKind::UnknownFunction));
    assert!(context.stack.is_empty());
}

#[test]
fn submit_outside_stack_mode_is_inert() {
    let mut context = fresh();
    context.current_mode = AppMode::Program;
    type_word(&mut context, "2.5");
    submit_line(&mut context).unwrap();
    assert!(context.stack.is_empty());
    assert!(context.input_buffer.is_empty());
}

#[test]
fn tab_cycles_modes() {
    let mut context = fresh();
    assert_eq!(context.current_mode, AppMode::Stack);
    process_key(&mut context, KeyInput::Tab).unwrap();
    assert_eq!(context.current_mode, AppMode::Program);
    process_key(&mut context, KeyInput::Tab).unwrap();
    assert_eq!(context.current_mode, AppMode::Matrix);
    process_key(&mut context, KeyInput::Tab).unwrap();
    assert_eq!(context.current_mode, AppMode::Variables);
    process_key(&mut context, KeyInput::Tab).unwrap();
    assert_eq!(context.current_mode, AppMode::Stack);
}

#[test]
fn backspace_deletes_one_character() {
    let mut context = fresh();
    type_word(&mut context, "12");
    process_key(&mut context, KeyInput::Backspace).unwrap();
    assert_eq!(context.input_buffer, vec!['1']);
    process_key(&mut context, KeyInput::Backspace).unwrap();
    assert!(context.input_buffer.is_empty());
    process_key(&mut context, KeyInput::Backspace).unwrap();
    assert!(context.input_buffer.is_empty());
}

#[test]
fn enter_key_submits() {
    let mut context = fresh();
    for c in "7".chars() {
        process_key(&mut context, KeyInput::Character(c)).unwrap();
    }
    process_key(&mut context, KeyInput::Enter).unwrap();
    assert_eq!(context.stack, vec![Operand::Number(7.0f64.to_bits())]);
}

#[test]
fn terminal_size_updates() {
    let mut size = TerminalSize::new(80, 24);
    assert_eq!(size.cols, 80);
    assert_eq!(size.rows, 24);
    size.update(120, 40);
    assert_eq!(size.cols, 120);
    assert_eq!(size.rows, 40);
}

#[test]
fn mode_cycle_preserves_buffer() {
    let mut context = fresh();
    type_word(&mut context, "1.5");
    process_key(&mut context, KeyInput::Tab).unwrap();
    assert_eq!(context.input_buffer, "1.5".chars().collect::<Vec<char>>());
}
