use picilisp::memory::{Memory, GcRef};
use picilisp::native::load_native_functions;
use picilisp::native::repl::{ReplState, repl_step};

fn fresh() -> Memory {
    let mut mem = Memory::new();
    load_native_functions(&mut mem);
    mem
}

#[test]
fn repl_evaluates_a_complete_line() {
    let mut mem = fresh();
    let mut state = ReplState::new();
    assert_eq!(state.prompt(), ">>> ");
    let out = repl_step(&mut mem, &mut state, "(add 1 2)", GcRef::nil(), 0).ok().unwrap();
    assert_eq!(out, "3\n");
    assert_eq!(state.input, "");
    assert_eq!(state.prompt(), ">>> ");
}

#[test]
fn repl_waits_for_the_rest_of_an_expression() {
    let mut mem = fresh();
    let mut state = ReplState::new();
    let out = repl_step(&mut mem, &mut state, "(add 1", GcRef::nil(), 0).ok().unwrap();
    assert_eq!(out, "");
    assert!(state.incomplete);
    assert_eq!(state.prompt(), "... ");
    assert_eq!(state.input, "(add 1\n");
    let out = repl_step(&mut mem, &mut state, "41)", GcRef::nil(), 0).ok().unwrap();
    assert_eq!(out, "42\n");
    assert!(!state.incomplete);
}

#[test]
fn repl_ignores_a_blank_line() {
    let mut mem = fresh();
    let mut state = ReplState::new();
    let out = repl_step(&mut mem, &mut state, "   ", GcRef::nil(), 0).ok().unwrap();
    assert_eq!(out, "");
    assert!(!state.incomplete);
}

#[test]
fn repl_reports_an_unhandled_signal() {
    let mut mem = fresh();
    let mut state = ReplState::new();
    let out = repl_step(&mut mem, &mut state, "(car 1)", GcRef::nil(), 0).ok().unwrap();
    assert!(out.starts_with("UNHANDLED-SIGNAL:\n"));
    assert!(out.ends_with("\n"));
}

#[test]
fn repl_reports_a_syntax_error() {
    let mut mem = fresh();
    let mut state = ReplState::new();
    let out = repl_step(&mut mem, &mut state, ")", GcRef::nil(), 0).ok().unwrap();
    assert!(out.starts_with("SYNTAX-ERROR: "));
    assert!(out.contains("\n       at <stdin>:1:"));
    assert_eq!(state.input, "");
}
