use picilisp::window::{WindowState, WorkerState, Diagnostic, MAX_MEMORY_SAMPLES};

#[test]
fn window_shows_results_and_signals() {
    let mut w = WindowState::new();
    assert!(w.worker_state == WorkerState::Working);
    w.take_result(Ok("42".to_string()));
    assert_eq!(w.result_text, "42");
    assert_eq!(w.signal_text, "");
    assert!(w.worker_state == WorkerState::Ready);
    w.start_eval();
    assert!(w.worker_state == WorkerState::Working);
    w.take_result(Err("(kind oops)".to_string()));
    assert_eq!(w.signal_text, "ERROR:\n\n(kind oops)");
    assert_eq!(w.result_text, "");
    w.set_paused(true);
    assert!(w.worker_state == WorkerState::Paused);
    w.set_paused(false);
    assert!(w.worker_state == WorkerState::Working);
}

#[test]
fn window_tracks_globals_and_stack() {
    let mut w = WindowState::new();
    w.take_diagnostic(Diagnostic::GlobalDefined { name: "a".to_string(), value: Ok("1".to_string()), value_type: "number".to_string() });
    w.take_diagnostic(Diagnostic::GlobalDefined { name: "b".to_string(), value: Ok("2".to_string()), value_type: "number".to_string() });
    w.take_diagnostic(Diagnostic::GlobalDefined { name: "a".to_string(), value: Err("bad".to_string()), value_type: "list".to_string() });
    assert_eq!(w.globals.len(), 2);
    assert_eq!(w.globals[0].0, "a");
    assert_eq!(w.globals[0].1.value, Err("bad".to_string()));
    w.take_diagnostic(Diagnostic::GlobalUndefined { name: "a".to_string() });
    assert_eq!(w.globals.len(), 1);
    assert_eq!(w.globals[0].0, "b");
    w.take_diagnostic(Diagnostic::CurrentStackFrame { content: Ok("(f 1)".to_string()) });
    w.take_diagnostic(Diagnostic::CurrentStackFrame { content: Err("x".to_string()) });
    w.take_diagnostic(Diagnostic::PopStackFrame);
    assert_eq!(w.stack.len(), 1);
    w.take_diagnostic(Diagnostic::PopStackFrame);
    w.take_diagnostic(Diagnostic::PopStackFrame);
    assert_eq!(w.stack.len(), 0);
}

#[test]
fn window_keeps_a_bounded_memory_plot() {
    let mut w = WindowState::new();
    for k in 0..250usize {
        w.take_diagnostic(Diagnostic::Memory { free_cells: k, used_cells: 1000 - k, serial_number: k });
    }
    assert_eq!(w.free_memory_samples.len(), MAX_MEMORY_SAMPLES + 1);
    assert_eq!(w.used_memory_samples.len(), MAX_MEMORY_SAMPLES + 1);
    assert_eq!(w.free_memory_samples[0], (149, 149));
    assert_eq!(w.used_memory_samples[MAX_MEMORY_SAMPLES], (249, 751));
    assert_eq!(w.free_cells, 249);
    assert_eq!(w.used_cells, 751);
}
