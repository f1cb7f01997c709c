//! What the graphical session shows, and how each message from the worker thread and from the
//! debugger changes it. Drawing the window and running the threads stay with the program.

use vstd::prelude::*;

verus! {

/// How many memory samples the plot keeps before it drops the oldest.
pub const MAX_MEMORY_SAMPLES: usize = 100;

/// What the worker thread is doing.
#[derive(PartialEq, Eq, Structural, Clone, Copy)]
pub enum WorkerState {
    Ready,
    Working,
    Paused,
}

/// A global as the debugger reports it: its printed value (or why it could not be printed), and
/// its type.
pub struct GlobalConstant {
    pub value: Result<String, String>,
    pub value_type: String,
}

/// A message from the debugger.
pub enum Diagnostic {
    GlobalDefined { name: String, value: Result<String, String>, value_type: String },
    GlobalUndefined { name: String },
    Memory { free_cells: usize, used_cells: usize, serial_number: usize },
    CurrentStackFrame { content: Result<String, String> },
    PopStackFrame,
}

/// What the window shows.
pub struct WindowState {
    pub result_text: String,
    pub signal_text: String,
    pub globals: Vec<(String, GlobalConstant)>,
    pub free_memory_samples: Vec<(usize, usize)>,
    pub used_memory_samples: Vec<(usize, usize)>,
    pub used_cells: usize,
    pub free_cells: usize,
    pub stack: Vec<Result<String, String>>,
    pub worker_state: WorkerState,
}

/// The names of the globals.
pub open spec fn global_names(g: Seq<(String, GlobalConstant)>) -> Seq<Seq<char>> {
    g.map_values(|p: (String, GlobalConstant)| p.0@)
}

/// The position of the global `name`, if it is shown.
pub open spec fn global_index(g: Seq<(String, GlobalConstant)>, name: Seq<char>) -> Option<int> {
    if exists|i: int| 0 <= i < g.len() && #[trigger] g[i].0@ == name {
        Some(choose|i: int| 0 <= i < g.len() && #[trigger] g[i].0@ == name)
    } else {
        None
    }
}

/// The samples after one more, the oldest dropped where more than the limit are kept.
pub open spec fn sampled(samples: Seq<(usize, usize)>, sample: (usize, usize)) -> Seq<(usize, usize)> {
    if samples.len() > MAX_MEMORY_SAMPLES { samples.drop_first().push(sample) } else { samples.push(sample) }
}

impl WindowState {
    /// No global is shown twice, and at most one sample more than the limit is kept.
    pub open spec fn wf(&self) -> bool {
        &&& forall|i: int, j: int| 0 <= i < j < self.globals@.len() ==>
                #[trigger] self.globals@[i].0@ != #[trigger] self.globals@[j].0@
        &&& self.free_memory_samples@.len() <= MAX_MEMORY_SAMPLES + 1
        &&& self.used_memory_samples@.len() <= MAX_MEMORY_SAMPLES + 1
    }

    /// The window before anything happened: the worker is busy loading the prelude.
    pub fn new() -> (r: Self)
        ensures
            r.wf(),
            r.result_text@ == Seq::<char>::empty(),
            r.signal_text@ == Seq::<char>::empty(),
            r.globals@.len() == 0,
            r.free_memory_samples@.len() == 0,
            r.used_memory_samples@.len() == 0,
            r.used_cells == 0,
            r.free_cells == 0,
            r.stack@.len() == 0,
            r.worker_state == WorkerState::Working,
    {
        WindowState {
            result_text: String::new(),
            signal_text: String::new(),
            globals: Vec::new(),
            free_memory_samples: Vec::new(),
            used_memory_samples: Vec::new(),
            used_cells: 0,
            free_cells: 0,
            stack: Vec::new(),
            worker_state: WorkerState::Working,
        }
    }

    /// Evaluation is asked for: the last signal is cleared and the worker is busy.
    pub fn start_eval(&mut self)
        requires
            old(self).wf(),
        ensures
            final(self).wf(),
            final(self).signal_text@ == Seq::<char>::empty(),
            final(self).worker_state == WorkerState::Working,
            final(self).result_text == old(self).result_text,
            final(self).globals == old(self).globals,
            final(self).stack == old(self).stack,
            final(self).free_memory_samples == old(self).free_memory_samples,
            final(self).used_memory_samples == old(self).used_memory_samples,
    {
        self.signal_text = String::new();
        self.worker_state = WorkerState::Working;
    }

    /// The worker is paused (`paused`) or resumed.
    pub fn set_paused(&mut self, paused: bool)
        requires
            old(self).wf(),
        ensures
            final(self).wf(),
            final(self).worker_state == (if paused { WorkerState::Paused } else { WorkerState::Working }),
            final(self).result_text == old(self).result_text,
            final(self).signal_text == old(self).signal_text,
            final(self).globals == old(self).globals,
            final(self).stack == old(self).stack,
    {
        self.worker_state = if paused { WorkerState::Paused } else { WorkerState::Working };
    }

    /// The worker answered: a printed value is shown as the result, an error as the signal
    /// (after `ERROR:` and a blank line); either way the worker is ready again.
    pub fn take_result(&mut self, answer: Result<String, String>)
        requires
            old(self).wf(),
        ensures
            final(self).wf(),
            final(self).worker_state == WorkerState::Ready,
            match answer {
                Ok(x) => final(self).result_text@ == x@ && final(self).signal_text@ == Seq::<char>::empty(),
                Err(e) => final(self).signal_text@ == "ERROR:\n\n"@ + e@ && final(self).result_text@ == Seq::<char>::empty(),
            },
            final(self).globals == old(self).globals,
            final(self).stack == old(self).stack,
            final(self).free_memory_samples == old(self).free_memory_samples,
            final(self).used_memory_samples == old(self).used_memory_samples,
    {
        match answer {
            Ok(x) => {
                self.result_text = x;
                self.signal_text = String::new();
            },
            Err(e) => {
                let mut t = String::new();
                crate::text::push_str(&mut t, "ERROR:\n\n");
                crate::text::push_str(&mut t, e.as_str());
                proof { reveal_strlit("ERROR:\n\n"); }
                self.signal_text = t;
                self.result_text = String::new();
            },
        }
        self.worker_state = WorkerState::Ready;
    }

    /// The position of the global `name` among those shown.
    fn find_global(&self, name: &String) -> (r: Option<usize>)
        requires
            self.wf(),
        ensures
            match global_index(self.globals@, name@) {
                Some(i) => r == Some(i as usize),
                None => r is None,
            },
            r matches Some(i) ==> i < self.globals@.len() && self.globals@[i as int].0@ == name@,
    {
        let mut k: usize = 0;
        while k < self.globals.len()
            invariant
                self.wf(),
                k <= self.globals@.len(),
                forall|i: int| 0 <= i < k ==> #[trigger] self.globals@[i].0@ != name@,
            decreases self.globals@.len() - k,
        {
            if self.globals[k].0 == *name {
                proof {
                    assert(self.globals@[k as int].0@ == name@);
                    let j = choose|i: int| 0 <= i < self.globals@.len() && #[trigger] self.globals@[i].0@ == name@;
                    assert(j == k as int) by {
                        if j != k as int {
                            if j < k as int {
                                assert(self.globals@[j].0@ != name@);
                            } else {
                                assert(self.globals@[k as int].0@ != self.globals@[j].0@);
                            }
                        }
                    }
                }
                return Some(k);
            }
            k = k + 1;
        }
        None
    }

    /// A message from the debugger: a global defined is shown (in place of one of the same name),
    /// one removed is no longer shown, a memory sample is added to the plot (the oldest dropped
    /// once more than the limit are kept) and the counts shown, a stack frame is pushed or popped.
    pub fn take_diagnostic(&mut self, d: Diagnostic)
        requires
            old(self).wf(),
        ensures
            final(self).wf(),
            final(self).result_text == old(self).result_text,
            final(self).signal_text == old(self).signal_text,
            final(self).worker_state == old(self).worker_state,
            match d {
                Diagnostic::GlobalDefined { name, value, value_type } => {
                    let entry = (name, GlobalConstant { value, value_type });
                    &&& final(self).globals@ == match global_index(old(self).globals@, name@) {
                        Some(i) => old(self).globals@.update(i, entry),
                        None => old(self).globals@.push(entry),
                    }
                    &&& final(self).stack == old(self).stack
                    &&& final(self).free_memory_samples == old(self).free_memory_samples
                    &&& final(self).used_memory_samples == old(self).used_memory_samples
                },
                Diagnostic::GlobalUndefined { name } => {
                    &&& final(self).globals@ == match global_index(old(self).globals@, name@) {
                        Some(i) => old(self).globals@.remove(i),
                        None => old(self).globals@,
                    }
                    &&& final(self).stack == old(self).stack
                    &&& final(self).free_memory_samples == old(self).free_memory_samples
                    &&& final(self).used_memory_samples == old(self).used_memory_samples
                },
                Diagnostic::Memory { free_cells, used_cells, serial_number } => {
                    &&& final(self).free_memory_samples@ == sampled(old(self).free_memory_samples@, (serial_number, free_cells))
                    &&& final(self).used_memory_samples@ == sampled(old(self).used_memory_samples@, (serial_number, used_cells))
                    &&& final(self).free_cells == free_cells
                    &&& final(self).used_cells == used_cells
                    &&& final(self).globals == old(self).globals
                    &&& final(self).stack == old(self).stack
                },
                Diagnostic::CurrentStackFrame { content } => {
                    &&& final(self).stack@ == old(self).stack@.push(content)
                    &&& final(self).globals == old(self).globals
                    &&& final(self).free_memory_samples == old(self).free_memory_samples
                    &&& final(self).used_memory_samples == old(self).used_memory_samples
                },
                Diagnostic::PopStackFrame => {
                    &&& final(self).stack@ == (if old(self).stack@.len() > 0 { old(self).stack@.drop_last() } else { old(self).stack@ })
                    &&& final(self).globals == old(self).globals
                    &&& final(self).free_memory_samples == old(self).free_memory_samples
                    &&& final(self).used_memory_samples == old(self).used_memory_samples
                },
            },
    {
        match d {
            Diagnostic::GlobalDefined { name, value, value_type } => {
                let ghost entry = (name, GlobalConstant { value, value_type });
                let ghost g0 = self.globals@;
                match self.find_global(&name) {
                    Some(i) => {
                        self.globals.set(i, (name, GlobalConstant { value, value_type }));
                        proof {
                            assert forall|a: int, b: int| 0 <= a < b < self.globals@.len() implies
                                #[trigger] self.globals@[a].0@ != #[trigger] self.globals@[b].0@ by {
                                assert(g0[a].0@ != g0[b].0@);
                            }
                        }
                    },
                    None => {
                        self.globals.push((name, GlobalConstant { value, value_type }));
                        proof {
                            assert forall|a: int, b: int| 0 <= a < b < self.globals@.len() implies
                                #[trigger] self.globals@[a].0@ != #[trigger] self.globals@[b].0@ by {
                                if b == g0.len() {
                                    assert(g0[a].0@ != entry.0@);
                                } else {
                                    assert(g0[a].0@ != g0[b].0@);
                                }
                            }
                        }
                    },
                }
            },
            Diagnostic::GlobalUndefined { name } => {
                let ghost g0 = self.globals@;
                match self.find_global(&name) {
                    Some(i) => {
                        let _ = self.globals.remove(i);
                        proof {
                            assert forall|a: int, b: int| 0 <= a < b < self.globals@.len() implies
                                #[trigger] self.globals@[a].0@ != #[trigger] self.globals@[b].0@ by {
                                if a < i as int {
                                    if b < i as int {
                                        assert(g0[a].0@ != g0[b].0@);
                                    } else {
                                        assert(g0[a].0@ != g0[b + 1].0@);
                                    }
                                } else {
                                    assert(g0[a + 1].0@ != g0[b + 1].0@);
                                }
                            }
                        }
                    },
                    None => {},
                }
            },
            Diagnostic::Memory { free_cells, used_cells, serial_number } => {
                if self.free_memory_samples.len() > MAX_MEMORY_SAMPLES {
                    let _ = self.free_memory_samples.remove(0);
                }
                self.free_memory_samples.push((serial_number, free_cells));
                if self.used_memory_samples.len() > MAX_MEMORY_SAMPLES {
                    let _ = self.used_memory_samples.remove(0);
                }
                self.used_memory_samples.push((serial_number, used_cells));
                self.free_cells = free_cells;
                self.used_cells = used_cells;
                proof {
                    assert(self.free_memory_samples@ =~= sampled(old(self).free_memory_samples@, (serial_number, free_cells)));
                    assert(self.used_memory_samples@ =~= sampled(old(self).used_memory_samples@, (serial_number, used_cells)));
                }
            },
            Diagnostic::CurrentStackFrame { content } => {
                self.stack.push(content);
            },
            Diagnostic::PopStackFrame => {
                let _ = self.stack.pop();
            },
        }
    }
}

} // verus!
