//! The read-eval-print loop, one line of input at a time.
//!
//! The loop itself reads lines and prints what comes back; each line is handed to `repl_step`,
//! which decides what to do with the input gathered so far.

use vstd::prelude::*;
use crate::memory::{Memory, GcRef};
use crate::metadata::Location;
use crate::native::read::{read_internal, read_outcome, room_for, Failure, ReadError, has_room, represents};
use crate::native::eval::{eval, eval_call_outcome};
use crate::native::print::{print, render};
use crate::error_utils::{make_error, is_error};
use crate::util::{symbol, list_to_string, is_symbol_named, allocates};
use crate::text::{chars_of, push_str, push_decimal, decimal};

verus! {

/// The input gathered since the last complete expression, and whether it is an unfinished
/// expression.
pub struct ReplState {
    pub input: String,
    pub incomplete: bool,
}

/// Where the input of the loop starts.
pub open spec fn repl_start() -> Location {
    Location::Stdin { line: 1, column: 0 }
}

/// The input that a line adds to: what was gathered, the line and its newline.
pub open spec fn gathered(state: ReplState, line: Seq<char>) -> Seq<char> {
    state.input@ + line + "\n"@
}

/// The position of a location as `LINE:COLUMN`.
pub open spec fn position_text(loc: Location) -> Seq<char> {
    match (loc.line_of(), loc.column_of()) {
        (Some(l), Some(c)) => decimal(l as nat) + ":"@ + decimal(c as nat),
        _ => "?"@,
    }
}

/// A trigger term with no content (it always holds): the quantifiers over intermediate heaps in
/// the relations below are instantiated through it, as a trigger on a recursive relation itself
/// does not match across its unfoldings.
pub open spec fn turn_trigger(read_mem: Memory, ast: GcRef, eval_mem: Memory, value: Result<GcRef, GcRef>) -> bool {
    true
}

/// What the loop prints for the result `value` of an evaluation, printed as `text`.
pub open spec fn result_text(value: Result<GcRef, GcRef>, text: Seq<char>) -> Seq<char> {
    match value {
        Ok(_) => text + "\n"@,
        Err(_) => "UNHANDLED-SIGNAL:\n"@ + text + "\n"@,
    }
}

/// The handle a result carries, a value or a signal.
pub open spec fn carried(value: Result<GcRef, GcRef>) -> GcRef {
    match value {
        Ok(x) => x,
        Err(x) => x,
    }
}

/// What the loop prints for a syntax error.
pub open spec fn syntax_error_text(msg: Seq<char>, loc: Location) -> Seq<char> {
    "SYNTAX-ERROR: "@ + msg + "\n       at <stdin>:"@ + position_text(loc) + "\n"@
}

impl ReplState {
    /// The state before the first line.
    pub fn new() -> (r: Self)
        ensures
            r.input@ == Seq::<char>::empty(),
            !r.incomplete,
    {
        ReplState { input: String::new(), incomplete: false }
    }

    /// The prompt: `... ` inside an unfinished expression, `>>> ` otherwise.
    pub fn prompt(&self) -> (r: &'static str)
        ensures
            r@ == (if self.incomplete { "... "@ } else { ">>> "@ }),
    {
        if self.incomplete {
            let p = "... ";
            proof { reveal_strlit("... "); }
            p
        } else {
            let p = ">>> ";
            proof { reveal_strlit(">>> "); }
            p
        }
    }
}

/// Appends the position of `loc` to `out`.
fn push_position(out: &mut String, loc: &Location)
    ensures
        final(out)@ == old(out)@ + position_text(*loc),
{
    match (loc.get_line(), loc.get_column()) {
        (Some(l), Some(c)) => {
            push_decimal(out, l as u64);
            push_str(out, ":");
            push_decimal(out, c as u64);
            proof { reveal_strlit(":"); }
            assert(out@ =~= old(out)@ + position_text(*loc)) by {
                assert(decimal(l as u64 as nat) == decimal(l as nat));
                assert(decimal(c as u64 as nat) == decimal(c as nat));
            }
        },
        _ => {
            push_str(out, "?");
        },
    }
}

/// Takes one line of input: reads the first expression of what was gathered with it; where
/// there is one, evaluates it and gives its printed value (after `UNHANDLED-SIGNAL:` where it
/// signals); where the input is unfinished, waits for more; gives the message of a syntax
/// error; fails with the symbol `invalid-string` where the input cannot be read at all.
pub fn repl_step(mem: &mut Memory, state: &mut ReplState, line: &str, env: GcRef, recursion_depth: usize)
    -> (r: Result<String, GcRef>)
    requires
        old(mem).wf(),
        recursion_depth < usize::MAX - 3,
    ensures
        old(mem).evolves(&*final(mem)),
        !room_for(repl_start(), gathered(*old(state), line@).len()) ==> (r matches Err(e)
            && is_error(&*final(mem), e.ptr(), "position-overflow"@, "read"@, Seq::empty(), Seq::empty())),
        room_for(repl_start(), gathered(*old(state), line@).len()) ==> match read_outcome(gathered(*old(state), line@), true, repl_start()) {
            Ok((d, _, _, _)) => final(state).input@ == Seq::<char>::empty() && !final(state).incomplete
                && exists|m1: Memory, ast: GcRef, m2: Memory, v: Result<GcRef, GcRef>| #[trigger] turn_trigger(m1, ast, m2, v)
                    && allocates(&*old(mem), &m1) && represents(&m1, ast.ptr(), d)
                    && eval_call_outcome(&m1, &m2, seq![ast], env, (recursion_depth + 1) as usize, v)
                    && match render(&m2, carried(v).ptr(), (recursion_depth + 2) as nat) {
                        Some(text) => r matches Ok(s) && s@ == result_text(v, text),
                        None => r matches Err(e)
                            && is_error(&*final(mem), e.ptr(), "stackoverflow"@, "print"@, Seq::empty(), Seq::empty()),
                    },
            Err(Failure::Incomplete) => r matches Ok(s) && s@ == Seq::<char>::empty()
                && final(state).input@ == gathered(*old(state), line@) && final(state).incomplete,
            Err(Failure::Nothing) => r matches Ok(s) && s@ == Seq::<char>::empty()
                && final(state).input@ == gathered(*old(state), line@) && final(state).incomplete == old(state).incomplete,
            Err(Failure::InvalidString) => r matches Err(e) && is_symbol_named(&*final(mem), e.ptr(), "invalid-string"@),
            Err(Failure::Error { msg, location, .. }) => r matches Ok(s) && s@ == syntax_error_text(msg, location)
                && final(state).input@ == Seq::<char>::empty() && final(state).incomplete == old(state).incomplete,
        },
{
    let ghost m0 = *mem;
    push_str(&mut state.input, line);
    push_str(&mut state.input, "\n");
    proof { reveal_strlit("\n"); }
    let chars = chars_of(state.input.as_str());
    assert(chars@ =~= gathered(*old(state), line@));
    let start = Location::Stdin { line: 1, column: 0 };
    if !has_room(&start, chars.len()) {
        let e = make_error(mem, "position-overflow", "read", &[]);
        proof {
            assert(crate::native::list::kv_keys(Seq::<(&str, GcRef)>::empty()) =~= Seq::empty());
            assert(crate::util::sanitized(&m0, crate::native::list::kv_values(Seq::<(&str, GcRef)>::empty())) =~= Seq::empty());
        }
        return Err(e);
    }
    let outcome = read_internal(mem, &chars, true, start, &[]);
    let ghost m1 = *mem;
    match outcome {
        Ok((ast, _, _, _)) => {
            state.incomplete = false;
            state.input = String::new();
            let mut out = String::new();
            let ghost g_ast = ast;
            let args = vec![ast];
            let ghost g_env = env;
            let v = eval(mem, args.as_slice(), env, recursion_depth + 1);
            let ghost m2 = *mem;
            let evaled = match v {
                Ok(x) => x,
                Err(signal) => {
                    push_str(&mut out, "UNHANDLED-SIGNAL:\n");
                    signal
                },
            };
            let print_args = vec![evaled];
            let printed = print(mem, print_args.as_slice(), GcRef::nil(), recursion_depth + 1);
            proof {
                reveal_strlit("UNHANDLED-SIGNAL:\n");
                m0.lemma_evolves_trans(&m1, &m2);
                m0.lemma_evolves_trans(&m2, &*mem);
                assert(args@ =~= seq![g_ast]);
                assert(print_args@[0] == carried(v));
                assert(turn_trigger(m1, g_ast, m2, v));
            }
            match printed {
                Ok(text) => {
                    match list_to_string(mem, text) {
                        Some(s) => push_str(&mut out, s.as_str()),
                        None => {},
                    }
                    push_str(&mut out, "\n");
                    proof { assert(out@ =~= result_text(v, render(&m2, carried(v).ptr(), (recursion_depth + 2) as nat)->0)); }
                    Ok(out)
                },
                Err(e) => Err(e),
            }
        },
        Err(ReadError::Incomplete) => {
            state.incomplete = true;
            Ok(String::new())
        },
        Err(ReadError::Nothing) => Ok(String::new()),
        Err(ReadError::InvalidString) => {
            let e = symbol(mem, "invalid-string", &[]);
            proof { m0.lemma_evolves_trans(&m1, &*mem); }
            Err(e)
        },
        Err(ReadError::Error { msg, location, .. }) => {
            state.input = String::new();
            let mut out = String::new();
            push_str(&mut out, "SYNTAX-ERROR: ");
            push_str(&mut out, msg.as_str());
            push_str(&mut out, "\n       at <stdin>:");
            push_position(&mut out, &location);
            push_str(&mut out, "\n");
            proof {
                reveal_strlit("SYNTAX-ERROR: ");
                reveal_strlit("\n       at <stdin>:");
                assert(out@ =~= syntax_error_text(msg@, location));
            }
            Ok(out)
        },
    }
}

} // verus!
