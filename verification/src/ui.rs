//! Starting the interpreter: loading the natives and the prelude, running a command or a file.

use vstd::prelude::*;
use crate::memory::{Memory, GcRef};
use crate::util::{vec_to_list, string_to_proper_list_keeping, list_to_string, symbol, list_elems, string_of,
    is_symbol_named, allocates, sanitized, lemma_string_unchanged, lemma_allocates_trans};
use crate::native::eval::{eval_external, external_outcome};
use crate::native::load_native_functions;

verus! {

/// `p` is the call `(NAME "FIRST" "SECOND")`, or `(NAME "FIRST" nil)` where `second` is `None`.
pub open spec fn is_text_call(mem: &Memory, p: Option<usize>, name: Seq<char>, first: Seq<char>,
    second: Option<Seq<char>>) -> bool
{
    let e = list_elems(mem, p)->0;
    &&& list_elems(mem, p) is Some
    &&& e.len() == 3
    &&& is_symbol_named(mem, e[0], name)
    &&& string_of(mem, e[1]) == Some(first)
    &&& match second {
        Some(t) => string_of(mem, e[2]) == Some(t),
        None => mem.is_nil_ptr(e[2]),
    }
}

/// What evaluating the call `(NAME "FIRST" SECOND)` built on `old` gives, as `new` and `r`.
pub open spec fn text_call_outcome(old: &Memory, new: &Memory, name: Seq<char>, first: Seq<char>,
    second: Option<Seq<char>>, r: Result<GcRef, String>) -> bool
{
    exists|mid: Memory, tree: Option<usize>| #[trigger] external_outcome(&mid, new, tree, r)
        && old.evolves(&mid) && mid.wf() && is_text_call(&mid, tree, name, first, second)
}

/// The call `(NAME "FIRST" "SECOND")`, or `(NAME "FIRST" nil)` where `second` is `None`.
fn text_call(mem: &mut Memory, name: &str, first: &str, second: Option<&str>) -> (r: GcRef)
    requires
        old(mem).wf(),
    ensures
        allocates(&*old(mem), &*final(mem)),
        is_text_call(&*final(mem), r.ptr(), name@, first@, match second { Some(t) => Some(t@), None => None }),
{
    let ghost m0 = *mem;
    let text = string_to_proper_list_keeping(mem, first, &[]);
    let ghost m1 = *mem;
    let other = match second {
        Some(t) => string_to_proper_list_keeping(mem, t, &[text.clone()]),
        None => {
            proof { m1.lemma_evolves_refl(); }
            GcRef::nil()
        },
    };
    let ghost m2 = *mem;
    let head = symbol(mem, name, &[text.clone(), other.clone()]);
    let ghost m3 = *mem;
    let items = [head, text, other];
    let expression = vec_to_list(mem, &items);
    proof {
        lemma_allocates_trans(&m0, &m1, &m2);
        lemma_allocates_trans(&m0, &m2, &m3);
        lemma_allocates_trans(&m0, &m3, &*mem);
        let it = items@;
        assert(m2.keeps(&m3, it[1].ptr()));
        assert(m2.keeps(&m3, it[2].ptr()));
        if second is Some {
            assert(m1.keeps(&m2, it[1].ptr()));
            m1.lemma_unchanged_trans(&m2, &m3, it[1].ptr());
        } else {
            assert(m1 == m2);
        }
        assert(m3.live(it[0].ptr()));
        assert(m3.live(it[1].ptr()));
        assert(m3.keeps(&*mem, it[0].ptr()));
        assert(m3.keeps(&*mem, it[1].ptr()));
        assert(m3.keeps(&*mem, it[2].ptr()));
        m1.lemma_unchanged_trans(&m3, &*mem, it[1].ptr());
        lemma_string_unchanged(&m1, &*mem, it[1].ptr());
        m3.lemma_value_unchanged(&*mem, it[0].ptr());
        if second is Some {
            assert(m2.live(it[2].ptr()));
            m2.lemma_unchanged_trans(&m3, &*mem, it[2].ptr());
            lemma_string_unchanged(&m2, &*mem, it[2].ptr());
        }
        let e = sanitized(&m3, it);
        assert(e[0] == it[0].ptr());
        assert(e[1] == it[1].ptr());
        assert(e.len() == 3);
    }
    expression
}

/// What loading the prelude `prelude` into `old` gives: the outcome of `(load-all PRELUDE "prelude")`.
pub open spec fn prelude_outcome(old: &Memory, new: &Memory, prelude: Seq<char>, r: Result<(), String>) -> bool {
    exists|r0: Result<GcRef, String>| #[trigger] text_call_outcome(old, new, "load-all"@, prelude, Some("prelude"@), r0)
        && match r0 {
            Ok(_) => r is Ok,
            Err(s) => r == Err::<(), String>(s),
        }
}

/// Evaluates `(load-all PRELUDE "prelude")`: the prelude's definitions become globals.
pub fn load_prelude(mem: &mut Memory, prelude: &str) -> (r: Result<(), String>)
    requires
        old(mem).wf(),
    ensures
        old(mem).evolves(&*final(mem)),
        prelude_outcome(&*old(mem), &*final(mem), prelude@, r),
{
    let ghost m0 = *mem;
    let expression = text_call(mem, "load-all", prelude, Some("prelude"));
    let ghost m1 = *mem;
    let ghost tree = expression.ptr();
    let r0 = eval_external(mem, expression);
    let ghost g0 = r0;
    proof {
        reveal_strlit("load-all");
        reveal_strlit("prelude");
        m0.lemma_evolves_trans(&m1, &*mem);
        assert(external_outcome(&m1, &*mem, tree, g0));
        assert(text_call_outcome(&m0, &*mem, "load-all"@, prelude@, Some("prelude"@), g0));
    }
    match r0 {
        Ok(_) => Ok(()),
        Err(e) => Err(e),
    }
}

/// What starting an interpreter with the prelude `prelude` gives: the memory after the prelude
/// loaded into a heap with the natives, or the text of the prelude's failure.
pub open spec fn started(prelude: Seq<char>, r: Result<Memory, String>) -> bool {
    exists|m1: Memory, m2: Memory, r1: Result<(), String>| #[trigger] prelude_outcome(&m1, &m2, prelude, r1)
        && m1.wf() && m1.evolves(&m2)
        && match r1 {
            Ok(()) => r == Ok::<Memory, String>(m2),
            Err(s) => r == Err::<Memory, String>(s),
        }
}

/// A fresh interpreter with the natives and the prelude loaded.
fn start(prelude: &str) -> (r: Result<Memory, String>)
    ensures
        r matches Ok(m) ==> m.wf(),
        started(prelude@, r),
{
    let mut mem = Memory::new();
    load_native_functions(&mut mem);
    let ghost m1 = mem;
    let r1 = load_prelude(&mut mem, prelude);
    let ghost g1 = r1;
    assert(prelude_outcome(&m1, &mem, prelude@, g1));
    match r1 {
        Ok(()) => Ok(mem),
        Err(e) => Err(e),
    }
}

/// What running `command` gives on the interpreter `mem`: the text that `(read-eval-print
/// COMMAND nil)` evaluates to, the text of its signal, or a message where its value is not a
/// string.
pub open spec fn command_outcome(mem: Memory, command: Seq<char>, r: Result<String, String>) -> bool {
    exists|fin: Memory, r0: Result<GcRef, String>| #[trigger] text_call_outcome(&mem, &fin, "read-eval-print"@, command, None, r0)
        && match r0 {
            Ok(x) => match string_of(&fin, x.ptr()) {
                Some(t) => r matches Ok(s) && s@ == t,
                None => r matches Err(s) && s@ == "result of read-eval-print is not a string"@,
            },
            Err(s) => r == Err::<String, String>(s),
        }
}

/// Runs `command` as `(read-eval-print COMMAND nil)` in an interpreter with `prelude` loaded, and
/// gives the text that comes back, or the text of the signal.
pub fn run_command(prelude: &str, command: &str) -> (r: Result<String, String>)
    ensures
        exists|rs: Result<Memory, String>| #[trigger] started(prelude@, rs) && match rs {
            Err(s) => r == Err::<String, String>(s),
            Ok(m) => command_outcome(m, command@, r),
        },
{
    let rs = start(prelude);
    let ghost gs = rs;
    assert(started(prelude@, gs));
    let mut mem = match rs {
        Ok(m) => m,
        Err(e) => { return Err(e); },
    };
    let ghost m0 = mem;
    let expression = text_call(&mut mem, "read-eval-print", command, None);
    let ghost m1 = mem;
    let ghost tree = expression.ptr();
    let r0 = eval_external(&mut mem, expression);
    let ghost g0 = r0;
    proof {
        reveal_strlit("read-eval-print");
        reveal_strlit("result of read-eval-print is not a string");
        m0.lemma_evolves_trans(&m1, &mem);
        assert(external_outcome(&m1, &mem, tree, g0));
        assert(text_call_outcome(&m0, &mem, "read-eval-print"@, command@, None, g0));
    }
    match r0 {
        Ok(x) => match list_to_string(&mem, x) {
            Some(s) => Ok(s),
            None => Err(String::from_str("result of read-eval-print is not a string")),
        },
        Err(e) => Err(e),
    }
}

/// Runs the source text `contents` of the file at `path`, as `(load-all CONTENTS PATH)`, in an
/// interpreter with `prelude` loaded.
pub fn run_file(prelude: &str, path: &str, contents: &str) -> (r: Result<(), String>)
    ensures
        exists|rs: Result<Memory, String>| #[trigger] started(prelude@, rs) && match rs {
            Err(s) => r == Err::<(), String>(s),
            Ok(m) => exists|fin: Memory, r0: Result<GcRef, String>|
                #[trigger] text_call_outcome(&m, &fin, "load-all"@, contents@, Some(path@), r0) && match r0 {
                    Ok(_) => r is Ok,
                    Err(s) => r == Err::<(), String>(s),
                },
        },
{
    let rs = start(prelude);
    let ghost gs = rs;
    assert(started(prelude@, gs));
    let mut mem = match rs {
        Ok(m) => m,
        Err(e) => { return Err(e); },
    };
    let ghost m0 = mem;
    let expression = text_call(&mut mem, "load-all", contents, Some(path));
    let ghost m1 = mem;
    let ghost tree = expression.ptr();
    let r0 = eval_external(&mut mem, expression);
    let ghost g0 = r0;
    proof {
        reveal_strlit("load-all");
        m0.lemma_evolves_trans(&m1, &mem);
        assert(external_outcome(&m1, &mem, tree, g0));
        assert(text_call_outcome(&m0, &mem, "load-all"@, contents@, Some(path@), g0));
    }
    match r0 {
        Ok(_) => Ok(()),
        Err(e) => Err(e),
    }
}

} // verus!
