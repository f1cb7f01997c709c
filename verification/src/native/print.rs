//! The printer: the text of a value, as a Lisp string.

use vstd::prelude::*;
use crate::memory::{Memory, GcRef, PrimitiveValue};
use crate::util::{allocates, list_elems, string_of, list_to_string, list_to_vec, ptrs, lemma_cdr_younger, string_to_list};
use crate::text::{signed_decimal, decimal, push_str, string_push, push_decimal, i64_to_string};
use crate::error_utils::{arity_error, is_arity_error, make_error, is_error};
use crate::native::list::{kv_keys, kv_values};
use crate::config;

verus! {

/// How a character is written after `%`: tab, newline, carriage return and backslash escaped.
pub open spec fn char_text(c: char) -> Seq<char> {
    if c == '\t' { "\\t"@ }
    else if c == '\n' { "\\n"@ }
    else if c == '\r' { "\\r"@ }
    else if c == '\\' { "\\\\"@ }
    else { seq![c] }
}

/// The text of a value printed as an atom: a cons cell is written `(cons CAR CDR)`, however
/// long the chain.
pub open spec fn atom_text(mem: &Memory, p: Option<usize>) -> Seq<char>
    decreases mem.prank(p),
{
    match mem.value_of(p) {
        None => "()"@,
        Some(PrimitiveValue::Number(n)) => signed_decimal(n as int),
        Some(PrimitiveValue::Character(c)) => seq!['%'] + char_text(c),
        Some(PrimitiveValue::Symbol(s)) => match s.name {
            Some(n) => n@,
            None => "#<symbol-"@ + decimal(s.own_address as nat) + ">"@,
        },
        Some(PrimitiveValue::Function(_)) => "#<function>"@,
        Some(PrimitiveValue::Trap(_)) => "#<trap>"@,
        Some(PrimitiveValue::Cons(c)) => {
            if mem.prank(c.car) < mem.prank(p) && mem.prank(c.cdr) < mem.prank(p) {
                "(cons "@ + atom_text(mem, c.car) + " "@ + atom_text(mem, c.cdr) + ")"@
            } else {
                Seq::empty()
            }
        },
    }
}

/// The printed text of `p` at recursion depth `depth`: nil as `()`, a string between double
/// quotes, a list as its printed elements between parentheses, anything else as an atom.
/// `None` where the nesting goes deeper than the recursion limit.
pub open spec fn render(mem: &Memory, p: Option<usize>, depth: nat) -> Option<Seq<char>>
    decreases mem.prank(p), 1nat, 0nat,
{
    if depth > config::MAX_RECURSION_DEPTH {
        None
    } else if mem.is_nil_ptr(p) {
        Some("()"@)
    } else if string_of(mem, p) is Some {
        Some(seq!['"'] + string_of(mem, p)->0 + seq!['"'])
    } else if list_elems(mem, p) is Some {
        match render_elems(mem, list_elems(mem, p)->0, depth + 1, mem.prank(p)) {
            Some(parts) => Some(seq!['('] + parts + seq![')']),
            None => None,
        }
    } else {
        Some(atom_text(mem, p))
    }
}

/// The printed elements, separated by spaces; each element younger than `bound`.
pub open spec fn render_elems(mem: &Memory, e: Seq<Option<usize>>, depth: nat, bound: nat) -> Option<Seq<char>>
    decreases bound, 0nat, e.len(),
{
    if e.len() == 0 {
        Some(Seq::empty())
    } else if mem.prank(e[0]) < bound {
        match (render(mem, e[0], depth), render_elems(mem, e.drop_first(), depth, bound)) {
            (Some(a), Some(rest)) => Some(if e.len() == 1 { a } else { a + seq![' '] + rest }),
            _ => None,
        }
    } else {
        None
    }
}

fn push_char_text(out: &mut String, c: char)
    ensures
        final(out)@ == old(out)@ + char_text(c),
{
    if c == '\t' { push_str(out, "\\t"); }
    else if c == '\n' { push_str(out, "\\n"); }
    else if c == '\r' { push_str(out, "\\r"); }
    else if c == '\\' { push_str(out, "\\\\"); }
    else { string_push(out, c); }
}

fn push_atom(mem: &Memory, p: &GcRef, out: &mut String)
    requires
        mem.wf(),
    ensures
        final(out)@ == old(out)@ + atom_text(mem, p.ptr()),
    decreases mem.prank(p.ptr()),
{
    match p.get(mem) {
        None => { push_str(out, "()"); },
        Some(PrimitiveValue::Number(n)) => {
            let t = i64_to_string(*n);
            push_str(out, t.as_str());
        },
        Some(PrimitiveValue::Character(c)) => {
            string_push(out, '%');
            push_char_text(out, *c);
            proof { assert(out@ =~= old(out)@ + (seq!['%'] + char_text(*c))); }
        },
        Some(PrimitiveValue::Symbol(s)) => match &s.name {
            Some(n) => { push_str(out, n.as_str()); },
            None => {
                push_str(out, "#<symbol-");
                push_decimal(out, s.own_address as u64);
                push_str(out, ">");
                proof { assert(out@ =~= old(out)@ + ("#<symbol-"@ + decimal(s.own_address as nat) + ">"@)); }
            },
        },
        Some(PrimitiveValue::Function(_)) => { push_str(out, "#<function>"); },
        Some(PrimitiveValue::Trap(_)) => { push_str(out, "#<trap>"); },
        Some(PrimitiveValue::Cons(c)) => {
            let car = mem.make_ref(c.car);
            let cdr = mem.make_ref(c.cdr);
            proof {
                lemma_cdr_younger(mem, p.ptr());
                crate::native::misc::lemma_car_younger(mem, p.ptr());
            }
            push_str(out, "(cons ");
            push_atom(mem, &car, out);
            push_str(out, " ");
            push_atom(mem, &cdr, out);
            push_str(out, ")");
            proof {
                assert(out@ =~= old(out)@ + ("(cons "@ + atom_text(mem, c.car) + " "@ + atom_text(mem, c.cdr) + ")"@));
            }
        },
    }
}

fn push_render(mem: &Memory, p: &GcRef, depth: usize, out: &mut String) -> (ok: bool)
    requires
        mem.wf(),
    ensures
        ok == render(mem, p.ptr(), depth as nat) is Some,
        ok ==> final(out)@ == old(out)@ + render(mem, p.ptr(), depth as nat)->0,
    decreases mem.prank(p.ptr()), 1nat, 0nat,
{
    if depth > config::MAX_RECURSION_DEPTH {
        return false;
    }
    if p.is_nil(mem) {
        push_str(out, "()");
        return true;
    }
    match list_to_string(mem, p.clone()) {
        Some(s) => {
            string_push(out, '"');
            push_str(out, s.as_str());
            string_push(out, '"');
            proof { assert(out@ =~= old(out)@ + (seq!['"'] + s@ + seq!['"'])); }
            return true;
        },
        None => {},
    }
    match list_to_vec(mem, p.clone()) {
        Some(elems) => {
            proof { crate::native::misc::lemma_elems_younger(mem, p.ptr()); }
            let ghost e = ptrs(elems@);
            string_push(out, '(');
            let ghost mid = out@;
            proof {
                assert(e.skip(0) =~= e);
                assert forall|k: int| 0 <= k < elems@.len() implies mem.prank(#[trigger] elems@[k].ptr()) < mem.prank(p.ptr()) by {
                    assert(e[k] == elems@[k].ptr());
                }
            }
            let ok = push_elems(mem, &elems, 0, depth + 1, Ghost(mem.prank(p.ptr())), out);
            if !ok {
                return false;
            }
            string_push(out, ')');
            proof {
                let parts = render_elems(mem, e, (depth + 1) as nat, mem.prank(p.ptr()))->0;
                assert(out@ =~= old(out)@ + (seq!['('] + parts + seq![')']));
            }
            return true;
        },
        None => {},
    }
    push_atom(mem, p, out);
    true
}


fn push_elems(mem: &Memory, elems: &Vec<GcRef>, i: usize, depth: usize, Ghost(bound): Ghost<nat>, out: &mut String) -> (ok: bool)
    requires
        mem.wf(),
        i <= elems@.len(),
        forall|k: int| 0 <= k < elems@.len() ==> mem.prank(#[trigger] elems@[k].ptr()) < bound,
    ensures
        ok == render_elems(mem, ptrs(elems@).skip(i as int), depth as nat, bound) is Some,
        ok ==> final(out)@ == old(out)@ + render_elems(mem, ptrs(elems@).skip(i as int), depth as nat, bound)->0,
    decreases bound, 0nat, elems@.len() - i,
{
    let ghost e = ptrs(elems@);
    let ghost t = e.skip(i as int);
    if i == elems.len() {
        proof { assert(t.len() == 0); }
        return true;
    }
    proof {
        assert(t[0] == elems@[i as int].ptr());
        assert(t.drop_first() =~= e.skip(i + 1));
        assert(mem.prank(elems@[i as int].ptr()) < bound);
    }
    let ok = push_render(mem, &elems[i], depth, out);
    if !ok {
        return false;
    }
    if i + 1 == elems.len() {
        proof {
            assert(e.skip(i + 1).len() == 0);
            assert(t.len() == 1);
        }
        return true;
    }
    let ghost after_first = out@;
    string_push(out, ' ');
    let ok2 = push_elems(mem, elems, i + 1, depth, Ghost(bound), out);
    proof {
        if ok2 {
            let a = render(mem, t[0], depth as nat)->0;
            let rest = render_elems(mem, e.skip(i + 1), depth as nat, bound)->0;
            assert(out@ =~= old(out)@ + (a + seq![' '] + rest));
        }
    }
    ok2
}


/// What `print` gives for `args`, from the heap `old` to the heap `new`.
pub open spec fn print_call_outcome(old: &Memory, new: &Memory, args: Seq<GcRef>, env: GcRef, recursion_depth: usize,
    r: Result<GcRef, GcRef>) -> bool
{
    &&& (allocates(old, new))
    &&& (args.len() != 1 ==> (r matches Err(e) && is_arity_error(new, e.ptr(), "print"@, 1, args.len() as usize)))
    &&& (args.len() == 1 ==> match render(old, args[0].ptr(), (recursion_depth + 1) as nat) {
                Some(text) => (r matches Ok(s) && string_of(new, s.ptr()) == Some(text)),
                None => (r matches Err(e) && is_error(new, e.ptr(), "stackoverflow"@, "print"@, Seq::empty(), Seq::empty())),
            })
}

/// The text of `input` as a string: nil as `()`, a string between double quotes, a list as
/// its elements between parentheses, anything else as an atom.
pub fn print(mem: &mut Memory, args: &[GcRef], env: GcRef, recursion_depth: usize) -> (r: Result<GcRef, GcRef>)
    requires
        old(mem).wf(),
        recursion_depth < usize::MAX,
    ensures
        print_call_outcome(&*old(mem), &*final(mem), args@, env, recursion_depth, r),
{
    if args.len() != 1 {
        return Err(arity_error(mem, "print", 1, args.len()));
    }
    let mut text = String::new();
    let ok = push_render(mem, &args[0], recursion_depth + 1, &mut text);
    if !ok {
        let ghost m0 = *mem;
        let e = make_error(mem, "stackoverflow", "print", &[]);
        proof {
            assert(kv_keys(Seq::<(&str, GcRef)>::empty()) =~= Seq::empty());
            assert(crate::util::sanitized(&m0, kv_values(Seq::<(&str, GcRef)>::empty())) =~= Seq::empty());
        }
        return Err(e);
    }
    proof { assert(text@ =~= Seq::<char>::empty() + render(&*mem, args@[0].ptr(), (recursion_depth + 1) as nat)->0); }
    Ok(string_to_list(mem, text.as_str()))
}
} // verus!
