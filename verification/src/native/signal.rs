//! Signals, and the traps that catch them.

use vstd::prelude::*;
use crate::memory::{Memory, GcRef, PrimitiveValue, Trap};
use crate::util::{allocates, sanitized};
use crate::error_utils::{arity_error, is_arity_error};

verus! {


/// What `signal` gives for `args`, from the heap `old` to the heap `new`.
pub open spec fn signal_call_outcome(old: &Memory, new: &Memory, args: Seq<GcRef>, env: GcRef, recursion_depth: usize,
    r: Result<GcRef, GcRef>) -> bool
{
    &&& (allocates(old, new))
    &&& (args.len() != 1 ==> (r matches Err(e) && is_arity_error(new, e.ptr(), "signal"@, 1, args.len() as usize)))
    &&& (args.len() == 1 ==> *new == *old && (r matches Err(s) && s.ptr() == args[0].ptr()))
}

/// Emits the signal `signal`: the call fails with it.
pub fn signal(mem: &mut Memory, args: &[GcRef], env: GcRef, recursion_depth: usize) -> (r: Result<GcRef, GcRef>)
    requires
        old(mem).wf(),
    ensures
        signal_call_outcome(&*old(mem), &*final(mem), args@, env, recursion_depth, r),
{
    if args.len() != 1 {
        return Err(arity_error(mem, "signal", 1, args.len()));
    }
    proof { mem.lemma_evolves_refl(); }
    Err(args[0].clone())
}


/// What `trap` gives for `args`, from the heap `old` to the heap `new`.
pub open spec fn trap_call_outcome(old: &Memory, new: &Memory, args: Seq<GcRef>, env: GcRef, recursion_depth: usize,
    r: Result<GcRef, GcRef>) -> bool
{
    &&& (allocates(old, new))
    &&& (args.len() != 2 ==> (r matches Err(e) && is_arity_error(new, e.ptr(), "trap"@, 2, args.len() as usize)))
    &&& (args.len() == 2 ==> (r matches Ok(t) && new.value_of(t.ptr()) == Some(PrimitiveValue::Trap(Trap {
                normal_body: sanitized(old, args)[0],
                trap_body: sanitized(old, args)[1],
            }))))
}

/// A trap with the normal body and the trap body given.
pub fn trap(mem: &mut Memory, args: &[GcRef], env: GcRef, recursion_depth: usize) -> (r: Result<GcRef, GcRef>)
    requires
        old(mem).wf(),
    ensures
        trap_call_outcome(&*old(mem), &*final(mem), args@, env, recursion_depth, r),
{
    make_trap_named(mem, args, "trap")
}

/// A trap of the two arguments, or the arity error from `source`.
pub fn make_trap_named(mem: &mut Memory, args: &[GcRef], source: &str) -> (r: Result<GcRef, GcRef>)
    requires
        old(mem).wf(),
    ensures
        allocates(&*old(mem), &*final(mem)),
        args@.len() != 2 ==> (r matches Err(e) && is_arity_error(&*final(mem), e.ptr(), source@, 2, args@.len() as usize)),
        args@.len() == 2 ==> (r matches Ok(t) && final(mem).value_of(t.ptr()) == Some(PrimitiveValue::Trap(Trap {
            normal_body: sanitized(&*old(mem), args@)[0],
            trap_body: sanitized(&*old(mem), args@)[1],
        }))),
{
    if args.len() != 2 {
        return Err(arity_error(mem, source, 2, args.len()));
    }
    let ghost m0 = *mem;
    let t = mem.allocate_trap(args[0].clone(), args[1].clone());
    proof {
        m0.lemma_allocated_evolves(&*mem, t.ptr()->0);
    }
    Ok(t)
}

} // verus!
