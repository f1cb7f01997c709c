//! Arithmetic on numbers, with overflow reported as an error.

use vstd::prelude::*;
use crate::memory::{Memory, GcRef, PrimitiveValue, TypeLabel};
use crate::util::{allocates, is_symbol_named, sanitized, symbol, number};
use crate::error_utils::{arity_error, type_error, make_error, is_arity_error, is_type_error, is_error, extended_type};

verus! {

/// The two numbers of a two-argument call, if both arguments are numbers.
pub open spec fn num_args(mem: &Memory, args: Seq<GcRef>) -> Option<(i64, i64)> {
    if args.len() == 2 {
        match (mem.value_of(args[0].ptr()), mem.value_of(args[1].ptr())) {
            (Some(PrimitiveValue::Number(x)), Some(PrimitiveValue::Number(y))) => Some((x, y)),
            _ => None,
        }
    } else {
        None
    }
}

/// Where the arguments of `name` are not two numbers, `r` is the error that says so: a wrong
/// number of arguments, else a wrong type of the first argument that is not a number.
pub open spec fn number_args_checked(old: &Memory, new: &Memory, args: Seq<GcRef>, name: Seq<char>,
    r: Result<GcRef, GcRef>) -> bool
{
    if args.len() != 2 {
        r matches Err(e) && is_arity_error(new, e.ptr(), name, 2, args.len() as usize)
    } else if !(old.value_of(args[0].ptr()) matches Some(PrimitiveValue::Number(_))) {
        r matches Err(e) && is_type_error(new, e.ptr(), name, TypeLabel::Number,
            extended_type(old, args[0].ptr()))
    } else if !(old.value_of(args[1].ptr()) matches Some(PrimitiveValue::Number(_))) {
        r matches Err(e) && is_type_error(new, e.ptr(), name, TypeLabel::Number,
            extended_type(old, args[1].ptr()))
    } else {
        true
    }
}

/// The two numbers of the arguments, or the error that says why there are none.
fn two_numbers(mem: &mut Memory, args: &[GcRef], name: &str) -> (r: Result<(i64, i64), GcRef>)
    requires
        old(mem).wf(),
    ensures
        allocates(&*old(mem), &*final(mem)),
        r is Ok <==> num_args(&*old(mem), args@) is Some,
        r matches Ok(p) ==> Some(p) == num_args(&*old(mem), args@) && *final(mem) == *old(mem),
        r matches Err(e) ==> number_args_checked(&*old(mem), &*final(mem), args@, name@, Err(e)),
{
    if args.len() != 2 {
        return Err(arity_error(mem, name, 2, args.len()));
    }
    let x = match args[0].get(mem) {
        Some(PrimitiveValue::Number(x)) => *x,
        _ => { return Err(type_error(mem, name, &args[0], TypeLabel::Number)); },
    };
    let y = match args[1].get(mem) {
        Some(PrimitiveValue::Number(y)) => *y,
        _ => { return Err(type_error(mem, name, &args[1], TypeLabel::Number)); },
    };
    proof { mem.lemma_evolves_refl(); }
    Ok((x, y))
}

/// The error `arithmetic-overflow` from `source`.
fn overflow(mem: &mut Memory, source: &str) -> (r: GcRef)
    requires
        old(mem).wf(),
    ensures
        allocates(&*old(mem), &*final(mem)),
        is_error(&*final(mem), r.ptr(), "arithmetic-overflow"@, source@, Seq::empty(), Seq::empty()),
{
    let r = make_error(mem, "arithmetic-overflow", source, &[]);
    proof {
        assert(crate::native::list::kv_keys(Seq::<(&str, GcRef)>::empty()) =~= Seq::empty());
        assert(sanitized(&*old(mem), crate::native::list::kv_values(Seq::<(&str, GcRef)>::empty())) =~= Seq::empty());
    }
    r
}

/// The outcome of an arithmetic operation whose exact result is `z`: a new number where it fits,
/// the error `arithmetic-overflow` from `name` where it does not.
pub open spec fn arithmetic_outcome(new: &Memory, r: Result<GcRef, GcRef>, z: int, name: Seq<char>) -> bool {
    if i64::MIN <= z <= i64::MAX {
        r matches Ok(v) && new.value_of(v.ptr()) == Some(PrimitiveValue::Number(z as i64))
    } else {
        r matches Err(e) && is_error(new, e.ptr(), "arithmetic-overflow"@, name, Seq::empty(), Seq::empty())
    }
}


/// What `add` gives for `args`, from the heap `old` to the heap `new`.
pub open spec fn add_call_outcome(old: &Memory, new: &Memory, args: Seq<GcRef>, env: GcRef, recursion_depth: usize,
    r: Result<GcRef, GcRef>) -> bool
{
    &&& (allocates(old, new))
    &&& (number_args_checked(old, new, args, "add"@, r))
    &&& (num_args(old, args) matches Some((x, y)) ==> arithmetic_outcome(new, r, x + y, "add"@))
}

/// The sum of two numbers; an error on overflow.
pub fn add(mem: &mut Memory, args: &[GcRef], env: GcRef, recursion_depth: usize) -> (r: Result<GcRef, GcRef>)
    requires
        old(mem).wf(),
    ensures
        add_call_outcome(&*old(mem), &*final(mem), args@, env, recursion_depth, r),
{
    match two_numbers(mem, args, "add") {
        Err(e) => Err(e),
        Ok((x, y)) => match x.checked_add(y) {
            Some(z) => Ok(number(mem, z, &[])),
            None => Err(overflow(mem, "add")),
        },
    }
}


/// What `substract` gives for `args`, from the heap `old` to the heap `new`.
pub open spec fn substract_call_outcome(old: &Memory, new: &Memory, args: Seq<GcRef>, env: GcRef, recursion_depth: usize,
    r: Result<GcRef, GcRef>) -> bool
{
    &&& (allocates(old, new))
    &&& (number_args_checked(old, new, args, "substract"@, r))
    &&& (num_args(old, args) matches Some((x, y)) ==> arithmetic_outcome(new, r, x - y, "substract"@))
}

/// The difference of two numbers; an error on overflow.
pub fn substract(mem: &mut Memory, args: &[GcRef], env: GcRef, recursion_depth: usize) -> (r: Result<GcRef, GcRef>)
    requires
        old(mem).wf(),
    ensures
        substract_call_outcome(&*old(mem), &*final(mem), args@, env, recursion_depth, r),
{
    match two_numbers(mem, args, "substract") {
        Err(e) => Err(e),
        Ok((x, y)) => match x.checked_sub(y) {
            Some(z) => Ok(number(mem, z, &[])),
            None => Err(overflow(mem, "substract")),
        },
    }
}


/// What `multiply` gives for `args`, from the heap `old` to the heap `new`.
pub open spec fn multiply_call_outcome(old: &Memory, new: &Memory, args: Seq<GcRef>, env: GcRef, recursion_depth: usize,
    r: Result<GcRef, GcRef>) -> bool
{
    &&& (allocates(old, new))
    &&& (number_args_checked(old, new, args, "multiply"@, r))
    &&& (num_args(old, args) matches Some((x, y)) ==> arithmetic_outcome(new, r, x * y, "multiply"@))
}

/// The product of two numbers; an error on overflow.
pub fn multiply(mem: &mut Memory, args: &[GcRef], env: GcRef, recursion_depth: usize) -> (r: Result<GcRef, GcRef>)
    requires
        old(mem).wf(),
    ensures
        multiply_call_outcome(&*old(mem), &*final(mem), args@, env, recursion_depth, r),
{
    match two_numbers(mem, args, "multiply") {
        Err(e) => Err(e),
        Ok((x, y)) => match x.checked_mul(y) {
            Some(z) => Ok(number(mem, z, &[])),
            None => Err(overflow(mem, "multiply")),
        },
    }
}


/// What `divide` gives for `args`, from the heap `old` to the heap `new`.
pub open spec fn divide_call_outcome(old: &Memory, new: &Memory, args: Seq<GcRef>, env: GcRef, recursion_depth: usize,
    r: Result<GcRef, GcRef>) -> bool
{
    &&& (allocates(old, new))
    &&& (number_args_checked(old, new, args, "divide"@, r))
    &&& (num_args(old, args) matches Some((x, y)) ==> if y == 0 {
                r matches Err(e) && is_error(new, e.ptr(), "divide-by-zero"@, "divide"@, Seq::empty(), Seq::empty())
            } else if x == i64::MIN && y == -1 {
                r matches Err(e) && is_error(new, e.ptr(), "arithmetic-overflow"@, "divide"@, Seq::empty(), Seq::empty())
            } else {
                r matches Ok(v) && new.value_of(v.ptr()) == Some(PrimitiveValue::Number(truncated_quotient(x as int, y as int) as i64))
            })
}

/// The quotient of two numbers, rounded towards zero; an error where the divisor is zero.
/// The one quotient that does not fit in a number, `i64::MIN / -1`, is left out.
pub fn divide(mem: &mut Memory, args: &[GcRef], env: GcRef, recursion_depth: usize) -> (r: Result<GcRef, GcRef>)
    requires
        old(mem).wf(),
    ensures
        divide_call_outcome(&*old(mem), &*final(mem), args@, env, recursion_depth, r),
{
    match two_numbers(mem, args, "divide") {
        Err(e) => Err(e),
        Ok((x, y)) => {
            if y == 0 {
                let e = make_error(mem, "divide-by-zero", "divide", &[]);
                proof {
                    assert(crate::native::list::kv_keys(Seq::<(&str, GcRef)>::empty()) =~= Seq::empty());
                    assert(sanitized(&*old(mem), crate::native::list::kv_values(Seq::<(&str, GcRef)>::empty())) =~= Seq::empty());
                }
                Err(e)
            } else if x == i64::MIN && y == -1 {
                Err(overflow(mem, "divide"))
            } else {
                proof { lemma_quotient_fits(x as int, y as int); }
                match x.checked_div(y) {
                    Some(z) => Ok(number(mem, z, &[])),
                    None => Err(overflow(mem, "divide")),
                }
            }
        },
    }
}

proof fn lemma_div_bound(a: int, b: int)
    requires
        a >= 0,
        b >= 1,
    ensures
        0 <= a / b <= a,
{
    assert(0 <= a / b <= a) by (nonlinear_arith)
        requires
            a >= 0,
            b >= 1,
    ;
}

/// The quotient of two numbers fits in a number, but for `i64::MIN / -1`.
proof fn lemma_quotient_fits(x: int, d: int)
    requires
        i64::MIN <= x <= i64::MAX,
        i64::MIN <= d <= i64::MAX,
        d != 0,
        !(x == i64::MIN && d == -1),
    ensures
        i64::MIN <= truncated_quotient(x, d) <= i64::MAX,
{
    if x > 0 && d > 0 {
        lemma_div_bound(x, d);
    } else if x < 0 && d < 0 {
        lemma_div_bound(-x, -d);
        if d == -1 {
            assert((-x) / 1 == -x);
        } else {
            assert((-x) / (-d) <= (-x) / 2) by (nonlinear_arith)
                requires
                    -x >= 0,
                    -d >= 2,
            ;
            lemma_div_bound(-x, 2);
        }
    } else if x < 0 {
        lemma_div_bound(-x, d);
    } else if x > 0 {
        lemma_div_bound(x, -d);
    }
}

/// Division rounded towards zero, as Rust's `/` divides integers.
pub open spec fn truncated_quotient(x: int, d: int) -> int {
    if x == 0 {
        0
    } else if x > 0 && d > 0 {
        x / d
    } else if x < 0 && d < 0 {
        (-x) / (-d)
    } else if x < 0 {
        -((-x) / d)
    } else {
        -(x / (-d))
    }
}


/// What `less` gives for `args`, from the heap `old` to the heap `new`.
pub open spec fn less_call_outcome(old: &Memory, new: &Memory, args: Seq<GcRef>, env: GcRef, recursion_depth: usize,
    r: Result<GcRef, GcRef>) -> bool
{
    &&& (allocates(old, new))
    &&& (number_args_checked(old, new, args, "<"@, r))
    &&& (num_args(old, args) matches Some((x, y)) ==> (r matches Ok(v) && if x < y {
                is_symbol_named(new, v.ptr(), "t"@)
            } else {
                v.ptr() is None
            }))
}

/// `t` where the first number is less than the second, nil otherwise.
pub fn less(mem: &mut Memory, args: &[GcRef], env: GcRef, recursion_depth: usize) -> (r: Result<GcRef, GcRef>)
    requires
        old(mem).wf(),
    ensures
        less_call_outcome(&*old(mem), &*final(mem), args@, env, recursion_depth, r),
{
    match two_numbers(mem, args, "<") {
        Err(e) => Err(e),
        Ok((x, y)) => if x < y { Ok(symbol(mem, "t", &[])) } else { Ok(GcRef::nil()) },
    }
}


/// What `greater` gives for `args`, from the heap `old` to the heap `new`.
pub open spec fn greater_call_outcome(old: &Memory, new: &Memory, args: Seq<GcRef>, env: GcRef, recursion_depth: usize,
    r: Result<GcRef, GcRef>) -> bool
{
    &&& (allocates(old, new))
    &&& (number_args_checked(old, new, args, ">"@, r))
    &&& (num_args(old, args) matches Some((x, y)) ==> (r matches Ok(v) && if x > y {
                is_symbol_named(new, v.ptr(), "t"@)
            } else {
                v.ptr() is None
            }))
}

/// `t` where the first number is greater than the second, nil otherwise.
pub fn greater(mem: &mut Memory, args: &[GcRef], env: GcRef, recursion_depth: usize) -> (r: Result<GcRef, GcRef>)
    requires
        old(mem).wf(),
    ensures
        greater_call_outcome(&*old(mem), &*final(mem), args@, env, recursion_depth, r),
{
    match two_numbers(mem, args, ">") {
        Err(e) => Err(e),
        Ok((x, y)) => if x > y { Ok(symbol(mem, "t", &[])) } else { Ok(GcRef::nil()) },
    }
}

} // verus!
