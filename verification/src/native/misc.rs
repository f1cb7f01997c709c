//! Unique symbols and structural equality.

use vstd::prelude::*;
use crate::memory::{Memory, GcRef, PrimitiveValue, Symbol, MetaValue, children, type_label_of};
use crate::util::{allocates, is_symbol_named, list_elems, symbol, list_to_vec, ptrs, lemma_cdr_younger};
use crate::error_utils::{arity_error, is_arity_error};

verus! {


/// What `gensym` gives for `args`, from the heap `old` to the heap `new`.
pub open spec fn gensym_call_outcome(old: &Memory, new: &Memory, args: Seq<GcRef>, env: GcRef, recursion_depth: usize,
    r: Result<GcRef, GcRef>) -> bool
{
    &&& (allocates(old, new))
    &&& (args.len() != 0 ==> (r matches Err(e) && is_arity_error(new, e.ptr(), "gensym"@, 0, args.len() as usize)))
    &&& (args.len() == 0 ==> (r matches Ok(s) && s.ptr() is Some && new.rank(s.ptr()->0 as int) == old.next_rank@
                && new.used(s.ptr()->0 as int)
                && new.mv(s.ptr()->0 as int) == MetaValue::Value(PrimitiveValue::Symbol(Symbol { name: None, own_address: s.ptr()->0 }))
                && new.value_of(s.ptr()) == Some(PrimitiveValue::Symbol(Symbol { name: None, own_address: s.ptr()->0 }))))
}

/// A new symbol, equal to no other symbol there has been or will be.
pub fn gensym(mem: &mut Memory, args: &[GcRef], env: GcRef, recursion_depth: usize) -> (r: Result<GcRef, GcRef>)
    requires
        old(mem).wf(),
    ensures
        gensym_call_outcome(&*old(mem), &*final(mem), args@, env, recursion_depth, r),
{
    if args.len() != 0 {
        return Err(arity_error(mem, "gensym", 0, args.len()));
    }
    let ghost m0 = *mem;
    let s = mem.unique_symbol();
    proof {
        m0.lemma_allocated_evolves(&*mem, s.ptr()->0);
    }
    Ok(s)
}

/// `x` and `y` are equal in type and value: numbers, characters and symbols by value (a symbol
/// by the cell it lives in), two lists element by element, other cons cells by car and cdr, and
/// nil only to nil. Functions and traps equal nothing.
pub open spec fn values_equal(mem: &Memory, a: Option<usize>, b: Option<usize>) -> bool
    decreases mem.prank(a), 1nat, 0nat,
{
    match (mem.value_of(a), mem.value_of(b)) {
        (Some(x), Some(y)) => match (x, y) {
            (PrimitiveValue::Number(n1), PrimitiveValue::Number(n2)) => n1 == n2,
            (PrimitiveValue::Character(c1), PrimitiveValue::Character(c2)) => c1 == c2,
            (PrimitiveValue::Symbol(s1), PrimitiveValue::Symbol(s2)) => s1.own_address == s2.own_address,
            (PrimitiveValue::Cons(c1), PrimitiveValue::Cons(c2)) => match (list_elems(mem, a), list_elems(mem, b)) {
                (Some(l1), Some(l2)) => elems_equal(mem, l1, l2, mem.prank(a)),
                (Some(_), None) => false,
                _ => {
                    if mem.prank(c1.car) < mem.prank(a) && mem.prank(c1.cdr) < mem.prank(a) {
                        values_equal(mem, c1.car, c2.car) && values_equal(mem, c1.cdr, c2.cdr)
                    } else {
                        false
                    }
                },
            },
            _ => false,
        },
        (None, None) => true,
        _ => false,
    }
}

/// The sequences have the same length and equal elements, each of the first younger than `bound`.
pub open spec fn elems_equal(mem: &Memory, l1: Seq<Option<usize>>, l2: Seq<Option<usize>>, bound: nat) -> bool
    decreases bound, 0nat, l1.len(),
{
    if l1.len() != l2.len() {
        false
    } else if l1.len() == 0 {
        true
    } else if mem.prank(l1[0]) < bound {
        values_equal(mem, l1[0], l2[0]) && elems_equal(mem, l1.drop_first(), l2.drop_first(), bound)
    } else {
        false
    }
}

/// The elements of a list are younger than the list.
pub proof fn lemma_elems_younger(mem: &Memory, p: Option<usize>)
    requires
        mem.wf(),
        list_elems(mem, p) is Some,
    ensures
        forall|k: int| 0 <= k < list_elems(mem, p)->0.len() ==> mem.prank(#[trigger] list_elems(mem, p)->0[k]) < mem.prank(p),
    decreases mem.prank(p),
{
    if let Some(PrimitiveValue::Cons(c)) = mem.value_of(p) {
        lemma_cdr_younger(mem, p);
        lemma_car_younger(mem, p);
        lemma_elems_younger(mem, c.cdr);
        let e = list_elems(mem, p)->0;
        let rest = list_elems(mem, c.cdr)->0;
        assert forall|k: int| 0 <= k < e.len() implies mem.prank(#[trigger] e[k]) < mem.prank(p) by {
            if k > 0 {
                assert(e[k] == rest[k - 1]);
            }
        }
    }
}

/// The car of a cons cell is younger than the cell.
pub proof fn lemma_car_younger(mem: &Memory, p: Option<usize>)
    requires
        mem.wf(),
        mem.value_of(p) matches Some(PrimitiveValue::Cons(_)),
    ensures
        mem.prank(mem.value_of(p)->0->Cons_0.car) < mem.prank(p),
{
    let i = p->0 as int;
    let q = mem.value_cell(p)->0;
    let c = mem.value_of(p)->0->Cons_0;
    assert(mem.cell_wf(q));
    assert(children(mem.mv(q))[0] == c.car);
    assert(mem.older_than(children(mem.mv(q))[0], q));
    if q != i {
        assert(mem.cell_wf(i));
        assert(mem.older_than(children(mem.mv(i))[0], i));
    }
}

fn equal_internal(mem: &Memory, a: &GcRef, b: &GcRef) -> (r: bool)
    requires
        mem.wf(),
    ensures
        r == values_equal(mem, a.ptr(), b.ptr()),
    decreases mem.prank(a.ptr()), 1nat, 0nat,
{
    let (x, y) = match (a.get(mem), b.get(mem)) {
        (Some(x), Some(y)) => (x, y),
        (None, None) => { return true; },
        _ => { return false; },
    };
    match (x, y) {
        (PrimitiveValue::Number(n1), PrimitiveValue::Number(n2)) => *n1 == *n2,
        (PrimitiveValue::Character(c1), PrimitiveValue::Character(c2)) => *c1 == *c2,
        (PrimitiveValue::Symbol(s1), PrimitiveValue::Symbol(s2)) => s1.own_address == s2.own_address,
        (PrimitiveValue::Cons(c1), PrimitiveValue::Cons(c2)) => {
            match list_to_vec(mem, a.clone()) {
                Some(l1) => match list_to_vec(mem, b.clone()) {
                    Some(l2) => {
                        proof { lemma_elems_younger(mem, a.ptr()); }
                        let ghost e1 = ptrs(l1@);
                        let ghost e2 = ptrs(l2@);
                        let ghost bound = mem.prank(a.ptr());
                        proof {
                            assert(list_elems(mem, a.ptr()) == Some(e1));
                            assert(list_elems(mem, b.ptr()) == Some(e2));
                            assert(values_equal(mem, a.ptr(), b.ptr()) == elems_equal(mem, e1, e2, bound));
                            assert(e1.skip(0) =~= e1);
                            assert(e2.skip(0) =~= e2);
                        }
                        if l1.len() != l2.len() {
                            return false;
                        }
                        let mut i: usize = 0;
                        while i < l1.len()
                            invariant
                                mem.wf(),
                                e1 == ptrs(l1@),
                                e2 == ptrs(l2@),
                                l1@.len() == l2@.len(),
                                i <= l1@.len(),
                                bound == mem.prank(a.ptr()),
                                forall|k: int| 0 <= k < e1.len() ==> mem.prank(#[trigger] e1[k]) < bound,
                                elems_equal(mem, e1, e2, bound) == elems_equal(mem, e1.skip(i as int), e2.skip(i as int), bound),
                                values_equal(mem, a.ptr(), b.ptr()) == elems_equal(mem, e1, e2, bound),
                            decreases l1@.len() - i,
                        {
                            proof {
                                assert(e1.skip(i as int)[0] == e1[i as int]);
                                assert(e2.skip(i as int)[0] == e2[i as int]);
                                assert(e1.skip(i as int).drop_first() =~= e1.skip(i + 1));
                                assert(e2.skip(i as int).drop_first() =~= e2.skip(i + 1));
                                assert(mem.prank(e1[i as int]) < bound);
                            }
                            let same = equal_internal(mem, &l1[i], &l2[i]);
                            proof {
                                assert(l1@[i as int].ptr() == e1[i as int]);
                                assert(l2@[i as int].ptr() == e2[i as int]);
                            }
                            if !same {
                                proof {
                                    let s1 = e1.skip(i as int);
                                    let s2 = e2.skip(i as int);
                                    assert(s1.len() == s2.len());
                                    assert(s1.len() > 0);
                                    assert(!values_equal(mem, s1[0], s2[0]));
                                    assert(!elems_equal(mem, s1, s2, bound));
                                }
                                return false;
                            }
                            i = i + 1;
                        }
                        proof {
                            assert(e1.skip(i as int).len() == 0);
                            assert(e2.skip(i as int).len() == 0);
                        }
                        true
                    },
                    None => false,
                },
                None => {
                    let car1 = mem.make_ref(c1.car);
                    let car2 = mem.make_ref(c2.car);
                    let cdr1 = mem.make_ref(c1.cdr);
                    let cdr2 = mem.make_ref(c2.cdr);
                    proof {
                        lemma_cdr_younger(mem, a.ptr());
                        lemma_car_younger(mem, a.ptr());
                    }
                    equal_internal(mem, &car1, &car2) && equal_internal(mem, &cdr1, &cdr2)
                },
            }
        },
        _ => false,
    }
}


/// What `equal` gives for `args`, from the heap `old` to the heap `new`.
pub open spec fn equal_call_outcome(old: &Memory, new: &Memory, args: Seq<GcRef>, env: GcRef, recursion_depth: usize,
    r: Result<GcRef, GcRef>) -> bool
{
    &&& (allocates(old, new))
    &&& (args.len() != 2 ==> (r matches Err(e) && is_arity_error(new, e.ptr(), "="@, 2, args.len() as usize)))
    &&& (args.len() == 2 ==> (r matches Ok(v) && if values_equal(old, args[0].ptr(), args[1].ptr()) {
                is_symbol_named(new, v.ptr(), "t"@)
            } else {
                v.ptr() is None
            }))
}

/// `t` where the two arguments are equal in type and value, nil otherwise.
pub fn equal(mem: &mut Memory, args: &[GcRef], env: GcRef, recursion_depth: usize) -> (r: Result<GcRef, GcRef>)
    requires
        old(mem).wf(),
    ensures
        equal_call_outcome(&*old(mem), &*final(mem), args@, env, recursion_depth, r),
{
    if args.len() != 2 {
        return Err(arity_error(mem, "=", 2, args.len()));
    }
    if equal_internal(mem, &args[0], &args[1]) {
        Ok(symbol(mem, "t", &[]))
    } else {
        proof { mem.lemma_evolves_refl(); }
        Ok(GcRef::nil())
    }
}


/// Two proper lists are `=` exactly when they have the same length and are `=` element by
/// element.
pub proof fn law_equal_lists(mem: &Memory, x: Option<usize>, y: Option<usize>)
    requires
        mem.wf(),
        list_elems(mem, x) is Some,
        list_elems(mem, y) is Some,
    ensures
        ({
            let l1 = list_elems(mem, x)->0;
            let l2 = list_elems(mem, y)->0;
            values_equal(mem, x, y) <==> (l1.len() == l2.len()
                && forall|k: int| 0 <= k < l1.len() ==> #[trigger] values_equal(mem, l1[k], l2[k]))
        }),
{
    let l1 = list_elems(mem, x)->0;
    let l2 = list_elems(mem, y)->0;
    lemma_elems_younger(mem, x);
    lemma_elems_equal_pointwise(mem, l1, l2, mem.prank(x));
}

/// Values of different types are never `=`: a number equals no character, symbol or list.
pub proof fn law_equal_needs_same_type(mem: &Memory, x: Option<usize>, y: Option<usize>)
    requires
        type_label_of(mem.value_of(x)) != type_label_of(mem.value_of(y)),
    ensures
        !values_equal(mem, x, y),
{
}

/// Where every element of `l1` is younger than `bound`, the sequences are equal element by
/// element.
proof fn lemma_elems_equal_pointwise(mem: &Memory, l1: Seq<Option<usize>>, l2: Seq<Option<usize>>, bound: nat)
    requires
        forall|k: int| 0 <= k < l1.len() ==> mem.prank(#[trigger] l1[k]) < bound,
    ensures
        elems_equal(mem, l1, l2, bound) == (l1.len() == l2.len()
            && forall|k: int| 0 <= k < l1.len() ==> #[trigger] values_equal(mem, l1[k], l2[k])),
    decreases l1.len(),
{
    if l1.len() != l2.len() || l1.len() == 0 {
    } else {
        assert(mem.prank(l1[0]) < bound);
        let t1 = l1.drop_first();
        let t2 = l2.drop_first();
        assert forall|k: int| 0 <= k < t1.len() implies mem.prank(#[trigger] t1[k]) < bound by {
            assert(t1[k] == l1[k + 1]);
        }
        lemma_elems_equal_pointwise(mem, t1, t2, bound);
        if elems_equal(mem, l1, l2, bound) {
            assert forall|k: int| 0 <= k < l1.len() implies #[trigger] values_equal(mem, l1[k], l2[k]) by {
                if k > 0 {
                    assert(t1[k - 1] == l1[k] && t2[k - 1] == l2[k]);
                }
            }
        }
        if forall|k: int| 0 <= k < l1.len() ==> #[trigger] values_equal(mem, l1[k], l2[k]) {
            assert(values_equal(mem, l1[0], l2[0]));
            assert forall|k: int| 0 <= k < t1.len() implies #[trigger] values_equal(mem, t1[k], t2[k]) by {
                assert(t1[k] == l1[k + 1] && t2[k] == l2[k + 1]);
                assert(values_equal(mem, l1[k + 1], l2[k + 1]));
            }
        }
    }
}

/// A proper list is equal to no value that is not a proper list, either way round.
proof fn lemma_list_unequal_non_list(mem: &Memory, x: Option<usize>, y: Option<usize>)
    requires
        mem.wf(),
        list_elems(mem, x) is Some,
        list_elems(mem, y) is None,
    ensures
        !values_equal(mem, x, y),
        !values_equal(mem, y, x),
    decreases mem.prank(y),
{
    if let (Some(PrimitiveValue::Cons(cx)), Some(PrimitiveValue::Cons(cy))) = (mem.value_of(x), mem.value_of(y)) {
        lemma_cdr_younger(mem, x);
        lemma_cdr_younger(mem, y);
        lemma_car_younger(mem, y);
        assert(list_elems(mem, cx.cdr) is Some);
        assert(list_elems(mem, cy.cdr) is None);
        lemma_list_unequal_non_list(mem, cx.cdr, cy.cdr);
    }
}

/// Equality does not depend on the order of its arguments.
pub(crate) proof fn lemma_values_equal_symmetric(mem: &Memory, a: Option<usize>, b: Option<usize>)
    requires
        mem.wf(),
    ensures
        values_equal(mem, a, b) == values_equal(mem, b, a),
    decreases mem.prank(a) + mem.prank(b),
{
    if let (Some(PrimitiveValue::Cons(ca)), Some(PrimitiveValue::Cons(cb))) = (mem.value_of(a), mem.value_of(b)) {
        match (list_elems(mem, a), list_elems(mem, b)) {
            (Some(l1), Some(l2)) => {
                lemma_elems_younger(mem, a);
                lemma_elems_younger(mem, b);
                lemma_elems_equal_pointwise(mem, l1, l2, mem.prank(a));
                lemma_elems_equal_pointwise(mem, l2, l1, mem.prank(b));
                if l1.len() == l2.len() {
                    assert forall|k: int| 0 <= k < l1.len() implies
                        #[trigger] values_equal(mem, l1[k], l2[k]) == values_equal(mem, l2[k], l1[k]) by {
                        assert(mem.prank(l1[k]) < mem.prank(a));
                        assert(mem.prank(l2[k]) < mem.prank(b));
                        lemma_values_equal_symmetric(mem, l1[k], l2[k]);
                    }
                    if values_equal(mem, a, b) {
                        assert forall|k: int| 0 <= k < l2.len() implies #[trigger] values_equal(mem, l2[k], l1[k]) by {
                            assert(values_equal(mem, l1[k], l2[k]) == values_equal(mem, l2[k], l1[k]));
                        }
                    }
                    if values_equal(mem, b, a) {
                        assert forall|k: int| 0 <= k < l1.len() implies #[trigger] values_equal(mem, l1[k], l2[k]) by {
                            assert(values_equal(mem, l1[k], l2[k]) == values_equal(mem, l2[k], l1[k]));
                        }
                    }
                }
            },
            (Some(_), None) => {
                lemma_list_unequal_non_list(mem, a, b);
            },
            (None, Some(_)) => {
                lemma_list_unequal_non_list(mem, b, a);
            },
            (None, None) => {
                lemma_car_younger(mem, a);
                lemma_cdr_younger(mem, a);
                lemma_car_younger(mem, b);
                lemma_cdr_younger(mem, b);
                lemma_values_equal_symmetric(mem, ca.car, cb.car);
                lemma_values_equal_symmetric(mem, ca.cdr, cb.cdr);
            },
        }
    }
}

/// The value has no function and no trap in it.
pub open spec fn plain(mem: &Memory, p: Option<usize>) -> bool
    decreases mem.prank(p),
{
    match mem.value_of(p) {
        None => true,
        Some(PrimitiveValue::Cons(c)) => if mem.prank(c.car) < mem.prank(p) && mem.prank(c.cdr) < mem.prank(p) {
            plain(mem, c.car) && plain(mem, c.cdr)
        } else {
            false
        },
        Some(PrimitiveValue::Function(_)) => false,
        Some(PrimitiveValue::Trap(_)) => false,
        Some(_) => true,
    }
}

/// The elements of a plain list are plain.
proof fn lemma_plain_elems(mem: &Memory, p: Option<usize>)
    requires
        mem.wf(),
        plain(mem, p),
        list_elems(mem, p) is Some,
    ensures
        forall|k: int| 0 <= k < list_elems(mem, p)->0.len() ==> plain(mem, #[trigger] list_elems(mem, p)->0[k]),
    decreases mem.prank(p),
{
    if let Some(PrimitiveValue::Cons(c)) = mem.value_of(p) {
        lemma_cdr_younger(mem, p);
        lemma_plain_elems(mem, c.cdr);
        let e = list_elems(mem, p)->0;
        let rest = list_elems(mem, c.cdr)->0;
        assert forall|k: int| 0 <= k < e.len() implies plain(mem, #[trigger] e[k]) by {
            if k > 0 {
                assert(e[k] == rest[k - 1]);
            }
        }
    }
}

/// A value without functions and traps is equal to itself.
pub(crate) proof fn lemma_values_equal_reflexive(mem: &Memory, a: Option<usize>)
    requires
        mem.wf(),
        plain(mem, a),
    ensures
        values_equal(mem, a, a),
    decreases mem.prank(a),
{
    if let Some(PrimitiveValue::Cons(c)) = mem.value_of(a) {
        match list_elems(mem, a) {
            Some(l) => {
                lemma_elems_younger(mem, a);
                lemma_plain_elems(mem, a);
                lemma_elems_equal_pointwise(mem, l, l, mem.prank(a));
                assert forall|k: int| 0 <= k < l.len() implies #[trigger] values_equal(mem, l[k], l[k]) by {
                    lemma_values_equal_reflexive(mem, l[k]);
                }
            },
            None => {
                lemma_values_equal_reflexive(mem, c.car);
                lemma_values_equal_reflexive(mem, c.cdr);
            },
        }
    }
}

} // verus!
