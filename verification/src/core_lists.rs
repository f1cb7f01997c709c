//! List conversions on handles, and the outcome of folding over a tree.

use vstd::prelude::*;
use crate::memory::{Memory, GcRef, PrimitiveValue};
use crate::util::{
    allocates, keeps_all, list_elems, sanitized, ptrs, chars_of_elems, string_of_elems,
    lemma_elems_live, prepend_keeping, spine, lemma_spine_list,
};
use crate::text::string_push;

verus! {

/// A list with the elements of `vec`, in order. Elements that are not live become nil.
pub fn vec_to_list(mem: &mut Memory, vec: Vec<GcRef>) -> (r: GcRef)
    requires
        old(mem).wf(),
    ensures
        allocates(&*old(mem), &*final(mem)),
        list_elems(&*final(mem), r.ptr()) == Some(sanitized(&*old(mem), vec@)),
        keeps_all(&*old(mem), &*final(mem), vec@),
{
    crate::util::vec_to_list(mem, vec.as_slice())
}

/// A list with the elements of `vec` in reverse order. Elements that are not live become nil.
pub fn vec_to_list_reverse(mem: &mut Memory, vec: Vec<GcRef>) -> (r: GcRef)
    requires
        old(mem).wf(),
    ensures
        allocates(&*old(mem), &*final(mem)),
        list_elems(&*final(mem), r.ptr()) == Some(sanitized(&*old(mem), vec@).reverse()),
        keeps_all(&*old(mem), &*final(mem), vec@),
{
    let mut rev: Vec<GcRef> = Vec::new();
    let mut k: usize = vec.len();
    while k > 0
        invariant
            k <= vec@.len(),
            rev@.len() == vec@.len() - k,
            forall|q: int| 0 <= q < rev@.len() ==> #[trigger] rev@[q].ptr() == vec@[vec@.len() - 1 - q].ptr(),
        decreases k,
    {
        k = k - 1;
        rev.push(vec[k].clone());
    }
    let ghost m0 = *mem;
    let r = crate::util::vec_to_list(mem, rev.as_slice());
    proof {
        assert(sanitized(&m0, rev@) =~= sanitized(&m0, vec@).reverse());
        assert forall|q: int| 0 <= q < vec@.len() implies #[trigger] m0.keeps(&*mem, vec@[q].ptr()) by {
            let j = vec@.len() - 1 - q;
            assert(rev@[j].ptr() == vec@[q].ptr());
            assert(m0.keeps(&*mem, rev@[j].ptr()));
        }
    }
    r
}

/// The list of the characters of `string`.
pub fn string_to_list(mem: &mut Memory, string: &str) -> (r: GcRef)
    requires
        old(mem).wf(),
    ensures
        allocates(&*old(mem), &*final(mem)),
        list_elems(&*final(mem), r.ptr()) is Some,
        chars_of_elems(&*final(mem), list_elems(&*final(mem), r.ptr())->0) == Some(string@),
{
    crate::util::string_to_list(mem, string)
}

/// The elements of the proper list `list`, or `None` if it is not a proper list.
pub fn list_to_vec(mem: &Memory, list: GcRef) -> (r: Option<Vec<GcRef>>)
    requires
        mem.wf(),
    ensures
        r is None <==> list_elems(mem, list.ptr()) is None,
        r matches Some(v) ==> Some(ptrs(v@)) == list_elems(mem, list.ptr()),
{
    crate::util::list_to_vec(mem, list)
}

/// The characters of the list `list`, each element of which must be a character; `None` if
/// it is not a proper list.
pub fn list_to_string(mem: &Memory, list: GcRef) -> (r: Option<String>)
    requires
        mem.wf(),
        list_elems(mem, list.ptr()) matches Some(e) ==> forall|k: int| 0 <= k < e.len() ==>
            (#[trigger] mem.value_of(e[k])) matches Some(PrimitiveValue::Character(_)),
    ensures
        r is None <==> list_elems(mem, list.ptr()) is None,
        r matches Some(s) ==> Some(s@) == chars_of_elems(mem, list_elems(mem, list.ptr())->0),
{
    match list_to_vec(mem, list) {
        None => None,
        Some(vec) => {
            let ghost e = ptrs(vec@);
            proof { lemma_all_characters(mem, e); }
            let ghost cs = chars_of_elems(mem, e)->0;
            let mut s = String::new();
            let mut k: usize = 0;
            while k < vec.len()
                invariant
                    mem.wf(),
                    k <= vec@.len(),
                    e == ptrs(vec@),
                    cs.len() == e.len(),
                    forall|q: int| 0 <= q < e.len() ==> (#[trigger] mem.value_of(e[q])) == Some(PrimitiveValue::Character(cs[q])),
                    s@ == cs.subrange(0, k as int),
                decreases vec@.len() - k,
            {
                let c = match vec[k].get(mem) {
                    Some(PrimitiveValue::Character(c)) => *c,
                    _ => ' ',
                };
                proof { assert(mem.value_of(e[k as int]) == Some(PrimitiveValue::Character(cs[k as int]))); }
                string_push(&mut s, c);
                k = k + 1;
                proof { assert(s@ =~= cs.subrange(0, k as int)); }
            }
            proof { assert(cs.subrange(0, k as int) =~= cs); }
            Some(s)
        },
    }
}

/// The characters of a list of characters.
proof fn lemma_all_characters(mem: &Memory, e: Seq<Option<usize>>)
    requires
        forall|k: int| 0 <= k < e.len() ==> (#[trigger] mem.value_of(e[k])) matches Some(PrimitiveValue::Character(_)),
    ensures
        chars_of_elems(mem, e) is Some,
        chars_of_elems(mem, e)->0.len() == e.len(),
        forall|k: int| 0 <= k < e.len() ==>
            (#[trigger] mem.value_of(e[k])) == Some(PrimitiveValue::Character(chars_of_elems(mem, e)->0[k])),
    decreases e.len(),
{
    if e.len() > 0 {
        assert(mem.value_of(e[0]) matches Some(PrimitiveValue::Character(_)));
        let t = e.drop_first();
        assert forall|k: int| 0 <= k < t.len() implies (#[trigger] mem.value_of(t[k])) matches Some(PrimitiveValue::Character(_)) by {
            assert(t[k] == e[k + 1]);
        }
        lemma_all_characters(mem, t);
        let cs = chars_of_elems(mem, e)->0;
        assert forall|k: int| 0 <= k < e.len() implies
            (#[trigger] mem.value_of(e[k])) == Some(PrimitiveValue::Character(cs[k])) by {
            if k > 0 {
                assert(e[k] == t[k - 1]);
            }
        }
    }
}

/// What a fold over a tree gives back: a value, a call to make in place of the node, or a signal.
pub enum FoldOutput {
    Return(GcRef),
    Call(GcRef, GcRef),
    Signal(GcRef),
}

impl FoldOutput {
    /// The value of a `Return`.
    pub fn as_value(self) -> (r: GcRef)
        requires
            self is Return,
        ensures
            r.ptr() == self->Return_0.ptr(),
    {
        match self {
            FoldOutput::Return(x) => x,
            FoldOutput::Call(x, _) => x,
            FoldOutput::Signal(x) => x,
        }
    }

    /// The signal of a `Signal`.
    pub fn as_signal(self) -> (r: GcRef)
        requires
            self is Signal,
        ensures
            r.ptr() == self->Signal_0.ptr(),
    {
        match self {
            FoldOutput::Signal(x) => x,
            FoldOutput::Return(x) => x,
            FoldOutput::Call(x, _) => x,
        }
    }
}

/// What folding a tree gives: a value, or a signal that no trap caught.
pub enum Folded {
    Value(Option<usize>),
    Signalled(Option<usize>),
}

/// What a fold's output stands for: a value or a signal (a call is not an outcome).
pub open spec fn outcome_of(o: FoldOutput) -> Folded {
    match o {
        FoldOutput::Return(x) => Folded::Value(x.ptr()),
        FoldOutput::Signal(x) => Folded::Signalled(x.ptr()),
        FoldOutput::Call(_, _) => Folded::Signalled(None),
    }
}

/// What a fold does at the leaves and at the lists of a tree.
pub trait TreeFolder {
    /// Folding the leaf `atom` in `state` may give `r`, the heap going from `old` to `new`.
    spec fn folds_atom(&self, old: Memory, state: Option<usize>, atom: Option<usize>, new: Memory, r: Option<usize>) -> bool;

    /// Folding the list whose elements folded to `list`, in `state`, may give `r`, the heap going
    /// from `old` to `new`.
    spec fn folds_list(&self, old: Memory, state: Option<usize>, list: Vec<GcRef>, new: Memory, r: FoldOutput) -> bool;

    /// The value of the leaf `atom`, folded in `state`.
    fn fold_atom(&self, mem: &mut Memory, state: GcRef, atom: GcRef) -> (r: GcRef)
        requires
            old(mem).wf(),
        ensures
            old(mem).evolves(&*final(mem)),
            self.folds_atom(*old(mem), state.ptr(), atom.ptr(), *final(mem), r.ptr());

    /// What the list whose elements folded to `list` gives, in `state`.
    fn fold_list(&self, mem: &mut Memory, state: GcRef, list: Vec<GcRef>) -> (r: FoldOutput)
        requires
            old(mem).wf(),
        ensures
            old(mem).evolves(&*final(mem)),
            self.folds_list(*old(mem), state.ptr(), list, *final(mem), r);
}

/// A trigger term with no content (it always holds): the quantifiers over intermediate heaps in
/// the relations below are instantiated through it, as a trigger on a recursive relation itself
/// does not match across its unfoldings.
pub open spec fn fold_trigger(m: Memory, r: Folded) -> bool {
    true
}

/// A trigger term with no content (it always holds): the quantifiers over intermediate heaps in
/// the relations below are instantiated through it, as a trigger on a recursive relation itself
/// does not match across its unfoldings.
pub open spec fn fold_all_trigger(m: Memory, r: Result<Seq<GcRef>, Option<usize>>) -> bool {
    true
}

/// A trigger term with no content (it always holds): the quantifiers over intermediate heaps in
/// the relations below are instantiated through it, as a trigger on a recursive relation itself
/// does not match across its unfoldings.
pub open spec fn fold_list_trigger(m: Memory, o: FoldOutput, list: Vec<GcRef>) -> bool {
    true
}

/// A run of folds: its heaps and its values, as a trigger.
pub open spec fn fold_run(mems: Seq<Memory>, vals: Seq<GcRef>) -> bool {
    mems.len() == vals.len() + 1
}

/// Folding `tree` in `state` with `fuel` levels of nesting left, as the heap goes from `old` to
/// `new`. A leaf is folded by `fold_atom`. A trap folds its normal body; where that signals, its
/// trap body is folded in its place. A proper list has its elements folded from left to right,
/// each one level deeper; the first signal among them is the fold's; otherwise `fold_list` is
/// given the folded elements, and what it returns is the fold's value, what it signals the
/// fold's signal, and a tree it asks to fold is folded in the list's place, in the state it names.
/// Where no fuel is left the fold signals nil.
pub open spec fn folds<F: TreeFolder>(f: &F, old: Memory, new: Memory, state: Option<usize>, tree: Option<usize>,
    fuel: nat, r: Folded) -> bool
    decreases fuel, 0nat,
{
    if fuel == 0 {
        new == old && r == Folded::Signalled(None)
    } else {
        match list_elems(&old, tree) {
            Some(e) => exists|m1: Memory, vs: Result<Seq<GcRef>, Option<usize>>| #[trigger] fold_all_trigger(m1, vs)
                && folds_each(f, old, m1, state, e, (fuel - 1) as nat, vs)
                && match vs {
                    Err(sig) => new == m1 && r == Folded::Signalled(sig),
                    Ok(vals) => exists|m2: Memory, o: FoldOutput, l: Vec<GcRef>| #[trigger] fold_list_trigger(m2, o, l)
                        && l@ == vals && f.folds_list(m1, state, l, m2, o)
                        && match o {
                            FoldOutput::Return(x) => new == m2 && r == Folded::Value(x.ptr()),
                            FoldOutput::Signal(x) => new == m2 && r == Folded::Signalled(x.ptr()),
                            FoldOutput::Call(t2, s2) => folds(f, m2, new, s2.ptr(), t2.ptr(), (fuel - 1) as nat, r),
                        },
                },
            None => match old.value_of(tree) {
                Some(PrimitiveValue::Trap(t)) => exists|m1: Memory, n: Folded| #[trigger] fold_trigger(m1, n)
                    && folds(f, old, m1, state, t.normal_body, (fuel - 1) as nat, n)
                    && match n {
                        Folded::Value(x) => new == m1 && r == Folded::Value(x),
                        Folded::Signalled(_) => folds(f, m1, new, state, t.trap_body, (fuel - 1) as nat, r),
                    },
                _ => r matches Folded::Value(x) && f.folds_atom(old, state, tree, new, x),
            },
        }
    }
}

/// Folding the elements `elems` one after the other in `state`: the values of all of them, or
/// the first signal.
pub open spec fn folds_each<F: TreeFolder>(f: &F, old: Memory, new: Memory, state: Option<usize>,
    elems: Seq<Option<usize>>, fuel: nat, r: Result<Seq<GcRef>, Option<usize>>) -> bool
    decreases fuel, 1nat,
{
    exists|mems: Seq<Memory>, vals: Seq<GcRef>| #[trigger] fold_run(mems, vals) && mems[0] == old
        && mems.len() == vals.len() + 1 && vals.len() <= elems.len()
        && (forall|k: int| 0 <= k < vals.len() ==>
            folds(f, mems[k], mems[k + 1], state, elems[k], fuel, Folded::Value((#[trigger] vals[k]).ptr())))
        && if vals.len() == elems.len() {
            new == mems.last() && r == Ok::<Seq<GcRef>, Option<usize>>(vals)
        } else {
            r matches Err(x) && folds(f, mems.last(), new, state, elems[vals.len() as int], fuel, Folded::Signalled(x))
        }
}

/// How many levels of nesting a fold may go through before it stops.
pub const MAX_FOLD_STEPS: u64 = 18446744073709551615;

/// Folds `tree` bottom-up: leaves with `fold_atom`, lists, once their elements are folded, with
/// `fold_list`. A list may ask to fold another tree in its place; a signal unwinds to the closest
/// trap around it, whose trap body is folded in its place, or ends the fold.
pub fn fold_tree<F: TreeFolder>(mem: &mut Memory, state: GcRef, tree: GcRef, folder: &F) -> (r: FoldOutput)
    requires
        old(mem).wf(),
    ensures
        old(mem).evolves(&*final(mem)),
        !(r is Call),
        folds(folder, *old(mem), *final(mem), state.ptr(), tree.ptr(), MAX_FOLD_STEPS as nat, outcome_of(r)),
{
    fold_within(mem, state, tree, folder, MAX_FOLD_STEPS)
}

/// Folding from `m` carries on the fold of `t0` from `m0`.
spec fn fold_resumes<F: TreeFolder>(f: &F, m0: Memory, s0: Option<usize>, t0: Option<usize>, fuel0: nat, m: Memory,
    s: Option<usize>, t: Option<usize>, fuel: nat) -> bool
{
    forall|n: Memory, res: Folded| #[trigger] folds(f, m, n, s, t, fuel, res) ==> folds(f, m0, n, s0, t0, fuel0, res)
}

/// Folds `tree` in `state` with `fuel` levels of nesting left. A tree folded in the place of
/// another (the tree a list asks for, a trap body) is folded in place rather than by a deeper call.
fn fold_within<F: TreeFolder>(mem: &mut Memory, state: GcRef, tree: GcRef, folder: &F, fuel: u64) -> (r: FoldOutput)
    requires
        old(mem).wf(),
    ensures
        old(mem).evolves(&*final(mem)),
        !(r is Call),
        folds(folder, *old(mem), *final(mem), state.ptr(), tree.ptr(), fuel as nat, outcome_of(r)),
    decreases fuel,
{
    let ghost m0 = *mem;
    let ghost s0 = state.ptr();
    let ghost t0 = tree.ptr();
    let mut t = tree;
    let mut s = state;
    let mut left: u64 = fuel;
    proof { m0.lemma_evolves_refl(); }
    loop
        invariant
            m0.wf(),
            m0 == *old(mem),
            m0.evolves(&*mem),
            left <= fuel,
            s0 == state.ptr(),
            t0 == tree.ptr(),
            fold_resumes(folder, m0, s0, t0, fuel as nat, *mem, s.ptr(), t.ptr(), left as nat),
        decreases left,
    {
        let ghost m1 = *mem;
        let ghost x1 = t.ptr();
        let ghost st1 = s.ptr();
        let ghost f1 = left as nat;
        if left == 0 {
            let r = FoldOutput::Signal(GcRef::nil());
            proof { assert(folds(folder, m1, *mem, st1, x1, f1, outcome_of(r))); }
            return r;
        }
        match list_to_vec(mem, t.clone()) {
            Some(elems) => {
                let ghost e = ptrs(elems@);
                let ghost mut mems: Seq<Memory> = seq![m1];
                let mut vals: Vec<GcRef> = Vec::new();
                let mut k: usize = 0;
                while k < elems.len()
                    invariant
                        m0.wf(),
                        m0 == *old(mem),
                        m0.evolves(&*mem),
                        left <= fuel,
                        left > 0,
                        f1 == left as nat,
                        x1 == t.ptr(),
                        st1 == s.ptr(),
                        s0 == state.ptr(),
                        t0 == tree.ptr(),
                        fold_resumes(folder, m0, s0, t0, fuel as nat, m1, st1, x1, f1),
                        list_elems(&m1, x1) == Some(e),
                        e == ptrs(elems@),
                        k <= elems@.len(),
                        vals@.len() == k,
                        mems.len() == k + 1,
                        mems[0] == m1,
                        mems.last() == *mem,
                        forall|q: int| 0 <= q < vals@.len() ==>
                            folds(folder, mems[q], mems[q + 1], st1, e[q], (f1 - 1) as nat,
                                Folded::Value((#[trigger] vals@[q]).ptr())),
                    decreases elems@.len() - k,
                {
                    let ghost m2 = *mem;
                    proof { assert(e[k as int] == elems@[k as int].ptr()); }
                    match fold_within(mem, s.clone(), elems[k].clone(), folder, left - 1) {
                        FoldOutput::Signal(x) => {
                            proof {
                                m0.lemma_evolves_trans(&m2, &*mem);
                                assert(fold_run(mems, vals@));
                                assert(folds_each(folder, m1, *mem, st1, e, (f1 - 1) as nat, Err(x.ptr())));
                                assert(fold_all_trigger(*mem, Err(x.ptr())));
                                assert(folds(folder, m1, *mem, st1, x1, f1, outcome_of(FoldOutput::Signal(x))));
                            }
                            return FoldOutput::Signal(x);
                        },
                        FoldOutput::Return(x) => {
                            proof {
                                m0.lemma_evolves_trans(&m2, &*mem);
                                mems = mems.push(*mem);
                            }
                            vals.push(x);
                        },
                        FoldOutput::Call(x, y) => {
                            return FoldOutput::Call(x, y);
                        },
                    }
                    k = k + 1;
                }
                let ghost m3 = *mem;
                let ghost vs = vals@;
                proof {
                    assert(fold_run(mems, vals@));
                    assert(folds_each(folder, m1, m3, st1, e, (f1 - 1) as nat, Ok(vs)));
                    assert(fold_all_trigger(m3, Ok(vs)));
                }
                let ghost gvals = vals;
                let folded = folder.fold_list(mem, s.clone(), vals);
                proof {
                    m0.lemma_evolves_trans(&m3, &*mem);
                    assert(fold_list_trigger(*mem, folded, gvals));
                }
                match folded {
                    FoldOutput::Call(new_tree, new_state) => {
                        let ghost m4 = *mem;
                        proof {
                            assert forall|n: Memory, res: Folded|
                                #[trigger] folds(folder, m4, n, new_state.ptr(), new_tree.ptr(), (f1 - 1) as nat, res)
                                implies folds(folder, m1, n, st1, x1, f1, res) by {
                                assert(folds_each(folder, m1, m3, st1, e, (f1 - 1) as nat, Ok(vs)));
                                assert(fold_all_trigger(m3, Ok(vs)));
                                assert(fold_list_trigger(m4, FoldOutput::Call(new_tree, new_state), gvals));
                                assert(folder.folds_list(m3, st1, gvals, m4, FoldOutput::Call(new_tree, new_state)));
                            }
                        }
                        t = new_tree;
                        s = new_state;
                        left = left - 1;
                    },
                    other => {
                        proof {
                            assert(folder.folds_list(m3, st1, gvals, *mem, other));
                            assert(fold_list_trigger(*mem, other, gvals));
                            assert(folds(folder, m1, *mem, st1, x1, f1, outcome_of(other)));
                        }
                        return other;
                    },
                }
            },
            None => {
                let body = match t.get(mem) {
                    Some(PrimitiveValue::Trap(trap)) => Some((mem.make_ref(trap.normal_body), mem.make_ref(trap.trap_body))),
                    _ => None,
                };
                match body {
                    Some((normal, handler)) => {
                        match fold_within(mem, s.clone(), normal, folder, left - 1) {
                            FoldOutput::Signal(x) => {
                                let ghost m2 = *mem;
                                proof {
                                    m0.lemma_evolves_trans(&m1, &m2);
                                    assert forall|n: Memory, res: Folded|
                                        #[trigger] folds(folder, m2, n, st1, handler.ptr(), (f1 - 1) as nat, res)
                                        implies folds(folder, m1, n, st1, x1, f1, res) by {
                                        assert(fold_trigger(m2, Folded::Signalled(x.ptr())));
                                    }
                                }
                                t = handler;
                                left = left - 1;
                            },
                            FoldOutput::Return(x) => {
                                proof {
                                    m0.lemma_evolves_trans(&m1, &*mem);
                                    assert(fold_trigger(*mem, Folded::Value(x.ptr())));
                                    assert(folds(folder, m1, *mem, st1, x1, f1, outcome_of(FoldOutput::Return(x))));
                                }
                                return FoldOutput::Return(x);
                            },
                            FoldOutput::Call(x, y) => {
                                return FoldOutput::Call(x, y);
                            },
                        }
                    },
                    None => {
                        let x = folder.fold_atom(mem, s.clone(), t.clone());
                        proof {
                            m0.lemma_evolves_trans(&m1, &*mem);
                            assert(folds(folder, m1, *mem, st1, x1, f1, outcome_of(FoldOutput::Return(x))));
                        }
                        return FoldOutput::Return(x);
                    },
                }
            },
        }
    }
}

} // verus!
