//! Lists: cons cells, property lists.

use vstd::prelude::*;
use crate::memory::{Memory, GcRef, PrimitiveValue, TypeLabel, Function, FunctionKind, MetaValue, ConsCell, children};
use crate::util::{
    allocates, keeps_all, is_symbol_named, list_elems, sanitized, ptrs, symbol, vec_to_list_keeping,
    with_extra, lemma_allocates_trans, lemma_keeps_sub, cons_cell, list_to_vec, vec_to_list,
    lemma_elems_live, lemma_list_unchanged,
};
use crate::error_utils::{arity_error, type_error, is_arity_error, is_type_error, extended_type};

verus! {

/// `p` is the property list with the keys of `kv` and the values `vals`, in order.
pub open spec fn is_plist(mem: &Memory, p: Option<usize>, keys: Seq<Seq<char>>, vals: Seq<Option<usize>>) -> bool {
    &&& list_elems(mem, p) is Some
    &&& keys.len() == vals.len()
    &&& list_elems(mem, p)->0.len() == 2 * keys.len()
    &&& forall|i: int| 0 <= i < keys.len() ==> #[trigger] is_symbol_named(mem, list_elems(mem, p)->0[2 * i], keys[i])
    &&& forall|i: int| 0 <= i < keys.len() ==> #[trigger] list_elems(mem, p)->0[2 * i + 1] == vals[i]
}

/// The keys of a key-value slice.
pub open spec fn kv_keys(kv: Seq<(&str, GcRef)>) -> Seq<Seq<char>> {
    kv.map_values(|e: (&str, GcRef)| e.0@)
}

/// The values of a key-value slice.
pub open spec fn kv_values(kv: Seq<(&str, GcRef)>) -> Seq<GcRef> {
    kv.map_values(|e: (&str, GcRef)| e.1)
}

/// The property list `(k1 v1 k2 v2 ...)` of `kv`, keeping the cells of `keep` alive. Values
/// that are not live become nil.
pub fn make_plist_keeping(mem: &mut Memory, kv: &[(&str, GcRef)], keep: &[GcRef]) -> (r: GcRef)
    requires
        old(mem).wf(),
    ensures
        allocates(&*old(mem), &*final(mem)),
        keeps_all(&*old(mem), &*final(mem), keep@),
        keeps_all(&*old(mem), &*final(mem), kv_values(kv@)),
        is_plist(&*final(mem), r.ptr(), kv_keys(kv@), sanitized(&*old(mem), kv_values(kv@))),
        final(mem).live(r.ptr()),
{
    let ghost m0 = *mem;
    let ghost sv = sanitized(&m0, kv_values(kv@));
    let mut values: Vec<GcRef> = Vec::new();
    let mut k: usize = 0;
    while k < kv.len()
        invariant
            *mem == m0,
            sv == sanitized(&m0, kv_values(kv@)),
            k <= kv@.len(),
            values@.len() == k,
            forall|q: int| 0 <= q < k ==> #[trigger] values@[q].ptr() == sv[q],
        decreases kv@.len() - k,
    {
        let p = mem.live_ptr(kv[k].1.pointer);
        values.push(mem.make_ref(p));
        k = k + 1;
    }
    let base = with_extra(keep, values.as_slice());
    proof {
        m0.lemma_evolves_refl();
        assert forall|q: int| 0 <= q < kv@.len() implies m0.live(#[trigger] sv[q]) by {}
    }
    let mut vec: Vec<GcRef> = Vec::new();
    let mut k: usize = 0;
    while k < kv.len()
        invariant
            m0.wf(),
            sv == sanitized(&m0, kv_values(kv@)),
            allocates(&m0, &*mem),
            k <= kv@.len(),
            vec@.len() == 2 * k,
            values@.len() == kv@.len(),
            forall|q: int| 0 <= q < kv@.len() ==> #[trigger] values@[q].ptr() == sv[q],
            base@.len() == keep@.len() + kv@.len(),
            forall|q: int| 0 <= q < keep@.len() ==> #[trigger] base@[q].ptr() == keep@[q].ptr(),
            forall|q: int| 0 <= q < kv@.len() ==> #[trigger] base@[q + keep@.len()].ptr() == values@[q].ptr(),
            keeps_all(&m0, &*mem, base@),
            forall|q: int| 0 <= q < 2 * k ==> mem.live(#[trigger] vec@[q].ptr()),
            forall|q: int| 0 <= q < k ==> #[trigger] is_symbol_named(&*mem, vec@[2 * q].ptr(), kv@[q].0@),
            forall|q: int| 0 <= q < k ==> #[trigger] vec@[2 * q + 1].ptr() == sv[q],
        decreases kv@.len() - k,
    {
        let ghost m1 = *mem;
        let all = with_extra(base.as_slice(), vec.as_slice());
        let s = symbol(mem, kv[k].0, all.as_slice());
        proof {
            lemma_allocates_trans(&m0, &m1, &*mem);
            lemma_keeps_sub(&m1, &*mem, base@, all@, 0);
            lemma_keeps_sub(&m1, &*mem, vec@, all@, base@.len() as int);
            assert forall|q: int| 0 <= q < base@.len() implies #[trigger] m0.keeps(&*mem, base@[q].ptr()) by {
                assert(m0.keeps(&m1, base@[q].ptr()));
                if m0.live(base@[q].ptr()) {
                    assert(m1.keeps(&*mem, base@[q].ptr()));
                    m0.lemma_unchanged_trans(&m1, &*mem, base@[q].ptr());
                }
            }
            assert forall|q: int| 0 <= q < 2 * k implies m1.unchanged(&*mem, #[trigger] vec@[q].ptr()) by {
                assert(m1.keeps(&*mem, vec@[q].ptr()));
            }
            assert forall|q: int| 0 <= q < k implies #[trigger] is_symbol_named(&*mem, vec@[2 * q].ptr(), kv@[q].0@) by {
                assert(is_symbol_named(&m1, vec@[2 * q].ptr(), kv@[q].0@));
                assert(m1.unchanged(&*mem, vec@[2 * q].ptr()));
                m1.lemma_value_unchanged(&*mem, vec@[2 * q].ptr());
            }
        }
        let ghost m2 = *mem;
        proof {
            assert(base@[k + keep@.len()].ptr() == values@[k as int].ptr());
            assert(m0.keeps(&*mem, base@[k + keep@.len()].ptr()));
            assert(m0.live(sv[k as int]));
        }
        let ghost pv = vec@;
        vec.push(s);
        vec.push(values[k].clone());
        k = k + 1;
        proof {
            assert forall|q: int| 0 <= q < 2 * k implies mem.live(#[trigger] vec@[q].ptr()) by {
                if q < 2 * k - 2 {
                    assert(m1.unchanged(&*mem, vec@[q].ptr()));
                }
            }
            assert forall|q: int| 0 <= q < k implies #[trigger] is_symbol_named(&*mem, vec@[2 * q].ptr(), kv@[q].0@) by {
                if q < k - 1 {
                    assert(vec@[2 * q] == pv[2 * q]);
                }
            }
            assert forall|q: int| 0 <= q < k implies #[trigger] vec@[2 * q + 1].ptr() == sv[q] by {
                if q < k - 1 {
                    assert(vec@[2 * q + 1] == pv[2 * q + 1]);
                }
            }
        }
    }
    let ghost m3 = *mem;
    let r = vec_to_list_keeping(mem, vec.as_slice(), base.as_slice());
    proof {
        lemma_allocates_trans(&m0, &m3, &*mem);
        assert(sanitized(&m3, vec@) =~= ptrs(vec@)) by {
            assert forall|q: int| 0 <= q < vec@.len() implies sanitized(&m3, vec@)[q] == ptrs(vec@)[q] by {
                assert(m3.live(vec@[q].ptr()));
            }
        }
        let e = list_elems(&*mem, r.ptr())->0;
        assert forall|q: int| 0 <= q < kv@.len() implies #[trigger] is_symbol_named(&*mem, e[2 * q], kv_keys(kv@)[q]) by {
            assert(e[2 * q] == vec@[2 * q].ptr());
            assert(is_symbol_named(&m3, vec@[2 * q].ptr(), kv@[q].0@));
            assert(kv_keys(kv@)[q] == kv@[q].0@);
            assert(m3.keeps(&*mem, vec@[2 * q].ptr()));
            m3.lemma_value_unchanged(&*mem, vec@[2 * q].ptr());
        }
        assert forall|q: int| 0 <= q < kv@.len() implies #[trigger] e[2 * q + 1] == sv[q] by {
            assert(e[2 * q + 1] == vec@[2 * q + 1].ptr());
        }
        assert forall|q: int| 0 <= q < base@.len() implies #[trigger] m0.keeps(&*mem, base@[q].ptr()) by {
            if m0.live(base@[q].ptr()) {
                assert(m0.keeps(&m3, base@[q].ptr()));
                assert(m3.keeps(&*mem, base@[q].ptr()));
                assert(m3.live(base@[q].ptr()));
                m0.lemma_unchanged_trans(&m3, &*mem, base@[q].ptr());
            }
        }
        lemma_keeps_sub(&m0, &*mem, keep@, base@, 0);
        assert forall|q: int| 0 <= q < kv@.len() implies #[trigger] m0.keeps(&*mem, kv_values(kv@)[q].ptr()) by {
            assert(m0.keeps(&*mem, base@[q + keep@.len()].ptr()));
            if m0.live(kv_values(kv@)[q].ptr()) {
                assert(base@[q + keep@.len()].ptr() == kv_values(kv@)[q].ptr());
            }
        }
    }
    r
}

/// The property list `(k1 v1 k2 v2 ...)` of `kv`. Values that are not live become nil.
pub fn make_plist(mem: &mut Memory, kv: &[(&str, GcRef)]) -> (r: GcRef)
    requires
        old(mem).wf(),
    ensures
        allocates(&*old(mem), &*final(mem)),
        keeps_all(&*old(mem), &*final(mem), kv_values(kv@)),
        is_plist(&*final(mem), r.ptr(), kv_keys(kv@), sanitized(&*old(mem), kv_values(kv@))),
        final(mem).live(r.ptr()),
{
    make_plist_keeping(mem, kv, &[])
}



/// What `cons` gives for `args`, from the heap `old` to the heap `new`.
pub open spec fn cons_call_outcome(old: &Memory, new: &Memory, args: Seq<GcRef>, env: GcRef, recursion_depth: usize,
    r: Result<GcRef, GcRef>) -> bool
{
    &&& (allocates(old, new))
    &&& (args.len() != 2 ==> (r matches Err(e) && is_arity_error(new, e.ptr(), "cons"@, 2, args.len() as usize)))
    &&& (args.len() == 2 ==> (r matches Ok(c) && keeps_all(old, new, args)
                && new.value_of(c.ptr()) == Some(PrimitiveValue::Cons(ConsCell {
                    car: sanitized(old, args)[0],
                    cdr: sanitized(old, args)[1],
                }))))
}

/// A new cons cell of `car` and `cdr`.
pub fn cons(mem: &mut Memory, args: &[GcRef], env: GcRef) -> (r: Result<GcRef, GcRef>)
    requires
        old(mem).wf(),
    ensures
        cons_call_outcome(&*old(mem), &*final(mem), args@, env, 0, r),
{
    if args.len() != 2 {
        return Err(arity_error(mem, "cons", 2, args.len()));
    }
    let ghost m0 = *mem;
    let c = cons_cell(mem, args[0].clone(), args[1].clone(), &[]);
    proof {
        assert forall|q: int| 0 <= q < args@.len() implies #[trigger] m0.keeps(&*mem, args@[q].ptr()) by {
            if q == 0 { assert(m0.keeps(&*mem, args@[0].ptr())); } else { assert(m0.keeps(&*mem, args@[1].ptr())); }
        }
    }
    Ok(c)
}

/// The car (`is_car`) or the cdr of the cons cell that `p` denotes.
pub open spec fn cons_part(mem: &Memory, p: Option<usize>, is_car: bool) -> Option<usize> {
    let c = mem.value_of(p)->0->Cons_0;
    if is_car { c.car } else { c.cdr }
}

/// The car or the cdr of the argument, which must be a cons cell.
fn cons_component(mem: &mut Memory, args: &[GcRef], is_car: bool, name: &str) -> (r: Result<GcRef, GcRef>)
    requires
        old(mem).wf(),
    ensures
        allocates(&*old(mem), &*final(mem)),
        args@.len() != 1 ==> (r matches Err(e) && is_arity_error(&*final(mem), e.ptr(), name@, 1, args@.len() as usize)),
        args@.len() == 1 ==> match old(mem).value_of(args@[0].ptr()) {
            Some(PrimitiveValue::Cons(_)) =>
                *final(mem) == *old(mem) && (r matches Ok(x) && x.ptr() == cons_part(&*old(mem), args@[0].ptr(), is_car)),
            _ => (r matches Err(e) && is_type_error(&*final(mem), e.ptr(), name@, TypeLabel::Cons, extended_type(&*old(mem), args@[0].ptr()))),
        },
{
    if args.len() != 1 {
        return Err(arity_error(mem, name, 1, args.len()));
    }
    let ghost m0 = *mem;
    let part = match args[0].get(mem) {
        Some(PrimitiveValue::Cons(c)) => Some(if is_car { c.car } else { c.cdr }),
        _ => None,
    };
    match part {
        Some(p) => {
            proof { m0.lemma_evolves_refl(); }
            Ok(mem.make_ref(p))
        },
        None => Err(type_error(mem, name, &args[0], TypeLabel::Cons)),
    }
}


/// What `car` gives for `args`, from the heap `old` to the heap `new`.
pub open spec fn car_call_outcome(old: &Memory, new: &Memory, args: Seq<GcRef>, env: GcRef, recursion_depth: usize,
    r: Result<GcRef, GcRef>) -> bool
{
    &&& (allocates(old, new))
    &&& (args.len() != 1 ==> (r matches Err(e) && is_arity_error(new, e.ptr(), "car"@, 1, args.len() as usize)))
    &&& (args.len() == 1 ==> match old.value_of(args[0].ptr()) {
                Some(PrimitiveValue::Cons(_)) =>
                    *new == *old && (r matches Ok(x) && x.ptr() == cons_part(old, args[0].ptr(), true)),
                _ => (r matches Err(e) && is_type_error(new, e.ptr(), "car"@, TypeLabel::Cons, extended_type(old, args[0].ptr()))),
            })
}

/// The car of the argument, which must be a cons cell.
pub fn car(mem: &mut Memory, args: &[GcRef], env: GcRef) -> (r: Result<GcRef, GcRef>)
    requires
        old(mem).wf(),
    ensures
        car_call_outcome(&*old(mem), &*final(mem), args@, env, 0, r),
{
    cons_component(mem, args, true, "car")
}


/// What `cdr` gives for `args`, from the heap `old` to the heap `new`.
pub open spec fn cdr_call_outcome(old: &Memory, new: &Memory, args: Seq<GcRef>, env: GcRef, recursion_depth: usize,
    r: Result<GcRef, GcRef>) -> bool
{
    &&& (allocates(old, new))
    &&& (args.len() != 1 ==> (r matches Err(e) && is_arity_error(new, e.ptr(), "cdr"@, 1, args.len() as usize)))
    &&& (args.len() == 1 ==> match old.value_of(args[0].ptr()) {
                Some(PrimitiveValue::Cons(_)) =>
                    *new == *old && (r matches Ok(x) && x.ptr() == cons_part(old, args[0].ptr(), false)),
                _ => (r matches Err(e) && is_type_error(new, e.ptr(), "cdr"@, TypeLabel::Cons, extended_type(old, args[0].ptr()))),
            })
}

/// The cdr of the argument, which must be a cons cell.
pub fn cdr(mem: &mut Memory, args: &[GcRef], env: GcRef) -> (r: Result<GcRef, GcRef>)
    requires
        old(mem).wf(),
    ensures
        cdr_call_outcome(&*old(mem), &*final(mem), args@, env, 0, r),
{
    cons_component(mem, args, false, "cdr")
}


/// What `list` gives for `args`, from the heap `old` to the heap `new`.
pub open spec fn list_call_outcome(old: &Memory, new: &Memory, args: Seq<GcRef>, env: GcRef, recursion_depth: usize,
    r: Result<GcRef, GcRef>) -> bool
{
    &&& (allocates(old, new))
    &&& (keeps_all(old, new, args))
    &&& (r matches Ok(l) && list_elems(new, l.ptr()) == Some(sanitized(old, args)))
}

/// A new list of the arguments.
pub fn list(mem: &mut Memory, args: &[GcRef], env: GcRef) -> (r: Result<GcRef, GcRef>)
    requires
        old(mem).wf(),
    ensures
        list_call_outcome(&*old(mem), &*final(mem), args@, env, 0, r),
{
    Ok(vec_to_list(mem, args))
}

/// The value after the key whose symbol lives in cell `key`, in the flat key-value sequence
/// `elems`: nil where the key is absent, `None` where a key is not a symbol or the key has
/// no value after it.
pub open spec fn plist_get(mem: &Memory, elems: Seq<Option<usize>>, key: int) -> Option<Option<usize>>
    decreases elems.len(),
{
    if elems.len() == 0 {
        Some(None)
    } else if !(mem.value_of(elems[0]) matches Some(PrimitiveValue::Symbol(_))) {
        None
    } else if mem.value_cell(elems[0]) == Some(key) {
        if elems.len() >= 2 { Some(elems[1]) } else { None }
    } else if elems.len() >= 2 {
        plist_get(mem, elems.skip(2), key)
    } else {
        Some(None)
    }
}

fn get_property_internal(mem: &Memory, key: usize, plist: &Vec<GcRef>) -> (r: Option<GcRef>)
    requires
        mem.wf(),
    ensures
        r is Some <==> plist_get(mem, ptrs(plist@), key as int) is Some,
        r matches Some(x) ==> Some(x.ptr()) == plist_get(mem, ptrs(plist@), key as int),
{
    let mut k: usize = 0;
    proof { assert(ptrs(plist@).skip(0) =~= ptrs(plist@)); }
    while k < plist.len()
        invariant
            mem.wf(),
            k <= plist@.len() || (k == plist@.len() + 1 && false),
            k % 2 == 0,
            plist_get(mem, ptrs(plist@), key as int) == plist_get(mem, ptrs(plist@).skip(k as int), key as int),
        decreases plist@.len() - k,
    {
        let ghost rest = ptrs(plist@).skip(k as int);
        let is_key = match plist[k].get(mem) {
            Some(PrimitiveValue::Symbol(s)) => Some(s.own_address == key),
            _ => None,
        };
        proof {
            assert(rest[0] == plist@[k as int].ptr());
            if let Some(PrimitiveValue::Symbol(s)) = mem.value_of(rest[0]) {
                let c = mem.value_cell(rest[0])->0;
                assert(mem.cell_wf(c));
                assert(s.own_address == c);
            }
        }
        match is_key {
            None => { return None; },
            Some(true) => {
                if k + 1 < plist.len() {
                    proof { assert(rest[1] == plist@[k + 1].ptr()); }
                    return Some(plist[k + 1].clone());
                } else {
                    return None;
                }
            },
            Some(false) => {
                if plist.len() - k < 2 {
                    return Some(GcRef::nil());
                }
                proof {
                    assert(rest.skip(2) =~= ptrs(plist@).skip(k + 2));
                }
                k = k + 2;
            },
        }
    }
    proof { assert(ptrs(plist@).skip(k as int).len() == 0); }
    Some(GcRef::nil())
}

/// The value of the key `key` in the property list `plist`: nil where the key is absent,
/// `None` where `plist` is not a property list.
pub fn property(mem: &mut Memory, key: &str, plist: GcRef) -> (r: Option<GcRef>)
    requires
        old(mem).wf(),
    ensures
        allocates(&*old(mem), &*final(mem)),
        old(mem).keeps(&*final(mem), plist.ptr()),
        final(mem).symbol_cell(key@) is Some,
        r is Some <==> (list_elems(&*final(mem), plist.ptr()) matches Some(e)
            && plist_get(&*final(mem), e, final(mem).symbol_cell(key@)->0 as int) is Some),
        r matches Some(x) ==> (list_elems(&*final(mem), plist.ptr()) matches Some(e)
            && plist_get(&*final(mem), e, final(mem).symbol_cell(key@)->0 as int) == Some(x.ptr())),
{
    let ghost m0 = *mem;
    let s = symbol(mem, key, &[plist.clone()]);
    proof { assert(m0.keeps(&*mem, plist.ptr())); }
    let k = s.pointer.unwrap();
    match list_to_vec(mem, plist) {
        Some(v) => get_property_internal(mem, k, &v),
        None => None,
    }
}


/// What `get_property` gives for `args`, from the heap `old` to the heap `new`.
pub open spec fn get_property_call_outcome(old: &Memory, new: &Memory, args: Seq<GcRef>, env: GcRef, recursion_depth: usize,
    r: Result<GcRef, GcRef>) -> bool
{
    &&& (allocates(old, new))
    &&& (args.len() != 2 ==> (r matches Err(e) && is_arity_error(new, e.ptr(), "get-property"@, 2, args.len() as usize)))
    &&& (args.len() == 2 ==> match old.value_of(args[0].ptr()) {
                Some(PrimitiveValue::Symbol(_)) => {
                    let key = old.value_cell(args[0].ptr())->0;
                    match list_elems(old, args[1].ptr()) {
                        None => (r matches Err(e) && is_symbol_named(new, e.ptr(), "wrong-argument-type"@)),
                        Some(elems) => match plist_get(old, elems, key) {
                            Some(v) => *new == *old && (r matches Ok(x) && x.ptr() == v),
                            None => (r matches Err(e) && is_symbol_named(new, e.ptr(), "wrong-plist-format"@)),
                        },
                    }
                },
                _ => (r matches Err(e) && is_type_error(new, e.ptr(), "get-property"@, TypeLabel::Symbol, extended_type(old, args[0].ptr()))),
            })
}

/// The value of `key` in the property list `plist`; nil where the key is absent.
pub fn get_property(mem: &mut Memory, args: &[GcRef], env: GcRef) -> (r: Result<GcRef, GcRef>)
    requires
        old(mem).wf(),
    ensures
        get_property_call_outcome(&*old(mem), &*final(mem), args@, env, 0, r),
{
    if args.len() != 2 {
        return Err(arity_error(mem, "get-property", 2, args.len()));
    }
    let ghost m0 = *mem;
    let key = match args[0].get(mem) {
        Some(PrimitiveValue::Symbol(s)) => Some(s.own_address),
        _ => None,
    };
    proof {
        if let Some(PrimitiveValue::Symbol(s)) = mem.value_of(args@[0].ptr()) {
            let c = mem.value_cell(args@[0].ptr())->0;
            assert(mem.cell_wf(c));
        }
    }
    let key = match key {
        None => { return Err(type_error(mem, "get-property", &args[0], TypeLabel::Symbol)); },
        Some(k) => k,
    };
    let plist = match list_to_vec(mem, args[1].clone()) {
        None => { return Err(symbol(mem, "wrong-argument-type", &[])); },
        Some(v) => v,
    };
    match get_property_internal(mem, key, &plist) {
        Some(x) => {
            proof { m0.lemma_evolves_refl(); }
            Ok(x)
        },
        None => Err(symbol(mem, "wrong-plist-format", &[])),
    }
}


/// What `unrest` gives for `args`, from the heap `old` to the heap `new`.
pub open spec fn unrest_call_outcome(old: &Memory, new: &Memory, args: Seq<GcRef>, env: GcRef, recursion_depth: usize,
    r: Result<GcRef, GcRef>) -> bool
{
    &&& (allocates(old, new))
    &&& (args.len() != 1 ==> (r matches Err(e) && is_arity_error(new, e.ptr(), "unrest"@, 1, args.len() as usize)))
    &&& (args.len() == 1 ==> match old.value_of(args[0].ptr()) {
                Some(PrimitiveValue::Function(Function::NativeFunction(_))) =>
                    *new == *old && (r matches Ok(x) && x.ptr() == args[0].ptr()),
                Some(PrimitiveValue::Function(Function::NormalFunction(f))) =>
                    (r matches Ok(x) && new.value_of(x.ptr()) matches Some(PrimitiveValue::Function(Function::NormalFunction(g)))
                    && g.kind == f.kind && !g.has_rest_params && g.body == f.body && g.environment == f.environment
                    && g.environment_module@ == f.environment_module@ && g.parameters@ == f.parameters@),
                _ => (r matches Err(e) && is_type_error(new, e.ptr(), "unrest"@, TypeLabel::Function, extended_type(old, args[0].ptr()))),
            })
}

/// `f` with its rest parameter turned into an ordinary parameter; other functions unchanged.
pub fn unrest(mem: &mut Memory, args: &[GcRef], env: GcRef) -> (r: Result<GcRef, GcRef>)
    requires
        old(mem).wf(),
    ensures
        unrest_call_outcome(&*old(mem), &*final(mem), args@, env, 0, r),
{
    if args.len() != 1 {
        return Err(arity_error(mem, "unrest", 1, args.len()));
    }
    let ghost m0 = *mem;
    let is_native = match args[0].get(mem) {
        Some(PrimitiveValue::Function(Function::NativeFunction(_))) => true,
        _ => false,
    };
    if is_native {
        proof { m0.lemma_evolves_refl(); }
        return Ok(args[0].clone());
    }
    let info = match args[0].get(mem) {
        Some(PrimitiveValue::Function(Function::NormalFunction(nf))) => {
            let mut params: Vec<GcRef> = Vec::new();
            let mut k: usize = 0;
            while k < nf.parameters.len()
                invariant
                    m0 == *mem,
                    m0.value_of(args@[0].ptr()) == Some(PrimitiveValue::Function(Function::NormalFunction(*nf))),
                    k <= nf.parameters@.len(),
                    params@.len() == k,
                    forall|q: int| 0 <= q < k ==> #[trigger] params@[q].ptr() == nf.parameters@[q],
                decreases nf.parameters@.len() - k,
            {
                params.push(mem.make_ref(nf.parameters[k]));
                k = k + 1;
            }
            (nf.kind, mem.make_ref(nf.body), params, mem.make_ref(nf.environment), nf.environment_module.clone())
        },
        _ => { return Err(type_error(mem, "unrest", &args[0], TypeLabel::Function)); },
    };
    match info {
        (kind, body, params, environment, module) => {
            proof {
                let c = m0.value_cell(args@[0].ptr())->0;
                assert(m0.cell_wf(c));
                assert forall|q: int| 0 <= q < params@.len() implies m0.live(#[trigger] params@[q].ptr()) by {
                    assert(children(m0.mv(c))[q + 2] == params@[q].ptr());
                    assert(m0.older_than(children(m0.mv(c))[q + 2], c));
                }
                assert(params@.map_values(|p: GcRef| if m0.live(p.ptr()) { p.ptr() } else { None })
                    =~= ptrs(params@));
                assert(children(m0.mv(c))[0] == body.ptr());
                assert(children(m0.mv(c))[1] == environment.ptr());
                assert(m0.older_than(children(m0.mv(c))[0], c));
                assert(m0.older_than(children(m0.mv(c))[1], c));
            }
            let g = mem.allocate_normal_function(kind, false, body, params.as_slice(), environment, module.as_str());
            proof {
                let f = m0.value_of(args@[0].ptr())->0->Function_0->NormalFunction_0;
                assert(params@.len() == f.parameters@.len());
                assert(ptrs(params@) =~= f.parameters@);
                assert(module@ == f.environment_module@);
                assert(body.ptr() == f.body);
                assert(environment.ptr() == f.environment);
                assert(kind == f.kind);
            }
            Ok(g)
        },
    }
}
} // verus!
