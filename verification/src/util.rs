//! Conversions between Lisp lists and vectors, strings and lists of characters.

use vstd::prelude::*;
use crate::memory::{Memory, GcRef, PrimitiveValue, MetaValue, children, ConsCell};
use crate::text::{chars_of, string_push};
use crate::modules::texts;

verus! {

/// The elements of the proper list that `p` denotes (`None`: `p` is not a proper list).
pub open spec fn list_elems(mem: &Memory, p: Option<usize>) -> Option<Seq<Option<usize>>>
    decreases mem.prank(p),
{
    match mem.value_of(p) {
        None => Some(Seq::empty()),
        Some(PrimitiveValue::Cons(c)) => {
            if mem.prank(c.cdr) < mem.prank(p) {
                match list_elems(mem, c.cdr) {
                    Some(rest) => Some(seq![c.car] + rest),
                    None => None,
                }
            } else {
                None
            }
        },
        Some(_) => None,
    }
}

/// `p` starts a chain of cons cells whose cars are `elems` and which ends in `tail`.
pub open spec fn spine(mem: &Memory, p: Option<usize>, elems: Seq<Option<usize>>, tail: Option<usize>) -> bool
    decreases elems.len(),
{
    if elems.len() == 0 {
        p == tail
    } else {
        match mem.value_of(p) {
            Some(PrimitiveValue::Cons(c)) => c.car == elems[0] && spine(mem, c.cdr, elems.drop_first(), tail),
            _ => false,
        }
    }
}

/// The pointers of `v`, with those that are not live replaced by nil.
pub open spec fn sanitized(mem: &Memory, v: Seq<GcRef>) -> Seq<Option<usize>> {
    v.map_values(|g: GcRef| if mem.live(g.ptr()) { g.ptr() } else { None })
}

/// The pointers of some handles.
pub open spec fn ptrs(v: Seq<GcRef>) -> Seq<Option<usize>> {
    v.map_values(|g: GcRef| g.ptr())
}

/// `new` comes from `self` by allocations: the heap evolves and the modules stay.
pub open spec fn allocates(old: &Memory, new: &Memory) -> bool {
    &&& old.evolves(new)
    &&& new.modules == old.modules
    &&& new.current_module == old.current_module
}

/// Every live cell of `keep` stays unchanged from `old` to `new`.
pub open spec fn keeps_all(old: &Memory, new: &Memory, keep: Seq<GcRef>) -> bool {
    forall|k: int| 0 <= k < keep.len() ==> #[trigger] old.keeps(new, keep[k].ptr())
}

/// The characters of the list `elems`, if each element is a character.
pub open spec fn chars_of_elems(mem: &Memory, elems: Seq<Option<usize>>) -> Option<Seq<char>>
    decreases elems.len(),
{
    if elems.len() == 0 {
        Some(Seq::empty())
    } else {
        match (mem.value_of(elems[0]), chars_of_elems(mem, elems.drop_first())) {
            (Some(PrimitiveValue::Character(c)), Some(rest)) => Some(seq![c] + rest),
            _ => None,
        }
    }
}

/// `p` is a symbol called `name`.
pub open spec fn is_symbol_named(mem: &Memory, p: Option<usize>, name: Seq<char>) -> bool {
    mem.value_of(p) matches Some(PrimitiveValue::Symbol(s)) && s.name matches Some(n) && n@ == name
}

/// The string that a list denotes: its characters, after a leading symbol `list` if there is one.
pub open spec fn string_of_elems(mem: &Memory, elems: Seq<Option<usize>>) -> Option<Seq<char>> {
    if elems.len() > 0 && is_symbol_named(mem, elems[0], "list"@) {
        chars_of_elems(mem, elems.drop_first())
    } else {
        chars_of_elems(mem, elems)
    }
}

/// The string that `p` denotes, if it denotes one.
pub open spec fn string_of(mem: &Memory, p: Option<usize>) -> Option<Seq<char>> {
    match list_elems(mem, p) {
        Some(e) => string_of_elems(mem, e),
        None => None,
    }
}

pub proof fn lemma_allocates_trans(a: &Memory, b: &Memory, c: &Memory)
    requires
        allocates(a, b),
        allocates(b, c),
    ensures
        allocates(a, c),
{
    a.lemma_evolves_trans(b, c);
}

/// The list structure under an unchanged pointer is unchanged.
pub proof fn lemma_list_unchanged(old: &Memory, new: &Memory, p: Option<usize>)
    requires
        old.wf(),
        old.evolves(new),
        old.unchanged(new, p),
    ensures
        list_elems(new, p) == list_elems(old, p),
    decreases old.prank(p),
{
    old.lemma_value_unchanged(new, p);
    if let Some(PrimitiveValue::Cons(c)) = old.value_of(p) {
        let q = old.value_cell(p)->0;
        lemma_value_cell_unchanged(old, new, p);
        assert(children(old.mv(q))[1] == c.cdr);
        old.lemma_child_unchanged(new, q as usize, 1);
        lemma_cdr_younger(old, p);
        lemma_cdr_younger(new, p);
        assert(new.prank(c.cdr) == old.prank(c.cdr));
        lemma_list_unchanged(old, new, c.cdr);
    }
}

/// The cell that holds the value of an unchanged pointer is unchanged.
pub proof fn lemma_value_cell_unchanged(old: &Memory, new: &Memory, p: Option<usize>)
    requires
        old.wf(),
        old.evolves(new),
        old.unchanged(new, p),
        old.value_cell(p) is Some,
    ensures
        old.value_cell(p)->0 >= 0,
        old.unchanged(new, Some(old.value_cell(p)->0 as usize)),
        new.prank(Some(old.value_cell(p)->0 as usize)) <= new.prank(p),
{
    let i = p->0;
    if let MetaValue::Meta { value: Some(j), .. } = old.mv(i as int) {
        assert(children(old.mv(i as int))[0] == Some(j));
        old.lemma_child_unchanged(new, i, 0);
        assert(new.cell_wf(i as int));
        assert(new.older_than(children(new.mv(i as int))[0], i as int));
    }
}

/// The rest of a cons cell is younger than the cons cell (or its metadata cell).
pub proof fn lemma_cdr_younger(mem: &Memory, p: Option<usize>)
    requires
        mem.wf(),
        mem.value_of(p) matches Some(PrimitiveValue::Cons(_)),
    ensures
        ({
            let c = mem.value_of(p)->0->Cons_0;
            &&& mem.prank(c.cdr) < mem.prank(p)
            &&& mem.live(c.cdr)
            &&& mem.live(c.car)
        }),
{
    let i = p->0 as int;
    let q = mem.value_cell(p)->0;
    let c = mem.value_of(p)->0->Cons_0;
    assert(mem.cell_wf(q));
    assert(children(mem.mv(q))[1] == c.cdr);
    assert(children(mem.mv(q))[0] == c.car);
    assert(mem.older_than(children(mem.mv(q))[1], q));
    assert(mem.older_than(children(mem.mv(q))[0], q));
    assert(mem.used(q));
    if q != i {
        assert(mem.cell_wf(i));
        assert(mem.older_than(children(mem.mv(i))[0], i));
        assert(mem.rank(q) < mem.rank(i));
    }
    assert(mem.prank(p) == mem.rank(i) + 1);
    assert(mem.live(c.cdr));
    assert(mem.live(c.car));
    assert(mem.prank(c.cdr) <= mem.rank(q));
}

/// A chain that starts at an unchanged pointer is still there.
pub proof fn lemma_spine_unchanged(old: &Memory, new: &Memory, p: Option<usize>, elems: Seq<Option<usize>>, tail: Option<usize>)
    requires
        old.wf(),
        old.evolves(new),
        old.unchanged(new, p),
        spine(old, p, elems, tail),
    ensures
        spine(new, p, elems, tail),
    decreases elems.len(),
{
    if elems.len() > 0 {
        old.lemma_value_unchanged(new, p);
        let c = old.value_of(p)->0->Cons_0;
        let q = old.value_cell(p)->0;
        lemma_value_cell_unchanged(old, new, p);
        assert(children(old.mv(q))[1] == c.cdr);
        old.lemma_child_unchanged(new, q as usize, 1);
        lemma_spine_unchanged(old, new, c.cdr, elems.drop_first(), tail);
    }
}

/// The end of a chain that starts at an unchanged pointer is unchanged, if it is live.
pub proof fn lemma_spine_end_unchanged(old: &Memory, new: &Memory, p: Option<usize>, elems: Seq<Option<usize>>, tail: Option<usize>)
    requires
        old.wf(),
        old.evolves(new),
        old.unchanged(new, p),
        spine(old, p, elems, tail),
    ensures
        old.unchanged(new, tail),
    decreases elems.len(),
{
    if elems.len() > 0 {
        old.lemma_value_unchanged(new, p);
        let c = old.value_of(p)->0->Cons_0;
        let q = old.value_cell(p)->0;
        lemma_value_cell_unchanged(old, new, p);
        assert(children(old.mv(q))[1] == c.cdr);
        old.lemma_child_unchanged(new, q as usize, 1);
        lemma_spine_end_unchanged(old, new, c.cdr, elems.drop_first(), tail);
    }
}

/// A chain that ends in nil is a proper list.
pub proof fn lemma_spine_list(mem: &Memory, p: Option<usize>, elems: Seq<Option<usize>>)
    requires
        mem.wf(),
        spine(mem, p, elems, None),
    ensures
        list_elems(mem, p) == Some(elems),
    decreases elems.len(),
{
    if elems.len() > 0 {
        let c = mem.value_of(p)->0->Cons_0;
        lemma_cdr_younger(mem, p);
        lemma_spine_list(mem, c.cdr, elems.drop_first());
        assert(seq![c.car] + elems.drop_first() =~= elems);
    }
}

/// The elements of the proper list that `list` denotes, or `None` if it is not a proper list.
pub fn list_to_vec(mem: &Memory, list: GcRef) -> (r: Option<Vec<GcRef>>)
    requires
        mem.wf(),
    ensures
        r is None <==> list_elems(mem, list.ptr()) is None,
        r matches Some(v) ==> Some(ptrs(v@)) == list_elems(mem, list.ptr()),
{
    let mut vec: Vec<GcRef> = Vec::new();
    let mut cursor = list;
    loop
        invariant
            mem.wf(),
            list_elems(mem, list.ptr()) == match list_elems(mem, cursor.ptr()) {
                Some(rest) => Some(ptrs(vec@) + rest),
                None => None::<Seq<Option<usize>>>,
            },
        decreases mem.prank(cursor.ptr()),
    {
        let ghost prev = vec@;
        match cursor.get(mem) {
            None => {
                assert(ptrs(vec@) + Seq::<Option<usize>>::empty() =~= ptrs(vec@));
                return Some(vec);
            },
            Some(PrimitiveValue::Cons(c)) => {
                let car = c.car;
                let cdr = c.cdr;
                proof {
                    lemma_cdr_younger(mem, cursor.ptr());
                }
                vec.push(mem.make_ref(car));
                proof {
                    assert(ptrs(vec@) =~= ptrs(prev).push(car));
                    match list_elems(mem, cdr) {
                        Some(rest) => {
                            assert(ptrs(prev) + (seq![car] + rest) =~= ptrs(vec@) + rest);
                        },
                        None => {},
                    }
                }
                cursor = mem.make_ref(cdr);
            },
            Some(_) => {
                return None;
            },
        }
    }
}

/// Conses the elements of `vec` in front of `tail`, keeping the cells of `keep` alive.
/// Elements that are not live become nil, and so does a `tail` that is not live.
pub fn prepend_keeping(mem: &mut Memory, vec: &[GcRef], tail: GcRef, keep: &[GcRef]) -> (r: GcRef)
    requires
        old(mem).wf(),
    ensures
        allocates(&*old(mem), &*final(mem)),
        spine(&*final(mem), r.ptr(), sanitized(&*old(mem), vec@), if old(mem).live(tail.ptr()) { tail.ptr() } else { None }),
        keeps_all(&*old(mem), &*final(mem), vec@),
        keeps_all(&*old(mem), &*final(mem), keep@),
        old(mem).keeps(&*final(mem), tail.ptr()),
        final(mem).live(r.ptr()),
{
    let ghost m0 = *mem;
    // sanitize the elements first
    let mut elems: Vec<GcRef> = Vec::new();
    let mut k: usize = 0;
    while k < vec.len()
        invariant
            *mem == m0,
            k <= vec@.len(),
            ptrs(elems@) == sanitized(&m0, vec@).subrange(0, k as int),
            forall|q: int| 0 <= q < elems@.len() ==> m0.live(#[trigger] elems@[q].ptr()),
        decreases vec@.len() - k,
    {
        let p = mem.live_ptr(vec[k].pointer);
        let ghost prev = elems@;
        let g = mem.make_ref(p);
        elems.push(g);
        proof {
            assert(elems@ == prev.push(g));
            assert(ptrs(elems@) =~= ptrs(prev).push(p));
            assert(sanitized(&m0, vec@).subrange(0, k + 1) =~= sanitized(&m0, vec@).subrange(0, k as int).push(sanitized(&m0, vec@)[k as int]));
        }
        k = k + 1;
    }
    assert(sanitized(&m0, vec@).subrange(0, vec@.len() as int) =~= sanitized(&m0, vec@));
    assert(elems@.len() == ptrs(elems@).len());
    let tp = mem.live_ptr(tail.pointer);
    let mut c = mem.make_ref(tp);
    let ghost t = tp;
    let mut i = elems.len();
    while i > 0
        invariant
            m0.wf(),
            i <= elems@.len(),
            elems@.len() == vec@.len(),
            allocates(&m0, &*mem),
            ptrs(elems@) == sanitized(&m0, vec@),
            forall|q: int| 0 <= q < elems@.len() ==> m0.live(#[trigger] elems@[q].ptr()),
            forall|q: int| 0 <= q < elems@.len() ==> m0.unchanged(&*mem, #[trigger] elems@[q].ptr()),
            keeps_all(&m0, &*mem, vec@),
            keeps_all(&m0, &*mem, keep@),
            spine(&*mem, c.ptr(), ptrs(elems@).subrange(i as int, elems@.len() as int), t),
            t == (if m0.live(tail.ptr()) { tail.ptr() } else { None }),
            m0.live(t),
            m0.unchanged(&*mem, t),
            i == elems@.len() ==> c.ptr() == t,
            mem.live(c.ptr()),
        decreases i,
    {
        i = i - 1;
        let ghost m1 = *mem;
        let ghost tail = ptrs(elems@).subrange(i + 1, elems@.len() as int);
        let mut all_keep: Vec<GcRef> = Vec::new();
        all_keep.push(c.clone());
        let mut z: usize = 0;
        while z < keep.len()
            invariant
                z <= keep@.len(),
                all_keep@.len() == z + 1,
                all_keep@[0].ptr() == c.ptr(),
                forall|q: int| 0 <= q < z ==> #[trigger] all_keep@[q + 1].ptr() == keep@[q].ptr(),
            decreases keep@.len() - z,
        {
            all_keep.push(keep[z].clone());
            z = z + 1;
        }
        let mut z: usize = 0;
        while z < vec.len()
            invariant
                z <= vec@.len(),
                all_keep@.len() == keep@.len() + 1 + z,
                all_keep@[0].ptr() == c.ptr(),
                forall|q: int| 0 <= q < keep@.len() ==> #[trigger] all_keep@[q + 1].ptr() == keep@[q].ptr(),
                forall|q: int| 0 <= q < z ==> #[trigger] all_keep@[q + 1 + keep@.len()].ptr() == vec@[q].ptr(),
            decreases vec@.len() - z,
        {
            all_keep.push(vec[z].clone());
            z = z + 1;
        }
        let new_c = mem.allocate_cons_keeping(elems[i].clone(), c.clone(), all_keep.as_slice());
        proof {
            m1.lemma_allocated_evolves(&*mem, new_c.ptr()->0);
            lemma_allocates_trans(&m0, &m1, &*mem);
            // the element and the rest of the list survive unchanged
            assert(m0.unchanged(&m1, elems@[i as int].ptr()));
            assert(m1.live(elems@[i as int].ptr()));
            assert(m1.live(c.ptr()));
            assert(m1.unchanged(&*mem, c.ptr()));
            lemma_spine_unchanged(&m1, &*mem, c.ptr(), tail, t);
            assert(m0.unchanged(&m1, t));
            if let Some(x) = t {
                assert(m1.used(x as int));
                if i + 1 == elems@.len() {
                    assert(c.ptr() == t);
                    assert(all_keep@[0].ptr() == t);
                } else {
                    // t is the end of the chain under c, which survives unchanged
                    lemma_spine_end_unchanged(&m1, &*mem, c.ptr(), tail, t);
                }
                assert(m1.unchanged(&*mem, t));
            }
            m0.lemma_unchanged_trans(&m1, &*mem, t);
            assert forall|q: int| 0 <= q < elems@.len() implies m0.unchanged(&*mem, #[trigger] elems@[q].ptr()) by {
                assert(m0.unchanged(&m1, elems@[q].ptr()));
                if let Some(x) = elems@[q].ptr() {
                    assert(ptrs(elems@)[q] == elems@[q].ptr());
                    assert(sanitized(&m0, vec@)[q] == Some(x));
                    assert(sanitized(&m0, vec@)[q] == (if m0.live(vec@[q].ptr()) { vec@[q].ptr() } else { None }));
                    assert(m0.live(vec@[q].ptr()));
                    assert(vec@[q].ptr() == Some(x));
                    assert(all_keep@[q + 1 + keep@.len()].ptr() == vec@[q].ptr());
                    assert(m1.used(x as int));
                    assert(mem.used(x as int) && x != new_c.ptr()->0);
                }
                m0.lemma_unchanged_trans(&m1, &*mem, elems@[q].ptr());
            }
            assert forall|q: int| 0 <= q < vec@.len() implies #[trigger] m0.keeps(&*mem, vec@[q].ptr()) by {
                assert(all_keep@[q + 1 + keep@.len()].ptr() == vec@[q].ptr());
                if m0.live(vec@[q].ptr()) {
                    assert(m0.keeps(&m1, vec@[q].ptr()));
                    m0.lemma_unchanged_trans(&m1, &*mem, vec@[q].ptr());
                }
            }
            assert forall|q: int| 0 <= q < keep@.len() implies #[trigger] m0.keeps(&*mem, keep@[q].ptr()) by {
                assert(all_keep@[q + 1].ptr() == keep@[q].ptr());
                if m0.live(keep@[q].ptr()) {
                    assert(m0.keeps(&m1, keep@[q].ptr()));
                    m0.lemma_unchanged_trans(&m1, &*mem, keep@[q].ptr());
                }
            }
            let s = ptrs(elems@).subrange(i as int, elems@.len() as int);
            assert(s.drop_first() =~= tail);
            assert(s[0] == elems@[i as int].ptr());
            assert(mem.value_of(new_c.ptr()) matches Some(PrimitiveValue::Cons(cc)) && cc.car == elems@[i as int].ptr() && cc.cdr == c.ptr());
        }
        c = new_c;
    }
    proof {
        assert(ptrs(elems@).subrange(0, elems@.len() as int) =~= ptrs(elems@));
    }
    c
}

/// A list with the elements of `vec`, keeping the cells of `keep` alive. Elements that are not
/// live become nil.
pub fn vec_to_list_keeping(mem: &mut Memory, vec: &[GcRef], keep: &[GcRef]) -> (r: GcRef)
    requires
        old(mem).wf(),
    ensures
        allocates(&*old(mem), &*final(mem)),
        spine(&*final(mem), r.ptr(), sanitized(&*old(mem), vec@), None),
        list_elems(&*final(mem), r.ptr()) == Some(sanitized(&*old(mem), vec@)),
        keeps_all(&*old(mem), &*final(mem), vec@),
        keeps_all(&*old(mem), &*final(mem), keep@),
        final(mem).live(r.ptr()),
{
    let r = prepend_keeping(mem, vec, GcRef::nil(), keep);
    proof {
        lemma_spine_list(&*mem, r.ptr(), sanitized(&*old(mem), vec@));
    }
    r
}

/// A list with the elements of `vec`.
pub fn vec_to_list(mem: &mut Memory, vec: &[GcRef]) -> (r: GcRef)
    requires
        old(mem).wf(),
    ensures
        allocates(&*old(mem), &*final(mem)),
        list_elems(&*final(mem), r.ptr()) == Some(sanitized(&*old(mem), vec@)),
        keeps_all(&*old(mem), &*final(mem), vec@),
{
    vec_to_list_keeping(mem, vec, &[])
}


/// The characters under unchanged pointers are unchanged.
pub proof fn lemma_chars_unchanged(old: &Memory, new: &Memory, elems: Seq<Option<usize>>)
    requires
        old.wf(),
        old.evolves(new),
        forall|k: int| 0 <= k < elems.len() ==> old.unchanged(new, #[trigger] elems[k]),
    ensures
        chars_of_elems(new, elems) == chars_of_elems(old, elems),
    decreases elems.len(),
{
    if elems.len() > 0 {
        old.lemma_value_unchanged(new, elems[0]);
        assert forall|k: int| 0 <= k < elems.drop_first().len() implies old.unchanged(new, #[trigger] elems.drop_first()[k]) by {
            assert(elems.drop_first()[k] == elems[k + 1]);
        }
        lemma_chars_unchanged(old, new, elems.drop_first());
    }
}

/// The string under an unchanged pointer is unchanged.
pub proof fn lemma_string_unchanged(old: &Memory, new: &Memory, p: Option<usize>)
    requires
        old.wf(),
        old.evolves(new),
        old.unchanged(new, p),
    ensures
        string_of(new, p) == string_of(old, p),
{
    lemma_list_unchanged(old, new, p);
    if let Some(e) = list_elems(old, p) {
        lemma_elems_unchanged(old, new, p);
        lemma_chars_unchanged(old, new, e);
        if e.len() > 0 {
            old.lemma_value_unchanged(new, e[0]);
            assert forall|k: int| 0 <= k < e.drop_first().len() implies old.unchanged(new, #[trigger] e.drop_first()[k]) by {
                assert(e.drop_first()[k] == e[k + 1]);
            }
            lemma_chars_unchanged(old, new, e.drop_first());
        }
    }
}

/// The elements of a list under an unchanged pointer are unchanged.
pub proof fn lemma_elems_unchanged(old: &Memory, new: &Memory, p: Option<usize>)
    requires
        old.wf(),
        old.evolves(new),
        old.unchanged(new, p),
        list_elems(old, p) is Some,
    ensures
        forall|k: int| 0 <= k < list_elems(old, p)->0.len() ==> old.unchanged(new, #[trigger] list_elems(old, p)->0[k]),
    decreases old.prank(p),
{
    old.lemma_value_unchanged(new, p);
    if let Some(PrimitiveValue::Cons(c)) = old.value_of(p) {
        let q = old.value_cell(p)->0;
        lemma_value_cell_unchanged(old, new, p);
        assert(children(old.mv(q))[0] == c.car);
        assert(children(old.mv(q))[1] == c.cdr);
        old.lemma_child_unchanged(new, q as usize, 0);
        old.lemma_child_unchanged(new, q as usize, 1);
        lemma_cdr_younger(old, p);
        lemma_elems_unchanged(old, new, c.cdr);
        let e = list_elems(old, p)->0;
        let rest = list_elems(old, c.cdr)->0;
        assert forall|k: int| 0 <= k < e.len() implies old.unchanged(new, #[trigger] e[k]) by {
            if k > 0 {
                assert(e[k] == rest[k - 1]);
            }
        }
    }
}

/// The elements of a list are live.
pub proof fn lemma_elems_live(mem: &Memory, p: Option<usize>)
    requires
        mem.wf(),
        list_elems(mem, p) is Some,
    ensures
        forall|k: int| 0 <= k < list_elems(mem, p)->0.len() ==> mem.live(#[trigger] list_elems(mem, p)->0[k]),
    decreases mem.prank(p),
{
    if let Some(PrimitiveValue::Cons(c)) = mem.value_of(p) {
        lemma_cdr_younger(mem, p);
        lemma_elems_live(mem, c.cdr);
        let e = list_elems(mem, p)->0;
        let rest = list_elems(mem, c.cdr)->0;
        assert forall|k: int| 0 <= k < e.len() implies mem.live(#[trigger] e[k]) by {
            if k > 0 {
                assert(e[k] == rest[k - 1]);
            }
        }
    }
}

/// The handle is a symbol called `name`.
pub fn symbol_is_named(mem: &Memory, x: &GcRef, name: &str) -> (r: bool)
    ensures
        r == is_symbol_named(mem, x.ptr(), name@),
{
    match x.get(mem) {
        Some(PrimitiveValue::Symbol(s)) => match &s.name {
            Some(n) => {
                let target = String::from_str(name);
                *n == target
            },
            None => false,
        },
        _ => false,
    }
}

/// The string a list of characters denotes (a leading symbol `list` is skipped), or `None`.
pub fn list_to_string(mem: &Memory, list: GcRef) -> (r: Option<String>)
    requires
        mem.wf(),
    ensures
        r is Some <==> string_of(mem, list.ptr()) is Some,
        r matches Some(s) ==> Some(s@) == string_of(mem, list.ptr()),
{
    match list_to_vec(mem, list) {
        None => None,
        Some(vec) => {
            let ghost e = ptrs(vec@);
            let mut from: usize = 0;
            if vec.len() > 0 && symbol_is_named(mem, &vec[0], "list") {
                from = 1;
            }
            let ghost start = from as int;
            proof {
                if start == 1 {
                    assert(e.subrange(1, vec@.len() as int) =~= e.drop_first());
                } else {
                    assert(e.subrange(0, vec@.len() as int) =~= e);
                }
                assert(string_of(mem, list.ptr()) == chars_of_elems(mem, e.subrange(start, vec@.len() as int)));
            }
            let mut string = String::new();
            let mut k = from;
            while k < vec.len()
                invariant
                    start <= k <= vec@.len(),
                    e == ptrs(vec@),
                    string_of(mem, list.ptr()) == chars_of_elems(mem, e.subrange(start, vec@.len() as int)),
                    chars_of_elems(mem, e.subrange(start, vec@.len() as int)) == match chars_of_elems(mem, e.subrange(k as int, vec@.len() as int)) {
                        Some(rest) => Some(string@ + rest),
                        None => None::<Seq<char>>,
                    },
                decreases vec@.len() - k,
            {
                let ghost sub = e.subrange(k as int, vec@.len() as int);
                assert(sub[0] == vec@[k as int].ptr());
                assert(sub.drop_first() =~= e.subrange(k + 1, vec@.len() as int));
                match vec[k].get(mem) {
                    Some(PrimitiveValue::Character(c)) => {
                        let ghost before = string@;
                        string_push(&mut string, *c);
                        proof {
                            match chars_of_elems(mem, e.subrange(k + 1, vec@.len() as int)) {
                                Some(rest) => {
                                    assert(before + (seq![*c] + rest) =~= string@ + rest);
                                },
                                None => {},
                            }
                        }
                    },
                    _ => {
                        assert(chars_of_elems(mem, sub) is None);
                        return None;
                    },
                }
                k = k + 1;
            }
            proof {
                assert(e.subrange(k as int, vec@.len() as int) =~= Seq::<Option<usize>>::empty());
                assert(string@ + Seq::<char>::empty() =~= string@);
                if start == 1 {
                    assert(e.subrange(1, vec@.len() as int) =~= e.drop_first());
                } else {
                    assert(e.subrange(0, vec@.len() as int) =~= e);
                }
            }
            Some(string)
        },
    }
}

/// The list of the characters of `string`, keeping the cells of `keep` alive.
pub fn string_to_list_keeping(mem: &mut Memory, string: &str, keep: &[GcRef]) -> (r: GcRef)
    requires
        old(mem).wf(),
    ensures
        allocates(&*old(mem), &*final(mem)),
        list_elems(&*final(mem), r.ptr()) is Some,
        chars_of_elems(&*final(mem), list_elems(&*final(mem), r.ptr())->0) == Some(string@),
        string_of(&*final(mem), r.ptr()) == Some(string@),
        keeps_all(&*old(mem), &*final(mem), keep@),
        final(mem).live(r.ptr()),
{
    let chars = chars_of(string);
    let r = chars_to_list_keeping(mem, &chars, None, keep);
    r
}

/// The list of `chars`, after the symbol `first` if there is one, keeping the cells of `keep` alive.
fn chars_to_list_keeping(mem: &mut Memory, chars: &Vec<char>, first: Option<&str>, keep: &[GcRef]) -> (r: GcRef)
    requires
        old(mem).wf(),
    ensures
        allocates(&*old(mem), &*final(mem)),
        list_elems(&*final(mem), r.ptr()) is Some,
        first is None ==> chars_of_elems(&*final(mem), list_elems(&*final(mem), r.ptr())->0) == Some(chars@),
        first matches Some(f) ==> ({
            let e = list_elems(&*final(mem), r.ptr())->0;
            &&& e.len() > 0
            &&& is_symbol_named(&*final(mem), e[0], f@)
            &&& chars_of_elems(&*final(mem), e.drop_first()) == Some(chars@)
        }),
        first is None || first == Some("list") ==> string_of(&*final(mem), r.ptr()) == Some(chars@),
        keeps_all(&*old(mem), &*final(mem), keep@),
        final(mem).live(r.ptr()),
{
    let ghost m0 = *mem;
    let mut cells: Vec<GcRef> = Vec::new();
    let mut offset: usize = 0;
    match first {
        Some(f) => {
            let s = mem.symbol_for_keeping(f, keep);
            proof {
                if m0.symbol_cell(f@) is None {
                    m0.lemma_allocated_evolves(&*mem, s.ptr()->0);
                }
            }
            cells.push(s);
            offset = 1;
        },
        None => {},
    }
    let ghost m1 = *mem;
    let mut k: usize = 0;
    while k < chars.len()
        invariant
            m0.wf(),
            allocates(&m0, &*mem),
            allocates(&m1, &*mem),
            keeps_all(&m0, &*mem, keep@),
            k <= chars@.len(),
            cells@.len() == offset + k,
            offset == (if first is Some { 1usize } else { 0usize }),
            first matches Some(f) ==> is_symbol_named(&*mem, cells@[0].ptr(), f@),
            forall|q: int| 0 <= q < cells@.len() ==> mem.used(#[trigger] cells@[q].ptr()->0 as int) && cells@[q].ptr() is Some,
            forall|q: int| offset <= q < cells@.len() ==> #[trigger] mem.value_of(cells@[q].ptr()) == Some(PrimitiveValue::Character(chars@[q - offset])),
        decreases chars@.len() - k,
    {
        let ghost mk = *mem;
        let mut all_keep: Vec<GcRef> = Vec::new();
        let mut z: usize = 0;
        while z < keep.len()
            invariant
                z <= keep@.len(),
                all_keep@.len() == z,
                forall|q: int| 0 <= q < z ==> #[trigger] all_keep@[q].ptr() == keep@[q].ptr(),
            decreases keep@.len() - z,
        {
            all_keep.push(keep[z].clone());
            z = z + 1;
        }
        let mut z: usize = 0;
        while z < cells.len()
            invariant
                z <= cells@.len(),
                all_keep@.len() == keep@.len() + z,
                forall|q: int| 0 <= q < keep@.len() ==> #[trigger] all_keep@[q].ptr() == keep@[q].ptr(),
                forall|q: int| 0 <= q < z ==> #[trigger] all_keep@[q + keep@.len()].ptr() == cells@[q].ptr(),
            decreases cells@.len() - z,
        {
            all_keep.push(cells[z].clone());
            z = z + 1;
        }
        let c = mem.allocate_character_keeping(chars[k], all_keep.as_slice());
        proof {
            mk.lemma_allocated_evolves(&*mem, c.ptr()->0);
            lemma_allocates_trans(&m0, &mk, &*mem);
            lemma_allocates_trans(&m1, &mk, &*mem);
            assert forall|q: int| 0 <= q < cells@.len() implies mk.unchanged(&*mem, #[trigger] cells@[q].ptr()) by {
                assert(all_keep@[q + keep@.len()].ptr() == cells@[q].ptr());
            }
            assert forall|q: int| offset <= q < cells@.len() implies #[trigger] mem.value_of(cells@[q].ptr()) == Some(PrimitiveValue::Character(chars@[q - offset])) by {
                assert(mk.unchanged(&*mem, cells@[q].ptr()));
                mk.lemma_value_unchanged(&*mem, cells@[q].ptr());
            }
            if first is Some {
                assert(mk.unchanged(&*mem, cells@[0].ptr()));
                mk.lemma_value_unchanged(&*mem, cells@[0].ptr());
            }
            assert forall|q: int| 0 <= q < keep@.len() implies #[trigger] m0.keeps(&*mem, keep@[q].ptr()) by {
                assert(all_keep@[q].ptr() == keep@[q].ptr());
                if m0.live(keep@[q].ptr()) {
                    assert(m0.keeps(&mk, keep@[q].ptr()));
                    m0.lemma_unchanged_trans(&mk, &*mem, keep@[q].ptr());
                }
            }
        }
        cells.push(c);
        k = k + 1;
        proof {
            assert forall|q: int| 0 <= q < cells@.len() implies mem.used(#[trigger] cells@[q].ptr()->0 as int) && cells@[q].ptr() is Some by {
                if q < cells@.len() - 1 {
                    assert(mk.unchanged(&*mem, cells@[q].ptr()));
                }
            }
        }
    }
    let ghost m2 = *mem;
    let r = vec_to_list_keeping(mem, cells.as_slice(), keep);
    proof {
        lemma_allocates_trans(&m0, &m2, &*mem);
        let e = list_elems(&*mem, r.ptr())->0;
        assert(e == sanitized(&m2, cells@));
        assert forall|q: int| 0 <= q < cells@.len() implies e[q] == cells@[q].ptr() && m2.unchanged(&*mem, #[trigger] cells@[q].ptr()) by {
            assert(m2.live(cells@[q].ptr()));
            assert(m2.keeps(&*mem, cells@[q].ptr()));
        }
        let rest = if first is Some { e.drop_first() } else { e };
        assert forall|q: int| 0 <= q < rest.len() implies m2.unchanged(&*mem, #[trigger] rest[q]) by {
            if first is Some {
                assert(rest[q] == e[q + 1]);
                assert(m2.unchanged(&*mem, cells@[q + 1].ptr()));
            } else {
                assert(m2.unchanged(&*mem, cells@[q].ptr()));
            }
        }
        lemma_chars_unchanged(&m2, &*mem, rest);
        // the characters as seen in m2
        assert(chars_of_elems(&m2, rest) == Some(chars@)) by {
            assert forall|q: int| 0 <= q < rest.len() implies #[trigger] m2.value_of(rest[q]) == Some(PrimitiveValue::Character(chars@[q])) by {
                if first is Some {
                    assert(rest[q] == cells@[q + 1].ptr());
                } else {
                    assert(rest[q] == cells@[q].ptr());
                }
            }
            lemma_chars_of_cells(&m2, rest, chars@);
        }
        if first is Some {
            assert(e[0] == cells@[0].ptr());
            assert(m2.unchanged(&*mem, cells@[0].ptr()));
            m2.lemma_value_unchanged(&*mem, cells@[0].ptr());
        } else {
            if e.len() > 0 {
                assert(m2.unchanged(&*mem, cells@[0].ptr()));
                m2.lemma_value_unchanged(&*mem, cells@[0].ptr());
                assert(m2.value_of(cells@[0].ptr()) == Some(PrimitiveValue::Character(chars@[0])));
            }
        }
        assert forall|q: int| 0 <= q < keep@.len() implies #[trigger] m0.keeps(&*mem, keep@[q].ptr()) by {
            if m0.live(keep@[q].ptr()) {
                assert(m0.keeps(&m2, keep@[q].ptr()));
                assert(m2.keeps(&*mem, keep@[q].ptr()));
                m0.lemma_unchanged_trans(&m2, &*mem, keep@[q].ptr());
            }
        }
    }
    r
}

/// A sequence of pointers to the characters `chars` denotes `chars`.
proof fn lemma_chars_of_cells(mem: &Memory, elems: Seq<Option<usize>>, chars: Seq<char>)
    requires
        elems.len() == chars.len(),
        forall|q: int| 0 <= q < elems.len() ==> #[trigger] mem.value_of(elems[q]) == Some(PrimitiveValue::Character(chars[q])),
    ensures
        chars_of_elems(mem, elems) == Some(chars),
    decreases elems.len(),
{
    if elems.len() > 0 {
        assert forall|q: int| 0 <= q < elems.drop_first().len() implies
            #[trigger] mem.value_of(elems.drop_first()[q]) == Some(PrimitiveValue::Character(chars.drop_first()[q])) by {
            assert(elems.drop_first()[q] == elems[q + 1]);
            assert(mem.value_of(elems[q + 1]) == Some(PrimitiveValue::Character(chars[q + 1])));
        }
        lemma_chars_of_cells(mem, elems.drop_first(), chars.drop_first());
        assert(mem.value_of(elems[0]) == Some(PrimitiveValue::Character(chars[0])));
        assert(seq![chars[0]] + chars.drop_first() =~= chars);
    }
}

/// The list of the characters of `string`.
pub fn string_to_list(mem: &mut Memory, string: &str) -> (r: GcRef)
    requires
        old(mem).wf(),
    ensures
        allocates(&*old(mem), &*final(mem)),
        list_elems(&*final(mem), r.ptr()) is Some,
        chars_of_elems(&*final(mem), list_elems(&*final(mem), r.ptr())->0) == Some(string@),
        string_of(&*final(mem), r.ptr()) == Some(string@),
{
    string_to_list_keeping(mem, string, &[])
}

/// The list `(list c1 c2 ...)` of the characters of `string`: evaluating it gives the string.
pub fn string_to_proper_list_keeping(mem: &mut Memory, string: &str, keep: &[GcRef]) -> (r: GcRef)
    requires
        old(mem).wf(),
    ensures
        allocates(&*old(mem), &*final(mem)),
        ({
            let e = list_elems(&*final(mem), r.ptr())->0;
            &&& list_elems(&*final(mem), r.ptr()) is Some
            &&& e.len() > 0
            &&& is_symbol_named(&*final(mem), e[0], "list"@)
            &&& chars_of_elems(&*final(mem), e.drop_first()) == Some(string@)
        }),
        string_of(&*final(mem), r.ptr()) == Some(string@),
        keeps_all(&*old(mem), &*final(mem), keep@),
        final(mem).live(r.ptr()),
{
    let chars = chars_of(string);
    chars_to_list_keeping(mem, &chars, Some("list"), keep)
}

/// The list `(list c1 c2 ...)` of the characters of `string`.
pub fn string_to_proper_list(mem: &mut Memory, string: &str) -> (r: GcRef)
    requires
        old(mem).wf(),
    ensures
        allocates(&*old(mem), &*final(mem)),
        string_of(&*final(mem), r.ptr()) == Some(string@),
{
    string_to_proper_list_keeping(mem, string, &[])
}

/// The elements of the list `list1` consed in front of `list2`; `None` if `list1` is not a
/// proper list.
pub fn append_lists_keeping(mem: &mut Memory, list1: GcRef, list2: GcRef, keep: &[GcRef]) -> (r: Option<GcRef>)
    requires
        old(mem).wf(),
    ensures
        allocates(&*old(mem), &*final(mem)),
        r is None <==> list_elems(&*old(mem), list1.ptr()) is None,
        r is None ==> *final(mem) == *old(mem),
        r matches Some(x) ==> spine(&*final(mem), x.ptr(), list_elems(&*old(mem), list1.ptr())->0,
            if old(mem).live(list2.ptr()) { list2.ptr() } else { None }),
        r matches Some(x) ==> final(mem).live(x.ptr()),
        old(mem).keeps(&*final(mem), list2.ptr()),
        keeps_all(&*old(mem), &*final(mem), keep@),
{
    let ghost m0 = *mem;
    match list_to_vec(mem, list1) {
        None => {
            proof { m0.lemma_evolves_refl(); }
            None
        },
        Some(vec1) => {
            proof {
                lemma_elems_live(&m0, list1.ptr());
                let e = list_elems(&m0, list1.ptr())->0;
                assert(sanitized(&m0, vec1@) =~= e) by {
                    assert forall|k: int| 0 <= k < e.len() implies sanitized(&m0, vec1@)[k] == e[k] by {
                        assert(ptrs(vec1@)[k] == e[k]);
                        assert(m0.live(e[k]));
                    }
                }
            }
            let r = prepend_keeping(mem, vec1.as_slice(), list2, keep);
            Some(r)
        },
    }
}

/// The elements of the list `list1` consed in front of `list2`; `None` if `list1` is not a
/// proper list.
pub fn append_lists(mem: &mut Memory, list1: GcRef, list2: GcRef) -> (r: Option<GcRef>)
    requires
        old(mem).wf(),
    ensures
        allocates(&*old(mem), &*final(mem)),
        r is None <==> list_elems(&*old(mem), list1.ptr()) is None,
        r matches Some(x) ==> spine(&*final(mem), x.ptr(), list_elems(&*old(mem), list1.ptr())->0,
            if old(mem).live(list2.ptr()) { list2.ptr() } else { None }),
{
    append_lists_keeping(mem, list1, list2, &[])
}


/// `old` keeps the live cells of `keep` unchanged in `new`, given that it keeps those of `big`
/// and every handle of `keep` is one of `big`.
pub proof fn lemma_keeps_sub(old: &Memory, new: &Memory, keep: Seq<GcRef>, big: Seq<GcRef>, offset: int)
    requires
        keeps_all(old, new, big),
        0 <= offset,
        offset + keep.len() <= big.len(),
        forall|q: int| 0 <= q < keep.len() ==> #[trigger] big[q + offset].ptr() == keep[q].ptr(),
    ensures
        keeps_all(old, new, keep),
{
    assert forall|q: int| 0 <= q < keep.len() implies #[trigger] old.keeps(new, keep[q].ptr()) by {
        assert(old.keeps(new, big[q + offset].ptr()));
    }
}

/// After an allocation that keeps the handles of `keep`, the live cells of `keep` are unchanged.
pub proof fn lemma_allocation_keeps(old: &Memory, new: &Memory, r: usize, keep: Seq<GcRef>)
    requires
        old.wf(),
        old.allocated(new, r),
        old.kept(new, r, keep),
    ensures
        keeps_all(old, new, keep),
        allocates(old, new),
{
    old.lemma_allocated_evolves(new, r);
    assert forall|q: int| 0 <= q < keep.len() implies #[trigger] old.keeps(new, keep[q].ptr()) by {
    }
}

/// `keep` with `extra` appended.
pub fn with_extra(keep: &[GcRef], extra: &[GcRef]) -> (v: Vec<GcRef>)
    ensures
        v@.len() == keep@.len() + extra@.len(),
        forall|q: int| 0 <= q < keep@.len() ==> #[trigger] v@[q].ptr() == keep@[q].ptr(),
        forall|q: int| 0 <= q < extra@.len() ==> #[trigger] v@[q + keep@.len()].ptr() == extra@[q].ptr(),
{
    let mut v: Vec<GcRef> = Vec::new();
    let mut z: usize = 0;
    while z < keep.len()
        invariant
            z <= keep@.len(),
            v@.len() == z,
            forall|q: int| 0 <= q < z ==> #[trigger] v@[q].ptr() == keep@[q].ptr(),
        decreases keep@.len() - z,
    {
        v.push(keep[z].clone());
        z = z + 1;
    }
    let mut z: usize = 0;
    while z < extra.len()
        invariant
            z <= extra@.len(),
            v@.len() == keep@.len() + z,
            forall|q: int| 0 <= q < keep@.len() ==> #[trigger] v@[q].ptr() == keep@[q].ptr(),
            forall|q: int| 0 <= q < z ==> #[trigger] v@[q + keep@.len()].ptr() == extra@[q].ptr(),
        decreases extra@.len() - z,
    {
        v.push(extra[z].clone());
        z = z + 1;
    }
    v
}

/// The symbol called `name`, keeping the cells of `keep` alive.
pub fn symbol(mem: &mut Memory, name: &str, keep: &[GcRef]) -> (r: GcRef)
    requires
        old(mem).wf(),
    ensures
        allocates(&*old(mem), &*final(mem)),
        keeps_all(&*old(mem), &*final(mem), keep@),
        is_symbol_named(&*final(mem), r.ptr(), name@),
        final(mem).symbol_cell(name@) == r.ptr(),
        final(mem).live(r.ptr()),
        r.ptr() is Some,
{
    let ghost m0 = *mem;
    let r = mem.symbol_for_keeping(name, keep);
    proof {
        if m0.symbol_cell(name@) is None {
            lemma_allocation_keeps(&m0, &*mem, r.ptr()->0, keep@);
        } else {
            m0.lemma_evolves_refl();
        }
    }
    r
}

/// A new number, keeping the cells of `keep` alive.
pub fn number(mem: &mut Memory, n: i64, keep: &[GcRef]) -> (r: GcRef)
    requires
        old(mem).wf(),
    ensures
        allocates(&*old(mem), &*final(mem)),
        keeps_all(&*old(mem), &*final(mem), keep@),
        final(mem).value_of(r.ptr()) == Some(PrimitiveValue::Number(n)),
        final(mem).live(r.ptr()),
        r.ptr() is Some,
{
    let ghost m0 = *mem;
    let r = mem.allocate_number_keeping(n, keep);
    proof { lemma_allocation_keeps(&m0, &*mem, r.ptr()->0, keep@); }
    r
}

/// A new character, keeping the cells of `keep` alive.
pub fn character(mem: &mut Memory, c: char, keep: &[GcRef]) -> (r: GcRef)
    requires
        old(mem).wf(),
    ensures
        allocates(&*old(mem), &*final(mem)),
        keeps_all(&*old(mem), &*final(mem), keep@),
        final(mem).value_of(r.ptr()) == Some(PrimitiveValue::Character(c)),
        final(mem).live(r.ptr()),
        r.ptr() is Some,
{
    let ghost m0 = *mem;
    let r = mem.allocate_character_keeping(c, keep);
    proof { lemma_allocation_keeps(&m0, &*mem, r.ptr()->0, keep@); }
    r
}

/// A new cons cell, keeping `car`, `cdr` and the cells of `keep` alive.
pub fn cons_cell(mem: &mut Memory, car: GcRef, cdr: GcRef, keep: &[GcRef]) -> (r: GcRef)
    requires
        old(mem).wf(),
    ensures
        allocates(&*old(mem), &*final(mem)),
        keeps_all(&*old(mem), &*final(mem), keep@),
        old(mem).keeps(&*final(mem), car.ptr()),
        old(mem).keeps(&*final(mem), cdr.ptr()),
        final(mem).value_of(r.ptr()) == Some(PrimitiveValue::Cons(ConsCell {
            car: if old(mem).live(car.ptr()) { car.ptr() } else { None },
            cdr: if old(mem).live(cdr.ptr()) { cdr.ptr() } else { None },
        })),
        final(mem).live(r.ptr()),
        r.ptr() is Some,
{
    let ghost m0 = *mem;
    let ghost cp = car.ptr();
    let ghost dp = cdr.ptr();
    let r = mem.allocate_cons_keeping(car, cdr, keep);
    proof {
        lemma_allocation_keeps(&m0, &*mem, r.ptr()->0, keep@);
    }
    r
}


/// Handles on the cells of `v`, with the pointers that are not live replaced by nil.
pub fn sanitize(mem: &Memory, v: &[GcRef]) -> (r: Vec<GcRef>)
    ensures
        ptrs(r@) == sanitized(mem, v@),
        forall|q: int| 0 <= q < r@.len() ==> mem.live(#[trigger] r@[q].ptr()),
{
    let mut r: Vec<GcRef> = Vec::new();
    let mut k: usize = 0;
    while k < v.len()
        invariant
            k <= v@.len(),
            r@.len() == k,
            forall|q: int| 0 <= q < k ==> #[trigger] r@[q].ptr() == sanitized(mem, v@)[q],
        decreases v@.len() - k,
    {
        let p = mem.live_ptr(v[k].pointer);
        r.push(mem.make_ref(p));
        k = k + 1;
    }
    assert(ptrs(r@) =~= sanitized(mem, v@));
    r
}

/// Handles that are all live and kept stay sanitized to themselves.
pub proof fn lemma_sanitized_kept(old: &Memory, new: &Memory, v: Seq<GcRef>)
    requires
        keeps_all(old, new, v),
        forall|q: int| 0 <= q < v.len() ==> old.live(#[trigger] v[q].ptr()),
    ensures
        sanitized(new, v) == ptrs(v),
        sanitized(old, v) == ptrs(v),
        forall|q: int| 0 <= q < v.len() ==> new.live(#[trigger] v[q].ptr()),
{
    assert forall|q: int| 0 <= q < v.len() implies new.live(#[trigger] v[q].ptr()) by {
        assert(old.keeps(new, v[q].ptr()));
    }
    assert(sanitized(new, v) =~= ptrs(v));
    assert(sanitized(old, v) =~= ptrs(v));
}

/// Keeping is transitive.
pub proof fn lemma_keeps_all_trans(a: &Memory, b: &Memory, c: &Memory, v: Seq<GcRef>)
    requires
        keeps_all(a, b, v),
        keeps_all(b, c, v),
    ensures
        keeps_all(a, c, v),
{
    assert forall|q: int| 0 <= q < v.len() implies #[trigger] a.keeps(c, v[q].ptr()) by {
        assert(a.keeps(b, v[q].ptr()));
        if a.live(v[q].ptr()) {
            assert(b.keeps(c, v[q].ptr()));
            a.lemma_unchanged_trans(b, c, v[q].ptr());
        }
    }
}

/// Two pointers that denote the same value denote the same list.
pub proof fn lemma_same_value_list(mem: &Memory, p: Option<usize>, q: Option<usize>)
    requires
        mem.wf(),
        mem.value_of(p) == mem.value_of(q),
    ensures
        list_elems(mem, p) == list_elems(mem, q),
        string_of(mem, p) == string_of(mem, q),
{
    if let Some(PrimitiveValue::Cons(c)) = mem.value_of(p) {
        lemma_cdr_younger(mem, p);
        lemma_cdr_younger(mem, q);
    }
}
/// `p` is a proper list of the symbols named `names`, in order.
pub open spec fn symbols_named(mem: &Memory, p: Option<usize>, names: Seq<Seq<char>>) -> bool {
    &&& list_elems(mem, p) is Some
    &&& list_elems(mem, p)->0.len() == names.len()
    &&& forall|i: int| 0 <= i < names.len() ==> #[trigger] is_symbol_named(mem, list_elems(mem, p)->0[i], names[i])
}

/// A list of the symbols named `names`, keeping the cells of `keep` alive.
pub fn symbol_list(mem: &mut Memory, names: &Vec<String>, keep: &[GcRef]) -> (r: GcRef)
    requires
        old(mem).wf(),
    ensures
        allocates(&*old(mem), &*final(mem)),
        keeps_all(&*old(mem), &*final(mem), keep@),
        symbols_named(&*final(mem), r.ptr(), texts(names@)),
        final(mem).live(r.ptr()),
{
    let ghost m0 = *mem;
    let ghost want = texts(names@);
    let mut syms: Vec<GcRef> = Vec::new();
    let mut i: usize = 0;
    proof { m0.lemma_evolves_refl(); }
    while i < names.len()
        invariant
            m0.wf(),
            allocates(&m0, &*mem),
            keeps_all(&m0, &*mem, keep@),
            want == texts(names@),
            i <= names@.len(),
            syms@.len() == i,
            forall|q: int| 0 <= q < i ==> #[trigger] is_symbol_named(&*mem, syms@[q].ptr(), want[q]) && mem.live(syms@[q].ptr()),
        decreases names@.len() - i,
    {
        let ghost m1 = *mem;
        let k = with_extra(keep, syms.as_slice());
        let s = symbol(mem, names[i].as_str(), k.as_slice());
        proof {
            lemma_allocates_trans(&m0, &m1, &*mem);
            lemma_keeps_sub(&m1, &*mem, keep@, k@, 0);
            lemma_keeps_all_trans(&m0, &m1, &*mem, keep@);
            assert forall|q: int| 0 <= q < i implies #[trigger] is_symbol_named(&*mem, syms@[q].ptr(), want[q]) && mem.live(syms@[q].ptr()) by {
                assert(is_symbol_named(&m1, syms@[q].ptr(), want[q]));
                assert(k@[q + keep@.len()].ptr() == syms@[q].ptr());
                assert(m1.keeps(&*mem, k@[q + keep@.len()].ptr()));
                m1.lemma_value_unchanged(&*mem, syms@[q].ptr());
            }
        }
        syms.push(s);
        i = i + 1;
    }
    let ghost m2 = *mem;
    let l = vec_to_list_keeping(mem, syms.as_slice(), keep);
    proof {
        lemma_allocates_trans(&m0, &m2, &*mem);
        lemma_keeps_all_trans(&m0, &m2, &*mem, keep@);
        assert(sanitized(&m2, syms@) =~= ptrs(syms@)) by {
            assert forall|q: int| 0 <= q < syms@.len() implies sanitized(&m2, syms@)[q] == ptrs(syms@)[q] by {
                assert(is_symbol_named(&m2, syms@[q].ptr(), want[q]));
                assert(m2.live(syms@[q].ptr()));
            }
        }
        let e = list_elems(&*mem, l.ptr())->0;
        assert forall|q: int| 0 <= q < want.len() implies #[trigger] is_symbol_named(&*mem, e[q], want[q]) by {
            assert(e[q] == syms@[q].ptr());
            assert(is_symbol_named(&m2, syms@[q].ptr(), want[q]));
            assert(m2.keeps(&*mem, syms@[q].ptr()));
            m2.lemma_value_unchanged(&*mem, syms@[q].ptr());
        }
    }
    l
}

} // verus!


