//! Global definitions and modules, as Lisp sees them.

use vstd::prelude::*;
use crate::memory::{Memory, GcRef, PrimitiveValue, Symbol, TypeLabel, ModulError, type_label_of};
use crate::metadata::Metadata;
use crate::modules::{visible_modules, module_names, texts};
use crate::util::{allocates, is_symbol_named, list_elems, sanitized, symbol, string_of, list_to_string,
    list_to_vec, ptrs, lemma_allocates_trans, vec_to_list, keeps_all, with_extra};
use crate::text::{decimal, push_str, push_decimal};
use crate::error_utils::{arity_error, type_error, make_error, is_arity_error, is_type_error, is_error, extended_type};
use crate::native::list::{kv_keys, kv_values};
use crate::native::read::copy_location;
use crate::memory::Module;

verus! {

/// The name under which a symbol is bound globally: its name, or for a symbol without one a
/// text made from the cell it lives in.
pub open spec fn symbol_key(s: Symbol) -> Seq<char> {
    match s.name {
        Some(n) => n@,
        None => "#<symbol-"@ + decimal(s.own_address as nat) + ">"@,
    }
}

/// The global name of the symbol `x` denotes, if it denotes one.
pub open spec fn key_of(mem: &Memory, x: Option<usize>) -> Option<Seq<char>> {
    match mem.value_of(x) {
        Some(PrimitiveValue::Symbol(s)) => Some(symbol_key(s)),
        _ => None,
    }
}

/// The global name of the symbol `x` denotes, if it denotes one.
pub fn symbol_key_of(mem: &Memory, x: &GcRef) -> (r: Option<String>)
    ensures
        r is Some <==> key_of(mem, x.ptr()) is Some,
        r matches Some(s) ==> Some(s@) == key_of(mem, x.ptr()),
{
    match x.get(mem) {
        Some(PrimitiveValue::Symbol(s)) => match &s.name {
            Some(n) => Some(n.clone()),
            None => {
                let mut t = String::new();
                push_str(&mut t, "#<symbol-");
                push_decimal(&mut t, s.own_address as u64);
                push_str(&mut t, ">");
                proof { assert(t@ =~= "#<symbol-"@ + decimal(s.own_address as nat) + ">"@); }
                Some(t)
            },
        },
        _ => None,
    }
}

/// The argument `k` as a global name, or the error that it is not a symbol.
fn symbol_arg(mem: &mut Memory, args: &[GcRef], k: usize, source: &str) -> (r: Result<String, GcRef>)
    requires
        old(mem).wf(),
        k < args@.len(),
    ensures
        allocates(&*old(mem), &*final(mem)),
        r is Ok <==> key_of(&*old(mem), args@[k as int].ptr()) is Some,
        r matches Ok(s) ==> Some(s@) == key_of(&*old(mem), args@[k as int].ptr()) && *final(mem) == *old(mem),
        r matches Err(e) ==> is_type_error(&*final(mem), e.ptr(), source@, TypeLabel::Symbol, extended_type(&*old(mem), args@[k as int].ptr())),
{
    match symbol_key_of(mem, &args[k]) {
        Some(s) => {
            proof { mem.lemma_evolves_refl(); }
            Ok(s)
        },
        None => Err(type_error(mem, source, &args[k], TypeLabel::Symbol)),
    }
}


/// What `get_current_module` gives for `args`, from the heap `old` to the heap `new`.
pub open spec fn get_current_module_call_outcome(old: &Memory, new: &Memory, args: Seq<GcRef>, env: GcRef, recursion_depth: usize,
    r: Result<GcRef, GcRef>) -> bool
{
    &&& (allocates(old, new))
    &&& (args.len() != 0 ==> (r matches Err(e) && is_arity_error(new, e.ptr(), "get-current-module"@, 0, args.len() as usize)))
    &&& (args.len() == 0 ==> (r matches Ok(s) && is_symbol_named(new, s.ptr(), old.current().name@)))
}

/// The name of the current module, as a symbol.
pub fn get_current_module(mem: &mut Memory, args: &[GcRef], env: GcRef, recursion_depth: usize) -> (r: Result<GcRef, GcRef>)
    requires
        old(mem).wf(),
    ensures
        get_current_module_call_outcome(&*old(mem), &*final(mem), args@, env, recursion_depth, r),
{
    if args.len() != 0 {
        return Err(arity_error(mem, "get-current-module", 0, args.len()));
    }
    let name = mem.get_current_module();
    Ok(symbol(mem, name.as_str(), &[]))
}


/// What `whereis` gives for `args`, from the heap `old` to the heap `new`.
pub open spec fn whereis_call_outcome(old: &Memory, new: &Memory, args: Seq<GcRef>, env: GcRef, recursion_depth: usize,
    r: Result<GcRef, GcRef>) -> bool
{
    &&& (allocates(old, new))
    &&& (args.len() != 1 ==> (r matches Err(e) && is_arity_error(new, e.ptr(), "whereis"@, 1, args.len() as usize)))
    &&& (args.len() == 1 ==> match key_of(old, args[0].ptr()) {
                None => (r matches Err(e) && is_type_error(new, e.ptr(),
                    "whereis"@, TypeLabel::Symbol, extended_type(old, args[0].ptr()))),
                Some(key) => (r matches Ok(l) && ({
                    let names = module_names(old.modules@.filter(|m: crate::memory::Module| m.lookup(key) is Some));
                    let e = list_elems(new, l.ptr())->0;
                    &&& list_elems(new, l.ptr()) is Some
                    &&& e.len() == names.len()
                    &&& forall|i: int| 0 <= i < e.len() ==> #[trigger] is_symbol_named(new, e[i], names[i])
                })),
            })
}

/// The modules in which `name` is bound, as a list of symbols.
pub fn whereis(mem: &mut Memory, args: &[GcRef], env: GcRef, recursion_depth: usize) -> (r: Result<GcRef, GcRef>)
    requires
        old(mem).wf(),
    ensures
        whereis_call_outcome(&*old(mem), &*final(mem), args@, env, recursion_depth, r),
{
    if args.len() != 1 {
        return Err(arity_error(mem, "whereis", 1, args.len()));
    }
    let key = match symbol_arg(mem, args, 0, "whereis") {
        Ok(k) => k,
        Err(e) => { return Err(e); },
    };
    let ghost m0 = *mem;
    let names = mem.get_module_of_global(key.as_str());
    let ghost want = texts(names@);
    let mut syms: Vec<GcRef> = Vec::new();
    let mut i: usize = 0;
    proof { m0.lemma_evolves_refl(); }
    while i < names.len()
        invariant
            m0.wf(),
            allocates(&m0, &*mem),
            want == texts(names@),
            i <= names@.len(),
            syms@.len() == i,
            forall|q: int| 0 <= q < i ==> #[trigger] is_symbol_named(&*mem, syms@[q].ptr(), want[q]) && mem.live(syms@[q].ptr()),
        decreases names@.len() - i,
    {
        let ghost m1 = *mem;
        let s = symbol(mem, names[i].as_str(), syms.as_slice());
        proof {
            lemma_allocates_trans(&m0, &m1, &*mem);
            assert forall|q: int| 0 <= q < i implies #[trigger] is_symbol_named(&*mem, syms@[q].ptr(), want[q]) && mem.live(syms@[q].ptr()) by {
                assert(is_symbol_named(&m1, syms@[q].ptr(), want[q]));
                assert(m1.keeps(&*mem, syms@[q].ptr()));
                m1.lemma_value_unchanged(&*mem, syms@[q].ptr());
            }
        }
        syms.push(s);
        i = i + 1;
    }
    let ghost m2 = *mem;
    let l = vec_to_list(mem, syms.as_slice());
    proof {
        lemma_allocates_trans(&m0, &m2, &*mem);
        assert(sanitized(&m2, syms@) =~= ptrs(syms@)) by {
            assert forall|q: int| 0 <= q < syms@.len() implies sanitized(&m2, syms@)[q] == ptrs(syms@)[q] by {
                assert(is_symbol_named(&m2, syms@[q].ptr(), want[q]));
                assert(m2.live(syms@[q].ptr()));
            }
        }
        let e = list_elems(&*mem, l.ptr())->0;
        assert forall|q: int| 0 <= q < e.len() implies #[trigger] is_symbol_named(&*mem, e[q], want[q]) by {
            assert(e[q] == syms@[q].ptr());
            assert(is_symbol_named(&m2, syms@[q].ptr(), want[q]));
            assert(m2.keeps(&*mem, syms@[q].ptr()));
            m2.lemma_value_unchanged(&*mem, syms@[q].ptr());
        }
    }
    Ok(l)
}


/// `new` is `old` with the current module changed only in what `name` is bound to, the heap
/// evolving.
pub open spec fn rebinds(old: &Memory, new: &Memory, name: Seq<char>) -> bool {
    &&& old.evolves(new)
    &&& new.current_module == old.current_module
    &&& new.modules@ == old.modules@.update(old.current_module as int, new.current())
    &&& new.current().name == old.current().name
    &&& new.current().exports == old.current().exports
    &&& forall|n: Seq<char>| n != name ==> #[trigger] new.current().lookup(n) == old.current().lookup(n)
}


/// What `define` gives for `args`, from the heap `old` to the heap `new`.
pub open spec fn define_call_outcome(old: &Memory, new: &Memory, args: Seq<GcRef>, env: GcRef, recursion_depth: usize,
    r: Result<GcRef, GcRef>) -> bool
{
    &&& (new.wf())
    &&& (old.evolves(new))
    &&& (args.len() != 3 ==> (r matches Err(e) && is_arity_error(new, e.ptr(), "define"@, 3, args.len() as usize)))
    &&& (args.len() == 3 ==> match key_of(old, args[0].ptr()) {
                None => (r matches Err(e) && is_type_error(new, e.ptr(), "define"@, TypeLabel::Symbol, extended_type(old, args[0].ptr()))),
                Some(key) => match string_of(old, args[2].ptr()) {
                    None => (r matches Err(e) && is_type_error(new, e.ptr(), "define"@, TypeLabel::String, extended_type(old, args[2].ptr()))),
                    Some(doc) => if old.current().lookup(key) is Some {
                        r matches Err(e) && is_symbol_named(new, e.ptr(), "already-defined"@)
                    } else {
                        &&& (r matches Ok(v) && is_symbol_named(new, v.ptr(), "ok"@))
                        &&& rebinds(old, new, key)
                        &&& new.current().lookup(key) matches Some(p) && new.value_of(p) == old.value_of(args[1].ptr())
                        &&& (old.meta_of(args[0].ptr()) matches Some(md) ==> (new.current().lookup(key) matches Some(p)
                            && new.meta_of(p) matches Some(md2) && md2.documentation@ == doc
                            && md2.read_name == md.read_name && md2.location == md.location))
                        &&& (old.meta_of(args[0].ptr()) is None ==> new.current().lookup(key)
                            == Some(if old.live(args[1].ptr()) { args[1].ptr() } else { None }))
                    },
                },
            })
}

/// Defines `name` as a global of the current module, bound to `value`; where the symbol `name`
/// carries metadata, the value gets that metadata with `documentation` as its documentation.
/// An error where the name is already defined.
pub fn define(mem: &mut Memory, args: &[GcRef], env: GcRef, recursion_depth: usize) -> (r: Result<GcRef, GcRef>)
    requires
        old(mem).wf(),
    ensures
        define_call_outcome(&*old(mem), &*final(mem), args@, env, recursion_depth, r),
{
    let ghost m0 = *mem;
    if args.len() != 3 {
        let e = arity_error(mem, "define", 3, args.len());
        return Err(e);
    }
    let key = match symbol_arg(mem, args, 0, "define") {
        Ok(k) => k,
        Err(e) => { return Err(e); },
    };
    let doc = match list_to_string(mem, args[2].clone()) {
        Some(d) => d,
        None => { return Err(type_error(mem, "define", &args[2], TypeLabel::String)); },
    };
    if mem.is_global_defined(key.as_str()) {
        return Err(symbol(mem, "already-defined", &[]));
    }
    let new_md = match args[0].get_meta(mem) {
        Some(meta) => Some(Metadata { read_name: meta.read_name.clone(), location: copy_location(&meta.location), documentation: doc }),
        None => None,
    };
    let x = match new_md {
        Some(md) => mem.allocate_metadata(args[1].clone(), md),
        None => {
            proof { m0.lemma_evolves_refl(); }
            mem.make_ref(mem.live_ptr(args[1].pointer))
        },
    };
    let ghost m1 = *mem;
    proof {
        if new_md is Some {
            m0.lemma_allocated_evolves(&m1, x.ptr()->0);
        }
        assert(m1.live(x.ptr()));
        assert(m1.value_of(x.ptr()) == m0.value_of(args@[1].ptr()));
    }
    mem.define_global(key.as_str(), x.clone());
    let ghost m2 = *mem;
    proof {
        m1.lemma_same_heap(&m2);
        assert(m1.evolves(&m2));
        m0.lemma_evolves_trans(&m1, &m2);
    }
    let ok = symbol(mem, "ok", &[x.clone()]);
    proof {
        assert(m2.keeps(&*mem, x.ptr()));
        m2.lemma_value_unchanged(&*mem, x.ptr());
        m0.lemma_evolves_trans(&m2, &*mem);
        assert forall|n: Seq<char>| n != key@ implies #[trigger] mem.current().lookup(n) == m0.current().lookup(n) by {
            assert(m2.current().lookup(n) == m1.current().lookup(n));
        }
    }
    Ok(ok)
}


/// What `undefine` gives for `args`, from the heap `old` to the heap `new`.
pub open spec fn undefine_call_outcome(old: &Memory, new: &Memory, args: Seq<GcRef>, env: GcRef, recursion_depth: usize,
    r: Result<GcRef, GcRef>) -> bool
{
    &&& (new.wf())
    &&& (old.evolves(new))
    &&& (args.len() != 1 ==> (r matches Err(e) && is_arity_error(new, e.ptr(), "undefine"@, 1, args.len() as usize)))
    &&& (args.len() == 1 ==> match key_of(old, args[0].ptr()) {
                None => (r matches Err(e) && is_type_error(new, e.ptr(), "undefine"@, TypeLabel::Symbol, extended_type(old, args[0].ptr()))),
                Some(key) => {
                    &&& (r matches Ok(v) && is_symbol_named(new, v.ptr(), "ok"@))
                    &&& rebinds(old, new, key)
                    &&& new.current().lookup(key) is None
                },
            })
}

/// Removes the global `name` of the current module, if it is defined.
pub fn undefine(mem: &mut Memory, args: &[GcRef], env: GcRef, recursion_depth: usize) -> (r: Result<GcRef, GcRef>)
    requires
        old(mem).wf(),
    ensures
        undefine_call_outcome(&*old(mem), &*final(mem), args@, env, recursion_depth, r),
{
    let ghost m0 = *mem;
    if args.len() != 1 {
        let e = arity_error(mem, "undefine", 1, args.len());
        return Err(e);
    }
    let key = match symbol_arg(mem, args, 0, "undefine") {
        Ok(k) => k,
        Err(e) => { return Err(e); },
    };
    mem.undefine_global(key.as_str());
    let ghost m1 = *mem;
    proof {
        m0.lemma_same_heap(&m1);
        assert(m0.evolves(&m1));
    }
    let ok = symbol(mem, "ok", &[]);
    proof { m0.lemma_evolves_trans(&m1, &*mem); }
    Ok(ok)
}

/// The error for an element of `export`'s list that is not a symbol.
fn export_error(mem: &mut Memory, x: &GcRef) -> (r: GcRef)
    requires
        old(mem).wf(),
        old(mem).live(x.ptr()),
    ensures
        allocates(&*old(mem), &*final(mem)),
        ({
            let l = list_elems(&*final(mem), r.ptr())->0;
            &&& is_error(&*final(mem), r.ptr(), "wrong-argument-type"@, "export"@, seq!["expected"@, "actual"@, "symbol"@], seq![l[5], l[7], x.ptr()])
            &&& is_symbol_named(&*final(mem), l[5], "symbol-type"@)
            &&& is_symbol_named(&*final(mem), l[7], crate::memory::type_label_name(type_label_of(old(mem).value_of(x.ptr()))))
        }),
{
    let ghost m0 = *mem;
    let t = x.get_type(mem);
    let expected = symbol(mem, "symbol-type", &[x.clone()]);
    let ghost m1 = *mem;
    let actual = symbol(mem, t.to_string(), &[x.clone(), expected.clone()]);
    let ghost m2 = *mem;
    proof {
        assert(m0.keeps(&m1, x.ptr()));
        assert(m1.keeps(&m2, x.ptr()));
        assert(m1.keeps(&m2, expected.ptr()));
        m0.lemma_unchanged_trans(&m1, &m2, x.ptr());
        m1.lemma_value_unchanged(&m2, expected.ptr());
        lemma_allocates_trans(&m0, &m1, &m2);
    }
    let details = [("expected", expected), ("actual", actual), ("symbol", x.clone())];
    let ghost dd = details@;
    let r = make_error(mem, "wrong-argument-type", "export", &details);
    proof {
        let dv = kv_values(dd);
        assert(dv[0] == dd[0].1);
        assert(dv[1] == dd[1].1);
        assert(dv[2] == dd[2].1);
        assert(m2.keeps(&*mem, dv[0].ptr()));
        assert(m2.keeps(&*mem, dv[1].ptr()));
        m2.lemma_value_unchanged(&*mem, dd[0].1.ptr());
        m2.lemma_value_unchanged(&*mem, dd[1].1.ptr());
        lemma_allocates_trans(&m0, &m2, &*mem);
        assert(kv_keys(dd) =~= seq!["expected"@, "actual"@, "symbol"@]);
        assert(sanitized(&m2, dv) =~= seq![dd[0].1.ptr(), dd[1].1.ptr(), x.ptr()]);
        let l = list_elems(&*mem, r.ptr())->0;
        let vals = seq![l[1], l[3]] + sanitized(&m2, dv);
        assert(l[2 * 2int + 1] == vals[2]);
        assert(l[2 * 3int + 1] == vals[3]);
    }
    r
}


/// What `export` gives for `args`, from the heap `old` to the heap `new`.
pub open spec fn export_call_outcome(old: &Memory, new: &Memory, args: Seq<GcRef>, env: GcRef, recursion_depth: usize,
    r: Result<GcRef, GcRef>) -> bool
{
    &&& (new.wf())
    &&& (old.evolves(new))
    &&& (new.current_module == old.current_module)
    &&& (new.current().name == old.current().name)
    &&& (args.len() != 1 ==> (r matches Err(e) && is_arity_error(new, e.ptr(), "export"@, 1, args.len() as usize)))
    &&& (args.len() == 1 ==> match list_elems(old, args[0].ptr()) {
                None => (r matches Err(e) && is_type_error(new, e.ptr(), "export"@, TypeLabel::List, extended_type(old, args[0].ptr()))),
                Some(names) => if forall|i: int| 0 <= i < names.len() ==> #[trigger] key_of(old, names[i]) is Some {
                    &&& (r matches Ok(v) && is_symbol_named(new, v.ptr(), "ok"@))
                    &&& forall|i: int| 0 <= i < names.len() ==> new.current().exports_name(#[trigger] key_of(old, names[i])->0)
                } else {
                    r matches Err(e) && exists|j: int| 0 <= j < names.len() && #[trigger] key_of(old, names[j]) is None && ({
                        let l = list_elems(new, e.ptr())->0;
                        &&& is_error(new, e.ptr(), "wrong-argument-type"@, "export"@, seq!["expected"@, "actual"@, "symbol"@], seq![l[5], l[7], names[j]])
                        &&& is_symbol_named(new, l[5], "symbol-type"@)
                        &&& is_symbol_named(new, l[7], crate::memory::type_label_name(type_label_of(old.value_of(names[j]))))
                    })
                },
            })
}

/// Marks the names of the list `names` as exported from the current module. An error at the
/// first element that is not a symbol; the names before it stay exported.
pub fn export(mem: &mut Memory, args: &[GcRef], env: GcRef, recursion_depth: usize) -> (r: Result<GcRef, GcRef>)
    requires
        old(mem).wf(),
    ensures
        export_call_outcome(&*old(mem), &*final(mem), args@, env, recursion_depth, r),
{
    let ghost m0 = *mem;
    if args.len() != 1 {
        let e = arity_error(mem, "export", 1, args.len());
        return Err(e);
    }
    let names = match list_to_vec(mem, args[0].clone()) {
        Some(v) => v,
        None => { return Err(type_error(mem, "export", &args[0], TypeLabel::List)); },
    };
    let ghost e = ptrs(names@);
    proof {
        crate::util::lemma_elems_live(&m0, args@[0].ptr());
        assert(list_elems(&m0, args@[0].ptr()) == Some(e));
        assert forall|q: int| 0 <= q < e.len() implies m0.live(#[trigger] e[q]) by {
            assert(list_elems(&m0, args@[0].ptr())->0[q] == e[q]);
        }
    }
    let mut i: usize = 0;
    proof { m0.lemma_evolves_refl(); }
    while i < names.len()
        invariant
            m0.wf(),
            mem.wf(),
            *old(mem) == m0,
            args@.len() == 1,
            e == ptrs(names@),
            list_elems(&m0, args@[0].ptr()) == Some(e),
            forall|q: int| 0 <= q < e.len() ==> m0.live(#[trigger] e[q]),
            i <= names@.len(),
            mem.cells == m0.cells,
            m0.evolves(&*mem),
            mem.current_module == m0.current_module,
            mem.current().name == m0.current().name,
            forall|q: int| 0 <= q < i ==> #[trigger] key_of(&m0, e[q]) is Some,
            forall|q: int| 0 <= q < i ==> mem.current().exports_name(#[trigger] key_of(&m0, e[q])->0),
            i > 0 ==> mem.current().exports is Some,
        decreases names@.len() - i,
    {
        let ghost m1 = *mem;
        proof {
            assert(names@[i as int].ptr() == e[i as int]);
            assert(key_of(&*mem, e[i as int]) == key_of(&m0, e[i as int]));
        }
        match symbol_key_of(mem, &names[i]) {
            Some(k) => {
                mem.add_export(k.as_str());
                proof {
                    m1.lemma_same_heap(&*mem);
                    assert(m1.evolves(&*mem));
                    m0.lemma_evolves_trans(&m1, &*mem);
                    assert forall|q: int| 0 <= q < i + 1 implies mem.current().exports_name(#[trigger] key_of(&m0, e[q])->0) by {
                        if q < i {
                            assert(m1.current().exports_name(key_of(&m0, e[q])->0));
                        }
                    }
                }
            },
            None => {
                proof {
                    assert(m0.value_of(e[i as int]) == mem.value_of(e[i as int]));
                    assert(mem.live(e[i as int]));
                }
                let err = export_error(mem, &names[i]);
                proof {
                    m0.lemma_evolves_trans(&m1, &*mem);
                    assert(key_of(&m0, e[i as int]) is None);
                }
                return Err(err);
            },
        }
        i = i + 1;
    }
    let ghost m2 = *mem;
    let ok = symbol(mem, "ok", &[]);
    proof {
        m0.lemma_evolves_trans(&m2, &*mem);
    }
    Ok(ok)
}


/// The error `unbound-symbol` (or another `kind`) from `source` with one detail.
fn detail_error(mem: &mut Memory, kind: &str, source: &str, key: &str, x: &GcRef) -> (r: GcRef)
    requires
        old(mem).wf(),
    ensures
        allocates(&*old(mem), &*final(mem)),
        is_error(&*final(mem), r.ptr(), kind@, source@, seq![key@], seq![if old(mem).live(x.ptr()) { x.ptr() } else { None }]),
{
    let details = [(key, x.clone())];
    let ghost dd = details@;
    let ghost m0 = *mem;
    let r = make_error(mem, kind, source, &details);
    proof {
        assert(kv_keys(dd) =~= seq![key@]);
        assert(sanitized(&m0, kv_values(dd)) =~= seq![if m0.live(x.ptr()) { x.ptr() } else { None }]);
    }
    r
}


/// What `from_module` gives for `args`, from the heap `old` to the heap `new`.
pub open spec fn from_module_call_outcome(old: &Memory, new: &Memory, args: Seq<GcRef>, env: GcRef, recursion_depth: usize,
    r: Result<GcRef, GcRef>) -> bool
{
    &&& (allocates(old, new))
    &&& (args.len() != 2 ==> (r matches Err(e) && is_arity_error(new, e.ptr(), "from-module"@, 2, args.len() as usize)))
    &&& (args.len() == 2 ==> match (key_of(old, args[0].ptr()), key_of(old, args[1].ptr())) {
                (Some(name), Some(module)) => match old.module_index(module) {
                    None => (r matches Err(e) && is_error(new, e.ptr(), "no-such-module"@, "from-module"@,
                        seq!["module"@], seq![sanitized(old, args)[1]])),
                    Some(k) => if old.modules@[k].exports_name(name) && old.modules@[k].lookup(name) is Some {
                        *new == *old && (r matches Ok(v) && Some(v.ptr()) == old.modules@[k].lookup(name))
                    } else {
                        r matches Err(e) && is_error(new, e.ptr(), "unbound-symbol"@, "from-module"@,
                            seq!["symbol"@], seq![sanitized(old, args)[0]])
                    },
                },
                (None, _) => (r matches Err(e) && is_type_error(new, e.ptr(), "from-module"@, TypeLabel::Symbol, extended_type(old, args[0].ptr()))),
                (Some(_), None) => (r matches Err(e) && is_type_error(new, e.ptr(), "from-module"@, TypeLabel::Symbol, extended_type(old, args[1].ptr()))),
            })
}

/// The value of `name` in the module `module`, where it is exported.
pub fn from_module(mem: &mut Memory, args: &[GcRef], env: GcRef, recursion_depth: usize) -> (r: Result<GcRef, GcRef>)
    requires
        old(mem).wf(),
    ensures
        from_module_call_outcome(&*old(mem), &*final(mem), args@, env, recursion_depth, r),
{
    if args.len() != 2 {
        return Err(arity_error(mem, "from-module", 2, args.len()));
    }
    let name = match symbol_arg(mem, args, 0, "from-module") {
        Ok(k) => k,
        Err(e) => { return Err(e); },
    };
    let module = match symbol_arg(mem, args, 1, "from-module") {
        Ok(k) => k,
        Err(e) => { return Err(e); },
    };
    match mem.get_global_from_module(name.as_str(), module.as_str()) {
        Ok(x) => {
            proof { mem.lemma_evolves_refl(); }
            Ok(x)
        },
        Err(ModulError::ModuleNonExistent) => Err(detail_error(mem, "no-such-module", "from-module", "module", &args[1])),
        Err(_) => Err(detail_error(mem, "unbound-symbol", "from-module", "symbol", &args[0])),
    }
}


/// What `with_current_module` gives for `args`, from the heap `old` to the heap `new`.
pub open spec fn with_current_module_call_outcome(old: &Memory, new: &Memory, args: Seq<GcRef>, env: GcRef, recursion_depth: usize,
    r: Result<GcRef, GcRef>) -> bool
{
    &&& (allocates(old, new))
    &&& (args.len() != 2 ==> (r matches Err(e) && is_arity_error(new, e.ptr(), "with-current-module"@, 2, args.len() as usize)))
    &&& (args.len() == 2 ==> match (key_of(old, args[0].ptr()), key_of(old, args[1].ptr())) {
                (Some(name), Some(module)) => {
                    let vis = visible_modules(old.modules@, name, module);
                    if vis.len() == 1 {
                        *new == *old && (r matches Ok(v) && Some(v.ptr()) == vis[0].lookup(name))
                    } else {
                        r matches Err(e) && is_error(new, e.ptr(), "unbound-symbol"@, "with-current-module"@,
                            seq!["symbol"@], seq![sanitized(old, args)[0]])
                    }
                },
                (None, _) => (r matches Err(e) && is_type_error(new, e.ptr(), "with-current-module"@, TypeLabel::Symbol, extended_type(old, args[0].ptr()))),
                (Some(_), None) => (r matches Err(e) && is_type_error(new, e.ptr(), "with-current-module"@, TypeLabel::Symbol, extended_type(old, args[1].ptr()))),
            })
}

/// The value of `name` as seen from the module `module`: its own definitions, private ones
/// too, and the exported definitions of the other modules.
pub fn with_current_module(mem: &mut Memory, args: &[GcRef], env: GcRef, recursion_depth: usize) -> (r: Result<GcRef, GcRef>)
    requires
        old(mem).wf(),
    ensures
        with_current_module_call_outcome(&*old(mem), &*final(mem), args@, env, recursion_depth, r),
{
    if args.len() != 2 {
        return Err(arity_error(mem, "with-current-module", 2, args.len()));
    }
    let name = match symbol_arg(mem, args, 0, "with-current-module") {
        Ok(k) => k,
        Err(e) => { return Err(e); },
    };
    let module = match symbol_arg(mem, args, 1, "with-current-module") {
        Ok(k) => k,
        Err(e) => { return Err(e); },
    };
    match mem.get_global(name.as_str(), module.as_str()) {
        Ok(x) => {
            proof { mem.lemma_evolves_refl(); }
            Ok(x)
        },
        Err(_) => Err(detail_error(mem, "unbound-symbol", "with-current-module", "symbol", &args[0])),
    }
}
} // verus!
