//! Looking into values: their types, the bodies of functions, their metadata.

use vstd::prelude::*;
use crate::memory::{Memory, GcRef, PrimitiveValue, TypeLabel, Function, FunctionKind, ConsCell};
use crate::util::{allocates, is_symbol_named, sanitized, symbol, cons_cell, list_elems, string_of, symbols_named,
    symbol_list, keeps_all, ptrs, with_extra, lemma_allocates_trans, lemma_keeps_sub, lemma_keeps_all_trans,
    string_to_list_keeping, string_to_proper_list_keeping, number};
use crate::memory::{MetaValue, kind_name};
use crate::metadata::{Metadata, Location};
use crate::native::read::names_source;
use crate::native::globals::{key_of, symbol_key_of};
use crate::native::list::{is_plist, kv_keys, kv_values, make_plist_keeping};
use crate::modules::texts;
use crate::access::param_names;
use crate::error_utils::{arity_error, type_error, is_arity_error, is_type_error, extended_type, type_of_name, type_of_str};

verus! {


/// What `type_of` gives for `args`, from the heap `old` to the heap `new`.
pub open spec fn type_of_call_outcome(old: &Memory, new: &Memory, args: Seq<GcRef>, env: GcRef, recursion_depth: usize,
    r: Result<GcRef, GcRef>) -> bool
{
    &&& (allocates(old, new))
    &&& (args.len() != 1 ==> (r matches Err(e) && is_arity_error(new, e.ptr(), "type-of"@, 1, args.len() as usize)))
    &&& (args.len() == 1 ==> (r matches Ok(s) && is_symbol_named(new, s.ptr(), type_of_name(old, args[0].ptr()))))
}

/// The symbol that names the type of `object`: `number-type`, `string-type`, `lambda-type` ...
pub fn type_of(mem: &mut Memory, args: &[GcRef], env: GcRef, recursion_depth: usize) -> (r: Result<GcRef, GcRef>)
    requires
        old(mem).wf(),
    ensures
        type_of_call_outcome(&*old(mem), &*final(mem), args@, env, recursion_depth, r),
{
    if args.len() != 1 {
        return Err(arity_error(mem, "type-of", 1, args.len()));
    }
    let t = type_of_str(mem, &args[0]);
    Ok(symbol(mem, t, &[]))
}


/// What `get_body` gives for `args`, from the heap `old` to the heap `new`.
pub open spec fn get_body_call_outcome(old: &Memory, new: &Memory, args: Seq<GcRef>, env: GcRef, recursion_depth: usize,
    r: Result<GcRef, GcRef>) -> bool
{
    &&& (allocates(old, new))
    &&& (args.len() != 1 ==> (r matches Err(e) && is_arity_error(new, e.ptr(), "get-body"@, 1, args.len() as usize)))
    &&& (args.len() == 1 ==> match old.value_of(args[0].ptr()) {
                Some(PrimitiveValue::Function(Function::NormalFunction(f))) => (r matches Ok(l)
                    && new.value_of(l.ptr()) == Some(PrimitiveValue::Cons(ConsCell { car: f.body, cdr: None }))),
                Some(PrimitiveValue::Function(Function::NativeFunction(_))) => (r matches Ok(l) && l.ptr() is None),
                _ => (r matches Err(e) && is_type_error(new, e.ptr(), "get-body"@, TypeLabel::Function, extended_type(old, args[0].ptr()))),
            })
}

/// The list of the body of a function defined in Lisp; nil for a native function.
pub fn get_body(mem: &mut Memory, args: &[GcRef], env: GcRef, recursion_depth: usize) -> (r: Result<GcRef, GcRef>)
    requires
        old(mem).wf(),
    ensures
        get_body_call_outcome(&*old(mem), &*final(mem), args@, env, recursion_depth, r),
{
    if args.len() != 1 {
        return Err(arity_error(mem, "get-body", 1, args.len()));
    }
    let ghost m0 = *mem;
    let body = match args[0].get(mem) {
        Some(PrimitiveValue::Function(Function::NormalFunction(f))) => Some(f.body),
        Some(PrimitiveValue::Function(Function::NativeFunction(_))) => None,
        _ => { return Err(type_error(mem, "get-body", &args[0], TypeLabel::Function)); },
    };
    match body {
        Some(b) => {
            proof {
                let c = m0.value_cell(args@[0].ptr())->0;
                assert(m0.cell_wf(c));
                assert(crate::memory::children(m0.mv(c))[0] == b);
                assert(m0.older_than(crate::memory::children(m0.mv(c))[0], c));
            }
            let bref = mem.make_ref(b);
            Ok(cons_cell(mem, bref, GcRef::nil(), &[]))
        },
        None => {
            proof { m0.lemma_evolves_refl(); }
            Ok(GcRef::nil())
        },
    }
}

/// Marks a breakpoint; outside a debugger it gives back its argument.
pub fn break_point(mem: &mut Memory, args: &[GcRef], env: GcRef, recursion_depth: usize) -> (r: Result<GcRef, GcRef>)
    requires
        old(mem).wf(),
    ensures
        allocates(&*old(mem), &*final(mem)),
        args@.len() != 1 ==> (r matches Err(e) && is_arity_error(&*final(mem), e.ptr(), "break"@, 1, args@.len() as usize)),
        args@.len() == 1 ==> *final(mem) == *old(mem) && (r matches Ok(x) && x.ptr() == args@[0].ptr()),
{
    if args.len() != 1 {
        return Err(arity_error(mem, "break", 1, args.len()));
    }
    proof { mem.lemma_evolves_refl(); }
    Ok(args[0].clone())
}

/// What a value of a metadata property list says.
pub enum Fact {
    /// A string with this text.
    Text(Seq<char>),
    /// A symbol with this name.
    Named(Seq<char>),
    /// This number.
    Num(i64),
    /// A list of symbols with these names.
    Names(Seq<Seq<char>>),
    /// Where the location comes from: a symbol for the kinds of place, the path of a file.
    Source(Location),
}

/// `p` is what `f` says.
pub open spec fn holds(mem: &Memory, p: Option<usize>, f: Fact) -> bool {
    match f {
        Fact::Text(s) => string_of(mem, p) == Some(s),
        Fact::Named(n) => is_symbol_named(mem, p, n),
        Fact::Num(n) => mem.value_of(p) == Some(PrimitiveValue::Number(n)),
        Fact::Names(ns) => symbols_named(mem, p, ns),
        Fact::Source(loc) => names_source(mem, p, loc),
    }
}

/// What a pointer is stays what it is while its cell is unchanged.
pub proof fn lemma_holds_unchanged(old: &Memory, new: &Memory, p: Option<usize>, f: Fact)
    requires
        old.wf(),
        old.evolves(new),
        old.unchanged(new, p),
        holds(old, p, f),
    ensures
        holds(new, p, f),
{
    old.lemma_value_unchanged(new, p);
    crate::util::lemma_string_unchanged(old, new, p);
    if let Fact::Names(ns) = f {
        crate::util::lemma_list_unchanged(old, new, p);
        crate::util::lemma_elems_unchanged(old, new, p);
        let e = list_elems(old, p)->0;
        assert forall|i: int| 0 <= i < ns.len() implies #[trigger] is_symbol_named(new, list_elems(new, p)->0[i], ns[i]) by {
            assert(is_symbol_named(old, e[i], ns[i]));
            old.lemma_value_unchanged(new, e[i]);
        }
    }
}

/// The properties that `get-metadata` gives for `x`: for a function its kind and the names of its
/// parameters, then the documentation, where it was read from, and the line and the column where
/// the place has them.
pub open spec fn metadata_facts(mem: &Memory, x: Option<usize>) -> Seq<(Seq<char>, Fact)> {
    let md = mem.meta_of(x)->0;
    let function_part = match mem.value_of(x) {
        Some(PrimitiveValue::Function(f)) => seq![
            ("function-kind"@, Fact::Named(kind_name(match f {
                Function::NativeFunction(nf) => nf.kind,
                Function::NormalFunction(nf) => nf.kind,
            }))),
            ("parameters"@, Fact::Names(param_names(mem, f))),
        ],
        _ => Seq::empty(),
    };
    let place_part = match (md.location.line_of(), md.location.column_of()) {
        (Some(l), Some(c)) => seq![("line"@, Fact::Num(l as i64)), ("column"@, Fact::Num(c as i64))],
        _ => Seq::empty(),
    };
    function_part + seq![("documentation"@, Fact::Text(md.documentation@)), ("file"@, Fact::Source(md.location))] + place_part
}

/// `p` is the property list of the keys of `facts`, whose values are what `facts` says.
pub open spec fn described(mem: &Memory, p: Option<usize>, facts: Seq<(Seq<char>, Fact)>) -> bool {
    let e = list_elems(mem, p)->0;
    &&& is_plist(mem, p, facts.map_values(|f: (Seq<char>, Fact)| f.0), Seq::new(facts.len(), |k: int| e[2 * k + 1]))
    &&& forall|k: int| 0 <= k < facts.len() ==> #[trigger] holds(mem, e[2 * k + 1], facts[k].1)
}

/// The first `kv.len()` properties of `facts` have the keys of `kv`, and the values of `kv` are
/// live and are what the properties say.
pub open spec fn facts_hold(mem: &Memory, kv: Seq<(&str, GcRef)>, facts: Seq<(Seq<char>, Fact)>) -> bool {
    &&& kv.len() <= facts.len()
    &&& forall|q: int| 0 <= q < kv.len() ==> (#[trigger] kv[q]).0@ == facts[q].0 && holds(mem, kv[q].1.ptr(), facts[q].1)
            && mem.live(kv[q].1.ptr())
}

/// What the values of `kv` are survives a change that keeps the handles of `keep`, which are
/// the values of `kv`.
proof fn lemma_facts_kept(old: &Memory, new: &Memory, kv: Seq<(&str, GcRef)>, keep: Seq<GcRef>, facts: Seq<(Seq<char>, Fact)>)
    requires
        old.wf(),
        old.evolves(new),
        keeps_all(old, new, keep),
        keep.len() == kv.len(),
        forall|q: int| 0 <= q < kv.len() ==> #[trigger] keep[q].ptr() == kv[q].1.ptr(),
        facts_hold(old, kv, facts),
    ensures
        facts_hold(new, kv, facts),
{
    assert forall|q: int| 0 <= q < kv.len() implies (#[trigger] kv[q]).0@ == facts[q].0 && holds(new, kv[q].1.ptr(), facts[q].1)
        && new.live(kv[q].1.ptr()) by {
        assert(keep[q].ptr() == kv[q].1.ptr());
        assert(old.keeps(new, keep[q].ptr()));
        lemma_holds_unchanged(old, new, kv[q].1.ptr(), facts[q].1);
    }
}


/// What `get_metadata` gives for `args`, from the heap `old` to the heap `new`.
pub open spec fn get_metadata_call_outcome(old: &Memory, new: &Memory, args: Seq<GcRef>, env: GcRef, recursion_depth: usize,
    r: Result<GcRef, GcRef>) -> bool
{
    &&& (allocates(old, new))
    &&& (args.len() != 1 ==> (r matches Err(e) && is_arity_error(new, e.ptr(), "get-metadata"@, 1, args.len() as usize)))
    &&& (args.len() == 1 && old.meta_of(args[0].ptr()) is None ==> *new == *old && (r matches Ok(x) && x.ptr() is None))
    &&& (args.len() == 1 && old.meta_of(args[0].ptr()) is Some ==>
                (r matches Ok(p) && described(new, p.ptr(), metadata_facts(old, args[0].ptr()))))
}

/// The metadata of `object` as a property list; nil where it has none.
#[verifier::rlimit(40)]
pub fn get_metadata(mem: &mut Memory, args: &[GcRef], env: GcRef, recursion_depth: usize) -> (r: Result<GcRef, GcRef>)
    requires
        old(mem).wf(),
    ensures
        get_metadata_call_outcome(&*old(mem), &*final(mem), args@, env, recursion_depth, r),
{
    let ghost m0 = *mem;
    if args.len() != 1 {
        return Err(arity_error(mem, "get-metadata", 1, args.len()));
    }
    let md = match args[0].get_meta(mem) {
        Some(md) => Metadata {
            read_name: md.read_name.clone(),
            location: crate::native::read::copy_location(&md.location),
            documentation: md.documentation.clone(),
        },
        None => {
            proof { m0.lemma_evolves_refl(); }
            return Ok(GcRef::nil());
        },
    };
    let ghost facts = metadata_facts(&m0, args@[0].ptr());
    let mut kv: Vec<(&str, GcRef)> = Vec::new();
    proof { m0.lemma_evolves_refl(); }
    let (kind, names) = match args[0].get(mem) {
        Some(PrimitiveValue::Function(f)) => (Some(f.get_kind()), f.get_param_names(mem)),
        _ => (None, Vec::new()),
    };
    proof {
        if kind is Some {
            assert(texts(names@) =~= names@.map_values(|s: String| s@));
        }
    }
    let ghost fn_count: int = if kind is Some { 2 } else { 0 };
    proof {
        assert(facts_hold(&m0, kv@, facts));
        assert(kind is Some <==> m0.value_of(args@[0].ptr()) matches Some(PrimitiveValue::Function(_)));
    }
    if let Some(k) = kind {
        let ghost m1 = *mem;
        let ks = symbol(mem, k.to_string(), &[]);
        kv.push(("function-kind", ks));
        let ghost m2 = *mem;
        proof {
            assert(facts[0].1 == Fact::Named(kind_name(k)));
            assert(facts_hold(&m2, kv@, facts));
        }
        let keep = values_of(&kv);
        let pl = symbol_list(mem, &names, keep.as_slice());
        let ghost m3 = *mem;
        proof {
            lemma_facts_kept(&m2, &m3, kv@, keep@, facts);
            lemma_allocates_trans(&m0, &m1, &m2);
            lemma_allocates_trans(&m0, &m2, &m3);
        }
        kv.push(("parameters", pl));
        proof {
            assert(facts[1].1 == Fact::Names(texts(names@)));
            assert(facts_hold(&m3, kv@, facts));
        }
    }
    let ghost m4 = *mem;
    proof {
        assert(kv@.len() == fn_count);
        assert(facts_hold(&m4, kv@, facts));
        assert(md == m0.meta_of(args@[0].ptr())->0);
    }
    let keep = values_of(&kv);
    let doc = string_to_list_keeping(mem, md.documentation.as_str(), keep.as_slice());
    let ghost m5 = *mem;
    proof {
        lemma_facts_kept(&m4, &m5, kv@, keep@, facts);
        lemma_allocates_trans(&m0, &m4, &m5);
    }
    kv.push(("documentation", doc));
    proof {
        assert(facts[fn_count].1 == Fact::Text(md.documentation@));
        assert(facts[fn_count].0 == "documentation"@);
        assert(facts_hold(&m5, kv@, facts));
    }
    let keep = values_of(&kv);
    let file = match &md.location {
        Location::Native => symbol(mem, "native", keep.as_slice()),
        Location::Prelude { .. } => symbol(mem, "prelude", keep.as_slice()),
        Location::Stdin { .. } => symbol(mem, "stdin", keep.as_slice()),
        Location::File { path, .. } => string_to_proper_list_keeping(mem, path.as_str(), keep.as_slice()),
    };
    let ghost m6 = *mem;
    proof {
        lemma_facts_kept(&m5, &m6, kv@, keep@, facts);
        lemma_allocates_trans(&m0, &m5, &m6);
    }
    kv.push(("file", file));
    proof {
        assert(facts[fn_count + 1].1 == Fact::Source(md.location));
        assert(facts[fn_count + 1].0 == "file"@);
        assert(facts_hold(&m6, kv@, facts));
    }
    let place = match &md.location {
        Location::Native => None,
        Location::Prelude { line, column } => Some((*line, *column)),
        Location::Stdin { line, column } => Some((*line, *column)),
        Location::File { line, column, .. } => Some((*line, *column)),
    };
    if let Some((line, column)) = place {
        let ghost m7 = *mem;
        let keep = values_of(&kv);
        let ln = number(mem, line as i64, keep.as_slice());
        let ghost m8 = *mem;
        proof {
            lemma_facts_kept(&m7, &m8, kv@, keep@, facts);
            lemma_allocates_trans(&m0, &m7, &m8);
        }
        kv.push(("line", ln));
        proof {
            assert(facts[fn_count + 2] == ("line"@, Fact::Num(line as i64)));
            assert(facts_hold(&m8, kv@, facts));
        }
        let keep = values_of(&kv);
        let cn = number(mem, column as i64, keep.as_slice());
        let ghost m9 = *mem;
        proof {
            lemma_facts_kept(&m8, &m9, kv@, keep@, facts);
            lemma_allocates_trans(&m0, &m8, &m9);
        }
        kv.push(("column", cn));
        proof {
            assert(facts[fn_count + 3] == ("column"@, Fact::Num(column as i64)));
            assert(facts_hold(&m9, kv@, facts));
        }
    }
    let ghost m10 = *mem;
    proof {
        assert(kv@.len() == facts.len());
    }
    let r = make_plist_keeping(mem, kv.as_slice(), &[]);
    proof {
        let m11 = *mem;
        let vals = kv_values(kv@);
        lemma_facts_kept(&m10, &m11, kv@, vals, facts);
        lemma_allocates_trans(&m0, &m10, &m11);
        assert(sanitized(&m10, vals) =~= ptrs(vals)) by {
            assert forall|q: int| 0 <= q < vals.len() implies sanitized(&m10, vals)[q] == ptrs(vals)[q] by {
                assert(vals[q] == kv@[q].1);
                assert(m10.live(kv@[q].1.ptr()));
            }
        }
        let e = list_elems(&m11, r.ptr())->0;
        assert(kv_keys(kv@) =~= facts.map_values(|f: (Seq<char>, Fact)| f.0));
        assert(ptrs(vals) =~= Seq::new(facts.len(), |k: int| e[2 * k + 1]));
        assert forall|k: int| 0 <= k < facts.len() implies #[trigger] holds(&m11, e[2 * k + 1], facts[k].1) by {
            assert(e[2 * k + 1] == ptrs(vals)[k]);
            assert(vals[k] == kv@[k].1);
        }
    }
    Ok(r)
}

/// The values of `kv`.
fn values_of(kv: &Vec<(&str, GcRef)>) -> (r: Vec<GcRef>)
    ensures
        r@.len() == kv@.len(),
        forall|q: int| 0 <= q < kv@.len() ==> #[trigger] r@[q].ptr() == kv@[q].1.ptr(),
{
    let mut r: Vec<GcRef> = Vec::new();
    let mut k: usize = 0;
    while k < kv.len()
        invariant
            k <= kv@.len(),
            r@.len() == k,
            forall|q: int| 0 <= q < k ==> #[trigger] r@[q].ptr() == kv@[q].1.ptr(),
        decreases kv@.len() - k,
    {
        r.push(kv[k].1.clone());
        k = k + 1;
    }
    r
}

} // verus!
