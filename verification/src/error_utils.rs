//! Error values: property lists that say what went wrong and where.

use vstd::prelude::*;
use crate::memory::{Memory, GcRef, PrimitiveValue, TypeLabel, Function, FunctionKind, type_label_of, type_label_name};
use crate::util::{
    allocates, keeps_all, is_symbol_named, list_elems, sanitized, ptrs, symbol, number, sanitize,
    with_extra, lemma_allocates_trans, lemma_keeps_sub, lemma_sanitized_kept, lemma_keeps_all_trans,
    string_of, list_to_string, list_to_vec,
};
use crate::native::list::{is_plist, kv_keys, kv_values, make_plist_keeping};

verus! {

/// `p` is the error `(kind K source S k1 v1 ...)`, with `K` and `S` the symbols called `kind`
/// and `source` and the details `dkeys`, `dvals`.
pub open spec fn is_error(mem: &Memory, p: Option<usize>, kind: Seq<char>, source: Seq<char>,
    dkeys: Seq<Seq<char>>, dvals: Seq<Option<usize>>) -> bool
{
    let e = list_elems(mem, p)->0;
    &&& list_elems(mem, p) is Some
    &&& e.len() >= 4
    &&& is_symbol_named(mem, e[1], kind)
    &&& is_symbol_named(mem, e[3], source)
    &&& is_plist(mem, p, seq!["kind"@, "source"@] + dkeys, seq![e[1], e[3]] + dvals)
}

/// The error `(kind K source S k1 v1 ...)` with the details `details`. Detail values that are
/// not live become nil.
pub fn make_error(mem: &mut Memory, kind: &str, source: &str, details: &[(&str, GcRef)]) -> (r: GcRef)
    requires
        old(mem).wf(),
    ensures
        allocates(&*old(mem), &*final(mem)),
        keeps_all(&*old(mem), &*final(mem), kv_values(details@)),
        is_error(&*final(mem), r.ptr(), kind@, source@, kv_keys(details@), sanitized(&*old(mem), kv_values(details@))),
        final(mem).live(r.ptr()),
{
    let ghost m0 = *mem;
    let ghost dv = kv_values(details@);
    let mut raw: Vec<GcRef> = Vec::new();
    let mut k: usize = 0;
    while k < details.len()
        invariant
            k <= details@.len(),
            raw@.len() == k,
            dv == kv_values(details@),
            forall|q: int| 0 <= q < k ==> #[trigger] raw@[q].ptr() == dv[q].ptr(),
        decreases details@.len() - k,
    {
        raw.push(details[k].1.clone());
        k = k + 1;
    }
    let vals = sanitize(mem, raw.as_slice());
    proof {
        assert(sanitized(&m0, raw@) =~= sanitized(&m0, dv));
    }
    let ks = symbol(mem, kind, vals.as_slice());
    let ghost m1 = *mem;
    proof { lemma_sanitized_kept(&m0, &m1, vals@); }
    let keep2 = with_extra(vals.as_slice(), &[ks.clone()]);
    let ss = symbol(mem, source, keep2.as_slice());
    let ghost m2 = *mem;
    proof {
        lemma_allocates_trans(&m0, &m1, &m2);
        lemma_keeps_sub(&m1, &m2, vals@, keep2@, 0);
        assert(keep2@[0 + vals@.len() as int].ptr() == ks.ptr());
        assert(m1.keeps(&m2, keep2@[vals@.len() as int].ptr()));
        lemma_sanitized_kept(&m1, &m2, vals@);
        lemma_keeps_all_trans(&m0, &m1, &m2, vals@);
        m1.lemma_value_unchanged(&m2, ks.ptr());
    }
    let mut kv: Vec<(&str, GcRef)> = Vec::new();
    kv.push(("kind", ks));
    kv.push(("source", ss));
    let mut k: usize = 0;
    while k < details.len()
        invariant
            k <= details@.len(),
            vals@.len() == details@.len(),
            kv@.len() == k + 2,
            kv@[0].0@ == "kind"@,
            kv@[1].0@ == "source"@,
            kv@[0].1.ptr() == ks.ptr(),
            kv@[1].1.ptr() == ss.ptr(),
            forall|q: int| 0 <= q < k ==> #[trigger] kv@[q + 2].0 == details@[q].0,
            forall|q: int| 0 <= q < k ==> #[trigger] kv@[q + 2].1.ptr() == vals@[q].ptr(),
        decreases details@.len() - k,
    {
        kv.push((details[k].0, vals[k].clone()));
        k = k + 1;
    }
    let r = make_plist_keeping(mem, kv.as_slice(), &[]);
    proof {
        let m3 = *mem;
        lemma_allocates_trans(&m0, &m2, &m3);
        let kvv = kv_values(kv@);
        assert forall|q: int| 0 <= q < kvv.len() implies m2.live(#[trigger] kvv[q].ptr()) by {
            if q >= 2 {
                assert(kv@[(q - 2) + 2].1.ptr() == vals@[q - 2].ptr());
            }
        }
        lemma_sanitized_kept(&m2, &m3, kvv);
        lemma_keeps_sub(&m2, &m3, vals@, kvv, 2);
        lemma_keeps_all_trans(&m0, &m2, &m3, vals@);
        assert(kvv[0].ptr() == ks.ptr());
        assert(kvv[1].ptr() == ss.ptr());
        assert(m2.keeps(&m3, kvv[0].ptr()));
        assert(m2.keeps(&m3, kvv[1].ptr()));
        m2.lemma_value_unchanged(&m3, ks.ptr());
        m2.lemma_value_unchanged(&m3, ss.ptr());
        let e = list_elems(&m3, r.ptr())->0;
        assert(e[2 * 0int + 1] == sanitized(&m2, kvv)[0]);
        assert(e[2 * 1int + 1] == sanitized(&m2, kvv)[1]);
        assert(e[1] == ks.ptr());
        assert(e[3] == ss.ptr());
        assert forall|q: int| 2 <= q < kv@.len() implies
            #[trigger] kv@[q].0 == details@[q - 2].0 && kv@[q].1.ptr() == vals@[q - 2].ptr() by {
            let j = q - 2;
            assert(kv@[j + 2].0 == details@[j].0);
            assert(kv@[j + 2].1.ptr() == vals@[j].ptr());
        }
        assert(kv_keys(kv@) =~= seq!["kind"@, "source"@] + kv_keys(details@));
        assert(ptrs(vals@) == sanitized(&m0, dv));
        assert(ptrs(kvv) =~= seq![e[1], e[3]] + sanitized(&m0, dv)) by {
            assert forall|q: int| 0 <= q < kvv.len() implies
                #[trigger] ptrs(kvv)[q] == (seq![e[1], e[3]] + sanitized(&m0, dv))[q] by {
                if q >= 2 {
                    assert(kv@[q].0 == details@[q - 2].0);
                    assert(kvv[q] == kv@[q].1);
                    assert(ptrs(vals@)[q - 2] == vals@[q - 2].ptr());
                } else {
                    assert(kvv[q] == kv@[q].1);
                }
            }
        }
        assert forall|q: int| 0 <= q < dv.len() implies #[trigger] m0.keeps(&m3, dv[q].ptr()) by {
            if m0.live(dv[q].ptr()) {
                assert(ptrs(vals@)[q] == vals@[q].ptr());
                assert(sanitized(&m0, dv)[q] == dv[q].ptr());
                assert(vals@[q].ptr() == dv[q].ptr());
                assert(m0.keeps(&m3, vals@[q].ptr()));
            }
        }
    }
    r
}


/// `p` is the number `x`, or, where `x` does not fit in a number, the symbol
/// `more-than-number-type-maximum`.
pub open spec fn fits(mem: &Memory, p: Option<usize>, x: usize) -> bool {
    if x <= i64::MAX {
        mem.value_of(p) == Some(PrimitiveValue::Number(x as i64))
    } else {
        is_symbol_named(mem, p, "more-than-number-type-maximum"@)
    }
}

/// `x` as a number, or the symbol `more-than-number-type-maximum` where it does not fit.
pub fn fit_to_number(mem: &mut Memory, x: usize, keep: &[GcRef]) -> (r: GcRef)
    requires
        old(mem).wf(),
    ensures
        allocates(&*old(mem), &*final(mem)),
        keeps_all(&*old(mem), &*final(mem), keep@),
        fits(&*final(mem), r.ptr(), x),
        final(mem).live(r.ptr()),
{
    if (x as u64) <= 9223372036854775807u64 {
        number(mem, x as i64, keep)
    } else {
        symbol(mem, "more-than-number-type-maximum", keep)
    }
}

/// The type of `p`, where a cons cell is told apart as a string, a list or a bare cons cell.
pub open spec fn extended_type(mem: &Memory, p: Option<usize>) -> TypeLabel {
    match type_label_of(mem.value_of(p)) {
        TypeLabel::Cons => if string_of(mem, p) is Some {
            TypeLabel::String
        } else if list_elems(mem, p) is Some {
            TypeLabel::List
        } else {
            TypeLabel::Cons
        },
        t => t,
    }
}

/// The type of `thing`, where a cons cell is told apart as a string, a list or a bare cons cell.
pub fn extended_get_type(mem: &Memory, thing: &GcRef) -> (t: TypeLabel)
    requires
        mem.wf(),
    ensures
        t == extended_type(mem, thing.ptr()),
{
    match thing.get_type(mem) {
        TypeLabel::Cons => {
            if list_to_string(mem, thing.clone()).is_some() {
                TypeLabel::String
            } else if list_to_vec(mem, thing.clone()).is_some() {
                TypeLabel::List
            } else {
                TypeLabel::Cons
            }
        },
        t => t,
    }
}

/// `p` is the error `wrong-number-of-arguments` from `source`, with the expected and the actual
/// number of arguments.
pub open spec fn is_arity_error(mem: &Memory, p: Option<usize>, source: Seq<char>, expected: usize, actual: usize) -> bool {
    let e = list_elems(mem, p)->0;
    &&& is_error(mem, p, "wrong-number-of-arguments"@, source, seq!["expected"@, "actual"@], seq![e[5], e[7]])
    &&& fits(mem, e[5], expected)
    &&& fits(mem, e[7], actual)
}

/// The error `wrong-number-of-arguments` from `source`.
pub fn arity_error(mem: &mut Memory, source: &str, expected: usize, actual: usize) -> (r: GcRef)
    requires
        old(mem).wf(),
    ensures
        allocates(&*old(mem), &*final(mem)),
        is_arity_error(&*final(mem), r.ptr(), source@, expected, actual),
        final(mem).live(r.ptr()),
{
    let ghost m0 = *mem;
    let e = fit_to_number(mem, expected, &[]);
    let ghost m1 = *mem;
    let a = fit_to_number(mem, actual, &[e.clone()]);
    let ghost m2 = *mem;
    proof {
        assert(m1.keeps(&m2, e.ptr()));
        m1.lemma_value_unchanged(&m2, e.ptr());
        lemma_allocates_trans(&m0, &m1, &m2);
    }
    let details = [("expected", e), ("actual", a)];
    let r = make_error(mem, "wrong-number-of-arguments", source, &details);
    proof {
        let dv = kv_values(details@);
        assert(dv[0].ptr() == e.ptr());
        assert(dv[1].ptr() == a.ptr());
        assert(m2.keeps(&*mem, dv[0].ptr()));
        assert(m2.keeps(&*mem, dv[1].ptr()));
        m2.lemma_value_unchanged(&*mem, e.ptr());
        m2.lemma_value_unchanged(&*mem, a.ptr());
        lemma_allocates_trans(&m0, &m2, &*mem);
        let e2 = list_elems(&*mem, r.ptr())->0;
        let vals = seq![e2[1], e2[3]] + sanitized(&m2, dv);
        assert(kv_keys(details@) =~= seq!["expected"@, "actual"@]);
        assert(e2[2 * 2int + 1] == vals[2]);
        assert(e2[2 * 3int + 1] == vals[3]);
        assert(sanitized(&m2, dv) =~= seq![e2[5], e2[7]]);
    }
    r
}

/// `p` is the error `wrong-argument-type` from `source`: an argument was expected to be of type
/// `expected` and is of type `actual`.
pub open spec fn is_type_error(mem: &Memory, p: Option<usize>, source: Seq<char>, expected: TypeLabel, actual: TypeLabel) -> bool {
    let e = list_elems(mem, p)->0;
    &&& is_error(mem, p, "wrong-argument-type"@, source, seq!["expected"@, "actual"@], seq![e[5], e[7]])
    &&& is_symbol_named(mem, e[5], type_label_name(expected))
    &&& is_symbol_named(mem, e[7], type_label_name(actual))
}

/// The error `wrong-argument-type` from `source` about `arg`, which is not of type `expected`.
pub fn type_error(mem: &mut Memory, source: &str, arg: &GcRef, expected: TypeLabel) -> (r: GcRef)
    requires
        old(mem).wf(),
    ensures
        allocates(&*old(mem), &*final(mem)),
        is_type_error(&*final(mem), r.ptr(), source@, expected, extended_type(&*old(mem), arg.ptr())),
        final(mem).live(r.ptr()),
{
    let ghost m0 = *mem;
    let actual = extended_get_type(mem, arg);
    let x = mem.make_ref(mem.live_ptr(arg.pointer));
    let es = symbol(mem, expected.to_string(), &[x.clone()]);
    let ghost m1 = *mem;
    let as_ = symbol(mem, actual.to_string(), &[x.clone(), es.clone()]);
    let ghost m2 = *mem;
    proof {
        lemma_allocates_trans(&m0, &m1, &m2);
        assert(m1.keeps(&m2, es.ptr()));
        m1.lemma_value_unchanged(&m2, es.ptr());
        assert(m0.keeps(&m1, x.ptr()));
        assert(m1.keeps(&m2, x.ptr()));
        if m0.live(x.ptr()) {
            m0.lemma_unchanged_trans(&m1, &m2, x.ptr());
        }
    }
    let details = [("expected", es), ("actual", as_)];
    let r = make_error(mem, "wrong-argument-type", source, &details);
    proof {
        let dv = kv_values(details@);
        assert(dv[0].ptr() == es.ptr());
        assert(dv[1].ptr() == as_.ptr());
        assert(m2.keeps(&*mem, dv[0].ptr()));
        assert(m2.keeps(&*mem, dv[1].ptr()));
        m2.lemma_value_unchanged(&*mem, es.ptr());
        m2.lemma_value_unchanged(&*mem, as_.ptr());
        lemma_allocates_trans(&m0, &m2, &*mem);
        let e2 = list_elems(&*mem, r.ptr())->0;
        let vals = seq![e2[1], e2[3]] + sanitized(&m2, dv);
        assert(kv_keys(details@) =~= seq!["expected"@, "actual"@]);
        assert(e2[2 * 2int + 1] == vals[2]);
        assert(e2[2 * 3int + 1] == vals[3]);
        assert(sanitized(&m2, dv) =~= seq![e2[5], e2[7]]);
    }
    r
}

/// The name of the type of `p` that `type-of` gives: strings, lists and bare cons cells are
/// told apart, and so are macros and lambdas.
pub open spec fn type_of_name(mem: &Memory, p: Option<usize>) -> Seq<char> {
    match mem.value_of(p) {
        Some(PrimitiveValue::Cons(_)) => if string_of(mem, p) is Some {
            "string-type"@
        } else if list_elems(mem, p) is Some {
            "list-type"@
        } else {
            "cons-type"@
        },
        Some(PrimitiveValue::Function(f)) => match f {
            Function::NormalFunction(nf) => if nf.kind == FunctionKind::Macro { "macro-type"@ } else { "lambda-type"@ },
            Function::NativeFunction(nf) => if nf.kind == FunctionKind::Macro { "macro-type"@ } else { "lambda-type"@ },
        },
        v => type_label_name(type_label_of(v)),
    }
}

/// The name of the type of `x` that `type-of` gives.
pub fn type_of_str(mem: &Memory, x: &GcRef) -> (r: &'static str)
    requires
        mem.wf(),
    ensures
        r@ == type_of_name(mem, x.ptr()),
{
    let kind = match x.get(mem) {
        Some(PrimitiveValue::Function(Function::NormalFunction(nf))) => Some(nf.kind),
        Some(PrimitiveValue::Function(Function::NativeFunction(nf))) => Some(nf.kind),
        _ => None,
    };
    match kind {
        Some(FunctionKind::Macro) => "macro-type",
        Some(FunctionKind::Lambda) => "lambda-type",
        None => match extended_get_type(mem, x) {
            TypeLabel::String => "string-type",
            TypeLabel::List => "list-type",
            TypeLabel::Cons => "cons-type",
            t => t.to_string(),
        },
    }
}
} // verus!
