//! The evaluator: environments, function objects, macro expansion and evaluation.

use vstd::prelude::*;
use crate::memory::{Memory, GcRef, PrimitiveValue, ModulError, Function, FunctionKind, NormalFunction, TypeLabel, ConsCell, MetaValue,
    NativeId, Trap, NativeFunction};
use crate::config;
use crate::native::{list, numbers, read, misc, print, globals, signal, reflection};
use crate::native::signal::make_trap_named;
use crate::error_utils::fit_to_number;
use crate::modules::{visible_modules, module_names, texts};
use crate::native::globals::{key_of, symbol_key_of};
use crate::util::{symbol, vec_to_list, string_of, symbols_named, symbol_list,
    allocates, list_elems, sanitized, ptrs, is_symbol_named, list_to_vec, symbol_is_named, keeps_all,
    sanitize, with_extra, vec_to_list_keeping, lemma_allocation_keeps, lemma_allocates_trans, lemma_keeps_all_trans,
    lemma_keeps_sub, lemma_sanitized_kept, lemma_value_cell_unchanged};
use crate::native::list::{kv_keys, kv_values, plist_get, is_plist};
use crate::native::read::{input_chars, source_known, source_location, room_for, read_outcome, Failure, ReadError,
    represents, column_before, describes_location, rest_at};
use crate::metadata::Location;
use crate::error_utils::{arity_error, type_error, make_error, is_arity_error, is_type_error, is_error, extended_type};

verus! {

/// `a` and `b` denote the same symbol.
pub open spec fn same_symbol(mem: &Memory, a: Option<usize>, b: Option<usize>) -> bool {
    &&& mem.value_of(a) matches Some(PrimitiveValue::Symbol(s))
    &&& mem.value_of(b) matches Some(PrimitiveValue::Symbol(t))
    &&& mem.value_of(a)->0->Symbol_0.own_address == mem.value_of(b)->0->Symbol_0.own_address
}

/// The value that the environment `env` binds to the symbol `key`: the rest of its first entry
/// `(k . v)` whose `k` is that symbol. Entries that are not cons cells are passed over, and the
/// walk stops where the environment does not go on in a cons cell.
pub open spec fn env_lookup(mem: &Memory, env: Option<usize>, key: Option<usize>) -> Option<Option<usize>>
    decreases mem.prank(env),
{
    match mem.value_of(env) {
        Some(PrimitiveValue::Cons(c)) => {
            match mem.value_of(c.car) {
                Some(PrimitiveValue::Cons(kv)) if same_symbol(mem, kv.car, key) => Some(kv.cdr),
                _ => if mem.prank(c.cdr) < mem.prank(env) { env_lookup(mem, c.cdr, key) } else { None },
            }
        },
        _ => None,
    }
}

/// What looking up the global `name` from the module `module` gives: the value where exactly one
/// module binds it visibly, the names of the modules where several do, and an error where none
/// does.
pub open spec fn global_outcome(mem: &Memory, name: Seq<char>, module: Seq<char>, r: Result<GcRef, ModulError>) -> bool {
    let vis = visible_modules(mem.modules@, name, module);
    match r {
        Ok(v) => vis.len() == 1 && Some(v.ptr()) == vis[0].lookup(name),
        Err(ModulError::AmbiguousName(names)) => vis.len() > 1 && texts(names@) == module_names(vis),
        Err(ModulError::GlobalNonExistentOrPrivate) => vis.len() == 0,
        Err(_) => false,
    }
}

/// The value of the symbol `key`: its binding in the local environment `env`, or else the global
/// of its name as seen from the module `env_module`.
pub fn lookup(mem: &Memory, key: &GcRef, env: &GcRef, env_module: &str) -> (r: Result<GcRef, ModulError>)
    requires
        mem.wf(),
        key_of(mem, key.ptr()) is Some,
    ensures
        match env_lookup(mem, env.ptr(), key.ptr()) {
            Some(v) => r matches Ok(x) && x.ptr() == v,
            None => global_outcome(mem, key_of(mem, key.ptr())->0, env_module@, r),
        },
{
    let mut cursor = env.clone();
    loop
        invariant
            mem.wf(),
            key_of(mem, key.ptr()) is Some,
            env_lookup(mem, env.ptr(), key.ptr()) == env_lookup(mem, cursor.ptr(), key.ptr()),
        ensures
            env_lookup(mem, env.ptr(), key.ptr()) is None,
        decreases mem.prank(cursor.ptr()),
    {
        match cursor.get(mem) {
            Some(PrimitiveValue::Cons(c)) => {
                proof { crate::util::lemma_cdr_younger(mem, cursor.ptr()); }
                let entry = mem.make_ref(c.car);
                match entry.get(mem) {
                    Some(PrimitiveValue::Cons(kv)) => {
                        let k = mem.make_ref(kv.car);
                        let same = match (k.get(mem), key.get(mem)) {
                            (Some(PrimitiveValue::Symbol(s)), Some(PrimitiveValue::Symbol(t))) => s.own_address == t.own_address,
                            _ => false,
                        };
                        if same {
                            return Ok(mem.make_ref(kv.cdr));
                        }
                    },
                    _ => {},
                }
                cursor = mem.make_ref(c.cdr);
            },
            _ => { break; },
        }
    }
    let name = symbol_key_of(mem, key);
    match name {
        Some(n) => mem.get_global(n.as_str(), env_module),
        None => Err(ModulError::GlobalNonExistentOrPrivate),
    }
}

/// The outcome of reading a parameter list.
pub enum ParamScan {
    /// The parameters, and whether the last of them takes the remaining arguments.
    Params(Seq<Option<usize>>, bool),
    /// A parameter that is not a symbol.
    NotSymbol(Option<usize>),
    /// `&` is the last parameter.
    MissingRest,
    /// `&` is followed by more than one parameter.
    MultipleRest,
}

/// `rest` with `front` put before its parameters.
pub open spec fn scan_prepend(front: Seq<Option<usize>>, rest: ParamScan) -> ParamScan {
    match rest {
        ParamScan::Params(ps, r) => ParamScan::Params(front + ps, r),
        other => other,
    }
}

proof fn lemma_scan_prepend(a: Seq<Option<usize>>, b: Seq<Option<usize>>, x: ParamScan)
    ensures
        scan_prepend(a, scan_prepend(b, x)) == scan_prepend(a + b, x),
{
    if let ParamScan::Params(ps, r) = x {
        assert((a + b) + ps =~= a + (b + ps));
    }
}

/// Reads the parameter list `elems` from position `i`: every parameter must be a symbol, and
/// the symbol `&` may stand only second to last, making the last parameter the rest parameter.
pub open spec fn scan_params(mem: &Memory, elems: Seq<Option<usize>>, i: int) -> ParamScan
    decreases elems.len() - i,
{
    if i < 0 || i >= elems.len() {
        ParamScan::Params(Seq::empty(), false)
    } else if !(mem.value_of(elems[i]) matches Some(PrimitiveValue::Symbol(_))) {
        ParamScan::NotSymbol(elems[i])
    } else if is_symbol_named(mem, elems[i], "&"@) {
        if i + 2 == elems.len() {
            if mem.value_of(elems[i + 1]) matches Some(PrimitiveValue::Symbol(_)) {
                ParamScan::Params(seq![elems[i + 1]], true)
            } else {
                ParamScan::NotSymbol(elems[i + 1])
            }
        } else if i + 2 > elems.len() {
            ParamScan::MissingRest
        } else {
            ParamScan::MultipleRest
        }
    } else {
        scan_prepend(seq![elems[i]], scan_params(mem, elems, i + 1))
    }
}

/// `f` is the function of kind `kind` with the parameters `ps` (the last one a rest parameter
/// where `rest`), the body `body`, the environment `env` and the environment module `module`.
pub open spec fn is_function(mem: &Memory, f: Option<usize>, kind: FunctionKind, ps: Seq<Option<usize>>, rest: bool,
    body: Option<usize>, env: Option<usize>, module: Seq<char>) -> bool
{
    &&& mem.value_of(f) matches Some(PrimitiveValue::Function(Function::NormalFunction(nf)))
    &&& ({
        let nf = mem.value_of(f)->0->Function_0->NormalFunction_0;
        &&& nf.kind == kind
        &&& nf.has_rest_params == rest
        &&& nf.parameters@ == ps
        &&& nf.body == body
        &&& nf.environment == env
        &&& nf.environment_module@ == module
    })
}

/// What making a function from `args` (a parameter list and a body, as pointers) gives, closing
/// over `env`, with errors reported from `source`.
pub open spec fn function_outcome(old: &Memory, new: &Memory, r: Result<GcRef, GcRef>, args: Seq<Option<usize>>,
    env: Option<usize>, module: Seq<char>, source: Seq<char>, kind: FunctionKind) -> bool
{
    if args.len() != 2 {
        r matches Err(e) && is_arity_error(new, e.ptr(), source, 2, args.len() as usize)
    } else {
        match list_elems(old, args[0]) {
            None => r matches Err(e) && is_type_error(new, e.ptr(), source, TypeLabel::List, extended_type(old, args[0])),
            Some(elems) => match scan_params(old, elems, 0) {
                ParamScan::NotSymbol(p) => r matches Err(e)
                    && is_error(new, e.ptr(), "param-is-not-symbol"@, source, seq!["param"@], seq![p]),
                ParamScan::MissingRest => r matches Err(e)
                    && is_error(new, e.ptr(), "missing-rest-parameter"@, source, seq![], seq![]),
                ParamScan::MultipleRest => r matches Err(e)
                    && is_error(new, e.ptr(), "multiple-rest-parameters"@, source, seq![], seq![]),
                ParamScan::Params(ps, rest) => r matches Ok(f) && is_function(new, f.ptr(), kind, ps, rest,
                    args[1], env, module),
            },
        }
    }
}

/// A pointer that is not live denotes what nil denotes.
pub proof fn lemma_dead_is_nil(mem: &Memory, p: Option<usize>)
    requires
        mem.wf(),
    ensures
        ({
            let q = if mem.live(p) { p } else { None };
            &&& mem.value_of(q) == mem.value_of(p)
            &&& list_elems(mem, q) == list_elems(mem, p)
            &&& extended_type(mem, q) == extended_type(mem, p)
        }),
{
    if !mem.live(p) {
        crate::util::lemma_same_value_list(mem, p, None);
    }
}

/// A function made from `args`, a parameter list and a body, closing over `env`; errors are
/// reported from `source`.
pub fn make_function_internal(mem: &mut Memory, args: &[GcRef], env: GcRef, env_module: &str, source: &str,
    kind: FunctionKind) -> (r: Result<GcRef, GcRef>)
    requires
        old(mem).wf(),
    ensures
        allocates(&*old(mem), &*final(mem)),
        function_outcome(&*old(mem), &*final(mem), r, sanitized(&*old(mem), args@),
            if old(mem).live(env.ptr()) { env.ptr() } else { None }, env_module@, source@, kind),
{
    let ghost m0 = *mem;
    if args.len() != 2 {
        return Err(arity_error(mem, source, 2, args.len()));
    }
    proof { lemma_dead_is_nil(&m0, args@[0].ptr()); }
    let params = match list_to_vec(mem, args[0].clone()) {
        Some(v) => v,
        None => { return Err(type_error(mem, source, &args[0], TypeLabel::List)); },
    };
    let ghost elems = ptrs(params@);
    proof {
        crate::util::lemma_elems_live(&m0, args@[0].ptr());
        assert forall|q: int| 0 <= q < elems.len() implies m0.live(#[trigger] elems[q]) by {
            assert(elems[q] == list_elems(&m0, args@[0].ptr())->0[q]);
        }
    }
    let n = params.len();
    let mut actual: Vec<GcRef> = Vec::new();
    let mut has_rest = false;
    let mut i: usize = 0;
    while i < n
        invariant
            *mem == m0,
            *old(mem) == m0,
            m0.wf(),
            args@.len() == 2,
            list_elems(&m0, args@[0].ptr()) == Some(elems),
            n == params@.len(),
            elems == ptrs(params@),
            i <= n,
            scan_params(&m0, elems, 0) == scan_prepend(ptrs(actual@), if i < n { scan_params(&m0, elems, i as int) }
                else { ParamScan::Params(Seq::empty(), has_rest) }),
            forall|q: int| 0 <= q < actual@.len() ==> m0.live(#[trigger] actual@[q].ptr()),
            forall|q: int| 0 <= q < elems.len() ==> m0.live(#[trigger] elems[q]),
            has_rest ==> i == n,
        decreases n - i,
    {
        let is_symbol = match params[i].get(mem) {
            Some(PrimitiveValue::Symbol(_)) => true,
            _ => false,
        };
        if !is_symbol {
            let p = params[i].clone();
            let details = [("param", p)];
            let e = make_error(mem, "param-is-not-symbol", source, &details);
            proof {
                assert(elems[i as int] == params@[i as int].ptr());
                assert(kv_values(details@) =~= seq![details@[0].1]);
                assert(kv_keys(details@) =~= seq!["param"@]);
                assert(sanitized(&m0, kv_values(details@)) =~= seq![elems[i as int]]);
            }
            return Err(e);
        }
        if symbol_is_named(mem, &params[i], "&") {
            if n - i == 2 {
                let is_symbol2 = match params[i + 1].get(mem) {
                    Some(PrimitiveValue::Symbol(_)) => true,
                    _ => false,
                };
                if !is_symbol2 {
                    let p = params[i + 1].clone();
                    let details = [("param", p)];
                    let e = make_error(mem, "param-is-not-symbol", source, &details);
                    proof {
                        assert(elems[i + 1] == params@[i + 1].ptr());
                        assert(kv_values(details@) =~= seq![details@[0].1]);
                        assert(kv_keys(details@) =~= seq!["param"@]);
                        assert(sanitized(&m0, kv_values(details@)) =~= seq![elems[i + 1]]);
                    }
                    return Err(e);
                }
                let ghost before = ptrs(actual@);
                actual.push(params[i + 1].clone());
                proof {
                    assert(elems[i + 1] == params@[i + 1].ptr());
                    assert(ptrs(actual@) =~= before + seq![elems[i + 1]]);
                    assert(ptrs(actual@) + Seq::<Option<usize>>::empty() =~= before + seq![elems[i + 1]]);
                }
                has_rest = true;
                i = n;
            } else if n - i < 2 {
                return Err(make_error(mem, "missing-rest-parameter", source, &[]));
            } else {
                return Err(make_error(mem, "multiple-rest-parameters", source, &[]));
            }
        } else {
            let ghost before = ptrs(actual@);
            actual.push(params[i].clone());
            proof {
                assert(elems[i as int] == params@[i as int].ptr());
                assert(ptrs(actual@) =~= before + seq![elems[i as int]]);
                lemma_scan_prepend(before, seq![elems[i as int]], scan_params(&m0, elems, i + 1));
            }
            i = i + 1;
        }
    }
    proof {
        assert(ptrs(actual@) + Seq::<Option<usize>>::empty() =~= ptrs(actual@));
        assert(actual@.map_values(|p: GcRef| if m0.live(p.ptr()) { p.ptr() } else { None }) =~= ptrs(actual@));
    }
    let f = mem.allocate_normal_function(kind, has_rest, args[1].clone(), actual.as_slice(), env, env_module);
    Ok(f)
}

/// `e` is a chain of cons cells whose cars are the pairs `(keys[k] . vals[k])`, in order, and
/// which ends in `tail`.
pub open spec fn binds(mem: &Memory, e: Option<usize>, keys: Seq<Option<usize>>, vals: Seq<Option<usize>>,
    tail: Option<usize>) -> bool
    decreases keys.len(),
{
    if keys.len() == 0 {
        vals.len() == 0 && e == tail
    } else {
        &&& vals.len() == keys.len()
        &&& mem.value_of(e) matches Some(PrimitiveValue::Cons(c))
        &&& mem.value_of(mem.value_of(e)->0->Cons_0.car) == Some(PrimitiveValue::Cons(ConsCell { car: keys[0], cdr: vals[0] }))
        &&& binds(mem, mem.value_of(e)->0->Cons_0.cdr, keys.drop_first(), vals.drop_first(), tail)
    }
}

/// A chain of bindings under an unchanged pointer is still there.
pub proof fn lemma_binds_unchanged(old: &Memory, new: &Memory, e: Option<usize>, keys: Seq<Option<usize>>,
    vals: Seq<Option<usize>>, tail: Option<usize>)
    requires
        old.wf(),
        old.evolves(new),
        old.unchanged(new, e),
        binds(old, e, keys, vals, tail),
    ensures
        binds(new, e, keys, vals, tail),
    decreases keys.len(),
{
    if keys.len() > 0 {
        old.lemma_value_unchanged(new, e);
        let c = old.value_of(e)->0->Cons_0;
        let q = old.value_cell(e)->0;
        lemma_value_cell_unchanged(old, new, e);
        assert(crate::memory::children(old.mv(q))[0] == c.car);
        assert(crate::memory::children(old.mv(q))[1] == c.cdr);
        old.lemma_child_unchanged(new, q as usize, 0);
        old.lemma_child_unchanged(new, q as usize, 1);
        old.lemma_value_unchanged(new, c.car);
        lemma_binds_unchanged(old, new, c.cdr, keys.drop_first(), vals.drop_first(), tail);
    }
}

/// The number of parameters that are not the rest parameter.
pub open spec fn fixed_count(n: int, has_rest: bool) -> int {
    if has_rest && n > 0 { n - 1 } else { n }
}

/// What pairing the parameters `ps` with the arguments `args` gives, in front of the environment
/// `env`: an arity error from `source` where the numbers do not fit, else the environment with one
/// binding per parameter, the last parameter first, and a rest parameter bound to the list of the
/// remaining arguments.
pub open spec fn pairing_outcome(old: &Memory, new: &Memory, r: Result<GcRef, GcRef>, ps: Seq<Option<usize>>,
    has_rest: bool, env: Option<usize>, source: Seq<char>, args: Seq<GcRef>) -> bool
{
    let nr = fixed_count(ps.len() as int, has_rest);
    let rest = has_rest && ps.len() > 0;
    let avs = sanitized(old, args);
    if args.len() < nr {
        r matches Err(e) && is_arity_error(new, e.ptr(), source, (args.len() + 1) as usize, args.len() as usize)
    } else if !rest && args.len() > nr {
        r matches Err(e) && is_arity_error(new, e.ptr(), source, nr as usize, args.len() as usize)
    } else if !rest {
        r matches Ok(e) && binds(new, e.ptr(), ps.reverse(), avs.reverse(), env)
    } else {
        &&& r matches Ok(e)
        &&& new.value_of(r->Ok_0.ptr()) matches Some(PrimitiveValue::Cons(c))
        &&& ({
            let c = new.value_of(r->Ok_0.ptr())->0->Cons_0;
            &&& new.value_of(c.car) matches Some(PrimitiveValue::Cons(kv))
            &&& new.value_of(c.car)->0->Cons_0.car == ps.last()
            &&& list_elems(new, new.value_of(c.car)->0->Cons_0.cdr) == Some(avs.skip(nr))
            &&& binds(new, c.cdr, ps.take(nr).reverse(), avs.take(nr).reverse(), env)
        })
    }
}

/// `env` with the first `nr` parameters of `ps` bound to the first `nr` arguments of `avs`,
/// the last of them first.
fn bind_fixed(mem: &mut Memory, ps: &[GcRef], avs: &[GcRef], nr: usize, env: GcRef) -> (r: GcRef)
    requires
        old(mem).wf(),
        nr <= ps@.len(),
        nr <= avs@.len(),
        forall|q: int| 0 <= q < ps@.len() ==> old(mem).live(#[trigger] ps@[q].ptr()),
        forall|q: int| 0 <= q < avs@.len() ==> old(mem).live(#[trigger] avs@[q].ptr()),
        old(mem).live(env.ptr()),
    ensures
        allocates(&*old(mem), &*final(mem)),
        keeps_all(&*old(mem), &*final(mem), ps@),
        keeps_all(&*old(mem), &*final(mem), avs@),
        final(mem).live(r.ptr()),
        binds(&*final(mem), r.ptr(), ptrs(ps@).take(nr as int).reverse(), ptrs(avs@).take(nr as int).reverse(), env.ptr()),
{
    let ghost m0 = *mem;
    let ghost pss = ptrs(ps@);
    let ghost avss = ptrs(avs@);
    let keep = with_extra(ps, avs);
    let mut new_env = env.clone();
    proof {
        m0.lemma_evolves_refl();
        assert forall|q: int| 0 <= q < keep@.len() implies m0.live(#[trigger] keep@[q].ptr()) by {
            if q < ps@.len() {
                assert(keep@[q].ptr() == ps@[q].ptr());
            } else {
                assert(keep@[(q - ps@.len()) + ps@.len()].ptr() == avs@[q - ps@.len()].ptr());
            }
        }
        assert(binds(&m0, new_env.ptr(), pss.take(0).reverse(), avss.take(0).reverse(), env.ptr()));
    }
    let mut i: usize = 0;
    while i < nr
        invariant
            m0.wf(),
            mem.wf(),
            allocates(&m0, &*mem),
            i <= nr,
            nr <= ps@.len(),
            nr <= avs@.len(),
            pss == ptrs(ps@),
            avss == ptrs(avs@),
            keep@.len() == ps@.len() + avs@.len(),
            forall|q: int| 0 <= q < ps@.len() ==> #[trigger] keep@[q].ptr() == ps@[q].ptr(),
            forall|q: int| 0 <= q < avs@.len() ==> #[trigger] keep@[q + ps@.len()].ptr() == avs@[q].ptr(),
            forall|q: int| 0 <= q < keep@.len() ==> m0.live(#[trigger] keep@[q].ptr()),
            keeps_all(&m0, &*mem, keep@),
            mem.live(new_env.ptr()),
            binds(&*mem, new_env.ptr(), pss.take(i as int).reverse(), avss.take(i as int).reverse(), env.ptr()),
        decreases nr - i,
    {
        let ghost m1 = *mem;
        let keep1 = with_extra(keep.as_slice(), &[new_env.clone()]);
        let pair = mem.allocate_cons_keeping(ps[i].clone(), avs[i].clone(), keep1.as_slice());
        let ghost m2 = *mem;
        proof {
            lemma_allocation_keeps(&m1, &m2, pair.ptr()->0, keep1@);
            lemma_keeps_sub(&m1, &m2, keep@, keep1@, 0);
            lemma_keeps_all_trans(&m0, &m1, &m2, keep@);
            lemma_sanitized_kept(&m0, &m1, keep@);
            assert(keep@[i as int].ptr() == ps@[i as int].ptr());
            assert(keep@[i + ps@.len()].ptr() == avs@[i as int].ptr());
            assert(keep1@[0int + keep@.len()].ptr() == new_env.ptr());
            assert(m1.keeps(&m2, new_env.ptr()));
            lemma_binds_unchanged(&m1, &m2, new_env.ptr(), pss.take(i as int).reverse(), avss.take(i as int).reverse(), env.ptr());
        }
        let next = mem.allocate_cons_keeping(pair.clone(), new_env.clone(), keep.as_slice());
        let ghost m3 = *mem;
        proof {
            lemma_allocation_keeps(&m2, &m3, next.ptr()->0, keep@);
            lemma_keeps_all_trans(&m0, &m2, &m3, keep@);
            lemma_allocates_trans(&m0, &m1, &m2);
            lemma_allocates_trans(&m0, &m2, &m3);
            assert(m2.unchanged(&m3, pair.ptr()));
            assert(m2.unchanged(&m3, new_env.ptr()));
            m2.lemma_value_unchanged(&m3, pair.ptr());
            lemma_binds_unchanged(&m2, &m3, new_env.ptr(), pss.take(i as int).reverse(), avss.take(i as int).reverse(), env.ptr());
            assert(pss[i as int] == ps@[i as int].ptr());
            assert(avss[i as int] == avs@[i as int].ptr());
            let k1 = pss.take(i + 1).reverse();
            let v1 = avss.take(i + 1).reverse();
            assert(k1[0] == pss[i as int]);
            assert(v1[0] == avss[i as int]);
            assert(k1.drop_first() =~= pss.take(i as int).reverse());
            assert(v1.drop_first() =~= avss.take(i as int).reverse());
        }
        new_env = next;
        i = i + 1;
    }
    proof {
        lemma_keeps_sub(&m0, &*mem, ps@, keep@, 0);
        lemma_keeps_sub(&m0, &*mem, avs@, keep@, ps@.len() as int);
    }
    new_env
}

/// The cons cell `((p . rest) . env)`, with `rest` the list of the handles `rest`.
fn bind_rest(mem: &mut Memory, p: GcRef, rest: &[GcRef], env: GcRef) -> (r: GcRef)
    requires
        old(mem).wf(),
        old(mem).live(p.ptr()),
        forall|q: int| 0 <= q < rest@.len() ==> old(mem).live(#[trigger] rest@[q].ptr()),
        old(mem).live(env.ptr()),
    ensures
        allocates(&*old(mem), &*final(mem)),
        old(mem).keeps(&*final(mem), env.ptr()),
        final(mem).value_of(r.ptr()) matches Some(PrimitiveValue::Cons(c)),
        final(mem).value_of(r.ptr())->0->Cons_0.cdr == env.ptr(),
        final(mem).value_of(final(mem).value_of(r.ptr())->0->Cons_0.car) matches Some(PrimitiveValue::Cons(kv)),
        final(mem).value_of(final(mem).value_of(r.ptr())->0->Cons_0.car)->0->Cons_0.car == p.ptr(),
        list_elems(&*final(mem), final(mem).value_of(final(mem).value_of(r.ptr())->0->Cons_0.car)->0->Cons_0.cdr)
            == Some(ptrs(rest@)),
{
    let ghost m0 = *mem;
    let list = vec_to_list_keeping(mem, rest, &[env.clone(), p.clone()]);
    let ghost m1 = *mem;
    proof {
        assert(m0.keeps(&m1, seq![env, p][0].ptr()));
        assert(m0.keeps(&m1, seq![env, p][1].ptr()));
        assert(sanitized(&m0, rest@) =~= ptrs(rest@));
    }
    let pair = mem.allocate_cons_keeping(p.clone(), list.clone(), &[env.clone()]);
    let ghost m2 = *mem;
    proof {
        lemma_allocation_keeps(&m1, &m2, pair.ptr()->0, seq![env]);
        assert(m1.keeps(&m2, seq![env][0].ptr()));
        crate::util::lemma_list_unchanged(&m1, &m2, list.ptr());
        lemma_allocates_trans(&m0, &m1, &m2);
        m0.lemma_unchanged_trans(&m1, &m2, env.ptr());
    }
    let result = mem.allocate_cons_keeping(pair.clone(), env.clone(), &[]);
    let ghost m3 = *mem;
    proof {
        lemma_allocation_keeps(&m2, &m3, result.ptr()->0, seq![]);
        assert(m2.unchanged(&m3, pair.ptr()));
        assert(m2.unchanged(&m3, env.ptr()));
        m2.lemma_value_unchanged(&m3, pair.ptr());
        let kv = m2.value_of(pair.ptr())->0->Cons_0;
        let q = m2.value_cell(pair.ptr())->0;
        lemma_value_cell_unchanged(&m2, &m3, pair.ptr());
        assert(crate::memory::children(m2.mv(q))[1] == kv.cdr);
        m2.lemma_child_unchanged(&m3, q as usize, 1);
        crate::util::lemma_list_unchanged(&m2, &m3, list.ptr());
        lemma_allocates_trans(&m0, &m2, &m3);
        m0.lemma_unchanged_trans(&m2, &m3, env.ptr());
    }
    result
}

/// The environment of a call: `environment` with the parameters bound to the arguments. Arity
/// errors are reported from `nf_name`, or from `#<function>` where the function has no name.
pub fn pair_params_and_args(mem: &mut Memory, params: &[GcRef], has_rest_params: bool, environment: GcRef,
    nf_name: Option<String>, args: &[GcRef]) -> (r: Result<GcRef, GcRef>)
    requires
        old(mem).wf(),
    ensures
        allocates(&*old(mem), &*final(mem)),
        pairing_outcome(&*old(mem), &*final(mem), r, sanitized(&*old(mem), params@), has_rest_params,
            if old(mem).live(environment.ptr()) { environment.ptr() } else { None },
            match nf_name { Some(n) => n@, None => "#<function>"@ }, args@),
{
    let ghost m0 = *mem;
    let source = match nf_name {
        Some(n) => n,
        None => String::from_str("#<function>"),
    };
    let n = params.len();
    let rest = has_rest_params && n > 0;
    let nr = if rest { n - 1 } else { n };
    if args.len() < nr {
        return Err(arity_error(mem, source.as_str(), args.len() + 1, args.len()));
    }
    if !rest && args.len() > nr {
        return Err(arity_error(mem, source.as_str(), nr, args.len()));
    }
    let ps = sanitize(mem, params);
    let avs = sanitize(mem, args);
    let env = mem.make_ref(mem.live_ptr(environment.pointer));
    proof {
        assert(ptrs(avs@).len() == sanitized(&m0, args@).len());
        assert(ptrs(ps@).len() == sanitized(&m0, params@).len());
    }
    let fixed = bind_fixed(mem, ps.as_slice(), avs.as_slice(), nr, env);
    let ghost m1 = *mem;
    proof {
        assert(ptrs(ps@) =~= sanitized(&m0, params@));
        assert(ptrs(avs@) =~= sanitized(&m0, args@));
    }
    if !rest {
        proof {
            assert(ptrs(ps@).take(nr as int) =~= ptrs(ps@));
            assert(ptrs(avs@).take(nr as int) =~= ptrs(avs@));
        }
        return Ok(fixed);
    }
    let mut tail: Vec<GcRef> = Vec::new();
    let mut k: usize = nr;
    while k < avs.len()
        invariant
            nr <= k <= avs@.len(),
            tail@.len() == k - nr,
            forall|q: int| 0 <= q < tail@.len() ==> #[trigger] tail@[q].ptr() == avs@[q + nr].ptr(),
        decreases avs@.len() - k,
    {
        tail.push(avs[k].clone());
        k = k + 1;
    }
    proof {
        lemma_sanitized_kept(&m0, &m1, ps@);
        lemma_sanitized_kept(&m0, &m1, avs@);
        assert forall|q: int| 0 <= q < tail@.len() implies m1.live(#[trigger] tail@[q].ptr()) by {
            assert(tail@[q].ptr() == avs@[q + nr].ptr());
        }
        assert(ptrs(tail@) =~= ptrs(avs@).skip(nr as int));
    }
    let result = bind_rest(mem, ps[n - 1].clone(), tail.as_slice(), fixed.clone());
    proof {
        let m2 = *mem;
        m1.lemma_value_unchanged(&m2, fixed.ptr());
        lemma_binds_unchanged(&m1, &m2, fixed.ptr(), ptrs(ps@).take(nr as int).reverse(),
            ptrs(avs@).take(nr as int).reverse(), env.ptr());
        lemma_allocates_trans(&m0, &m1, &m2);
        assert(ptrs(ps@).last() == ps@[(n - 1) as int].ptr());
    }
    Ok(result)
}

/// What evaluating the symbol `sym` in `env` from the module `module` gives: its local binding,
/// else its global binding; an `ambiguous-name` error, with the modules in conflict, where more
/// than one module binds it visibly, and an `unbound-symbol` error where none does. Both errors
/// come from `source`.
pub open spec fn symbol_outcome(old: &Memory, new: &Memory, r: Result<GcRef, GcRef>, sym: Option<usize>,
    env: Option<usize>, module: Seq<char>, source: Seq<char>) -> bool
{
    match env_lookup(old, env, sym) {
        Some(v) => *new == *old && (r matches Ok(x) && x.ptr() == v),
        None => {
            let name = key_of(old, sym)->0;
            let vis = visible_modules(old.modules@, name, module);
            if vis.len() == 1 {
                *new == *old && (r matches Ok(x) && Some(x.ptr()) == vis[0].lookup(name))
            } else if vis.len() > 1 {
                &&& allocates(old, new)
                &&& r matches Err(e)
                &&& is_error(new, r->Err_0.ptr(), "ambiguous-name"@, source, seq!["symbol"@, "conflicting-modules"@],
                        seq![sym, list_elems(new, r->Err_0.ptr())->0[7]])
                &&& symbols_named(new, list_elems(new, r->Err_0.ptr())->0[7], module_names(vis))
            } else {
                &&& allocates(old, new)
                &&& r matches Err(e)
                &&& is_error(new, r->Err_0.ptr(), "unbound-symbol"@, source, seq!["symbol"@], seq![sym])
            }
        },
    }
}

/// The value of the symbol `sym` in `env`, seen from the module `env_module`.
fn eval_symbol(mem: &mut Memory, sym: &GcRef, env: &GcRef, env_module: &str, source: &str) -> (r: Result<GcRef, GcRef>)
    requires
        old(mem).wf(),
        old(mem).value_of(sym.ptr()) matches Some(PrimitiveValue::Symbol(_)),
    ensures
        allocates(&*old(mem), &*final(mem)),
        symbol_outcome(&*old(mem), &*final(mem), r, sym.ptr(), env.ptr(), env_module@, source@),
{
    let ghost m0 = *mem;
    proof { m0.lemma_evolves_refl(); }
    match lookup(mem, sym, env, env_module) {
        Ok(v) => Ok(v),
        Err(ModulError::AmbiguousName(names)) => {
            let l = symbol_list(mem, &names, &[sym.clone()]);
            let ghost m1 = *mem;
            proof {
                assert(m0.keeps(&m1, seq![*sym][0].ptr()));
            }
            let details = [("symbol", sym.clone()), ("conflicting-modules", l.clone())];
            let e = make_error(mem, "ambiguous-name", source, &details);
            proof {
                let m2 = *mem;
                lemma_allocates_trans(&m0, &m1, &m2);
                let dv = kv_values(details@);
                assert(dv[0].ptr() == sym.ptr());
                assert(dv[1].ptr() == l.ptr());
                assert(m1.keeps(&m2, dv[1].ptr()));
                crate::util::lemma_list_unchanged(&m1, &m2, l.ptr());
                crate::util::lemma_elems_unchanged(&m1, &m2, l.ptr());
                let le = list_elems(&m1, l.ptr())->0;
                assert forall|i: int| 0 <= i < le.len() implies #[trigger] is_symbol_named(&m2, le[i], texts(names@)[i]) by {
                    assert(is_symbol_named(&m1, le[i], texts(names@)[i]));
                    assert(m1.unchanged(&m2, le[i]));
                    m1.lemma_value_unchanged(&m2, le[i]);
                }
                assert(m0.live(sym.ptr()));
                assert(m1.live(sym.ptr()));
                assert(m1.live(l.ptr()));
                let ee = list_elems(&m2, e.ptr())->0;
                assert(kv_keys(details@) =~= seq!["symbol"@, "conflicting-modules"@]);
                assert(sanitized(&m1, dv) =~= seq![sym.ptr(), l.ptr()]);
                assert(ee[2 * 3int + 1] == (seq![ee[1], ee[3]] + sanitized(&m1, dv))[3]);
                assert(ee[7] == l.ptr());
            }
            Err(e)
        },
        Err(_) => {
            let details = [("symbol", sym.clone())];
            let e = make_error(mem, "unbound-symbol", source, &details);
            proof {
                let dv = kv_values(details@);
                assert(kv_keys(details@) =~= seq!["symbol"@]);
                assert(sanitized(&m0, dv) =~= seq![sym.ptr()]);
            }
            Err(e)
        },
    }
}

/// The forms that the evaluator tells apart.
#[derive(PartialEq, Eq, Structural, Clone, Copy)]
pub enum Form {
    /// Nil, the empty list.
    Nil,
    /// `(lambda PARAMS BODY)`.
    Lambda,
    /// `(quote X)`.
    Quote,
    /// `(if CONDITION THEN OTHERWISE)`.
    If,
    /// `(trap NORMAL-BODY TRAP-BODY)`.
    TrapForm,
    /// Any other non-empty list: a call.
    Call,
    /// A cons cell that does not start a proper list.
    Pair,
    /// A trap object.
    TrapValue,
    /// A symbol.
    Symbol,
    /// A number, a character or a function, which evaluate to themselves.
    SelfEvaluating,
}

/// The form of the expression `p`.
pub open spec fn eval_form(mem: &Memory, p: Option<usize>) -> Form {
    match list_elems(mem, p) {
        Some(e) => if e.len() == 0 {
            Form::Nil
        } else if is_symbol_named(mem, e[0], "lambda"@) {
            Form::Lambda
        } else if is_symbol_named(mem, e[0], "quote"@) {
            Form::Quote
        } else if is_symbol_named(mem, e[0], "if"@) {
            Form::If
        } else if is_symbol_named(mem, e[0], "trap"@) {
            Form::TrapForm
        } else {
            Form::Call
        },
        None => match mem.value_of(p) {
            Some(PrimitiveValue::Cons(_)) => Form::Pair,
            Some(PrimitiveValue::Trap(_)) => Form::TrapValue,
            Some(PrimitiveValue::Symbol(_)) => Form::Symbol,
            _ => Form::SelfEvaluating,
        },
    }
}

/// The form of `expr`, and the elements of it where it is a proper list.
fn classify(mem: &Memory, expr: &GcRef) -> (r: (Form, Vec<GcRef>))
    requires
        mem.wf(),
    ensures
        r.0 == eval_form(mem, expr.ptr()),
        list_elems(mem, expr.ptr()) matches Some(e) ==> ptrs(r.1@) == e,
{
    match list_to_vec(mem, expr.clone()) {
        Some(v) => {
            let f = if v.len() == 0 {
                Form::Nil
            } else if symbol_is_named(mem, &v[0], "lambda") {
                Form::Lambda
            } else if symbol_is_named(mem, &v[0], "quote") {
                Form::Quote
            } else if symbol_is_named(mem, &v[0], "if") {
                Form::If
            } else if symbol_is_named(mem, &v[0], "trap") {
                Form::TrapForm
            } else {
                Form::Call
            };
            proof {
                if v@.len() > 0 {
                    assert(ptrs(v@)[0] == v@[0].ptr());
                }
            }
            (f, v)
        },
        None => {
            let f = match expr.get(mem) {
                Some(PrimitiveValue::Cons(_)) => Form::Pair,
                Some(PrimitiveValue::Trap(_)) => Form::TrapValue,
                Some(PrimitiveValue::Symbol(_)) => Form::Symbol,
                _ => Form::SelfEvaluating,
            };
            (f, Vec::new())
        },
    }
}

/// What one step of evaluating `expr` gives, for the forms that are settled without evaluating
/// anything else: self-evaluating values and nil, symbols, `quote`, `lambda`, `trap`, and an `if`
/// without three operands. It holds of no other form: `evaluates` says what those give.
pub open spec fn eval_outcome(old: &Memory, new: &Memory, r: Result<GcRef, GcRef>, expr: Option<usize>,
    env: Option<usize>, module: Seq<char>, depth: usize) -> bool
{
    let e = list_elems(old, expr)->0;
    if depth > config::MAX_RECURSION_DEPTH {
        allocates(old, new) && (r matches Err(x) && is_error(new, x.ptr(), "stackoverflow"@, "eval"@, seq![], seq![]))
    } else {
        match eval_form(old, expr) {
            Form::Nil => *new == *old && (r matches Ok(x) && x.ptr() is None),
            Form::SelfEvaluating => *new == *old && (r matches Ok(x) && x.ptr() == expr),
            Form::Symbol => symbol_outcome(old, new, r, expr, env, module, "eval"@),
            Form::Quote => allocates(old, new) && if e.len() == 2 {
                r matches Ok(x) && x.ptr() == e[1]
            } else {
                r matches Err(x) && is_arity_error(new, x.ptr(), "quote"@, 1, (e.len() - 1) as usize)
            },
            Form::Lambda => allocates(old, new) && function_outcome(old, new, r, e.skip(1),
                if old.live(env) { env } else { None }, module, "lambda"@, FunctionKind::Lambda),
            Form::If => e.len() != 4 && allocates(old, new)
                && (r matches Err(x) && is_arity_error(new, x.ptr(), "if"@, 3, (e.len() - 1) as usize)),
            Form::TrapForm => allocates(old, new) && if e.len() == 3 {
                r matches Ok(x) && new.value_of(x.ptr()) == Some(PrimitiveValue::Trap(Trap { normal_body: e[1], trap_body: e[2] }))
            } else {
                r matches Err(x) && is_arity_error(new, x.ptr(), "trap"@, 2, (e.len() - 1) as usize)
            },
            _ => false,
        }
    }
}

/// The pointers `ps`, with those that are not live in `mem` replaced by nil.
pub open spec fn live_ptrs(mem: &Memory, ps: Seq<Option<usize>>) -> Seq<Option<usize>> {
    ps.map_values(|p: Option<usize>| if mem.live(p) { p } else { None })
}

/// `p` where it is live in `mem`, nil otherwise.
pub open spec fn live_or_nil(mem: &Memory, p: Option<usize>) -> Option<usize> {
    if mem.live(p) { p } else { None }
}

/// The name a call reports in its errors: the name the reader recorded for the call, or
/// `#<function>`.
pub open spec fn call_name(mem: &Memory, expr: Option<usize>) -> Seq<char> {
    match mem.meta_of(expr) {
        Some(md) => md.read_name@,
        None => "#<function>"@,
    }
}

/// `new` comes from `old` by binding `*trapped-signal*` to `signal` in front of `env`: the
/// environment `ne` is `((*trapped-signal* . SIGNAL) . ENV)`.
pub open spec fn trap_binding(old: &Memory, new: &Memory, signal: Option<usize>, env: Option<usize>, ne: Option<usize>) -> bool {
    &&& old.evolves(new)
    &&& new.modules == old.modules
    &&& new.current_module == old.current_module
    &&& new.value_of(ne) matches Some(PrimitiveValue::Cons(c))
    &&& c.cdr == (if old.live(env) { env } else { None })
    &&& new.value_of(c.car) matches Some(PrimitiveValue::Cons(b))
    &&& is_symbol_named(new, b.car, "*trapped-signal*"@)
    &&& b.cdr == (if old.live(signal) { signal } else { None })
}

/// Evaluating the expressions `exprs` one after the other from `old`, each one level deeper:
/// the values of all of them, or the first signal.
pub open spec fn args_eval(old: Memory, new: Memory, exprs: Seq<Option<usize>>, env: Option<usize>, module: Seq<char>,
    depth: usize, r: Result<Seq<GcRef>, GcRef>) -> bool
    decreases depth_measure(depth), 0nat, 0nat,
{
    if depth > config::MAX_RECURSION_DEPTH {
        false
    } else {
        exists|mems: Seq<Memory>, vals: Seq<GcRef>| #[trigger] args_run(mems, vals, exprs) && mems[0] == old
            && mems.len() == vals.len() + 1 && vals.len() <= exprs.len()
            && (forall|k: int| 0 <= k < vals.len() ==>
                evaluates(mems[k], mems[k + 1], exprs[k], env, module, (depth + 1) as usize,
                    config::MAX_EVALUATION_STEPS as nat, Ok(#[trigger] vals[k])))
            && if vals.len() == exprs.len() {
                new == mems.last() && r == Ok::<Seq<GcRef>, GcRef>(vals)
            } else {
                r matches Err(x) && evaluates(mems.last(), new, exprs[vals.len() as int], env, module, (depth + 1) as usize,
                    config::MAX_EVALUATION_STEPS as nat, Err(x))
            }
    }
}

/// What the native function `id` gives on `args` in the environment `env`.
pub open spec fn native_gives(id: NativeId, old: &Memory, new: &Memory, args: Seq<GcRef>, env: Option<usize>, depth: usize,
    r: Result<GcRef, GcRef>) -> bool
    decreases depth_measure(depth), 8nat, 0nat,
{
    exists|g: GcRef| #[trigger] g.ptr() == env && native_outcome(id, old, new, args, g, depth, r)
}

/// A trigger term with no content (it always holds): the quantifiers over intermediate heaps in
/// the relations below are instantiated through it, as a trigger on a recursive relation itself
/// does not match across its unfoldings.
pub open spec fn eval_trigger(m: Memory, r: Result<GcRef, GcRef>) -> bool {
    true
}

/// A trigger term with no content (it always holds): the quantifiers over intermediate heaps in
/// the relations below are instantiated through it, as a trigger on a recursive relation itself
/// does not match across its unfoldings.
pub open spec fn eval_all_trigger(m: Memory, r: Result<Seq<GcRef>, GcRef>) -> bool {
    true
}

/// A run of evaluations: its memories, its values and the expressions, as a trigger.
pub open spec fn args_run(mems: Seq<Memory>, vals: Seq<GcRef>, exprs: Seq<Option<usize>>) -> bool {
    mems.len() == vals.len() + 1
}

/// What evaluating `expr` in the environment `env`, with globals seen from the module
/// `module`, at recursion depth `depth` and with `fuel` steps left, may give as the heap goes
/// from `old` to `new`. A call evaluates its operator, then its arguments from left to right;
/// a native function is run on their values, `eval` expands and evaluates its argument in
/// place, and a function defined in Lisp has its body evaluated in the environment that binds
/// its parameters in front of its own environment, seen from its own module. `if` evaluates
/// its condition and then the branch that nil or anything else picks. A trap evaluates its
/// normal body; a signal other than nil evaluates the trap body with `*trapped-signal*` bound
/// to it. A cons cell that starts no list evaluates both parts into a new cons cell.
pub open spec fn evaluates(old: Memory, new: Memory, expr: Option<usize>, env: Option<usize>, module: Seq<char>,
    depth: usize, fuel: nat, r: Result<GcRef, GcRef>) -> bool
    decreases depth_measure(depth), 1nat, fuel,
{
    let e = list_elems(&old, expr)->0;
    let deeper = (depth + 1) as usize;
    let steps = config::MAX_EVALUATION_STEPS as nat;
    if depth > config::MAX_RECURSION_DEPTH {
        allocates(&old, &new) && (r matches Err(x) && is_error(&new, x.ptr(), "stackoverflow"@, "eval"@, seq![], seq![]))
    } else if fuel == 0 {
        allocates(&old, &new) && (r matches Err(x) && is_error(&new, x.ptr(), "evaluation-step-limit"@, "eval"@, seq![], seq![]))
    } else {
        match eval_form(&old, expr) {
            Form::If => if e.len() != 4 {
                eval_outcome(&old, &new, r, expr, env, module, depth)
            } else {
                exists|m1: Memory, c: Result<GcRef, GcRef>| #[trigger] eval_trigger(m1, c) && evaluates(old, m1, e[1], env, module, deeper, steps, c)
                    && match c {
                        Err(x) => new == m1 && r == Err::<GcRef, GcRef>(x),
                        Ok(v) => evaluates(m1, new, if m1.is_nil_ptr(v.ptr()) { e[3] } else { e[2] }, env, module, depth,
                            (fuel - 1) as nat, r),
                    }
            },
            Form::Call => exists|m1: Memory, o: Result<GcRef, GcRef>| #[trigger] eval_trigger(m1, o) && evaluates(old, m1, e[0], env, module, deeper, steps, o)
                && match o {
                    Err(x) => new == m1 && r == Err::<GcRef, GcRef>(x),
                    Ok(op) => match m1.value_of(op.ptr()) {
                        Some(PrimitiveValue::Function(f)) => exists|m2: Memory, vs: Result<Seq<GcRef>, GcRef>|
                            #[trigger] eval_all_trigger(m2, vs) && args_eval(m1, m2, e.skip(1), env, module, depth, vs) && match vs {
                                Err(x) => new == m2 && r == Err::<GcRef, GcRef>(x),
                                Ok(values) => match f {
                                    Function::NativeFunction(nf) => if nf.function == NativeId::Eval {
                                        if values.len() != 1 {
                                            allocates(&m2, &new) && (r matches Err(x) && is_arity_error(&new, x.ptr(), "eval"@, 1, values.len() as usize))
                                        } else {
                                            exists|m3: Memory, x: Result<GcRef, GcRef>|
                                                #[trigger] eval_trigger(m3, x) && completion_outcome(&m2, &m3, x, values[0].ptr(), env, module, deeper)
                                                && m2.evolves(&m3)
                                                && match x {
                                                    Err(y) => new == m3 && r == Err::<GcRef, GcRef>(y),
                                                    Ok(ex) => evaluates(m3, new, ex.ptr(), env, module, depth, (fuel - 1) as nat, r),
                                                }
                                        }
                                    } else {
                                        native_gives(nf.function, &m2, &new, values, env, deeper, r)
                                    },
                                    Function::NormalFunction(nf) => exists|m3: Memory, pr: Result<GcRef, GcRef>|
                                        #[trigger] eval_trigger(m3, pr) && pairing_outcome(&m2, &m3, pr, live_ptrs(&m2, nf.parameters@), nf.has_rest_params,
                                            live_or_nil(&m2, nf.environment), call_name(&old, expr), values)
                                        && allocates(&m2, &m3)
                                        && match pr {
                                            Err(x) => new == m3 && r == Err::<GcRef, GcRef>(x),
                                            Ok(ne) => evaluates(m3, new, nf.body, ne.ptr(), nf.environment_module@, depth,
                                                (fuel - 1) as nat, r),
                                        },
                                },
                            },
                        _ => allocates(&m1, &new) && (r matches Err(x) && is_error(&new, x.ptr(), "eval-bad-operator"@, "eval"@,
                            seq!["symbol"@], seq![if m1.live(e[0]) { e[0] } else { None }])),
                    },
                },
            Form::Pair => {
                let c = old.value_of(expr)->0->Cons_0;
                exists|m1: Memory, a: Result<GcRef, GcRef>| #[trigger] eval_trigger(m1, a) && evaluates(old, m1, c.car, env, module, deeper, steps, a)
                    && match a {
                        Err(x) => new == m1 && r == Err::<GcRef, GcRef>(x),
                        Ok(av) => exists|m2: Memory, d: Result<GcRef, GcRef>| #[trigger] eval_trigger(m2, d) && evaluates(m1, m2, c.cdr, env, module, deeper, steps, d)
                            && match d {
                                Err(x) => new == m2 && r == Err::<GcRef, GcRef>(x),
                                Ok(dv) => r matches Ok(p) && p.ptr() is Some && m2.allocated(&new, p.ptr()->0)
                                    && new.mv(p.ptr()->0 as int) == MetaValue::Value(PrimitiveValue::Cons(ConsCell {
                                        car: if m2.live(av.ptr()) { av.ptr() } else { None },
                                        cdr: if m2.live(dv.ptr()) { dv.ptr() } else { None },
                                    })),
                            },
                    }
            },
            Form::TrapValue => {
                let t = old.value_of(expr)->0->Trap_0;
                exists|m1: Memory, n: Result<GcRef, GcRef>| #[trigger] eval_trigger(m1, n) && evaluates(old, m1, t.normal_body, env, module, deeper, steps, n)
                    && match n {
                        Ok(x) => new == m1 && r == Ok::<GcRef, GcRef>(x),
                        Err(sig) => if m1.is_nil_ptr(sig.ptr()) {
                            new == m1 && r == Err::<GcRef, GcRef>(sig)
                        } else {
                            exists|m2: Memory, ne: Option<usize>| #[trigger] trap_binding(&m1, &m2, sig.ptr(), env, ne)
                                && evaluates(m2, new, t.trap_body, ne, module, deeper, steps, r)
                        },
                    }
            },
            _ => eval_outcome(&old, &new, r, expr, env, module, depth),
        }
    }
}

/// How far a recursion depth is below the limit.
pub open spec fn depth_measure(depth: usize) -> nat {
    if depth <= config::MAX_RECURSION_DEPTH { (config::MAX_RECURSION_DEPTH + 1 - depth) as nat } else { 0 }
}

/// The handles of `v` from position `from` on.
fn rest_of(v: &Vec<GcRef>, from: usize) -> (r: Vec<GcRef>)
    requires
        from <= v@.len(),
    ensures
        ptrs(r@) == ptrs(v@).skip(from as int),
{
    let mut r: Vec<GcRef> = Vec::new();
    let mut k: usize = from;
    while k < v.len()
        invariant
            from <= k <= v@.len(),
            r@.len() == k - from,
            forall|q: int| 0 <= q < r@.len() ==> #[trigger] r@[q].ptr() == v@[q + from].ptr(),
        decreases v@.len() - k,
    {
        r.push(v[k].clone());
        k = k + 1;
    }
    assert(ptrs(r@) =~= ptrs(v@).skip(from as int));
    r
}

/// What a function value holds, taken out of the heap.
enum Callee {
    Native(NativeId),
    Normal { params: Vec<GcRef>, has_rest: bool, body: GcRef, env: GcRef, module: String },
    NotAFunction,
}

/// `c` is what the function value `f` holds in `mem`.
spec fn callee_matches(mem: &Memory, f: Option<usize>, c: Callee) -> bool {
    match c {
        Callee::Native(id) => mem.value_of(f) matches Some(PrimitiveValue::Function(Function::NativeFunction(nf)))
            && nf.function == id,
        Callee::Normal { params, has_rest, body, env, module } =>
            mem.value_of(f) matches Some(PrimitiveValue::Function(Function::NormalFunction(nf)))
            && ptrs(params@) == nf.parameters@ && has_rest == nf.has_rest_params && body.ptr() == nf.body
            && env.ptr() == nf.environment && module@ == nf.environment_module@,
        Callee::NotAFunction => !(mem.value_of(f) matches Some(PrimitiveValue::Function(_))),
    }
}

/// The function `f` denotes, taken out of the heap.
fn callee_of(mem: &Memory, f: &GcRef) -> (r: Callee)
    requires
        mem.wf(),
    ensures
        callee_matches(mem, f.ptr(), r),
{
    match f.get(mem) {
        Some(PrimitiveValue::Function(Function::NativeFunction(nf))) => Callee::Native(nf.function),
        Some(PrimitiveValue::Function(Function::NormalFunction(nf))) => {
            let mut params: Vec<GcRef> = Vec::new();
            let mut k: usize = 0;
            while k < nf.parameters.len()
                invariant
                    k <= nf.parameters@.len(),
                    params@.len() == k,
                    forall|q: int| 0 <= q < k ==> #[trigger] params@[q].ptr() == nf.parameters@[q],
                decreases nf.parameters@.len() - k,
            {
                params.push(mem.make_ref(nf.parameters[k]));
                k = k + 1;
            }
            proof {
                assert(ptrs(params@) =~= nf.parameters@);
            }
            Callee::Normal {
                params,
                has_rest: nf.has_rest_params,
                body: mem.make_ref(nf.body),
                env: mem.make_ref(nf.environment),
                module: nf.environment_module.clone(),
            }
        },
        _ => Callee::NotAFunction,
    }
}

/// Evaluating `expr` from `m` with `fuel` steps left carries on the evaluation of `e0` from
/// `m0`: whatever the former gives, the latter gives.
spec fn resumes(m0: Memory, e0: Option<usize>, env0: Option<usize>, mod0: Seq<char>, depth: usize, m: Memory,
    expr: Option<usize>, env: Option<usize>, module: Seq<char>, fuel: nat) -> bool
{
    forall|n: Memory, res: Result<GcRef, GcRef>| #[trigger] evaluates(m, n, expr, env, module, depth, fuel, res)
        ==> evaluates(m0, n, e0, env0, mod0, depth, config::MAX_EVALUATION_STEPS as nat, res)
}

/// An `if` whose condition gave `c` goes on with the branch that `c` picks: what that branch
/// gives, the `if` gives.
pub proof fn lemma_if_step(m1: Memory, m2: Memory, expr: Option<usize>, env: Option<usize>, module: Seq<char>,
    depth: usize, fuel: nat, c: GcRef, branch: Option<usize>)
    requires
        depth <= config::MAX_RECURSION_DEPTH,
        fuel > 0,
        eval_form(&m1, expr) == Form::If,
        branch == (if m2.is_nil_ptr(c.ptr()) { list_elems(&m1, expr)->0[3] } else { list_elems(&m1, expr)->0[2] }),
        list_elems(&m1, expr)->0.len() == 4,
        evaluates(m1, m2, list_elems(&m1, expr)->0[1], env, module, (depth + 1) as usize,
            config::MAX_EVALUATION_STEPS as nat, Ok(c)),
    ensures
        forall|n: Memory, res: Result<GcRef, GcRef>|
            #[trigger] evaluates(m2, n, branch, env, module, depth, (fuel - 1) as nat, res)
                ==> evaluates(m1, n, expr, env, module, depth, fuel, res),
{
    let e = list_elems(&m1, expr)->0;
    assert forall|n: Memory, res: Result<GcRef, GcRef>|
        #[trigger] evaluates(m2, n, branch, env, module, depth, (fuel - 1) as nat, res)
            implies evaluates(m1, n, expr, env, module, depth, fuel, res) by {
        assert(evaluates(m1, m2, e[1], env, module, (depth + 1) as usize, config::MAX_EVALUATION_STEPS as nat, Ok(c)));
        assert(eval_trigger(m2, Ok(c)));
    }
}

/// A call of `eval` whose argument expanded to `x` goes on with `x`: what evaluating `x` gives,
/// the call gives.
pub proof fn lemma_eval_step(m1: Memory, m2: Memory, m4: Memory, m5: Memory, expr: Option<usize>, env: Option<usize>,
    module: Seq<char>, depth: usize, fuel: nat, op: GcRef, values: Seq<GcRef>, x: GcRef)
    requires
        depth <= config::MAX_RECURSION_DEPTH,
        fuel > 0,
        eval_form(&m1, expr) == Form::Call,
        evaluates(m1, m2, list_elems(&m1, expr)->0[0], env, module, (depth + 1) as usize,
            config::MAX_EVALUATION_STEPS as nat, Ok(op)),
        m2.value_of(op.ptr()) matches Some(PrimitiveValue::Function(Function::NativeFunction(nf)))
            && nf.function == NativeId::Eval,
        args_eval(m2, m4, list_elems(&m1, expr)->0.skip(1), env, module, depth, Ok(values)),
        values.len() == 1,
        completion_outcome(&m4, &m5, Ok(x), values[0].ptr(), env, module, (depth + 1) as usize),
        m4.evolves(&m5),
    ensures
        forall|n: Memory, res: Result<GcRef, GcRef>|
            #[trigger] evaluates(m5, n, x.ptr(), env, module, depth, (fuel - 1) as nat, res)
                ==> evaluates(m1, n, expr, env, module, depth, fuel, res),
{
    let e = list_elems(&m1, expr)->0;
    assert forall|n: Memory, res: Result<GcRef, GcRef>|
        #[trigger] evaluates(m5, n, x.ptr(), env, module, depth, (fuel - 1) as nat, res)
            implies evaluates(m1, n, expr, env, module, depth, fuel, res) by {
        assert(evaluates(m1, m2, e[0], env, module, (depth + 1) as usize, config::MAX_EVALUATION_STEPS as nat, Ok(op)));
        assert(args_eval(m2, m4, e.skip(1), env, module, depth, Ok(values)));
        assert(eval_trigger(m2, Ok(op)));
        assert(eval_all_trigger(m4, Ok(values)));
        assert(completion_outcome(&m4, &m5, Ok(x), values[0].ptr(), env, module, (depth + 1) as usize));
        assert(eval_trigger(m5, Ok(x)));
    }
}

/// A call of a native function other than `eval` gives what the native function gives.
pub proof fn lemma_native_result(m1: Memory, m2: Memory, m4: Memory, new: Memory, expr: Option<usize>, env: Option<usize>,
    module: Seq<char>, depth: usize, fuel: nat, op: GcRef, id: NativeId, values: Seq<GcRef>, g: GcRef,
    r: Result<GcRef, GcRef>)
    requires
        depth <= config::MAX_RECURSION_DEPTH,
        fuel > 0,
        eval_form(&m1, expr) == Form::Call,
        evaluates(m1, m2, list_elems(&m1, expr)->0[0], env, module, (depth + 1) as usize,
            config::MAX_EVALUATION_STEPS as nat, Ok(op)),
        m2.value_of(op.ptr()) matches Some(PrimitiveValue::Function(Function::NativeFunction(nf)))
            && nf.function == id,
        id != NativeId::Eval,
        args_eval(m2, m4, list_elems(&m1, expr)->0.skip(1), env, module, depth, Ok(values)),
        g.ptr() == env,
        native_outcome(id, &m4, &new, values, g, (depth + 1) as usize, r),
    ensures
        evaluates(m1, new, expr, env, module, depth, fuel, r),
{
    assert(eval_trigger(m2, Ok(op)));
    assert(eval_all_trigger(m4, Ok(values)));
    assert(native_gives(id, &m4, &new, values, env, (depth + 1) as usize, r));
}

/// A call of a function defined in Lisp whose parameters were bound into `ne` goes on with the
/// function's body: what the body gives in that environment, seen from the function's module,
/// the call gives.
pub proof fn lemma_body_step(m1: Memory, m2: Memory, m4: Memory, m6: Memory, expr: Option<usize>, env: Option<usize>,
    module: Seq<char>, depth: usize, fuel: nat, op: GcRef, nf: NormalFunction, values: Seq<GcRef>, ne: GcRef)
    requires
        depth <= config::MAX_RECURSION_DEPTH,
        fuel > 0,
        eval_form(&m1, expr) == Form::Call,
        evaluates(m1, m2, list_elems(&m1, expr)->0[0], env, module, (depth + 1) as usize,
            config::MAX_EVALUATION_STEPS as nat, Ok(op)),
        m2.value_of(op.ptr()) == Some(PrimitiveValue::Function(Function::NormalFunction(nf))),
        args_eval(m2, m4, list_elems(&m1, expr)->0.skip(1), env, module, depth, Ok(values)),
        pairing_outcome(&m4, &m6, Ok(ne), live_ptrs(&m4, nf.parameters@), nf.has_rest_params,
            live_or_nil(&m4, nf.environment), call_name(&m1, expr), values),
        allocates(&m4, &m6),
    ensures
        forall|n: Memory, res: Result<GcRef, GcRef>|
            #[trigger] evaluates(m6, n, nf.body, ne.ptr(), nf.environment_module@, depth, (fuel - 1) as nat, res)
                ==> evaluates(m1, n, expr, env, module, depth, fuel, res),
{
    let e = list_elems(&m1, expr)->0;
    assert forall|n: Memory, res: Result<GcRef, GcRef>|
        #[trigger] evaluates(m6, n, nf.body, ne.ptr(), nf.environment_module@, depth, (fuel - 1) as nat, res)
            implies evaluates(m1, n, expr, env, module, depth, fuel, res) by {
        assert(evaluates(m1, m2, e[0], env, module, (depth + 1) as usize, config::MAX_EVALUATION_STEPS as nat, Ok(op)));
        assert(args_eval(m2, m4, e.skip(1), env, module, depth, Ok(values)));
        assert(eval_trigger(m2, Ok(op)));
        assert(eval_all_trigger(m4, Ok(values)));
        assert(pairing_outcome(&m4, &m6, Ok(ne), live_ptrs(&m4, nf.parameters@), nf.has_rest_params,
            live_or_nil(&m4, nf.environment), call_name(&m1, expr), values));
        assert(eval_trigger(m6, Ok(ne)));
    }
}

/// A trap whose normal body signalled `sig`, other than nil, gives what its trap body gives where
/// `*trapped-signal*` is bound to `sig`.
pub proof fn lemma_trap_catches(m1: Memory, m2: Memory, m3: Memory, new: Memory, expr: Option<usize>,
    env: Option<usize>, module: Seq<char>, depth: usize, fuel: nat, sig: GcRef, ne: Option<usize>,
    r: Result<GcRef, GcRef>)
    requires
        depth <= config::MAX_RECURSION_DEPTH,
        fuel > 0,
        eval_form(&m1, expr) == Form::TrapValue,
        evaluates(m1, m2, m1.value_of(expr)->0->Trap_0.normal_body, env, module, (depth + 1) as usize,
            config::MAX_EVALUATION_STEPS as nat, Err(sig)),
        !m2.is_nil_ptr(sig.ptr()),
        trap_binding(&m2, &m3, sig.ptr(), env, ne),
        evaluates(m3, new, m1.value_of(expr)->0->Trap_0.trap_body, ne, module, (depth + 1) as usize,
            config::MAX_EVALUATION_STEPS as nat, r),
    ensures
        evaluates(m1, new, expr, env, module, depth, fuel, r),
{
    assert(eval_trigger(m2, Err(sig)));
}

/// What carries on from a state of the evaluation gives what the evaluation gives.
proof fn lemma_resume(m0: Memory, e0: Option<usize>, env0: Option<usize>, mod0: Seq<char>, depth: usize, m: Memory,
    expr: Option<usize>, env: Option<usize>, module: Seq<char>, fuel: nat, n: Memory, res: Result<GcRef, GcRef>)
    requires
        resumes(m0, e0, env0, mod0, depth, m, expr, env, module, fuel),
        evaluates(m, n, expr, env, module, depth, fuel, res),
    ensures
        evaluates(m0, n, e0, env0, mod0, depth, config::MAX_EVALUATION_STEPS as nat, res),
{
}

/// A step of the evaluation that goes on in place keeps it carrying on.
proof fn lemma_resumes_step(m0: Memory, e0: Option<usize>, env0: Option<usize>, mod0: Seq<char>, depth: usize,
    m1: Memory, x1: Option<usize>, env1: Option<usize>, mod1: Seq<char>, fuel: nat,
    m2: Memory, x2: Option<usize>, env2: Option<usize>, mod2: Seq<char>)
    requires
        fuel > 0,
        resumes(m0, e0, env0, mod0, depth, m1, x1, env1, mod1, fuel),
        forall|n: Memory, res: Result<GcRef, GcRef>|
            #[trigger] evaluates(m2, n, x2, env2, mod2, depth, (fuel - 1) as nat, res)
                ==> evaluates(m1, n, x1, env1, mod1, depth, fuel, res),
    ensures
        resumes(m0, e0, env0, mod0, depth, m2, x2, env2, mod2, (fuel - 1) as nat),
{
}

/// Evaluates `expression` in the environment `env`, with globals seen from the module
/// `env_module`. Calls of functions defined in Lisp and the branches of `if` are evaluated in
/// place rather than by a deeper call.
#[verifier::rlimit(60)]
pub fn eval_internal(mem: &mut Memory, expression: GcRef, env: GcRef, env_module: String, recursion_depth: usize)
    -> (r: Result<GcRef, GcRef>)
    requires
        old(mem).wf(),
    ensures
        old(mem).evolves(&*final(mem)),
        evaluates(*old(mem), *final(mem), expression.ptr(), env.ptr(), env_module@, recursion_depth,
            config::MAX_EVALUATION_STEPS as nat, r),
    decreases depth_measure(recursion_depth), 1nat,
{
    let ghost m0 = *mem;
    if recursion_depth > config::MAX_RECURSION_DEPTH {
        return Err(make_error(mem, "stackoverflow", "eval", &[]));
    }
    let ghost e0 = expression.ptr();
    let ghost env0 = env.ptr();
    let ghost mod0 = env_module@;
    let mut expr = expression.clone();
    let mut cur_env = env.clone();
    let mut module = env_module.clone();
    let mut fuel: u64 = config::MAX_EVALUATION_STEPS;
    proof { m0.lemma_evolves_refl(); }
    loop
        invariant
            m0.wf(),
            m0 == *old(mem),
            m0.evolves(&*mem),
            recursion_depth <= config::MAX_RECURSION_DEPTH,
            e0 == expression.ptr(),
            env0 == env.ptr(),
            mod0 == env_module@,
            fuel == config::MAX_EVALUATION_STEPS ==> *mem == m0 && expr.ptr() == e0 && cur_env.ptr() == env0
                && module@ == mod0,
            fuel < config::MAX_EVALUATION_STEPS ==> ((eval_form(&m0, e0) == Form::If && list_elems(&m0, e0)->0.len() == 4) || eval_form(&m0, e0) == Form::Call),
            resumes(m0, e0, env0, mod0, recursion_depth, *mem, expr.ptr(), cur_env.ptr(), module@, fuel as nat),
        decreases fuel,
    {
        let ghost m1 = *mem;
        let ghost x1 = expr.ptr();
        let ghost env1 = cur_env.ptr();
        let ghost mod1 = module@;
        let ghost f1 = fuel as nat;
        let ghost deeper = (recursion_depth + 1) as usize;
        let ghost steps = config::MAX_EVALUATION_STEPS as nat;
        if fuel == 0 {
            let e = make_error(mem, "evaluation-step-limit", "eval", &[]);
            proof {
                m0.lemma_evolves_trans(&m1, &*mem);
                lemma_resume(m0, e0, env0, mod0, recursion_depth, m1, x1, env1, mod1, f1, *mem, Err(e));
            }
            return Err(e);
        }
        let name = match expr.get_meta(mem) {
            Some(md) => Some(md.read_name.clone()),
            None => None,
        };
        proof {
            assert(match name { Some(n) => n@, None => "#<function>"@ } == call_name(&m1, x1));
        }
        let (form, elems) = classify(mem, &expr);
        proof {
            if list_elems(&m1, expr.ptr()) is Some {
                crate::util::lemma_elems_live(&m1, expr.ptr());
            }
        }
        match form {
            Form::Nil => {
                let r = GcRef::nil();
                proof { lemma_resume(m0, e0, env0, mod0, recursion_depth, m1, x1, env1, mod1, f1, *mem, Ok(r)); }
                return Ok(r);
            },
            Form::SelfEvaluating => {
                proof { lemma_resume(m0, e0, env0, mod0, recursion_depth, m1, x1, env1, mod1, f1, *mem, Ok(expr)); }
                return Ok(expr);
            },
            Form::Symbol => {
                let r = eval_symbol(mem, &expr, &cur_env, module.as_str(), "eval");
                proof {
                    m0.lemma_evolves_trans(&m1, &*mem);
                    lemma_resume(m0, e0, env0, mod0, recursion_depth, m1, x1, env1, mod1, f1, *mem, r);
                }
                return r;
            },
            Form::Quote => {
                if elems.len() != 2 {
                    let e = arity_error(mem, "quote", 1, elems.len() - 1);
                    proof {
                        m0.lemma_evolves_trans(&m1, &*mem);
                        lemma_resume(m0, e0, env0, mod0, recursion_depth, m1, x1, env1, mod1, f1, *mem, Err(e));
                    }
                    return Err(e);
                }
                let q = elems[1].clone();
                proof {
                    m1.lemma_evolves_refl();
                    assert(ptrs(elems@)[1] == elems@[1].ptr());
                    lemma_resume(m0, e0, env0, mod0, recursion_depth, m1, x1, env1, mod1, f1, *mem, Ok(q));
                }
                return Ok(q);
            },
            Form::Lambda => {
                let rest = rest_of(&elems, 1);
                proof {
                    assert(rest@.len() == elems@.len() - 1) by {
                        assert(ptrs(rest@).len() == ptrs(elems@).skip(1).len());
                    }
                    assert forall|q: int| 0 <= q < rest@.len() implies m1.live(#[trigger] rest@[q].ptr()) by {
                        assert(ptrs(rest@)[q] == rest@[q].ptr());
                        assert(ptrs(elems@)[q + 1] == elems@[q + 1].ptr());
                    }
                    assert(sanitized(&m1, rest@) =~= ptrs(rest@));
                }
                let r = make_function_internal(mem, rest.as_slice(), cur_env.clone(), module.as_str(), "lambda",
                    FunctionKind::Lambda);
                proof {
                    m0.lemma_evolves_trans(&m1, &*mem);
                    lemma_resume(m0, e0, env0, mod0, recursion_depth, m1, x1, env1, mod1, f1, *mem, r);
                }
                return r;
            },
            Form::TrapForm => {
                let rest = rest_of(&elems, 1);
                proof {
                    assert(rest@.len() == elems@.len() - 1) by {
                        assert(ptrs(rest@).len() == ptrs(elems@).skip(1).len());
                    }
                    assert forall|q: int| 0 <= q < rest@.len() implies m1.live(#[trigger] rest@[q].ptr()) by {
                        assert(ptrs(rest@)[q] == rest@[q].ptr());
                        assert(ptrs(elems@)[q + 1] == elems@[q + 1].ptr());
                    }
                    assert(sanitized(&m1, rest@) =~= ptrs(rest@));
                }
                let r = make_trap_named(mem, rest.as_slice(), "trap");
                proof {
                    m0.lemma_evolves_trans(&m1, &*mem);
                    lemma_resume(m0, e0, env0, mod0, recursion_depth, m1, x1, env1, mod1, f1, *mem, r);
                }
                return r;
            },
            Form::If => {
                if elems.len() != 4 {
                    let e = arity_error(mem, "if", 3, elems.len() - 1);
                    proof {
                        m0.lemma_evolves_trans(&m1, &*mem);
                        lemma_resume(m0, e0, env0, mod0, recursion_depth, m1, x1, env1, mod1, f1, *mem, Err(e));
                    }
                    return Err(e);
                }
                proof { assert(ptrs(elems@)[1] == elems@[1].ptr()); }
                let condition = eval_internal(mem, elems[1].clone(), cur_env.clone(), module.clone(), recursion_depth + 1);
                let ghost m2 = *mem;
                proof { m0.lemma_evolves_trans(&m1, &*mem); }
                match condition {
                    Ok(c) => {
                        if !c.is_nil(mem) {
                            expr = elems[2].clone();
                        } else {
                            expr = elems[3].clone();
                        }
                        fuel = fuel - 1;
                        proof {
                            assert(ptrs(elems@)[2] == elems@[2].ptr());
                            assert(ptrs(elems@)[3] == elems@[3].ptr());
                            lemma_if_step(m1, m2, x1, env1, mod1, recursion_depth, f1, c, expr.ptr());
                            lemma_resumes_step(m0, e0, env0, mod0, recursion_depth, m1, x1, env1, mod1, f1,
                                m2, expr.ptr(), env1, mod1);
                        }
                    },
                    Err(e) => {
                        proof {
                            assert(eval_trigger(m2, Err(e)));
                            assert(evaluates(m1, m2, x1, env1, mod1, recursion_depth, f1, Err(e)));
                            lemma_resume(m0, e0, env0, mod0, recursion_depth, m1, x1, env1, mod1, f1, *mem, Err(e));
                        }
                        return Err(e);
                    },
                }
            },
            Form::Call => {
                proof { assert(ptrs(elems@)[0] == elems@[0].ptr()); }
                let operator = match eval_internal(mem, elems[0].clone(), cur_env.clone(), module.clone(), recursion_depth + 1) {
                    Ok(o) => o,
                    Err(e) => {
                        proof {
                            m0.lemma_evolves_trans(&m1, &*mem);
                            assert(eval_trigger(*mem, Err(e)));
                            assert(evaluates(m1, *mem, x1, env1, mod1, recursion_depth, f1, Err(e)));
                            lemma_resume(m0, e0, env0, mod0, recursion_depth, m1, x1, env1, mod1, f1, *mem, Err(e));
                        }
                        return Err(e);
                    },
                };
                let ghost m2 = *mem;
                proof {
                    m0.lemma_evolves_trans(&m1, &m2);
                    assert(eval_trigger(m2, Ok(operator)));
                }
                let callee = callee_of(mem, &operator);
                if let Callee::NotAFunction = callee {
                    let details = [("symbol", elems[0].clone())];
                    let e = make_error(mem, "eval-bad-operator", "eval", &details);
                    proof {
                        m0.lemma_evolves_trans(&m2, &*mem);
                        let dv = kv_values(details@);
                        assert(kv_keys(details@) =~= seq!["symbol"@]);
                        assert(sanitized(&m2, dv) =~= seq![if m2.live(elems@[0].ptr()) { elems@[0].ptr() } else { None }]);
                        assert(evaluates(m1, *mem, x1, env1, mod1, recursion_depth, f1, Err(e)));
                        lemma_resume(m0, e0, env0, mod0, recursion_depth, m1, x1, env1, mod1, f1, *mem, Err(e));
                    }
                    return Err(e);
                }
                let ghost exprs = ptrs(elems@).skip(1);
                let ghost mut mems: Seq<Memory> = seq![m2];
                let mut values: Vec<GcRef> = Vec::new();
                let mut k: usize = 1;
                while k < elems.len()
                    invariant
                        m0.wf(),
                        m0 == *old(mem),
                        m0.evolves(&*mem),
                        recursion_depth <= config::MAX_RECURSION_DEPTH,
                        e0 == expression.ptr(),
                        env0 == env.ptr(),
                        mod0 == env_module@,
                        1 <= k <= elems@.len(),
                        fuel < config::MAX_EVALUATION_STEPS ==> ((eval_form(&m0, e0) == Form::If && list_elems(&m0, e0)->0.len() == 4) || eval_form(&m0, e0) == Form::Call),
                        fuel == config::MAX_EVALUATION_STEPS ==> eval_form(&m0, e0) == Form::Call,
                        fuel as nat == f1,
                        f1 > 0,
                        x1 == expr.ptr(),
                        env1 == cur_env.ptr(),
                        mod1 == module@,
                        deeper == (recursion_depth + 1) as usize,
                        steps == config::MAX_EVALUATION_STEPS as nat,
                        resumes(m0, e0, env0, mod0, recursion_depth, m1, x1, env1, mod1, f1),
                        eval_form(&m1, x1) == Form::Call,
                        list_elems(&m1, x1) == Some(ptrs(elems@)),
                        exprs == ptrs(elems@).skip(1),
                        evaluates(m1, m2, ptrs(elems@)[0], env1, mod1, deeper, steps, Ok(operator)),
                        eval_trigger(m2, Ok(operator)),
                        callee_matches(&m2, operator.ptr(), callee),
                        !(callee is NotAFunction),
                        (match name { Some(n) => n@, None => "#<function>"@ }) == call_name(&m1, x1),
                        mems.len() == values@.len() + 1,
                        values@.len() == k - 1,
                        mems[0] == m2,
                        mems.last() == *mem,
                        forall|q: int| 0 <= q < values@.len() ==>
                            evaluates(mems[q], mems[q + 1], exprs[q], env1, mod1, deeper, steps, Ok(#[trigger] values@[q])),
                    decreases elems@.len() - k,
                {
                    let ghost m3 = *mem;
                    proof { assert(exprs[k - 1] == elems@[k as int].ptr()); }
                    match eval_internal(mem, elems[k].clone(), cur_env.clone(), module.clone(), recursion_depth + 1) {
                        Ok(v) => {
                            proof {
                                m0.lemma_evolves_trans(&m3, &*mem);
                                mems = mems.push(*mem);
                            }
                            values.push(v);
                        },
                        Err(e) => {
                            proof {
                                m0.lemma_evolves_trans(&m3, &*mem);
                                assert(args_run(mems, values@, exprs));
                                assert(args_eval(m2, *mem, exprs, env1, mod1, recursion_depth, Err(e)));
                                assert(eval_all_trigger(*mem, Err(e)));
                                assert(evaluates(m1, *mem, x1, env1, mod1, recursion_depth, f1, Err(e)));
                                lemma_resume(m0, e0, env0, mod0, recursion_depth, m1, x1, env1, mod1, f1, *mem, Err(e));
                            }
                            return Err(e);
                        },
                    }
                    k = k + 1;
                }
                let ghost m4 = *mem;
                proof {
                    assert(args_run(mems, values@, exprs));
                    assert(args_eval(m2, m4, exprs, env1, mod1, recursion_depth, Ok(values@)));
                    assert(eval_all_trigger(m4, Ok(values@)));
                }
                match callee {
                    Callee::Native(id) => {
                        if id == NativeId::Eval {
                            if values.len() != 1 {
                                let e = arity_error(mem, "eval", 1, values.len());
                                proof {
                                    m0.lemma_evolves_trans(&m4, &*mem);
                                    assert(evaluates(m1, *mem, x1, env1, mod1, recursion_depth, f1, Err(e)));
                                    lemma_resume(m0, e0, env0, mod0, recursion_depth, m1, x1, env1, mod1, f1, *mem, Err(e));
                                }
                                return Err(e);
                            }
                            match macroexpand_completely(mem, values[0].clone(), cur_env.clone(), module.as_str(), recursion_depth + 1) {
                                Ok(x) => {
                                    proof { m0.lemma_evolves_trans(&m4, &*mem); }
                                    let ghost m5 = *mem;
                                    expr = x;
                                    fuel = fuel - 1;
                                    proof {
                                        lemma_eval_step(m1, m2, m4, m5, x1, env1, mod1, recursion_depth, f1, operator, values@, expr);
                                        lemma_resumes_step(m0, e0, env0, mod0, recursion_depth, m1, x1, env1, mod1, f1,
                                            m5, expr.ptr(), env1, mod1);
                                    }
                                },
                                Err(e) => {
                                    proof {
                                        m0.lemma_evolves_trans(&m4, &*mem);
                                        assert(eval_trigger(*mem, Err(e)));
                                        assert(evaluates(m1, *mem, x1, env1, mod1, recursion_depth, f1, Err(e)));
                                        lemma_resume(m0, e0, env0, mod0, recursion_depth, m1, x1, env1, mod1, f1, *mem, Err(e));
                                    }
                                    return Err(e);
                                },
                            }
                        } else {
                            let env_arg = cur_env.clone();
                            let ghost g = env_arg;
                            let r = call_native(mem, id, values.as_slice(), env_arg, recursion_depth + 1);
                            proof {
                                m0.lemma_evolves_trans(&m4, &*mem);
                                assert(native_outcome(id, &m4, &*mem, values@, g, deeper, r));
                                lemma_native_result(m1, m2, m4, *mem, x1, env1, mod1, recursion_depth, f1, operator, id,
                                    values@, g, r);
                                lemma_resume(m0, e0, env0, mod0, recursion_depth, m1, x1, env1, mod1, f1, *mem, r);
                            }
                            return r;
                        }
                    },
                    Callee::Normal { params, has_rest, body, env: fenv, module: fmodule } => {
                        let ghost nf = m2.value_of(operator.ptr())->0->Function_0->NormalFunction_0;
                        proof {
                            assert(live_ptrs(&m4, nf.parameters@) =~= sanitized(&m4, params@));
                        }
                        match pair_params_and_args(mem, params.as_slice(), has_rest, fenv, name, values.as_slice()) {
                            Ok(new_env) => {
                                proof { m0.lemma_evolves_trans(&m4, &*mem); }
                                let ghost m6 = *mem;
                                expr = body;
                                cur_env = new_env;
                                module = fmodule;
                                fuel = fuel - 1;
                                proof {
                                    lemma_body_step(m1, m2, m4, m6, x1, env1, mod1, recursion_depth, f1, operator, nf,
                                        values@, cur_env);
                                    lemma_resumes_step(m0, e0, env0, mod0, recursion_depth, m1, x1, env1, mod1, f1,
                                        m6, expr.ptr(), cur_env.ptr(), module@);
                                }
                            },
                            Err(e) => {
                                proof {
                                    m0.lemma_evolves_trans(&m4, &*mem);
                                    assert(eval_trigger(*mem, Err(e)));
                                    assert(evaluates(m1, *mem, x1, env1, mod1, recursion_depth, f1, Err(e)));
                                    lemma_resume(m0, e0, env0, mod0, recursion_depth, m1, x1, env1, mod1, f1, *mem, Err(e));
                                }
                                return Err(e);
                            },
                        }
                    },
                    Callee::NotAFunction => {
                        return Err(GcRef::nil());
                    },
                }
            },
            Form::Pair => {
                let r = eval_pair(mem, &expr, &cur_env, &module, recursion_depth, Ghost(f1));
                proof {
                    m0.lemma_evolves_trans(&m1, &*mem);
                    lemma_resume(m0, e0, env0, mod0, recursion_depth, m1, x1, env1, mod1, f1, *mem, r);
                }
                return r;
            },
            Form::TrapValue => {
                let r = eval_trap_value(mem, &expr, &cur_env, &module, recursion_depth, Ghost(f1));
                proof {
                    m0.lemma_evolves_trans(&m1, &*mem);
                    lemma_resume(m0, e0, env0, mod0, recursion_depth, m1, x1, env1, mod1, f1, *mem, r);
                }
                return r;
            },
        }
    }
}

/// Evaluates a cons cell that starts no list: both parts, into a new cons cell.
fn eval_pair(mem: &mut Memory, expr: &GcRef, env: &GcRef, module: &String, recursion_depth: usize,
    Ghost(fuel): Ghost<nat>) -> (r: Result<GcRef, GcRef>)
    requires
        old(mem).wf(),
        recursion_depth <= config::MAX_RECURSION_DEPTH,
        fuel > 0,
        eval_form(&*old(mem), expr.ptr()) == Form::Pair,
    ensures
        old(mem).evolves(&*final(mem)),
        evaluates(*old(mem), *final(mem), expr.ptr(), env.ptr(), module@, recursion_depth, fuel, r),
    decreases depth_measure(recursion_depth), 0nat,
{
    let ghost m1 = *mem;
    let (car, cdr) = match expr.get(mem) {
        Some(PrimitiveValue::Cons(c)) => (mem.make_ref(c.car), mem.make_ref(c.cdr)),
        _ => (GcRef::nil(), GcRef::nil()),
    };
    let a = match eval_internal(mem, car, env.clone(), module.clone(), recursion_depth + 1) {
        Ok(a) => a,
        Err(e) => {
            proof { assert(eval_trigger(*mem, Err(e))); }
            return Err(e);
        },
    };
    let ghost m2 = *mem;
    proof { assert(eval_trigger(m2, Ok(a))); }
    let d = match eval_internal(mem, cdr, env.clone(), module.clone(), recursion_depth + 1) {
        Ok(d) => d,
        Err(e) => {
            proof {
                m1.lemma_evolves_trans(&m2, &*mem);
                assert(eval_trigger(*mem, Err(e)));
            }
            return Err(e);
        },
    };
    let ghost m3 = *mem;
    proof {
        m1.lemma_evolves_trans(&m2, &m3);
        assert(eval_trigger(m3, Ok(d)));
    }
    let c = mem.allocate_cons(a, d);
    proof {
        m3.lemma_allocated_evolves(&*mem, c.ptr()->0);
        m1.lemma_evolves_trans(&m3, &*mem);
    }
    Ok(c)
}

/// Evaluates a trap: its normal body, and on a signal other than nil its trap body, with
/// `*trapped-signal*` bound to the signal.
#[verifier::rlimit(40)]
fn eval_trap_value(mem: &mut Memory, expr: &GcRef, env: &GcRef, module: &String, recursion_depth: usize,
    Ghost(fuel): Ghost<nat>) -> (r: Result<GcRef, GcRef>)
    requires
        old(mem).wf(),
        recursion_depth <= config::MAX_RECURSION_DEPTH,
        fuel > 0,
        eval_form(&*old(mem), expr.ptr()) == Form::TrapValue,
    ensures
        old(mem).evolves(&*final(mem)),
        evaluates(*old(mem), *final(mem), expr.ptr(), env.ptr(), module@, recursion_depth, fuel, r),
    decreases depth_measure(recursion_depth), 0nat,
{
    let ghost m1 = *mem;
    let (normal_body, trap_body) = match expr.get(mem) {
        Some(PrimitiveValue::Trap(t)) => (mem.make_ref(t.normal_body), mem.make_ref(t.trap_body)),
        _ => (GcRef::nil(), GcRef::nil()),
    };
    let signal = match eval_internal(mem, normal_body, env.clone(), module.clone(), recursion_depth + 1) {
        Ok(x) => {
            proof { assert(eval_trigger(*mem, Ok(x))); }
            return Ok(x);
        },
        Err(signal) => signal,
    };
    let ghost m2 = *mem;
    proof { assert(eval_trigger(m2, Err(signal))); }
    if signal.is_nil(mem) {
        return Err(signal);
    }
    let sig = mem.make_ref(mem.live_ptr(signal.pointer));
    let here = mem.make_ref(mem.live_ptr(env.pointer));
    let keep: Vec<GcRef> = vec![sig.clone(), here.clone()];
    let key = mem.symbol_for_keeping("*trapped-signal*", keep.as_slice());
    let ghost m3 = *mem;
    proof {
        assert(keep@[0].ptr() == sig.ptr());
        assert(keep@[1].ptr() == here.ptr());
        if m2.symbol_cell("*trapped-signal*"@) is None {
            m2.lemma_allocated_evolves(&m3, key.ptr()->0);
        } else {
            m2.lemma_evolves_refl();
        }
        m1.lemma_evolves_trans(&m2, &m3);
        assert(m3.used(key.ptr()->0 as int)) by {
            let k = choose|k: int| 0 <= k < m3.symbols@.len() && #[trigger] m3.symbols@[k].name@ == "*trapped-signal*"@;
            assert(m3.symbols@[k].cell == key.ptr()->0);
        }
        assert(m3.live(sig.ptr()));
        assert(m3.live(here.ptr()));
    }
    let keep2: Vec<GcRef> = vec![here.clone()];
    let pair = mem.allocate_cons_keeping(key.clone(), sig, keep2.as_slice());
    let ghost m4 = *mem;
    proof {
        assert(keep2@[0].ptr() == here.ptr());
        m3.lemma_allocated_evolves(&m4, pair.ptr()->0);
        m1.lemma_evolves_trans(&m3, &m4);
        assert(m4.live(here.ptr()));
    }
    let keep3: Vec<GcRef> = vec![key.clone()];
    let new_env = mem.allocate_cons_keeping(pair, here, keep3.as_slice());
    let ghost m5 = *mem;
    proof {
        assert(keep3@[0].ptr() == key.ptr());
        m4.lemma_allocated_evolves(&m5, new_env.ptr()->0);
        m1.lemma_evolves_trans(&m4, &m5);
        m2.lemma_evolves_trans(&m3, &m4);
        m2.lemma_evolves_trans(&m4, &m5);
        assert(m5.used(key.ptr()->0 as int));
        assert(m5.content(key.ptr()->0 as int) == m4.content(key.ptr()->0 as int));
        assert(m5.content(pair.ptr()->0 as int) == m4.content(pair.ptr()->0 as int));
        assert(is_symbol_named(&m5, key.ptr(), "*trapped-signal*"@));
        assert(trap_binding(&m2, &m5, signal.ptr(), env.ptr(), new_env.ptr()));
    }
    let r = eval_internal(mem, trap_body, new_env, module.clone(), recursion_depth + 1);
    proof { m1.lemma_evolves_trans(&m5, &*mem); }
    r
}

/// The forms that macro expansion tells apart.
#[derive(PartialEq, Eq, Structural, Clone, Copy)]
pub enum ExpansionForm {
    /// Nil, the empty list.
    Nil,
    /// `(macro PARAMS BODY)`.
    MacroLiteral,
    /// `(quote X)`, which is left alone.
    Quoted,
    /// Any other non-empty list.
    Call,
    /// A cons cell that does not start a proper list.
    Pair,
    /// A symbol.
    Symbol,
    /// Anything else, which is left alone.
    Other,
}

/// The form of `p` for macro expansion.
pub open spec fn expansion_form(mem: &Memory, p: Option<usize>) -> ExpansionForm {
    match list_elems(mem, p) {
        Some(e) => if e.len() == 0 {
            ExpansionForm::Nil
        } else if is_symbol_named(mem, e[0], "macro"@) {
            ExpansionForm::MacroLiteral
        } else if is_symbol_named(mem, e[0], "quote"@) {
            ExpansionForm::Quoted
        } else {
            ExpansionForm::Call
        },
        None => match mem.value_of(p) {
            Some(PrimitiveValue::Cons(_)) => ExpansionForm::Pair,
            Some(PrimitiveValue::Symbol(_)) => ExpansionForm::Symbol,
            _ => ExpansionForm::Other,
        },
    }
}

/// `p` denotes a macro.
pub open spec fn is_macro(mem: &Memory, p: Option<usize>) -> bool {
    match mem.value_of(p) {
        Some(PrimitiveValue::Function(Function::NativeFunction(f))) => f.kind == FunctionKind::Macro,
        Some(PrimitiveValue::Function(Function::NormalFunction(f))) => f.kind == FunctionKind::Macro,
        _ => false,
    }
}

/// What one step of expanding the symbol `sym` gives: the macro it is bound to, locally or
/// globally as seen from the current module, and otherwise the symbol itself; an
/// `ambiguous-name` error where more than one module binds it visibly.
pub open spec fn macro_symbol_outcome(old: &Memory, new: &Memory, r: Result<GcRef, GcRef>, sym: Option<usize>,
    env: Option<usize>, was_changed: bool, changed: bool) -> bool
{
    let name = key_of(old, sym)->0;
    let vis = visible_modules(old.modules@, name, old.current().name@);
    let bound = match env_lookup(old, env, sym) {
        Some(v) => Some(v),
        None => if vis.len() == 1 { vis[0].lookup(name) } else { None },
    };
    if env_lookup(old, env, sym) is None && vis.len() > 1 {
        &&& allocates(old, new)
        &&& changed == was_changed
        &&& r matches Err(e)
        &&& is_error(new, r->Err_0.ptr(), "ambiguous-name"@, "macroexpand"@, seq!["symbol"@, "conflicting-modules"@],
                seq![sym, list_elems(new, r->Err_0.ptr())->0[7]])
        &&& symbols_named(new, list_elems(new, r->Err_0.ptr())->0[7], module_names(vis))
    } else if bound is Some && is_macro(old, bound->0) {
        *new == *old && changed && (r matches Ok(x) && x.ptr() == bound->0)
    } else {
        *new == *old && changed == was_changed && (r matches Ok(x) && x.ptr() == sym)
    }
}

/// What one step of macro expansion of `expr` gives, for the forms that are settled without
/// expanding anything else. It holds of no other form: `expands` says what those give.
pub open spec fn expansion_outcome(old: &Memory, new: &Memory, r: Result<GcRef, GcRef>, expr: Option<usize>,
    env: Option<usize>, module: Seq<char>, depth: usize, was_changed: bool, changed: bool) -> bool
{
    let e = list_elems(old, expr)->0;
    if depth > config::MAX_RECURSION_DEPTH {
        &&& allocates(old, new)
        &&& changed == was_changed
        &&& r matches Err(x) && is_error(new, x.ptr(), "stackoverflow"@, "macroexpand"@, seq![], seq![])
    } else {
        match expansion_form(old, expr) {
            ExpansionForm::Nil => *new == *old && changed == was_changed && (r matches Ok(x) && x.ptr() is None),
            ExpansionForm::Quoted | ExpansionForm::Other => *new == *old && changed == was_changed
                && (r matches Ok(x) && x.ptr() == expr),
            ExpansionForm::MacroLiteral => allocates(old, new) && changed == was_changed && function_outcome(old, new, r,
                e.skip(1), if old.live(env) { env } else { None }, module, "macro"@, FunctionKind::Macro),
            ExpansionForm::Symbol => macro_symbol_outcome(old, new, r, expr, env, was_changed, changed),
            _ => false,
        }
    }
}

/// A trigger term with no content (it always holds): the quantifiers over intermediate heaps in
/// the relations below are instantiated through it, as a trigger on a recursive relation itself
/// does not match across its unfoldings.
pub open spec fn expand_trigger(m: Memory, r: Result<GcRef, GcRef>, changed: bool) -> bool {
    true
}

/// A trigger term with no content (it always holds): the quantifiers over intermediate heaps in
/// the relations below are instantiated through it, as a trigger on a recursive relation itself
/// does not match across its unfoldings.
pub open spec fn expand_all_trigger(m: Memory, r: Result<Seq<GcRef>, GcRef>, changed: bool) -> bool {
    true
}

/// A run of expansions: its heaps, its values and its flags, as a trigger.
pub open spec fn expand_run(mems: Seq<Memory>, vals: Seq<GcRef>, flags: Seq<bool>) -> bool {
    mems.len() == vals.len() + 1
}

/// One pass of macro expansion over `expr`, as the heap goes from `old` to `new` and the flag
/// from `was` to `now`. In a list that is not a `quote` or `macro` form, the head and then the
/// other elements are expanded, each one level deeper. Where the head expands to a macro, the
/// macro is applied to the expanded other elements (a macro defined in Lisp has its body
/// evaluated where its parameters are bound) and the flag is set; otherwise the result is a new
/// list of the head as written followed by the expanded elements. A cons cell that starts no list
/// has both its parts expanded into a new cons cell. The other forms are settled by
/// `expansion_outcome`.
pub open spec fn expands(old: Memory, new: Memory, expr: Option<usize>, env: Option<usize>, module: Seq<char>,
    depth: usize, was: bool, now: bool, r: Result<GcRef, GcRef>) -> bool
    decreases depth_measure(depth), 1nat, 0nat,
{
    let e = list_elems(&old, expr)->0;
    let deeper = (depth + 1) as usize;
    if depth > config::MAX_RECURSION_DEPTH {
        expansion_outcome(&old, &new, r, expr, env, module, depth, was, now)
    } else {
        match expansion_form(&old, expr) {
            ExpansionForm::Call => exists|m1: Memory, o: Result<GcRef, GcRef>, c1: bool| #[trigger] expand_trigger(m1, o, c1)
                && expands(old, m1, e[0], env, module, deeper, was, c1, o)
                && match o {
                    Err(x) => new == m1 && now == c1 && r == Err::<GcRef, GcRef>(x),
                    Ok(op) => exists|m2: Memory, vs: Result<Seq<GcRef>, GcRef>, c2: bool| #[trigger] expand_all_trigger(m2, vs, c2)
                        && expands_elems(m1, m2, e.skip(1), env, module, depth, c1, c2, vs)
                        && match vs {
                            Err(x) => new == m2 && now == c2 && r == Err::<GcRef, GcRef>(x),
                            Ok(args) => if is_macro(&m2, op.ptr()) {
                                now && match m2.value_of(op.ptr()) {
                                    Some(PrimitiveValue::Function(Function::NativeFunction(nf))) =>
                                        native_gives(nf.function, &m2, &new, args, env, deeper, r),
                                    Some(PrimitiveValue::Function(Function::NormalFunction(nf))) =>
                                        exists|m3: Memory, pr: Result<GcRef, GcRef>| #[trigger] eval_trigger(m3, pr)
                                            && pairing_outcome(&m2, &m3, pr, live_ptrs(&m2, nf.parameters@), nf.has_rest_params,
                                                live_or_nil(&m2, nf.environment), call_name(&old, expr), args)
                                            && allocates(&m2, &m3)
                                            && match pr {
                                                Err(x) => new == m3 && r == Err::<GcRef, GcRef>(x),
                                                Ok(ne) => evaluates(m3, new, nf.body, ne.ptr(), nf.environment_module@, deeper,
                                                    config::MAX_EVALUATION_STEPS as nat, r),
                                            },
                                    _ => false,
                                }
                            } else {
                                now == c2 && allocates(&m2, &new) && (r matches Ok(l)
                                    && list_elems(&new, l.ptr()) == Some(live_ptrs(&m2, seq![e[0]] + ptrs(args))))
                            },
                        },
                },
            ExpansionForm::Pair => {
                let c = old.value_of(expr)->0->Cons_0;
                exists|m1: Memory, a: Result<GcRef, GcRef>, c1: bool| #[trigger] expand_trigger(m1, a, c1)
                    && expands(old, m1, c.car, env, module, deeper, was, c1, a)
                    && match a {
                        Err(x) => new == m1 && now == c1 && r == Err::<GcRef, GcRef>(x),
                        Ok(av) => exists|m2: Memory, d: Result<GcRef, GcRef>, c2: bool| #[trigger] expand_trigger(m2, d, c2)
                            && expands(m1, m2, c.cdr, env, module, deeper, c1, c2, d)
                            && now == c2
                            && match d {
                                Err(x) => new == m2 && r == Err::<GcRef, GcRef>(x),
                                Ok(dv) => r matches Ok(p) && p.ptr() is Some && m2.allocated(&new, p.ptr()->0)
                                    && new.mv(p.ptr()->0 as int) == MetaValue::Value(PrimitiveValue::Cons(ConsCell {
                                        car: if m2.live(av.ptr()) { av.ptr() } else { None },
                                        cdr: if m2.live(dv.ptr()) { dv.ptr() } else { None },
                                    })),
                            },
                    }
            },
            _ => expansion_outcome(&old, &new, r, expr, env, module, depth, was, now),
        }
    }
}

/// Expanding the expressions `exprs` one after the other, each one level deeper: the
/// expansions of all of them, or the first error.
pub open spec fn expands_elems(old: Memory, new: Memory, exprs: Seq<Option<usize>>, env: Option<usize>, module: Seq<char>,
    depth: usize, was: bool, now: bool, r: Result<Seq<GcRef>, GcRef>) -> bool
    decreases depth_measure(depth), 0nat, 0nat,
{
    if depth > config::MAX_RECURSION_DEPTH {
        false
    } else {
        exists|mems: Seq<Memory>, vals: Seq<GcRef>, flags: Seq<bool>| #[trigger] expand_run(mems, vals, flags)
            && mems[0] == old && flags[0] == was && flags.len() == mems.len()
            && mems.len() == vals.len() + 1 && vals.len() <= exprs.len()
            && (forall|k: int| 0 <= k < vals.len() ==>
                expands(mems[k], mems[k + 1], exprs[k], env, module, (depth + 1) as usize, flags[k], flags[k + 1],
                    Ok(#[trigger] vals[k])))
            && if vals.len() == exprs.len() {
                new == mems.last() && now == flags.last() && r == Ok::<Seq<GcRef>, GcRef>(vals)
            } else {
                r matches Err(x) && expands(mems.last(), new, exprs[vals.len() as int], env, module, (depth + 1) as usize,
                    flags.last(), now, Err(x))
            }
    }
}

/// Expanding `expr` pass after pass, each pass one level deeper, with `fuel` passes left, until a
/// pass expands nothing: what the last pass gave, or the first error.
pub open spec fn completes(old: Memory, new: Memory, expr: Option<usize>, env: Option<usize>, module: Seq<char>,
    depth: usize, fuel: nat, r: Result<GcRef, GcRef>) -> bool
    decreases depth_measure(depth), 2nat, fuel,
{
    if depth + 1 > config::MAX_RECURSION_DEPTH {
        allocates(&old, &new) && (r matches Err(x) && is_error(&new, x.ptr(), "stackoverflow"@, "macroexpand"@, seq![], seq![]))
    } else if fuel == 0 {
        allocates(&old, &new) && (r matches Err(x)
            && is_error(&new, x.ptr(), "evaluation-step-limit"@, "macroexpand"@, seq![], seq![]))
    } else {
        exists|m1: Memory, s: Result<GcRef, GcRef>, c: bool| #[trigger] expand_trigger(m1, s, c)
            && expands(old, m1, expr, env, module, (depth + 1) as usize, false, c, s)
            && match s {
                Err(x) => new == m1 && r == Err::<GcRef, GcRef>(x),
                Ok(y) => if !c {
                    new == m1 && r == Ok::<GcRef, GcRef>(y)
                } else {
                    completes(m1, new, y.ptr(), env, module, depth, (fuel - 1) as nat, r)
                },
            }
    }
}

/// One pass of macro expansion over `expression`: macro calls are replaced by what the macro
/// gives, and symbols bound to macros by the macros. `changed` is set where anything was expanded.
#[verifier::rlimit(40)]
pub fn macroexpand_internal(mem: &mut Memory, expression: GcRef, env: GcRef, env_module: &str, recursion_depth: usize,
    changed: &mut bool) -> (r: Result<GcRef, GcRef>)
    requires
        old(mem).wf(),
    ensures
        old(mem).evolves(&*final(mem)),
        *old(changed) ==> *final(changed),
        expands(*old(mem), *final(mem), expression.ptr(), env.ptr(), env_module@, recursion_depth, *old(changed),
            *final(changed), r),
    decreases depth_measure(recursion_depth), 1nat,
{
    let ghost m0 = *mem;
    if recursion_depth > config::MAX_RECURSION_DEPTH {
        return Err(make_error(mem, "stackoverflow", "macroexpand", &[]));
    }
    let name = match expression.get_meta(mem) {
        Some(md) => Some(md.read_name.clone()),
        None => None,
    };
    proof {
        m0.lemma_evolves_refl();
        assert(match name { Some(n) => n@, None => "#<function>"@ } == call_name(&m0, expression.ptr()));
    }
    match list_to_vec(mem, expression.clone()) {
        Some(elems) => {
            proof {
                crate::util::lemma_elems_live(&m0, expression.ptr());
                assert(list_elems(&m0, expression.ptr())->0 == ptrs(elems@));
                if elems@.len() > 0 { assert(ptrs(elems@)[0] == elems@[0].ptr()); }
            }
            if elems.len() == 0 {
                return Ok(GcRef::nil());
            }
            if symbol_is_named(mem, &elems[0], "macro") {
                let rest = rest_of(&elems, 1);
                proof {
                    assert(rest@.len() == elems@.len() - 1) by {
                        assert(ptrs(rest@).len() == ptrs(elems@).skip(1).len());
                    }
                    assert forall|q: int| 0 <= q < rest@.len() implies m0.live(#[trigger] rest@[q].ptr()) by {
                        assert(ptrs(rest@)[q] == rest@[q].ptr());
                        assert(ptrs(elems@)[q + 1] == elems@[q + 1].ptr());
                    }
                    assert(sanitized(&m0, rest@) =~= ptrs(rest@));
                }
                return make_function_internal(mem, rest.as_slice(), env.clone(), env_module, "macro", FunctionKind::Macro);
            }
            if symbol_is_named(mem, &elems[0], "quote") {
                return Ok(expression);
            }
            expand_list(mem, &expression, elems, name, &env, env_module, recursion_depth, changed)
        },
        None => {
            match expression.get(mem) {
                Some(PrimitiveValue::Cons(_)) => expand_pair(mem, &expression, &env, env_module, recursion_depth, changed),
                Some(PrimitiveValue::Symbol(_)) => {
                    let current = mem.get_current_module();
                    match lookup(mem, &expression, &env, current.as_str()) {
                        Ok(value) => {
                            let is_macro_value = match value.get(mem) {
                                Some(PrimitiveValue::Function(Function::NativeFunction(nf))) => nf.kind == FunctionKind::Macro,
                                Some(PrimitiveValue::Function(Function::NormalFunction(nf))) => nf.kind == FunctionKind::Macro,
                                _ => false,
                            };
                            if is_macro_value {
                                *changed = true;
                                return Ok(value);
                            }
                            Ok(expression)
                        },
                        Err(ModulError::AmbiguousName(_)) => {
                            eval_symbol(mem, &expression, &env, current.as_str(), "macroexpand")
                        },
                        Err(_) => Ok(expression),
                    }
                },
                _ => Ok(expression),
            }
        },
    }
}

/// One pass of macro expansion over a list that is not a `quote` or `macro` form: its head, then
/// its other elements; a macro head is applied to the expanded elements.
#[verifier::rlimit(60)]
fn expand_list(mem: &mut Memory, expression: &GcRef, elems: Vec<GcRef>, name: Option<String>, env: &GcRef,
    env_module: &str, recursion_depth: usize, changed: &mut bool) -> (r: Result<GcRef, GcRef>)
    requires
        old(mem).wf(),
        recursion_depth <= config::MAX_RECURSION_DEPTH,
        expansion_form(&*old(mem), expression.ptr()) == ExpansionForm::Call,
        list_elems(&*old(mem), expression.ptr()) == Some(ptrs(elems@)),
        (match name { Some(n) => n@, None => "#<function>"@ }) == call_name(&*old(mem), expression.ptr()),
    ensures
        old(mem).evolves(&*final(mem)),
        *old(changed) ==> *final(changed),
        expands(*old(mem), *final(mem), expression.ptr(), env.ptr(), env_module@, recursion_depth, *old(changed),
            *final(changed), r),
    decreases depth_measure(recursion_depth), 0nat,
{
    let ghost m0 = *mem;
    let ghost was = *changed;
    let ghost deeper = (recursion_depth + 1) as usize;
    proof {
        m0.lemma_evolves_refl();
        assert(ptrs(elems@)[0] == elems@[0].ptr());
    }
    let operator = match macroexpand_internal(mem, elems[0].clone(), env.clone(), env_module, recursion_depth + 1, changed) {
        Ok(o) => o,
        Err(e) => {
            proof { assert(expand_trigger(*mem, Err(e), *changed)); }
            return Err(e);
        },
    };
    let ghost m1 = *mem;
    let ghost c1 = *changed;
    proof { assert(expand_trigger(m1, Ok(operator), c1)); }
    let ghost exprs = ptrs(elems@).skip(1);
    let ghost mut mems: Seq<Memory> = seq![m1];
    let ghost mut flags: Seq<bool> = seq![c1];
    let mut args: Vec<GcRef> = Vec::new();
    let mut expanded: Vec<GcRef> = Vec::new();
    expanded.push(elems[0].clone());
    let mut k: usize = 1;
    while k < elems.len()
        invariant
            m0.wf(),
            m0 == *old(mem),
            m0.evolves(&*mem),
            recursion_depth <= config::MAX_RECURSION_DEPTH,
            deeper == (recursion_depth + 1) as usize,
            was == *old(changed),
            was ==> *changed,
            1 <= k <= elems@.len(),
            exprs == ptrs(elems@).skip(1),
            expanded@.len() == k,
            args@.len() == k - 1,
            expanded@[0].ptr() == elems@[0].ptr(),
            forall|q: int| 0 <= q < args@.len() ==> #[trigger] expanded@[q + 1].ptr() == args@[q].ptr(),
            mems.len() == k,
            flags.len() == k,
            mems[0] == m1,
            flags[0] == c1,
            mems.last() == *mem,
            flags.last() == *changed,
            forall|q: int| 0 <= q < args@.len() ==>
                expands(mems[q], mems[q + 1], exprs[q], env.ptr(), env_module@, deeper, flags[q], flags[q + 1],
                    Ok(#[trigger] args@[q])),
            expansion_form(&m0, expression.ptr()) == ExpansionForm::Call,
            list_elems(&m0, expression.ptr()) == Some(ptrs(elems@)),
            expands(m0, m1, ptrs(elems@)[0], env.ptr(), env_module@, deeper, was, c1, Ok(operator)),
        decreases elems@.len() - k,
    {
        let ghost m2 = *mem;
        proof { assert(exprs[k - 1] == elems@[k as int].ptr()); }
        match macroexpand_internal(mem, elems[k].clone(), env.clone(), env_module, recursion_depth + 1, changed) {
            Ok(v) => {
                proof {
                    m0.lemma_evolves_trans(&m2, &*mem);
                    mems = mems.push(*mem);
                    flags = flags.push(*changed);
                }
                let v2 = v.clone();
                args.push(v);
                expanded.push(v2);
            },
            Err(e) => {
                proof {
                    m0.lemma_evolves_trans(&m2, &*mem);
                    assert(expand_run(mems, args@, flags));
                    assert(expands_elems(m1, *mem, exprs, env.ptr(), env_module@, recursion_depth, c1, *changed, Err(e)));
                    assert(expand_all_trigger(*mem, Err(e), *changed));
                    assert(expand_trigger(m1, Ok(operator), c1));
                }
                return Err(e);
            },
        }
        k = k + 1;
    }
    let ghost m3 = *mem;
    let ghost c2 = *changed;
    proof {
        assert(expand_run(mems, args@, flags));
        assert(expands_elems(m1, m3, exprs, env.ptr(), env_module@, recursion_depth, c1, c2, Ok(args@)));
        assert(expand_all_trigger(m3, Ok(args@), c2));
    }
    let is_macro_operator = match operator.get(mem) {
        Some(PrimitiveValue::Function(Function::NativeFunction(nf))) => nf.kind == FunctionKind::Macro,
        Some(PrimitiveValue::Function(Function::NormalFunction(nf))) => nf.kind == FunctionKind::Macro,
        _ => false,
    };
    if is_macro_operator {
        *changed = true;
        match callee_of(mem, &operator) {
            Callee::Native(id) => {
                let env_arg = env.clone();
                let ghost g = env_arg;
                let r = call_native(mem, id, args.as_slice(), env_arg, recursion_depth + 1);
                proof {
                    m0.lemma_evolves_trans(&m3, &*mem);
                    assert(native_gives(id, &m3, &*mem, args@, env.ptr(), deeper, r));
                }
                return r;
            },
            Callee::Normal { params, has_rest, body, env: fenv, module } => {
                let ghost nf = m3.value_of(operator.ptr())->0->Function_0->NormalFunction_0;
                proof {
                    assert(live_ptrs(&m3, nf.parameters@) =~= sanitized(&m3, params@));
                }
                match pair_params_and_args(mem, params.as_slice(), has_rest, fenv, name, args.as_slice()) {
                    Ok(new_env) => {
                        let ghost m4 = *mem;
                        proof {
                            m0.lemma_evolves_trans(&m3, &m4);
                            assert(eval_trigger(m4, Ok(new_env)));
                        }
                        let r = eval_internal(mem, body, new_env, module, recursion_depth + 1);
                        proof { m0.lemma_evolves_trans(&m4, &*mem); }
                        return r;
                    },
                    Err(e) => {
                        proof {
                            m0.lemma_evolves_trans(&m3, &*mem);
                            assert(eval_trigger(*mem, Err(e)));
                        }
                        return Err(e);
                    },
                }
            },
            Callee::NotAFunction => {},
        }
    }
    let l = vec_to_list(mem, expanded.as_slice());
    proof {
        m0.lemma_evolves_trans(&m3, &*mem);
        assert(sanitized(&m3, expanded@) =~= live_ptrs(&m3, seq![ptrs(elems@)[0]] + ptrs(args@)));
    }
    Ok(l)
}

/// One pass of macro expansion over a cons cell that starts no list: both its parts.
fn expand_pair(mem: &mut Memory, expression: &GcRef, env: &GcRef, env_module: &str, recursion_depth: usize,
    changed: &mut bool) -> (r: Result<GcRef, GcRef>)
    requires
        old(mem).wf(),
        recursion_depth <= config::MAX_RECURSION_DEPTH,
        expansion_form(&*old(mem), expression.ptr()) == ExpansionForm::Pair,
    ensures
        old(mem).evolves(&*final(mem)),
        *old(changed) ==> *final(changed),
        expands(*old(mem), *final(mem), expression.ptr(), env.ptr(), env_module@, recursion_depth, *old(changed),
            *final(changed), r),
    decreases depth_measure(recursion_depth), 0nat,
{
    let ghost m0 = *mem;
    let (car, cdr) = match expression.get(mem) {
        Some(PrimitiveValue::Cons(c)) => (mem.make_ref(c.car), mem.make_ref(c.cdr)),
        _ => (GcRef::nil(), GcRef::nil()),
    };
    let a = match macroexpand_internal(mem, car, env.clone(), env_module, recursion_depth + 1, changed) {
        Ok(a) => a,
        Err(e) => {
            proof { assert(expand_trigger(*mem, Err(e), *changed)); }
            return Err(e);
        },
    };
    let ghost m1 = *mem;
    proof { assert(expand_trigger(m1, Ok(a), *changed)); }
    let d = match macroexpand_internal(mem, cdr, env.clone(), env_module, recursion_depth + 1, changed) {
        Ok(d) => d,
        Err(e) => {
            proof {
                m0.lemma_evolves_trans(&m1, &*mem);
                assert(expand_trigger(*mem, Err(e), *changed));
            }
            return Err(e);
        },
    };
    let ghost m2 = *mem;
    proof {
        m0.lemma_evolves_trans(&m1, &m2);
        assert(expand_trigger(m2, Ok(d), *changed));
    }
    let c = mem.allocate_cons(a, d);
    proof {
        m2.lemma_allocated_evolves(&*mem, c.ptr()->0);
        m0.lemma_evolves_trans(&m2, &*mem);
    }
    Ok(c)
}

/// What expanding `expr` until nothing changes gives, for the forms that one pass settles: nil,
/// `quote` forms and atoms other than symbols stay as they are, a `macro` form becomes a macro,
/// and a symbol becomes the macro it names (or stays itself where it names none).
pub open spec fn completion_outcome(old: &Memory, new: &Memory, r: Result<GcRef, GcRef>, expr: Option<usize>,
    env: Option<usize>, module: Seq<char>, depth: usize) -> bool
    decreases depth_measure(depth), 3nat, 0nat,
{
    let e = list_elems(old, expr)->0;
    if depth + 1 > config::MAX_RECURSION_DEPTH {
        allocates(old, new) && (r matches Err(x) && is_error(new, x.ptr(), "stackoverflow"@, "macroexpand"@, seq![], seq![]))
    } else {
        match expansion_form(old, expr) {
            ExpansionForm::Nil => *new == *old && (r matches Ok(x) && x.ptr() is None),
            ExpansionForm::Quoted | ExpansionForm::Other => *new == *old && (r matches Ok(x) && x.ptr() == expr),
            ExpansionForm::MacroLiteral => allocates(old, new) && function_outcome(old, new, r,
                e.skip(1), if old.live(env) { env } else { None }, module, "macro"@, FunctionKind::Macro),
            ExpansionForm::Symbol => macro_symbol_outcome(old, new, r, expr, env, false, true)
                || macro_symbol_outcome(old, new, r, expr, env, false, false),
            _ => completes(*old, *new, expr, env, module, depth, config::MAX_EVALUATION_STEPS as nat, r),
        }
    }
}

/// Expanding `expr` from `m` with `fuel` passes left carries on the expansion of `e0` from `m0`.
spec fn completion_resumes(m0: Memory, e0: Option<usize>, env: Option<usize>, module: Seq<char>, depth: usize,
    m: Memory, expr: Option<usize>, fuel: nat) -> bool
{
    forall|n: Memory, res: Result<GcRef, GcRef>| #[trigger] completes(m, n, expr, env, module, depth, fuel, res)
        ==> completes(m0, n, e0, env, module, depth, config::MAX_EVALUATION_STEPS as nat, res)
}

/// A pass that expanded something goes on with what it gave.
proof fn lemma_completes_step(m0: Memory, e0: Option<usize>, env: Option<usize>, module: Seq<char>, depth: usize,
    m1: Memory, x1: Option<usize>, fuel: nat, m2: Memory, x: GcRef)
    requires
        depth + 1 <= config::MAX_RECURSION_DEPTH,
        fuel > 0,
        completion_resumes(m0, e0, env, module, depth, m1, x1, fuel),
        expands(m1, m2, x1, env, module, (depth + 1) as usize, false, true, Ok(x)),
    ensures
        completion_resumes(m0, e0, env, module, depth, m2, x.ptr(), (fuel - 1) as nat),
{
    assert forall|n: Memory, res: Result<GcRef, GcRef>|
        #[trigger] completes(m2, n, x.ptr(), env, module, depth, (fuel - 1) as nat, res)
            implies completes(m0, n, e0, env, module, depth, config::MAX_EVALUATION_STEPS as nat, res) by {
        assert(expand_trigger(m2, Ok(x), true));
        assert(completes(m1, n, x1, env, module, depth, fuel, res));
    }
}

/// Expands macros in `expression` until a pass changes nothing.
pub fn macroexpand_completely(mem: &mut Memory, expression: GcRef, env: GcRef, env_module: &str, recursion_depth: usize)
    -> (r: Result<GcRef, GcRef>)
    requires
        old(mem).wf(),
        recursion_depth < usize::MAX,
    ensures
        old(mem).evolves(&*final(mem)),
        completion_outcome(&*old(mem), &*final(mem), r, expression.ptr(), env.ptr(), env_module@, recursion_depth),
        completes(*old(mem), *final(mem), expression.ptr(), env.ptr(), env_module@, recursion_depth,
            config::MAX_EVALUATION_STEPS as nat, r),
    decreases depth_measure(recursion_depth), 2nat,
{
    let ghost m0 = *mem;
    let ghost e0 = expression.ptr();
    let ghost form = expansion_form(&m0, e0);
    proof { m0.lemma_evolves_refl(); }
    let mut expanded = expression;
    let mut fuel: u64 = config::MAX_EVALUATION_STEPS;
    loop
        invariant
            m0.wf(),
            m0 == *old(mem),
            m0.evolves(&*mem),
            recursion_depth < usize::MAX,
            e0 == expression.ptr(),
            form == expansion_form(&m0, e0),
            fuel == config::MAX_EVALUATION_STEPS ==> *mem == m0 && expanded.ptr() == e0,
            fuel < config::MAX_EVALUATION_STEPS ==> recursion_depth + 1 <= config::MAX_RECURSION_DEPTH
                && (form is Call || form is Pair || (form is Symbol && fuel == config::MAX_EVALUATION_STEPS - 1
                    && *mem == m0 && is_macro(&m0, expanded.ptr())
                    && macro_symbol_outcome(&m0, &m0, Ok::<GcRef, GcRef>(expanded), e0, env.ptr(), false, true))),
            completion_resumes(m0, e0, env.ptr(), env_module@, recursion_depth, *mem, expanded.ptr(), fuel as nat),
        decreases fuel,
    {
        let ghost m1 = *mem;
        let ghost x1 = expanded.ptr();
        let ghost f1 = fuel as nat;
        if fuel == 0 {
            let e = make_error(mem, "evaluation-step-limit", "macroexpand", &[]);
            proof {
                m0.lemma_evolves_trans(&m1, &*mem);
                assert(completes(m1, *mem, x1, env.ptr(), env_module@, recursion_depth, f1, Err(e)));
            }
            return Err(e);
        }
        fuel = fuel - 1;
        let mut changed = false;
        let ghost before = expanded.ptr();
        let step = macroexpand_internal(mem, expanded, env.clone(), env_module, recursion_depth + 1, &mut changed);
        proof {
            m0.lemma_evolves_trans(&m1, &*mem);
            assert(expand_trigger(*mem, step, changed));
        }
        match step {
            Ok(x) => {
                expanded = x;
            },
            Err(e) => {
                proof { assert(completes(m1, *mem, x1, env.ptr(), env_module@, recursion_depth, f1, Err(e))); }
                return Err(e);
            },
        }
        if !changed {
            proof { assert(completes(m1, *mem, x1, env.ptr(), env_module@, recursion_depth, f1, Ok(expanded))); }
            return Ok(expanded);
        }
        proof {
            lemma_completes_step(m0, e0, env.ptr(), env_module@, recursion_depth, m1, x1, f1, *mem, expanded);
        }
    }
}


/// What `eval` gives for `args`, from the heap `old` to the heap `new`.
pub open spec fn eval_call_outcome(old: &Memory, new: &Memory, args: Seq<GcRef>, env: GcRef, recursion_depth: usize,
    r: Result<GcRef, GcRef>) -> bool
    decreases depth_measure(recursion_depth), 4nat, 0nat,
{
    &&& (old.evolves(new))
    &&& (args.len() != 1 ==> allocates(old, new)
                && (r matches Err(e) && is_arity_error(new, e.ptr(), "eval"@, 1, args.len() as usize)))
    &&& (args.len() == 1 && recursion_depth + 2 > config::MAX_RECURSION_DEPTH ==> allocates(old, new)
                && (r matches Err(e) && is_error(new, e.ptr(), "stackoverflow"@, "macroexpand"@, seq![], seq![])))
    &&& (args.len() == 1 && recursion_depth + 2 <= config::MAX_RECURSION_DEPTH ==>
            exists|mid: Memory, x: Result<GcRef, GcRef>| #[trigger] eval_trigger(mid, x)
                && completion_outcome(old, &mid, x, args[0].ptr(), env.ptr(), old.current().name@,
                    (recursion_depth + 1) as usize)
                && old.evolves(&mid)
                && match x {
                    Err(e) => *new == mid && r == Err::<GcRef, GcRef>(e),
                    Ok(ex) => evaluates(mid, *new, ex.ptr(), env.ptr(), old.current().name@, (recursion_depth + 1) as usize,
                        config::MAX_EVALUATION_STEPS as nat, r),
                })
}

/// Expands the macros in the argument, then evaluates it in `env`, seen from the current module.
pub fn eval(mem: &mut Memory, args: &[GcRef], env: GcRef, recursion_depth: usize) -> (r: Result<GcRef, GcRef>)
    requires
        old(mem).wf(),
        recursion_depth < usize::MAX - 1,
    ensures
        eval_call_outcome(&*old(mem), &*final(mem), args@, env, recursion_depth, r),
    decreases depth_measure(recursion_depth), 3nat,
{
    let ghost m0 = *mem;
    if args.len() != 1 {
        return Err(arity_error(mem, "eval", 1, args.len()));
    }
    let env_module = mem.get_current_module();
    let expanded = match macroexpand_completely(mem, args[0].clone(), env.clone(), env_module.as_str(), recursion_depth + 1) {
        Ok(x) => x,
        Err(e) => {
            proof { assert(eval_trigger(*mem, Err(e))); }
            return Err(e);
        },
    };
    let ghost m1 = *mem;
    proof { assert(eval_trigger(m1, Ok(expanded))); }
    let r = eval_internal(mem, expanded, env, env_module, recursion_depth + 1);
    proof { m0.lemma_evolves_trans(&m1, &*mem); }
    r
}


/// What `macroexpand` gives for `args`, from the heap `old` to the heap `new`.
pub open spec fn macroexpand_call_outcome(old: &Memory, new: &Memory, args: Seq<GcRef>, env: GcRef, recursion_depth: usize,
    r: Result<GcRef, GcRef>) -> bool
    decreases depth_measure(recursion_depth), 4nat, 0nat,
{
    &&& (old.evolves(new))
    &&& (args.len() != 1 ==> allocates(old, new)
                && (r matches Err(e) && is_arity_error(new, e.ptr(), "macroexpand"@, 1, args.len() as usize)))
    &&& (args.len() == 1 && recursion_depth < usize::MAX ==> completion_outcome(old, new, r, args[0].ptr(), env.ptr(),
                old.current().name@, (recursion_depth + 1) as usize))
}

/// Expands the macros in the argument, seen from the current module.
pub fn macroexpand(mem: &mut Memory, args: &[GcRef], env: GcRef, recursion_depth: usize) -> (r: Result<GcRef, GcRef>)
    requires
        old(mem).wf(),
        recursion_depth < usize::MAX - 1,
    ensures
        macroexpand_call_outcome(&*old(mem), &*final(mem), args@, env, recursion_depth, r),
    decreases depth_measure(recursion_depth), 3nat,
{
    if args.len() != 1 {
        return Err(arity_error(mem, "macroexpand", 1, args.len()));
    }
    let env_module = mem.get_current_module();
    macroexpand_completely(mem, args[0].clone(), env, env_module.as_str(), recursion_depth + 1)
}

/// What calling the native function `id` on `args` gives: what that native function gives.
pub open spec fn native_outcome(id: NativeId, old: &Memory, new: &Memory, args: Seq<GcRef>, env: GcRef, depth: usize,
    r: Result<GcRef, GcRef>) -> bool
    decreases depth_measure(depth), 7nat, 0nat,
{
    match id {
        NativeId::Cons => list::cons_call_outcome(old, new, args, env, 0, r),
        NativeId::Car => list::car_call_outcome(old, new, args, env, 0, r),
        NativeId::Cdr => list::cdr_call_outcome(old, new, args, env, 0, r),
        NativeId::List => list::list_call_outcome(old, new, args, env, 0, r),
        NativeId::GetProperty => list::get_property_call_outcome(old, new, args, env, 0, r),
        NativeId::Unrest => list::unrest_call_outcome(old, new, args, env, 0, r),
        NativeId::Signal => signal::signal_call_outcome(old, new, args, env, depth, r),
        NativeId::Trap => signal::trap_call_outcome(old, new, args, env, depth, r),
        NativeId::Read => read::read_call_outcome(old, new, args, env, depth, r),
        NativeId::MakeTrap => make_trap_call_outcome(old, new, args, env, depth, r),
        NativeId::MakeFunction => make_function_call_outcome(old, new, args, env, depth, r),
        NativeId::CallNativeFunction => call_native_function_call_outcome(old, new, args, env, depth, r),
        NativeId::Macroexpand => macroexpand_call_outcome(old, new, args, env, depth, r),
        NativeId::Eval => eval_call_outcome(old, new, args, env, depth, r),
        NativeId::LoadAll => load_all_call_outcome(old, new, args, env, depth, r),
        NativeId::Print => print::print_call_outcome(old, new, args, env, depth, r),
        NativeId::Add => numbers::add_call_outcome(old, new, args, env, depth, r),
        NativeId::Substract => numbers::substract_call_outcome(old, new, args, env, depth, r),
        NativeId::Multiply => numbers::multiply_call_outcome(old, new, args, env, depth, r),
        NativeId::Divide => numbers::divide_call_outcome(old, new, args, env, depth, r),
        NativeId::Less => numbers::less_call_outcome(old, new, args, env, depth, r),
        NativeId::Greater => numbers::greater_call_outcome(old, new, args, env, depth, r),
        NativeId::Define => globals::define_call_outcome(old, new, args, env, depth, r),
        NativeId::Undefine => globals::undefine_call_outcome(old, new, args, env, depth, r),
        NativeId::Whereis => globals::whereis_call_outcome(old, new, args, env, depth, r),
        NativeId::Export => globals::export_call_outcome(old, new, args, env, depth, r),
        NativeId::GetCurrentModule => globals::get_current_module_call_outcome(old, new, args, env, depth, r),
        NativeId::FromModule => globals::from_module_call_outcome(old, new, args, env, depth, r),
        NativeId::WithCurrentModule => globals::with_current_module_call_outcome(old, new, args, env, depth, r),
        NativeId::TypeOf => reflection::type_of_call_outcome(old, new, args, env, depth, r),
        NativeId::GetBody => reflection::get_body_call_outcome(old, new, args, env, depth, r),
        NativeId::GetMetadata => reflection::get_metadata_call_outcome(old, new, args, env, depth, r),
        NativeId::Gensym => misc::gensym_call_outcome(old, new, args, env, depth, r),
        NativeId::Equal => misc::equal_call_outcome(old, new, args, env, depth, r),
        NativeId::Macro => macro_macro_call_outcome(old, new, args, env, depth, r),
    }
}

/// Calls the native function `id` with `args`.
fn call_native(mem: &mut Memory, id: NativeId, args: &[GcRef], env: GcRef, recursion_depth: usize) -> (r: Result<GcRef, GcRef>)
    requires
        old(mem).wf(),
        recursion_depth < usize::MAX - 2,
    ensures
        old(mem).evolves(&*final(mem)),
        native_outcome(id, &*old(mem), &*final(mem), args@, env, recursion_depth, r),
    decreases depth_measure(recursion_depth), 4nat,
{
    match id {
        NativeId::Cons => list::cons(mem, args, env),
        NativeId::Car => list::car(mem, args, env),
        NativeId::Cdr => list::cdr(mem, args, env),
        NativeId::List => list::list(mem, args, env),
        NativeId::GetProperty => list::get_property(mem, args, env),
        NativeId::Unrest => list::unrest(mem, args, env),
        NativeId::Signal => signal::signal(mem, args, env, recursion_depth),
        NativeId::Trap => signal::trap(mem, args, env, recursion_depth),
        NativeId::Read => read::read(mem, args, env, recursion_depth),
        NativeId::MakeTrap => make_trap(mem, args, env, recursion_depth),
        NativeId::MakeFunction => make_function(mem, args, env, recursion_depth),
        NativeId::CallNativeFunction => call_native_function(mem, args, env, recursion_depth),
        NativeId::Macroexpand => macroexpand(mem, args, env, recursion_depth),
        NativeId::Eval => eval(mem, args, env, recursion_depth),
        NativeId::LoadAll => load_all(mem, args, env, recursion_depth),
        NativeId::Print => print::print(mem, args, env, recursion_depth),
        NativeId::Add => numbers::add(mem, args, env, recursion_depth),
        NativeId::Substract => numbers::substract(mem, args, env, recursion_depth),
        NativeId::Multiply => numbers::multiply(mem, args, env, recursion_depth),
        NativeId::Divide => numbers::divide(mem, args, env, recursion_depth),
        NativeId::Less => numbers::less(mem, args, env, recursion_depth),
        NativeId::Greater => numbers::greater(mem, args, env, recursion_depth),
        NativeId::Define => globals::define(mem, args, env, recursion_depth),
        NativeId::Undefine => globals::undefine(mem, args, env, recursion_depth),
        NativeId::Whereis => globals::whereis(mem, args, env, recursion_depth),
        NativeId::Export => globals::export(mem, args, env, recursion_depth),
        NativeId::GetCurrentModule => globals::get_current_module(mem, args, env, recursion_depth),
        NativeId::FromModule => globals::from_module(mem, args, env, recursion_depth),
        NativeId::WithCurrentModule => globals::with_current_module(mem, args, env, recursion_depth),
        NativeId::TypeOf => reflection::type_of(mem, args, env, recursion_depth),
        NativeId::GetBody => reflection::get_body(mem, args, env, recursion_depth),
        NativeId::GetMetadata => reflection::get_metadata(mem, args, env, recursion_depth),
        NativeId::Gensym => misc::gensym(mem, args, env, recursion_depth),
        NativeId::Equal => misc::equal(mem, args, env, recursion_depth),
        NativeId::Macro => macro_macro(mem, args, env, recursion_depth),
    }
}

impl NativeFunction {
    /// Runs the native function on `args`, in the local environment `env`.
    pub fn call(&self, mem: &mut Memory, args: &[GcRef], env: GcRef, recursion_depth: usize) -> (r: Result<GcRef, GcRef>)
        requires
            old(mem).wf(),
            recursion_depth < usize::MAX - 2,
        ensures
            old(mem).evolves(&*final(mem)),
            native_outcome(self.function, &*old(mem), &*final(mem), args@, env, recursion_depth, r),
    {
        call_native(mem, self.function, args, env, recursion_depth)
    }
}


/// What `call_native_function` gives for `args`, from the heap `old` to the heap `new`.
pub open spec fn call_native_function_call_outcome(old: &Memory, new: &Memory, args: Seq<GcRef>, env: GcRef, recursion_depth: usize,
    r: Result<GcRef, GcRef>) -> bool
{
    &&& (old.evolves(new))
    &&& (recursion_depth > config::MAX_RECURSION_DEPTH ==> allocates(old, new)
                && (r matches Err(e) && is_error(new, e.ptr(), "stackoverflow"@, "call-native-function"@, seq![], seq![])))
    &&& (recursion_depth <= config::MAX_RECURSION_DEPTH && args.len() != 3 ==> allocates(old, new)
                && (r matches Err(e) && is_arity_error(new, e.ptr(), "call-native-function"@, 3, args.len() as usize)))
    &&& (recursion_depth <= config::MAX_RECURSION_DEPTH && args.len() == 3 ==> {
                let f = old.value_of(args[0].ptr());
                if !(f matches Some(PrimitiveValue::Function(_))) {
                    allocates(old, new) && (r matches Err(e) && is_type_error(new, e.ptr(),
                        "call-native-function"@, TypeLabel::Function,
                        extended_type(old, args[0].ptr())))
                } else if list_elems(old, args[1].ptr()) is None {
                    allocates(old, new) && (r matches Err(e) && is_type_error(new, e.ptr(),
                        "call-native-function"@, TypeLabel::List,
                        extended_type(old, args[1].ptr())))
                } else if f matches Some(PrimitiveValue::Function(Function::NormalFunction(_))) {
                    allocates(old, new) && (r matches Err(e) && is_error(new, e.ptr(), "wrong-argument"@,
                        "call-native-function"@, seq!["expected"@, "actual"@], seq![list_elems(new, e.ptr())->0[5],
                        list_elems(new, e.ptr())->0[7]])
                        && is_symbol_named(new, list_elems(new, e.ptr())->0[5], "native-function"@)
                        && is_symbol_named(new, list_elems(new, e.ptr())->0[7], "normal-function"@))
                } else {
                    true
                }
            })
}

/// Calls the native function `function` with the list `arguments` and the local environment
/// `environment`.
pub fn call_native_function(mem: &mut Memory, args: &[GcRef], env: GcRef, recursion_depth: usize) -> (r: Result<GcRef, GcRef>)
    requires
        old(mem).wf(),
    ensures
        call_native_function_call_outcome(&*old(mem), &*final(mem), args@, env, recursion_depth, r),
    decreases depth_measure(recursion_depth), 0nat,
{
    let ghost m0 = *mem;
    if recursion_depth > config::MAX_RECURSION_DEPTH {
        return Err(make_error(mem, "stackoverflow", "call-native-function", &[]));
    }
    if args.len() != 3 {
        return Err(arity_error(mem, "call-native-function", 3, args.len()));
    }
    let callee = callee_of(mem, &args[0]);
    if let Callee::NotAFunction = callee {
        return Err(type_error(mem, "call-native-function", &args[0], TypeLabel::Function));
    }
    let arguments = match list_to_vec(mem, args[1].clone()) {
        Some(v) => v,
        None => { return Err(type_error(mem, "call-native-function", &args[1], TypeLabel::List)); },
    };
    match callee {
        Callee::Native(id) => call_native(mem, id, arguments.as_slice(), args[2].clone(), recursion_depth + 1),
        _ => {
            let expected = symbol(mem, "native-function", &[]);
            let ghost m1 = *mem;
            let actual = symbol(mem, "normal-function", &[expected.clone()]);
            let ghost m2 = *mem;
            proof {
                lemma_allocates_trans(&m0, &m1, &m2);
                assert(m1.keeps(&m2, seq![expected][0].ptr()));
                m1.lemma_value_unchanged(&m2, expected.ptr());
            }
            let details = [("expected", expected.clone()), ("actual", actual.clone())];
            let e = make_error(mem, "wrong-argument", "call-native-function", &details);
            proof {
                let dv = kv_values(details@);
                assert(dv[0].ptr() == expected.ptr());
                assert(dv[1].ptr() == actual.ptr());
                assert(m2.keeps(&*mem, dv[0].ptr()));
                assert(m2.keeps(&*mem, dv[1].ptr()));
                m2.lemma_value_unchanged(&*mem, expected.ptr());
                m2.lemma_value_unchanged(&*mem, actual.ptr());
                lemma_allocates_trans(&m0, &m2, &*mem);
                let ee = list_elems(&*mem, e.ptr())->0;
                let vals = seq![ee[1], ee[3]] + sanitized(&m2, dv);
                assert(kv_keys(details@) =~= seq!["expected"@, "actual"@]);
                assert(ee[2 * 2int + 1] == vals[2]);
                assert(ee[2 * 3int + 1] == vals[3]);
                assert(sanitized(&m2, dv) =~= seq![ee[5], ee[7]]);
            }
            Err(e)
        },
    }
}


/// What `make_trap` gives for `args`, from the heap `old` to the heap `new`.
pub open spec fn make_trap_call_outcome(old: &Memory, new: &Memory, args: Seq<GcRef>, env: GcRef, recursion_depth: usize,
    r: Result<GcRef, GcRef>) -> bool
{
    &&& (allocates(old, new))
    &&& (recursion_depth > config::MAX_RECURSION_DEPTH ==>
                (r matches Err(e) && is_error(new, e.ptr(), "stackoverflow"@, "make-trap"@, seq![], seq![])))
    &&& (recursion_depth <= config::MAX_RECURSION_DEPTH && args.len() != 2 ==>
                (r matches Err(e) && is_arity_error(new, e.ptr(), "make-trap"@, 2, args.len() as usize)))
    &&& (recursion_depth <= config::MAX_RECURSION_DEPTH && args.len() == 2 ==>
                (r matches Ok(t) && new.value_of(t.ptr()) == Some(PrimitiveValue::Trap(Trap {
                    normal_body: sanitized(old, args)[0],
                    trap_body: sanitized(old, args)[1],
                }))))
}

/// A trap made from a normal body and a trap body.
pub fn make_trap(mem: &mut Memory, args: &[GcRef], env: GcRef, recursion_depth: usize) -> (r: Result<GcRef, GcRef>)
    requires
        old(mem).wf(),
    ensures
        make_trap_call_outcome(&*old(mem), &*final(mem), args@, env, recursion_depth, r),
{
    if recursion_depth > config::MAX_RECURSION_DEPTH {
        return Err(make_error(mem, "stackoverflow", "make-trap", &[]));
    }
    make_trap_named(mem, args, "make-trap")
}


/// What `make_function` gives for `args`, from the heap `old` to the heap `new`.
pub open spec fn make_function_call_outcome(old: &Memory, new: &Memory, args: Seq<GcRef>, env: GcRef, recursion_depth: usize,
    r: Result<GcRef, GcRef>) -> bool
{
    &&& (allocates(old, new))
    &&& (recursion_depth > config::MAX_RECURSION_DEPTH ==>
                (r matches Err(e) && is_error(new, e.ptr(), "stackoverflow"@, "make-function"@, seq![], seq![])))
    &&& (recursion_depth <= config::MAX_RECURSION_DEPTH && args.len() != 5 ==>
                (r matches Err(e) && is_arity_error(new, e.ptr(), "make-function"@, 5, args.len() as usize)))
    &&& (recursion_depth <= config::MAX_RECURSION_DEPTH && args.len() == 5 ==> {
                let a = sanitized(old, args);
                if list_elems(old, args[0].ptr()) is None {
                    r matches Err(e) && is_type_error(new, e.ptr(), "make-function"@, TypeLabel::List,
                        extended_type(old, args[0].ptr()))
                } else if key_of(old, args[3].ptr()) is None {
                    r matches Err(e) && is_type_error(new, e.ptr(), "make-function"@, TypeLabel::Symbol,
                        extended_type(old, args[3].ptr()))
                } else if key_of(old, args[4].ptr()) is None {
                    r matches Err(e) && is_type_error(new, e.ptr(), "make-function"@, TypeLabel::Symbol,
                        extended_type(old, args[4].ptr()))
                } else if is_symbol_named(old, args[4].ptr(), "lambda-type"@) {
                    function_outcome(old, new, r, a.take(2), a[2], key_of(old, args[3].ptr())->0,
                        "lambda"@, FunctionKind::Lambda)
                } else if is_symbol_named(old, args[4].ptr(), "macro-type"@) {
                    function_outcome(old, new, r, a.take(2), a[2], key_of(old, args[3].ptr())->0,
                        "macro"@, FunctionKind::Macro)
                } else {
                    r matches Err(e) && is_error(new, e.ptr(), "wrong-arg-value"@, "make-function"@, seq![], seq![])
                }
            })
}

/// The function made from a parameter list, a body, an environment, an environment module and a
/// kind, `lambda-type` or `macro-type`.
pub fn make_function(mem: &mut Memory, args: &[GcRef], env: GcRef, recursion_depth: usize) -> (r: Result<GcRef, GcRef>)
    requires
        old(mem).wf(),
    ensures
        make_function_call_outcome(&*old(mem), &*final(mem), args@, env, recursion_depth, r),
{
    let ghost m0 = *mem;
    if recursion_depth > config::MAX_RECURSION_DEPTH {
        return Err(make_error(mem, "stackoverflow", "make-function", &[]));
    }
    if args.len() != 5 {
        return Err(arity_error(mem, "make-function", 5, args.len()));
    }
    if list_to_vec(mem, args[0].clone()).is_none() {
        return Err(type_error(mem, "make-function", &args[0], TypeLabel::List));
    }
    let module = match symbol_key_of(mem, &args[3]) {
        Some(m) => m,
        None => { return Err(type_error(mem, "make-function", &args[3], TypeLabel::Symbol)); },
    };
    if symbol_key_of(mem, &args[4]).is_none() {
        return Err(type_error(mem, "make-function", &args[4], TypeLabel::Symbol));
    }
    let (source, kind) = if symbol_is_named(mem, &args[4], "lambda-type") {
        ("lambda", FunctionKind::Lambda)
    } else if symbol_is_named(mem, &args[4], "macro-type") {
        ("macro", FunctionKind::Macro)
    } else {
        return Err(make_error(mem, "wrong-arg-value", "make-function", &[]));
    };
    let first_two = [args[0].clone(), args[1].clone()];
    let r = make_function_internal(mem, &first_two, args[2].clone(), module.as_str(), source, kind);
    proof {
        assert(sanitized(&m0, first_two@) =~= sanitized(&m0, args@).take(2));
    }
    r
}


/// What `macro_macro` gives for `args`, from the heap `old` to the heap `new`.
pub open spec fn macro_macro_call_outcome(old: &Memory, new: &Memory, args: Seq<GcRef>, env: GcRef, recursion_depth: usize,
    r: Result<GcRef, GcRef>) -> bool
{
    &&& (allocates(old, new))
    &&& (function_outcome(old, new, r, sanitized(old, args),
                if old.live(env.ptr()) { env.ptr() } else { None }, old.current().name@, "macro"@, FunctionKind::Macro))
}

/// A macro made from a parameter list and a body, closing over `env`.
pub fn macro_macro(mem: &mut Memory, args: &[GcRef], env: GcRef, recursion_depth: usize) -> (r: Result<GcRef, GcRef>)
    requires
        old(mem).wf(),
    ensures
        macro_macro_call_outcome(&*old(mem), &*final(mem), args@, env, recursion_depth, r),
{
    let module = mem.get_current_module();
    make_function_internal(mem, args, env, module.as_str(), "macro", FunctionKind::Macro)
}


/// `new` is `old` with the module `name` defined afresh and made the current one.
pub open spec fn enters_module(old: &Memory, new: &Memory, name: Seq<char>) -> bool {
    &&& new.wf()
    &&& old.same_heap(new)
    &&& new.current().name@ == name
    &&& new.current().definitions@.len() == 0
    &&& new.current().exports is None
    &&& forall|k: int| 0 <= k < old.modules@.len() && old.modules@[k].name@ != name ==>
            new.modules@.contains(#[trigger] old.modules@[k])
    &&& forall|k: int| 0 <= k < new.modules@.len() && new.modules@[k].name@ != name ==>
            old.modules@.contains(#[trigger] new.modules@[k])
}

/// What finding the location at `line` and `column` of the source `src` gives: the location where
/// `read` knows the source (the heap unchanged), else the `unknown-read-source` error.
pub open spec fn locates(old: &Memory, new: &Memory, src: Option<usize>, line: usize, column: usize,
    r: Result<Location, GcRef>) -> bool
{
    &&& allocates(old, new)
    &&& (r matches Ok(loc) ==> *new == *old && loc.line_of() is Some && loc.column_of() is Some)
    &&& (source_known(old, src) ==> (r matches Ok(loc) && source_location(old, src, line, column, loc)))
    &&& (!source_known(old, src) ==> (r matches Err(e)
            && is_error(new, e.ptr(), "unknown-read-source"@, "read"@, seq!["the-unknown-source"@],
                seq![if old.live(src) { src } else { None }])))
}

/// A trigger term with no content (it always holds): the quantifiers over intermediate heaps in
/// the relations below are instantiated through it, as a trigger on a recursive relation itself
/// does not match across its unfoldings.
pub open spec fn load_trigger(read_mem: Memory, ast: GcRef, eval_mem: Memory, value: Result<GcRef, GcRef>, env: GcRef) -> bool {
    true
}

/// A trigger term with no content (it always holds): the quantifiers over intermediate heaps in
/// the relations below are instantiated through it, as a trigger on a recursive relation itself
/// does not match across its unfoldings.
pub open spec fn load_stages_trigger(entered: Memory, located: Memory, at: Result<Location, GcRef>, loaded: Memory,
    r: Result<(), GcRef>) -> bool {
    true
}

/// What loading the characters of the list `cursor` from the location `at` gives, as the heap
/// goes from `old` to `new`, each expression read and then expanded and evaluated by `eval` one
/// level below `depth`, with `fuel` expressions left: the expressions are read one after the
/// other as `read_outcome` says, each from where the one before it ended, and evaluated in turn;
/// the first signal ends the load. Nothing left to read (or only blanks) ends it well; an
/// unfinished expression, text that is no string, and a syntax error end it with an error.
pub open spec fn loads(old: Memory, new: Memory, cursor: Option<usize>, at: Result<Location, GcRef>, depth: usize,
    fuel: nat, r: Result<(), GcRef>) -> bool
    decreases depth_measure(depth), 5nat, fuel,
{
    let text = input_chars(&old, cursor).0;
    let terminated = input_chars(&old, cursor).1;
    if old.is_nil_ptr(cursor) {
        new == old && r is Ok
    } else if fuel == 0 {
        allocates(&old, &new) && (r matches Err(x)
            && is_error(&new, x.ptr(), "evaluation-step-limit"@, "load-all"@, seq![], seq![]))
    } else if depth + 1 > config::MAX_RECURSION_DEPTH {
        allocates(&old, &new) && (r matches Err(x) && is_error(&new, x.ptr(), "stackoverflow"@, "read"@, seq![], seq![]))
    } else {
        match at {
            Err(e) => new == old && r == Err::<(), GcRef>(e),
            Ok(loc) => if !room_for(loc, text.len()) {
                allocates(&old, &new) && (r matches Err(x)
                    && is_error(&new, x.ptr(), "position-overflow"@, "read"@, seq![], seq![]))
            } else {
                match read_outcome(text, terminated, loc) {
                    Ok((d, n, l, c)) => exists|m1: Memory, ast: GcRef, m2: Memory, v: Result<GcRef, GcRef>, g: GcRef|
                        #[trigger] load_trigger(m1, ast, m2, v, g)
                        && allocates(&old, &m1) && represents(&m1, ast.ptr(), d) && g.ptr() is None
                        && eval_call_outcome(&m1, &m2, seq![ast], g, (depth + 1) as usize, v)
                        && match v {
                            Err(sig) => new == m2 && r == Err::<(), GcRef>(sig),
                            Ok(_) => loads(m2, new, rest_at(&old, cursor, n as nat),
                                Ok::<Location, GcRef>(loc.with_position((l as i64) as usize, column_before(c as i64))),
                                depth, (fuel - 1) as nat, r),
                        },
                    Err(Failure::Nothing) => allocates(&old, &new) && r is Ok,
                    Err(Failure::Incomplete) => allocates(&old, &new) && (r matches Err(x)
                        && is_error(&new, x.ptr(), "input-incomplete"@, "load-all"@, seq![], seq![])),
                    Err(Failure::InvalidString) => allocates(&old, &new) && (r matches Err(x)
                        && is_error(&new, x.ptr(), "input-invalid-string"@, "load-all"@, seq![], seq![])),
                    Err(Failure::Error { msg, location, .. }) => allocates(&old, &new) && (r matches Err(x) && ({
                        let dp = list_elems(&new, x.ptr())->0[5];
                        let f = list_elems(&new, dp)->0;
                        &&& is_error(&new, x.ptr(), "read-error"@, "load-all"@, seq!["details"@], seq![dp])
                        &&& is_plist(&new, dp, seq!["location"@, "message"@], seq![f[1], f[3]])
                        &&& describes_location(&new, f[1], location)
                        &&& string_of(&new, f[3]) == Some(msg)
                    })),
                }
            },
        }
    }
}

/// The `read-error` error of `load-all` about a syntax error `msg` at `location`.
fn read_error_of(mem: &mut Memory, msg: &String, location: &Location) -> (e: GcRef)
    requires
        old(mem).wf(),
    ensures
        allocates(&*old(mem), &*final(mem)),
        ({
            let dp = list_elems(&*final(mem), e.ptr())->0[5];
            let f = list_elems(&*final(mem), dp)->0;
            &&& is_error(&*final(mem), e.ptr(), "read-error"@, "load-all"@, seq!["details"@], seq![dp])
            &&& is_plist(&*final(mem), dp, seq!["location"@, "message"@], seq![f[1], f[3]])
            &&& describes_location(&*final(mem), f[1], *location)
            &&& string_of(&*final(mem), f[3]) == Some(msg@)
        }),
{
    let ghost m0 = *mem;
    let desc = read::error_description(mem, msg, location, &GcRef::nil());
    let ghost m3 = *mem;
    let details = [("details", desc.clone())];
    let ghost dd = details@;
    let e = make_error(mem, "read-error", "load-all", &details);
    proof {
        lemma_allocates_trans(&m0, &m3, &*mem);
        assert(kv_keys(dd) =~= seq!["details"@]);
        assert(sanitized(&m3, kv_values(dd)) =~= seq![desc.ptr()]);
        assert(kv_values(dd)[0].ptr() == desc.ptr());
        assert(m3.keeps(&*mem, kv_values(dd)[0].ptr()));
        read::lemma_error_unchanged(&m3, &*mem, desc.ptr(), msg@, *location);
        let ee = list_elems(&*mem, e.ptr())->0;
        assert(ee[2 * 2int + 1] == (seq![ee[1], ee[3]] + sanitized(&m3, kv_values(dd)))[2]);
        assert(ee[5] == desc.ptr());
    }
    e
}

/// A turn of `load-all` that read a datum and evaluated it without a signal goes on from where
/// the datum ended.
proof fn lemma_load_turn(m1: Memory, m2: Memory, m3: Memory, cursor: Option<usize>, loc: Location, depth: usize,
    fuel: nat, ast: GcRef, v: Result<GcRef, GcRef>, g: GcRef, next: Location)
    requires
        fuel > 0,
        !m1.is_nil_ptr(cursor),
        depth + 1 <= config::MAX_RECURSION_DEPTH,
        room_for(loc, input_chars(&m1, cursor).0.len()),
        read_outcome(input_chars(&m1, cursor).0, input_chars(&m1, cursor).1, loc) matches Ok((d, n, l, c))
            && represents(&m2, ast.ptr(), d)
            && next == loc.with_position((l as i64) as usize, column_before(c as i64)),
        allocates(&m1, &m2),
        g.ptr() is None,
        eval_call_outcome(&m2, &m3, seq![ast], g, (depth + 1) as usize, v),
        v is Ok,
    ensures
        ({
            let n = read_outcome(input_chars(&m1, cursor).0, input_chars(&m1, cursor).1, loc)->Ok_0.1;
            forall|nn: Memory, res: Result<(), GcRef>|
                #[trigger] loads(m3, nn, rest_at(&m1, cursor, n as nat), Ok::<Location, GcRef>(next), depth,
                    (fuel - 1) as nat, res)
                ==> loads(m1, nn, cursor, Ok::<Location, GcRef>(loc), depth, fuel, res)
        }),
{
    assert(load_trigger(m2, ast, m3, v, g));
}

/// What `load-all` gives for `args`, from the heap `old` to the heap `new`: the arity and type
/// errors; otherwise the module named by the source (where it is a string) is entered, the
/// location of the source at line 1 found, and the string loaded (see `loads`); after a load
/// that ends well the module that was current is current again and the result is the symbol `ok`.
pub open spec fn load_all_call_outcome(old: &Memory, new: &Memory, args: Seq<GcRef>, env: GcRef, recursion_depth: usize,
    r: Result<GcRef, GcRef>) -> bool
    decreases depth_measure(recursion_depth), 6nat, 0nat,
{
    &&& (old.evolves(new))
    &&& (args.len() != 2 ==> allocates(old, new)
                && (r matches Err(e) && is_arity_error(new, e.ptr(), "load-all"@, 2, args.len() as usize)))
    &&& (args.len() == 2 && string_of(old, args[0].ptr()) is None ==> allocates(old, new)
                && (r matches Err(e) && is_type_error(new, e.ptr(), "load-all"@, TypeLabel::String, extended_type(old, args[0].ptr()))))
    &&& (args.len() == 2 && string_of(old, args[0].ptr()) is Some ==>
            exists|ma: Memory, mb: Memory, at: Result<Location, GcRef>, mc: Memory, x: Result<(), GcRef>|
                #[trigger] load_stages_trigger(ma, mb, at, mc, x)
                && match string_of(old, args[1].ptr()) {
                    Some(name) => enters_module(old, &ma, name),
                    None => ma == *old,
                }
                && locates(&ma, &mb, args[1].ptr(), 1, 0, at)
                && loads(mb, mc, args[0].ptr(), at, recursion_depth, config::MAX_EVALUATION_STEPS as nat, x)
                && match x {
                    Err(e) => *new == mc && r == Err::<GcRef, GcRef>(e),
                    Ok(_) => (r matches Ok(o) && is_symbol_named(new, o.ptr(), "ok"@))
                        && mc.evolves(new) && new.modules == mc.modules
                        && new.current_module == match mc.module_index(old.current().name@) {
                            Some(k) => k as usize,
                            None => mc.current_module,
                        },
                })
}

/// Reads, expands and evaluates the expressions of the string `string` one after the other, in a
/// module named after `source` where `source` is a string. The current module is restored after.
pub fn load_all(mem: &mut Memory, args: &[GcRef], env: GcRef, recursion_depth: usize) -> (r: Result<GcRef, GcRef>)
    requires
        old(mem).wf(),
        recursion_depth < usize::MAX - 2,
    ensures
        load_all_call_outcome(&*old(mem), &*final(mem), args@, env, recursion_depth, r),
    decreases depth_measure(recursion_depth), 3nat,
{
    let ghost m0 = *mem;
    if args.len() != 2 {
        return Err(arity_error(mem, "load-all", 2, args.len()));
    }
    if crate::util::list_to_string(mem, args[0].clone()).is_none() {
        return Err(type_error(mem, "load-all", &args[0], TypeLabel::String));
    }
    let source = args[1].clone();
    let old_module = mem.get_current_module();
    match crate::util::list_to_string(mem, source.clone()) {
        Some(s) => {
            mem.define_module(s.as_str());
        },
        None => {},
    }
    let ghost ma = *mem;
    let at = read::read_source(mem, &source, 1, 0);
    let ghost mb = *mem;
    proof {
        m0.lemma_evolves_refl();
        ma.lemma_evolves_refl();
    }
    let ghost at0 = at;
    let x = load_from(mem, args[0].clone(), at, recursion_depth);
    let ghost mc = *mem;
    proof {
        assert(load_stages_trigger(ma, mb, at0, mc, x));
    }
    match x {
        Ok(()) => {
            let _ = mem.set_current_module(old_module.as_str());
            let ghost md = *mem;
            let ok = symbol(mem, "ok", &[]);
            proof {
                if mc.module_index(old_module@) is None {
                    mc.lemma_evolves_refl();
                } else {
                    assert(md.wf());
                    mc.lemma_same_heap(&md);
                }
                md.lemma_evolves_trans(&md, &*mem);
                mc.lemma_evolves_trans(&md, &*mem);
                m0.lemma_evolves_trans(&mb, &mc);
                m0.lemma_evolves_trans(&mc, &*mem);
            }
            Ok(ok)
        },
        Err(e) => {
            proof { m0.lemma_evolves_trans(&mb, &mc); }
            Err(e)
        },
    }
}

/// Loads the characters of the list `cursor` from the location `at`, one expression after the
/// other (see `loads`).
#[verifier::rlimit(40)]
fn load_from(mem: &mut Memory, input: GcRef, start: Result<Location, GcRef>, recursion_depth: usize)
    -> (r: Result<(), GcRef>)
    requires
        old(mem).wf(),
        recursion_depth < usize::MAX - 2,
        start matches Ok(loc) ==> loc.line_of() is Some && loc.column_of() is Some,
    ensures
        old(mem).evolves(&*final(mem)),
        loads(*old(mem), *final(mem), input.ptr(), start, recursion_depth, config::MAX_EVALUATION_STEPS as nat, r),
    decreases depth_measure(recursion_depth), 2nat,
{
    let ghost m0 = *mem;
    let ghost c0 = input.ptr();
    let ghost at0 = start;
    let mut cursor = input;
    let mut at = start;
    let mut fuel: u64 = config::MAX_EVALUATION_STEPS;
    proof { m0.lemma_evolves_refl(); }
    loop
        invariant
            m0.wf(),
            m0 == *old(mem),
            m0.evolves(&*mem),
            recursion_depth < usize::MAX - 2,
            c0 == input.ptr(),
            at0 == start,
            at matches Ok(loc) ==> loc.line_of() is Some && loc.column_of() is Some,
            forall|n: Memory, res: Result<(), GcRef>| #[trigger] loads(*mem, n, cursor.ptr(), at, recursion_depth, fuel as nat, res)
                ==> loads(m0, n, c0, at0, recursion_depth, config::MAX_EVALUATION_STEPS as nat, res),
        decreases fuel,
    {
        let ghost m1 = *mem;
        let ghost k1 = cursor.ptr();
        let ghost a1 = at;
        let ghost f1 = fuel as nat;
        if cursor.is_nil(mem) {
            proof { assert(loads(m1, *mem, k1, a1, recursion_depth, f1, Ok(()))); }
            return Ok(());
        }
        if fuel == 0 {
            let e = make_error(mem, "evaluation-step-limit", "load-all", &[]);
            proof {
                m0.lemma_evolves_trans(&m1, &*mem);
                assert(loads(m1, *mem, k1, a1, recursion_depth, f1, Err(e)));
            }
            return Err(e);
        }
        if recursion_depth + 1 > config::MAX_RECURSION_DEPTH {
            let e = make_error(mem, "stackoverflow", "read", &[]);
            proof {
                m0.lemma_evolves_trans(&m1, &*mem);
                assert(loads(m1, *mem, k1, a1, recursion_depth, f1, Err(e)));
            }
            return Err(e);
        }
        let loc = match at {
            Ok(loc) => loc,
            Err(e) => {
                proof {
                    m1.lemma_evolves_refl();
                    assert(loads(m1, *mem, k1, a1, recursion_depth, f1, Err(e)));
                }
                return Err(e);
            },
        };
        let (chars, rests, terminated) = read::string_input(mem, &cursor);
        if !read::has_room(&loc, chars.len()) {
            let e = make_error(mem, "position-overflow", "read", &[]);
            proof {
                m0.lemma_evolves_trans(&m1, &*mem);
                assert(loads(m1, *mem, k1, a1, recursion_depth, f1, Err(e)));
            }
            return Err(e);
        }
        let outcome = read::read_internal(mem, &chars, terminated, loc.duplicate(), rests.as_slice());
        let ghost m2 = *mem;
        proof { m0.lemma_evolves_trans(&m1, &m2); }
        match outcome {
            Ok((ast, n, l, c)) => {
                let rest = rests[n - 1].clone();
                let ghost g_ast = ast;
                let env = GcRef::nil();
                let ghost g_env = env;
                let args = vec![ast];
                let v = eval(mem, args.as_slice(), env, recursion_depth + 1);
                let ghost m3 = *mem;
                proof {
                    m0.lemma_evolves_trans(&m2, &m3);
                    assert(args@ =~= seq![g_ast]);
                    assert(load_trigger(m2, g_ast, m3, v, g_env));
                }
                match v {
                    Err(sig) => {
                        proof { assert(loads(m1, *mem, k1, a1, recursion_depth, f1, Err(sig))); }
                        return Err(sig);
                    },
                    Ok(_) => {},
                }
                let cc = c as i64;
                let column = if cc as usize == 0 { usize::MAX } else { (cc as usize) - 1 };
                let line = (l as i64) as usize;
                let next = loc.moved(line, column);
                proof {
                    assert(rest.ptr() == rest_at(&m1, k1, n as nat));
                    lemma_load_turn(m1, m2, m3, k1, loc, recursion_depth, f1, g_ast, v, g_env, next);
                }
                let ghost rp = rest.ptr();
                cursor = rest;
                at = Ok(next);
                fuel = fuel - 1;
                proof {
                    assert(*mem == m3);
                    assert(next.line_of() is Some && next.column_of() is Some);
                    assert(cursor.ptr() == rp);
                    assert(at == Ok::<Location, GcRef>(next));
                    assert(fuel as nat == (f1 - 1) as nat);
                    assert forall|nn: Memory, res: Result<(), GcRef>|
                        #[trigger] loads(*mem, nn, cursor.ptr(), at, recursion_depth, fuel as nat, res)
                        implies loads(m0, nn, c0, at0, recursion_depth, config::MAX_EVALUATION_STEPS as nat, res) by {
                        assert(loads(m3, nn, rp, Ok::<Location, GcRef>(next), recursion_depth, (f1 - 1) as nat, res));
                        assert(loads(m1, nn, k1, a1, recursion_depth, f1, res));
                    }
                }
            },
            Err(ReadError::Nothing) => {
                proof { assert(loads(m1, *mem, k1, a1, recursion_depth, f1, Ok(()))); }
                return Ok(());
            },
            Err(ReadError::Incomplete) => {
                let e = make_error(mem, "input-incomplete", "load-all", &[]);
                proof {
                    lemma_allocates_trans(&m1, &m2, &*mem);
                    assert(loads(m1, *mem, k1, a1, recursion_depth, f1, Err(e)));
                }
                return Err(e);
            },
            Err(ReadError::InvalidString) => {
                let e = make_error(mem, "input-invalid-string", "load-all", &[]);
                proof {
                    lemma_allocates_trans(&m1, &m2, &*mem);
                    assert(loads(m1, *mem, k1, a1, recursion_depth, f1, Err(e)));
                }
                return Err(e);
            },
            Err(ReadError::Error { msg, location, .. }) => {
                let e = read_error_of(mem, &msg, &location);
                proof {
                    lemma_allocates_trans(&m1, &m2, &*mem);
                    assert(loads(m1, *mem, k1, a1, recursion_depth, f1, Err(e)));
                }
                return Err(e);
            },
        }
    }
}

/// The value of `key` in the property list `plist`; nil where it is absent or where `plist` is
/// not a property list.
fn property_or_nil(mem: &mut Memory, key: &str, plist: &GcRef) -> (r: GcRef)
    requires
        old(mem).wf(),
    ensures
        allocates(&*old(mem), &*final(mem)),
        old(mem).keeps(&*final(mem), plist.ptr()),
        final(mem).symbol_cell(key@) is Some,
        r.ptr() == match list_elems(&*final(mem), plist.ptr()) {
            Some(e) => match plist_get(&*final(mem), e, final(mem).symbol_cell(key@)->0 as int) {
                Some(x) => x,
                None => None,
            },
            None => None,
        },
{
    match list::property(mem, key, plist.clone()) {
        Some(v) => v,
        None => GcRef::nil(),
    }
}

/// The text that reports the signal `signal` of `mem` that nobody handled.
pub open spec fn signal_text_of(mem: &Memory, signal: Option<usize>) -> Seq<char> {
    if mem.is_nil_ptr(signal) {
        "Evaluation aborted."@
    } else {
        match print::render(mem, signal, 1) {
            Some(text) => text,
            None => "Evaluation failed with a signal that cannot be printed."@,
        }
    }
}

/// What evaluating `tree` from outside any function gives: what `eval` gives for it in an empty
/// environment, with a signal turned into its text.
pub open spec fn external_outcome(old: &Memory, new: &Memory, tree: Option<usize>, r: Result<GcRef, String>) -> bool {
    exists|mid: Memory, r0: Result<GcRef, GcRef>, t: GcRef, nil_env: GcRef|
        #[trigger] eval_call_outcome(old, &mid, seq![t], nil_env, 0, r0) && t.ptr() == tree && nil_env.ptr() is None
        && match r0 {
            Ok(x) => *new == mid && (r matches Ok(y) && y.ptr() == x.ptr()),
            Err(sig) => allocates(&mid, new) && (r matches Err(text) && text@ == signal_text_of(&mid, sig.ptr())),
        }
}

/// The text that reports a signal nobody handled: `Evaluation aborted.` for nil, otherwise
/// the printed signal, or a fixed message where it cannot be printed.
pub fn signal_text(mem: &mut Memory, signal: GcRef) -> (r: String)
    requires
        old(mem).wf(),
    ensures
        allocates(&*old(mem), &*final(mem)),
        old(mem).is_nil_ptr(signal.ptr()) ==> r@ == "Evaluation aborted."@,
        !old(mem).is_nil_ptr(signal.ptr()) ==> match print::render(&*old(mem), signal.ptr(), 1) {
            Some(text) => r@ == text,
            None => r@ == "Evaluation failed with a signal that cannot be printed."@,
        },
{
    if signal.is_nil(mem) {
        proof { mem.lemma_evolves_refl(); }
        let t = String::from_str("Evaluation aborted.");
        proof { reveal_strlit("Evaluation aborted."); }
        return t;
    }
    let print_args = [signal];
    let text = print::print(mem, &print_args, GcRef::nil(), 0);
    proof { reveal_strlit("Evaluation failed with a signal that cannot be printed."); }
    match text {
        Ok(t) => match crate::util::list_to_string(mem, t) {
            Some(s) => s,
            None => String::from_str("Evaluation failed with a signal that cannot be printed."),
        },
        Err(_) => String::from_str("Evaluation failed with a signal that cannot be printed."),
    }
}

/// Evaluates `tree` in the global environment; a signal that nobody handles comes back as its
/// text (see `signal_text`).
pub fn eval_external(mem: &mut Memory, tree: GcRef) -> (r: Result<GcRef, String>)
    requires
        old(mem).wf(),
    ensures
        old(mem).evolves(&*final(mem)),
        external_outcome(&*old(mem), &*final(mem), tree.ptr(), r),
{
    let ghost m0 = *mem;
    let ghost t = tree;
    let args = [tree];
    let nil_env = GcRef::nil();
    let ghost ne = nil_env;
    proof { assert(args@ =~= seq![t]); }
    let r0 = eval(mem, &args, nil_env, 0);
    let ghost g0 = r0;
    let ghost m1 = *mem;
    assert(eval_call_outcome(&m0, &m1, seq![t], ne, 0, g0));
    match r0 {
        Ok(x) => Ok(x),
        Err(signal) => {
            let text = signal_text(mem, signal);
            proof { m0.lemma_evolves_trans(&m1, &*mem); }
            Err(text)
        },
    }
}

} // verus!
