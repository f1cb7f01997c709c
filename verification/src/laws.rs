//! What holds across the operations of the interpreter: laws that relate several functions,
//! stated over the spec functions that their contracts use.

use vstd::prelude::*;
use crate::memory::{Memory, GcRef, PrimitiveValue, MetaValue, Symbol};
use crate::util::{list_elems, sanitized, ptrs, is_symbol_named, string_of, chars_of_elems, lemma_elems_live};
use crate::native::list::{is_plist, plist_get};
use crate::native::eval::{binds, env_lookup, same_symbol, symbol_outcome};
use crate::native::globals::key_of;
use crate::native::misc::{values_equal, plain, lemma_values_equal_symmetric, lemma_values_equal_reflexive};
use crate::modules::visible_modules;
use crate::memory::Module;
use crate::parser::{Parser, OneOfTheseTwo, OneOfTheseThree, ParserOk, ParserError, selected_error};
use crate::metadata::Location;
use crate::memory::{TypeLabel, type_label_name, type_label_of};
use crate::error_utils::{extended_type, type_of_name};
use crate::native::print::char_text;
use crate::native::read::{character_literal, escaped, grapheme_count};
use crate::text::{decimal, signed_decimal, parse_int, accumulate_digits, digit_char, ascii_digit, IntError};

verus! {

/// A value that is the symbol named `name` lives in the cell that the symbol table gives for
/// `name`: there is one symbol of each name.
pub proof fn lemma_named_symbol_cell(mem: &Memory, p: Option<usize>, name: Seq<char>)
    requires
        mem.wf(),
        is_symbol_named(mem, p, name),
    ensures
        mem.value_cell(p) is Some,
        mem.symbol_cell(name) == Some(mem.value_cell(p)->0 as usize),
{
    let c = mem.value_cell(p)->0;
    assert(mem.used(c));
    assert(mem.cell_wf(c));
    let s = mem.mv(c)->Value_0->Symbol_0;
    assert(s.name is Some);
    let k = choose|k: int| 0 <= k < mem.symbols@.len() && #[trigger] mem.symbols@[k].cell == c;
    assert(mem.symbols_wf());
    assert(mem.symbols@[k].name@ == name);
    let k2 = choose|k2: int| 0 <= k2 < mem.symbols@.len() && #[trigger] mem.symbols@[k2].name@ == name;
    if k2 != k {
        if k2 < k {
            assert(mem.symbols@[k2].name@ != mem.symbols@[k].name@);
        } else {
            assert(mem.symbols@[k].name@ != mem.symbols@[k2].name@);
        }
    }
}

/// The handles that `list_to_vec` takes out of a list are all live, so a list made of them
/// (`vec_to_list`, which turns handles that are not live into nil) has the same elements as the
/// list they came from.
pub proof fn law_list_round_trip(mem: &Memory, l: Option<usize>, w: Seq<GcRef>)
    requires
        mem.wf(),
        Some(ptrs(w)) == list_elems(mem, l),
    ensures
        Some(sanitized(mem, w)) == list_elems(mem, l),
{
    lemma_elems_live(mem, l);
    assert forall|k: int| 0 <= k < w.len() implies #[trigger] sanitized(mem, w)[k] == ptrs(w)[k] by {
        assert(ptrs(w)[k] == list_elems(mem, l)->0[k]);
    }
    assert(sanitized(mem, w) =~= ptrs(w));
}

/// Character cells holding the characters of `s` read as `s`.
proof fn lemma_chars_of_cells(mem: &Memory, cells: Seq<Option<usize>>, s: Seq<char>)
    requires
        cells.len() == s.len(),
        forall|i: int| 0 <= i < s.len() ==> mem.value_of(#[trigger] cells[i]) == Some(PrimitiveValue::Character(s[i])),
    ensures
        chars_of_elems(mem, cells) == Some(s),
    decreases cells.len(),
{
    if cells.len() > 0 {
        lemma_chars_of_cells(mem, cells.drop_first(), s.drop_first());
        assert(mem.value_of(cells[0]) == Some(PrimitiveValue::Character(s[0])));
        assert(seq![s[0]] + s.drop_first() =~= s);
    }
}

/// Cells among which one holds no character read as no string.
proof fn lemma_chars_need_characters(mem: &Memory, cells: Seq<Option<usize>>, i: int)
    requires
        0 <= i < cells.len(),
        !(mem.value_of(cells[i]) matches Some(PrimitiveValue::Character(_))),
    ensures
        chars_of_elems(mem, cells) is None,
    decreases cells.len(),
{
    if i > 0 {
        lemma_chars_need_characters(mem, cells.drop_first(), i - 1);
    }
}

/// The list `(list c1 .. cn)` of the characters of `s`, the form in which strings are written,
/// reads back as `s` (`list_to_string`); so does the bare list `(c1 .. cn)`.
pub proof fn law_string_round_trip(mem: &Memory, l: Option<usize>, s: Seq<char>, tagged: bool, off: int)
    requires
        off == (if tagged { 1int } else { 0int }),
        list_elems(mem, l) matches Some(e) && e.len() == s.len() + off
            && (tagged ==> is_symbol_named(mem, e[0], "list"@))
            && forall|i: int| 0 <= i < s.len() ==>
                mem.value_of(#[trigger] e[i + off]) == Some(PrimitiveValue::Character(s[i])),
    ensures
        string_of(mem, l) == Some(s),
{
    let e = list_elems(mem, l)->0;
    if tagged {
        assert forall|i: int| 0 <= i < s.len() implies mem.value_of(#[trigger] e.drop_first()[i]) == Some(PrimitiveValue::Character(s[i])) by {
            assert(e.drop_first()[i] == e[i + 1]);
        }
        lemma_chars_of_cells(mem, e.drop_first(), s);
    } else {
        assert forall|i: int| 0 <= i < s.len() implies mem.value_of(#[trigger] e[i]) == Some(PrimitiveValue::Character(s[i])) by {
            assert(e[i + 0] == e[i]);
        }
        lemma_chars_of_cells(mem, e, s);
        if e.len() > 0 {
            assert(mem.value_of(e[0int + 0int]) == Some(PrimitiveValue::Character(s[0])));
            assert(!is_symbol_named(mem, e[0], "list"@));
        }
    }
}

/// A list with an element that is no character, other than a leading symbol `list`, is no
/// string (`list_to_string` gives nothing).
pub proof fn law_string_needs_characters(mem: &Memory, l: Option<usize>, i: int)
    requires
        list_elems(mem, l) matches Some(e) && 0 <= i < e.len()
            && !(mem.value_of(e[i]) matches Some(PrimitiveValue::Character(_)))
            && (i == 0 ==> !is_symbol_named(mem, e[0], "list"@)),
    ensures
        string_of(mem, l) is None,
{
    let e = list_elems(mem, l)->0;
    if e.len() > 0 && is_symbol_named(mem, e[0], "list"@) {
        assert(e.drop_first()[i - 1] == e[i]);
        lemma_chars_need_characters(mem, e.drop_first(), i - 1);
    } else {
        lemma_chars_need_characters(mem, e, i);
    }
}

/// In a property list whose keys are distinct, looking up a key gives the value stored with
/// it: what `make_plist` builds, `get-property` reads back.
pub proof fn law_plist_lookup(mem: &Memory, p: Option<usize>, keys: Seq<Seq<char>>, vals: Seq<Option<usize>>, i: int)
    requires
        mem.wf(),
        is_plist(mem, p, keys, vals),
        0 <= i < keys.len(),
        forall|a: int, b: int| 0 <= a < b < keys.len() ==> keys[a] != keys[b],
    ensures
        mem.symbol_cell(keys[i]) is Some,
        plist_get(mem, list_elems(mem, p)->0, mem.symbol_cell(keys[i])->0 as int) == Some(vals[i]),
{
    let e = list_elems(mem, p)->0;
    assert(is_symbol_named(mem, e[2 * i], keys[i]));
    lemma_named_symbol_cell(mem, e[2 * i], keys[i]);
    lemma_plist_pairs(mem, e, keys, vals, i, 0);
    assert(e.skip(0) =~= e);
}

/// The pairs of `e` from pair `j` on are `(keys[k] vals[k])`; looking up `keys[i]` there gives
/// `vals[i]`.
proof fn lemma_plist_pairs(mem: &Memory, e: Seq<Option<usize>>, keys: Seq<Seq<char>>, vals: Seq<Option<usize>>, i: int, j: int)
    requires
        mem.wf(),
        keys.len() == vals.len(),
        e.len() == 2 * keys.len(),
        0 <= j <= i < keys.len(),
        forall|k: int| 0 <= k < keys.len() ==> #[trigger] is_symbol_named(mem, e[2 * k], keys[k]),
        forall|k: int| 0 <= k < keys.len() ==> #[trigger] e[2 * k + 1] == vals[k],
        forall|a: int, b: int| 0 <= a < b < keys.len() ==> keys[a] != keys[b],
        mem.symbol_cell(keys[i]) is Some,
    ensures
        plist_get(mem, e.skip(2 * j), mem.symbol_cell(keys[i])->0 as int) == Some(vals[i]),
    decreases i - j,
{
    let rest = e.skip(2 * j);
    let key = mem.symbol_cell(keys[i])->0 as int;
    assert(rest[0] == e[2 * j]);
    assert(rest[1] == e[2 * j + 1]);
    assert(is_symbol_named(mem, e[2 * j], keys[j]));
    lemma_named_symbol_cell(mem, e[2 * j], keys[j]);
    if j == i {
    } else {
        assert(keys[j] != keys[i]);
        if mem.value_cell(e[2 * j]) == Some(key) {
            assert(mem.symbol_cell(keys[j]) == mem.symbol_cell(keys[i]));
            let cj = mem.symbol_cell(keys[j])->0;
            let kj = choose|k: int| 0 <= k < mem.symbols@.len() && #[trigger] mem.symbols@[k].name@ == keys[j];
            let ki = choose|k: int| 0 <= k < mem.symbols@.len() && #[trigger] mem.symbols@[k].name@ == keys[i];
            assert(mem.symbols_wf());
            assert(mem.symbols@[kj].cell == mem.symbols@[ki].cell);
            assert(symbol_name_of_cell(mem, mem.symbols@[kj].cell as int) == Some(keys[j]));
            assert(symbol_name_of_cell(mem, mem.symbols@[ki].cell as int) == Some(keys[i]));
        }
        assert(rest.skip(2) =~= e.skip(2 * (j + 1)));
        lemma_plist_pairs(mem, e, keys, vals, i, j + 1);
    }
}

/// The name of the symbol in cell `c`.
spec fn symbol_name_of_cell(mem: &Memory, c: int) -> Option<Seq<char>> {
    crate::memory::symbol_name_of(mem.mv(c)->Value_0)
}

/// Where the parameters are distinct symbols, the environment of a call binds each parameter
/// to its argument: what `pair_params_and_args` builds, a lookup finds.
pub proof fn law_binding_visible(mem: &Memory, e: Option<usize>, keys: Seq<Option<usize>>, vals: Seq<Option<usize>>,
    tail: Option<usize>, i: int)
    requires
        mem.wf(),
        binds(mem, e, keys, vals, tail),
        0 <= i < keys.len(),
        mem.value_of(keys[i]) matches Some(PrimitiveValue::Symbol(_)),
        forall|j: int| 0 <= j < i ==> !same_symbol(mem, keys[j], keys[i]),
    ensures
        env_lookup(mem, e, keys[i]) == Some(vals[i]),
    decreases i,
{
    let c = mem.value_of(e)->0->Cons_0;
    crate::util::lemma_cdr_younger(mem, e);
    if i == 0 {
        assert(same_symbol(mem, keys[0], keys[0]));
    } else {
        assert(!same_symbol(mem, keys[0], keys[i]));
        assert forall|j: int| 0 <= j < i - 1 implies !same_symbol(mem, #[trigger] keys.drop_first()[j], keys.drop_first()[i - 1]) by {
            assert(keys.drop_first()[j] == keys[j + 1]);
            assert(!same_symbol(mem, keys[j + 1], keys[i]));
        }
        law_binding_visible(mem, c.cdr, keys.drop_first(), vals.drop_first(), tail, i - 1);
    }
}

/// A symbol that `gensym` makes is equal to no other symbol that exists beside it.
pub proof fn law_gensym_unique(mem: &Memory, s: usize)
    requires
        mem.wf(),
        mem.used(s as int),
        mem.mv(s as int) == MetaValue::Value(PrimitiveValue::Symbol(Symbol { name: None, own_address: s })),
    ensures
        forall|i: int| #[trigger] mem.used(i) && i != s && mem.mv(i) is Value && mem.mv(i)->Value_0 is Symbol ==>
            mem.mv(i)->Value_0->Symbol_0.own_address != s,
{
    assert forall|i: int| #[trigger] mem.used(i) && i != s && mem.mv(i) is Value && mem.mv(i)->Value_0 is Symbol implies
        mem.mv(i)->Value_0->Symbol_0.own_address != s by {
        assert(mem.cell_wf(i));
    }
}

/// A symbol that `gensym` made stays equal to no other symbol in every later heap that keeps it:
/// what later calls of `gensym`, `symbol_for` or any other operation make is another symbol.
pub proof fn law_gensym_unique_later(before: &Memory, after: &Memory, s: usize)
    requires
        before.wf(),
        before.used(s as int),
        before.mv(s as int) == MetaValue::Value(PrimitiveValue::Symbol(Symbol { name: None, own_address: s })),
        before.evolves(after),
        before.unchanged(after, Some(s)),
    ensures
        forall|i: int| #[trigger] after.used(i) && i != s && after.mv(i) is Value && after.mv(i)->Value_0 is Symbol ==>
            after.mv(i)->Value_0->Symbol_0.own_address != s,
{
    assert(after.mv(s as int) == before.mv(s as int));
    law_gensym_unique(after, s);
}

/// Reading the digits of `n`, after the value `acc` read before them, gives `acc` followed by
/// those digits, where no step leaves the range of `i64`.
#[verifier::spinoff_prover]
proof fn lemma_accumulate_decimal(n: nat, positive: bool)
    requires
        positive ==> n <= i64::MAX,
        !positive ==> n <= i64::MAX + 1,
    ensures
        accumulate_digits(decimal(n), 0, positive) == Ok::<int, IntError>(if positive { n as int } else { -(n as int) }),
    decreases n,
{
    lemma_digit_value(n % 10);
    let c = digit_char(n % 10);
    assert(seq![c].drop_first() =~= Seq::<char>::empty());
    assert(seq![c][0] == c);
    if n < 10 {
        assert(decimal(n) =~= seq![digit_char(n)]);
        assert(n % 10 == n);
    } else {
        lemma_accumulate_decimal(n / 10, positive);
        lemma_accumulate_push(decimal(n / 10), c, 0, positive);
        assert(decimal(n) == decimal(n / 10).push(c));
        assert((n / 10) * 10 + n % 10 == n);
        let v: int = if positive { (n / 10) as int } else { -((n / 10) as int) };
        assert(accumulate_digits(decimal(n / 10), 0, positive) == Ok::<int, IntError>(v));
        let w: int = if positive { v * 10 + (n % 10) as int } else { v * 10 - (n % 10) as int };
        assert(w == if positive { n as int } else { -(n as int) });
        assert(accumulate_digits(seq![c], v, positive) == accumulate_digits(Seq::<char>::empty(), w, positive));
    }
}

/// The digit character of `d` is an ASCII digit whose value is `d`.
proof fn lemma_digit_value(d: nat)
    requires
        d < 10,
    ensures
        ascii_digit(digit_char(d)),
        digit_char(d) as u32 - 48 == d,
{
}

/// Reading one more digit after `ds` extends the value read from `ds` by that digit.
proof fn lemma_accumulate_push(ds: Seq<char>, c: char, acc: int, positive: bool)
    ensures
        accumulate_digits(ds.push(c), acc, positive) == match accumulate_digits(ds, acc, positive) {
            Ok(v) => accumulate_digits(seq![c], v, positive),
            Err(e) => Err(e),
        },
    decreases ds.len(),
{
    if ds.len() == 0 {
        assert(ds.push(c) =~= seq![c]);
    } else {
        assert(ds.push(c)[0] == ds[0]);
        assert(ds.push(c).drop_first() =~= ds.drop_first().push(c));
        if ascii_digit(ds[0]) {
            let d = (ds[0] as u32 - 48) as int;
            let v = if positive { acc * 10 + d } else { acc * 10 - d };
            lemma_accumulate_push(ds.drop_first(), c, v, positive);
        }
    }
}

/// What `print` writes for a number, the number parser reads back as that number.
pub proof fn law_number_text_round_trip(n: i64)
    ensures
        parse_int(signed_decimal(n as int)) == Ok::<int, IntError>(n as int),
{
    if n < 0 {
        let m = (-(n as int)) as nat;
        lemma_accumulate_decimal(m, false);
        lemma_decimal_nonempty(m);
        let s = signed_decimal(n as int);
        assert(s.drop_first() =~= decimal(m));
        assert(s[0] == '-');
    } else {
        lemma_accumulate_decimal(n as nat, true);
        lemma_decimal_nonempty(n as nat);
        lemma_decimal_first_digit(n as nat);
    }
}

/// The decimal rendering of a number is not empty.
proof fn lemma_decimal_nonempty(n: nat)
    ensures
        decimal(n).len() >= 1,
    decreases n,
{
    if n >= 10 {
        lemma_decimal_nonempty(n / 10);
    }
}

/// The decimal rendering of a number starts with a digit.
proof fn lemma_decimal_first_digit(n: nat)
    ensures
        decimal(n).len() >= 1,
        ascii_digit(decimal(n)[0]),
    decreases n,
{
    if n >= 10 {
        lemma_decimal_first_digit(n / 10);
        assert(decimal(n)[0] == decimal(n / 10)[0]);
    } else {
        lemma_digit_value(n);
    }
}

/// Where exactly one element of `s` satisfies `pred`, filtering a prefix of `s` keeps that
/// element if the prefix holds it, and nothing else.
proof fn lemma_filter_single(s: Seq<Module>, pred: spec_fn(Module) -> bool, c: int, k: int)
    requires
        0 <= c < s.len(),
        0 <= k <= s.len(),
        forall|j: int| 0 <= j < s.len() ==> (pred(#[trigger] s[j]) <==> j == c),
    ensures
        s.take(k).filter(pred) == (if c < k { seq![s[c]] } else { Seq::<Module>::empty() }),
    decreases k,
{
    reveal_with_fuel(Seq::<Module>::filter, 1);
    if k == 0 {
        assert(s.take(0) =~= Seq::<Module>::empty());
    } else {
        lemma_filter_single(s, pred, c, k - 1);
        assert(s.take(k).drop_last() =~= s.take(k - 1));
        assert(s.take(k).last() == s[k - 1]);
        assert(pred(s[k - 1]) <==> k - 1 == c);
        if c == k - 1 {
            assert(Seq::<Module>::empty().push(s[c]) =~= seq![s[c]]);
        }
    }
}

/// What a definition writes, evaluation reads: after `define` binds `key` in the current module
/// to a value, evaluating a symbol of that name in the empty environment, from the current module,
/// gives that value, where no other module makes the name visible there.
pub proof fn law_define_then_evaluate(before: &Memory, defined: &Memory, after: &Memory, key: Seq<char>,
    value: Option<usize>, sym: Option<usize>, r: Result<GcRef, GcRef>)
    requires
        defined.wf(),
        defined.current().lookup(key) is Some,
        defined.value_of(defined.current().lookup(key)->0) == before.value_of(value),
        key_of(defined, sym) == Some(key),
        symbol_outcome(defined, after, r, sym, None, defined.current().name@, "eval"@),
        forall|k: int| 0 <= k < defined.modules@.len() && k != defined.current_module ==>
            !(#[trigger] defined.modules@[k]).visible(key, defined.current().name@),
    ensures
        r matches Ok(x) && after.value_of(x.ptr()) == before.value_of(value),
{
    let mods = defined.modules@;
    let from = defined.current().name@;
    let c = defined.current_module as int;
    let pred = |m: Module| m.visible(key, from);
    assert(env_lookup(defined, None, sym) is None);
    assert forall|j: int| 0 <= j < mods.len() implies (pred(#[trigger] mods[j]) <==> j == c) by {
        if j == c {
            assert(mods[j].visible(key, from));
        }
    }
    lemma_filter_single(mods, pred, c, mods.len() as int);
    assert(mods.take(mods.len() as int) =~= mods);
    assert(visible_modules(mods, key, from) == seq![mods[c]]);
}

/// Filtering a prefix of `s` by a predicate that no element satisfies keeps nothing.
proof fn lemma_filter_none(s: Seq<Module>, pred: spec_fn(Module) -> bool, k: int)
    requires
        0 <= k <= s.len(),
        forall|j: int| 0 <= j < s.len() ==> !pred(#[trigger] s[j]),
    ensures
        s.take(k).filter(pred) == Seq::<Module>::empty(),
    decreases k,
{
    reveal_with_fuel(Seq::<Module>::filter, 1);
    if k == 0 {
        assert(s.take(0) =~= Seq::<Module>::empty());
    } else {
        lemma_filter_none(s, pred, k - 1);
        assert(s.take(k).drop_last() =~= s.take(k - 1));
        assert(s.take(k).last() == s[k - 1]);
        assert(!pred(s[k - 1]));
    }
}

/// What `undefine` removes, evaluation no longer finds: after the current module's binding of
/// `key` is gone, evaluating a symbol of that name in the empty environment, from the current
/// module, fails with `unbound-symbol` where no other module makes the name visible there.
pub proof fn law_undefine_then_evaluate(undefined: &Memory, after: &Memory, key: Seq<char>, sym: Option<usize>,
    r: Result<GcRef, GcRef>)
    requires
        undefined.wf(),
        undefined.current().lookup(key) is None,
        key_of(undefined, sym) == Some(key),
        symbol_outcome(undefined, after, r, sym, None, undefined.current().name@, "eval"@),
        forall|k: int| 0 <= k < undefined.modules@.len() && k != undefined.current_module ==>
            !(#[trigger] undefined.modules@[k]).visible(key, undefined.current().name@),
    ensures
        r matches Err(e) && crate::error_utils::is_error(after, e.ptr(), "unbound-symbol"@, "eval"@, seq!["symbol"@], seq![sym]),
{
    let mods = undefined.modules@;
    let from = undefined.current().name@;
    let pred = |m: Module| m.visible(key, from);
    assert(env_lookup(undefined, None, sym) is None);
    assert forall|j: int| 0 <= j < mods.len() implies !pred(#[trigger] mods[j]) by {
        if j == undefined.current_module as int {
            assert(mods[j].lookup(key) is None);
        }
    }
    lemma_filter_none(mods, pred, mods.len() as int);
    assert(mods.take(mods.len() as int) =~= mods);
    assert(visible_modules(mods, key, from).len() == 0);
}


/// `=` does not depend on the order of its arguments: `(= x y)` and `(= y x)` give the same
/// answer.
pub proof fn law_equal_symmetric(mem: &Memory, x: Option<usize>, y: Option<usize>)
    requires
        mem.wf(),
    ensures
        values_equal(mem, x, y) == values_equal(mem, y, x),
{
    lemma_values_equal_symmetric(mem, x, y);
}

/// Every value without a function or a trap in it is `=` to itself. (A function or a trap is
/// equal to nothing, itself included.)
pub proof fn law_equal_reflexive(mem: &Memory, x: Option<usize>)
    requires
        mem.wf(),
        plain(mem, x),
    ensures
        values_equal(mem, x, x),
{
    lemma_values_equal_reflexive(mem, x);
}

/// Trying three parsers in turn is trying the first, and then the two others in turn: the
/// three-way alternative parses exactly as the two-way alternative of the first parser and the
/// two-way alternative of the second and third.
pub proof fn law_three_alternatives_nest<'a, P1: Parser, P2: Parser, P3: Parser>(
    three: OneOfTheseThree<'a, P1, P2, P3>, inner: OneOfTheseTwo<'a, P2, P3>,
    outer: OneOfTheseTwo<'a, P1, OneOfTheseTwo<'a, P2, P3>>,
    old: Memory, string: Option<usize>, location: Location, new: Memory, r: Result<ParserOk, ParserError>)
    requires
        outer.parser1 == three.parser1,
        *outer.parser2 == inner,
        inner.parser1 == three.parser2,
        inner.parser2 == three.parser3,
    ensures
        three.parses(old, string, location, new, r) <==> outer.parses(old, string, location, new, r),
{
    if three.parses(old, string, location, new, r) {
        let (m1, r1) = choose|m1: Memory, r1: Result<ParserOk, ParserError>| #[trigger] three.parser1.parses(old, string, location, m1, r1)
            && match r1 {
                Ok(o1) => new == m1 && r == Ok::<ParserOk, ParserError>(o1),
                Err(e1) => exists|m2: Memory, r2: Result<ParserOk, ParserError>| #[trigger] three.parser2.parses(m1, string, location, m2, r2)
                    && match r2 {
                        Ok(o2) => new == m2 && r == Ok::<ParserOk, ParserError>(o2),
                        Err(e2) => exists|r3: Result<ParserOk, ParserError>| #[trigger] three.parser3.parses(m2, string, location, new, r3)
                            && r == match r3 {
                                Ok(o3) => Ok::<ParserOk, ParserError>(o3),
                                Err(e3) => Err(selected_error(e1, selected_error(e2, e3))),
                            },
                    },
            };
        if let Err(e1) = r1 {
            let (m2, r2) = choose|m2: Memory, r2: Result<ParserOk, ParserError>| #[trigger] three.parser2.parses(m1, string, location, m2, r2)
                && match r2 {
                    Ok(o2) => new == m2 && r == Ok::<ParserOk, ParserError>(o2),
                    Err(e2) => exists|r3: Result<ParserOk, ParserError>| #[trigger] three.parser3.parses(m2, string, location, new, r3)
                        && r == match r3 {
                            Ok(o3) => Ok::<ParserOk, ParserError>(o3),
                            Err(e3) => Err(selected_error(e1, selected_error(e2, e3))),
                        },
                };
            match r2 {
                Ok(o2) => {
                    assert(inner.parses(m1, string, location, new, Ok(o2)));
                },
                Err(e2) => {
                    let r3 = choose|r3: Result<ParserOk, ParserError>| #[trigger] three.parser3.parses(m2, string, location, new, r3)
                        && r == match r3 {
                            Ok(o3) => Ok::<ParserOk, ParserError>(o3),
                            Err(e3) => Err(selected_error(e1, selected_error(e2, e3))),
                        };
                    let ri: Result<ParserOk, ParserError> = match r3 {
                        Ok(o3) => Ok(o3),
                        Err(e3) => Err(selected_error(e2, e3)),
                    };
                    assert(inner.parses(m1, string, location, new, ri));
                    assert(outer.parser2.parses(m1, string, location, new, ri));
                },
            }
        }
    }
    if outer.parses(old, string, location, new, r) {
        let (m1, r1) = choose|m1: Memory, r1: Result<ParserOk, ParserError>| #[trigger] outer.parser1.parses(old, string, location, m1, r1)
            && match r1 {
                Ok(o1) => new == m1 && r == Ok::<ParserOk, ParserError>(o1),
                Err(e1) => exists|r2: Result<ParserOk, ParserError>| #[trigger] outer.parser2.parses(m1, string, location, new, r2)
                    && r == match r2 {
                        Ok(o2) => Ok::<ParserOk, ParserError>(o2),
                        Err(e2) => Err(selected_error(e1, e2)),
                    },
            };
        if let Err(e1) = r1 {
            let ri = choose|r2: Result<ParserOk, ParserError>| #[trigger] outer.parser2.parses(m1, string, location, new, r2)
                && r == match r2 {
                    Ok(o2) => Ok::<ParserOk, ParserError>(o2),
                    Err(e2) => Err(selected_error(e1, e2)),
                };
            assert(inner.parses(m1, string, location, new, ri));
            let (m2, r2) = choose|m2: Memory, r2: Result<ParserOk, ParserError>| #[trigger] inner.parser1.parses(m1, string, location, m2, r2)
                && match r2 {
                    Ok(o2) => new == m2 && ri == Ok::<ParserOk, ParserError>(o2),
                    Err(e2) => exists|r3: Result<ParserOk, ParserError>| #[trigger] inner.parser2.parses(m2, string, location, new, r3)
                        && ri == match r3 {
                            Ok(o3) => Ok::<ParserOk, ParserError>(o3),
                            Err(e3) => Err(selected_error(e2, e3)),
                        },
                };
            assert(three.parser2.parses(m1, string, location, m2, r2));
            if let Err(e2) = r2 {
                let r3 = choose|r3: Result<ParserOk, ParserError>| #[trigger] inner.parser2.parses(m2, string, location, new, r3)
                    && ri == match r3 {
                        Ok(o3) => Ok::<ParserOk, ParserError>(o3),
                        Err(e3) => Err(selected_error(e2, e3)),
                    };
                assert(three.parser3.parses(m2, string, location, new, r3));
            }
        }
    }
}

/// Two numbers are `=` exactly when they are the same integer.
pub proof fn law_equal_numbers(mem: &Memory, x: Option<usize>, y: Option<usize>, n1: i64, n2: i64)
    requires
        mem.value_of(x) == Some(PrimitiveValue::Number(n1)),
        mem.value_of(y) == Some(PrimitiveValue::Number(n2)),
    ensures
        values_equal(mem, x, y) <==> n1 == n2,
{
}

/// Two characters are `=` exactly when they are the same character.
pub proof fn law_equal_characters(mem: &Memory, x: Option<usize>, y: Option<usize>, c1: char, c2: char)
    requires
        mem.value_of(x) == Some(PrimitiveValue::Character(c1)),
        mem.value_of(y) == Some(PrimitiveValue::Character(c2)),
    ensures
        values_equal(mem, x, y) <==> c1 == c2,
{
}

/// `type-of` names a value by the type that type errors report for it, except that a bare cons
/// cell (neither a string nor a proper list) is `cons-type` and functions are told apart as
/// lambdas and macros: a proper list that is not a string is `list-type`, a string
/// `string-type`.
pub proof fn law_type_of_names(mem: &Memory, p: Option<usize>)
    ensures
        !(mem.value_of(p) is Some && mem.value_of(p)->0 is Function) && extended_type(mem, p) != TypeLabel::Cons
            ==> type_of_name(mem, p) == type_label_name(extended_type(mem, p)),
        extended_type(mem, p) == TypeLabel::List ==> type_of_name(mem, p) == "list-type"@,
        extended_type(mem, p) == TypeLabel::String ==> type_of_name(mem, p) == "string-type"@,
        extended_type(mem, p) == TypeLabel::Cons ==> type_of_name(mem, p) == "cons-type"@,
{
}

/// Values of different types that are not functions get different names from `type-of`: in
/// particular a proper list and a bare cons cell are told apart.
pub proof fn law_type_of_tells_apart(mem: &Memory, p: Option<usize>, q: Option<usize>)
    requires
        !(mem.value_of(p) is Some && mem.value_of(p)->0 is Function),
        !(mem.value_of(q) is Some && mem.value_of(q)->0 is Function),
        extended_type(mem, p) != extended_type(mem, q),
    ensures
        type_of_name(mem, p) != type_of_name(mem, q),
{
    reveal_strlit("nil-type");
    reveal_strlit("number-type");
    reveal_strlit("character-type");
    reveal_strlit("symbol-type");
    reveal_strlit("trap-type");
    reveal_strlit("string-type");
    reveal_strlit("list-type");
    reveal_strlit("cons-type");
    let np = type_of_name(mem, p);
    let nq = type_of_name(mem, q);
    if np == nq {
        assert(np.len() == nq.len());
        assert(np[0] == nq[0]);
        assert(np[1] == nq[1]);
    }
}

/// What `print` writes after `%` for a character, the reader reads back as that character: the
/// character itself, or a backslash and the letter that stands for it in a string literal.
pub proof fn law_char_text_round_trip(c: char)
    requires
        grapheme_count(seq![c]) == 1,
    ensures
        character_literal(char_text(c)) == Ok::<char, Seq<char>>(c),
        char_text(c) == seq![c] || (char_text(c).len() == 2 && char_text(c)[0] == '\\'
            && escaped(char_text(c)[1]) == Some(c)),
{
    reveal_strlit("\\t");
    reveal_strlit("\\n");
    reveal_strlit("\\r");
    reveal_strlit("\\\\");
    if c == '\t' {
        assert(char_text(c) =~= seq!['\\', 't']);
    } else if c == '\n' {
        assert(char_text(c) =~= seq!['\\', 'n']);
    } else if c == '\r' {
        assert(char_text(c) =~= seq!['\\', 'r']);
    } else if c == '\\' {
        assert(char_text(c) =~= seq!['\\', '\\']);
    } else {
        assert(char_text(c) =~= seq![c]);
        assert(seq![c] != seq!['\\', 'n']);
        assert(seq![c].len() != 0);
    }
}

} // verus!
