use picilisp::memory::{Memory, GcRef, FunctionKind, NativeId, NativeFunction, PrimitiveValue};
use picilisp::access::ParameterIterator;

fn symbol_name(mem: &Memory, x: &GcRef) -> String {
    match x.get(mem) {
        Some(PrimitiveValue::Symbol(s)) => s.get_name(),
        _ => panic!("not a symbol"),
    }
}

#[test]
fn parameter_iterator_skips_the_rest_parameter() {
    let mut mem = Memory::new();
    let params = vec![mem.symbol_for("a"), mem.symbol_for("b"), mem.symbol_for("more")];
    let body = mem.symbol_for("a");
    let f = mem.allocate_normal_function(FunctionKind::Lambda, true, body, &params, GcRef::nil(), "default");
    let nf = f.get(&mem).unwrap().as_function().as_normal_function();
    let mut walk = ParameterIterator::new(nf);
    let first = walk.next(&mem).unwrap();
    let second = walk.next(&mem).unwrap();
    assert_eq!(symbol_name(&mem, &first), "a");
    assert_eq!(symbol_name(&mem, &second), "b");
    assert!(walk.next(&mem).is_none());
    assert!(walk.next(&mem).is_none());
}

#[test]
fn parameter_iterator_gives_every_parameter_without_rest() {
    let mut mem = Memory::new();
    let params = vec![mem.symbol_for("x")];
    let f = mem.allocate_normal_function(FunctionKind::Macro, false, GcRef::nil(), &params, GcRef::nil(), "default");
    let nf = f.get(&mem).unwrap().as_function().as_normal_function();
    let mut walk = ParameterIterator::new(nf);
    assert_eq!(symbol_name(&mem, &walk.next(&mem).unwrap()), "x");
    assert!(walk.next(&mem).is_none());
}

#[test]
fn native_function_call_runs_the_native() {
    let mut mem = Memory::new();
    let add = NativeFunction { kind: FunctionKind::Lambda, function: NativeId::Add, parameters: vec![] };
    let args = vec![mem.allocate_number(2), mem.allocate_number(40)];
    let r = add.call(&mut mem, &args, GcRef::nil(), 0).ok().unwrap();
    assert_eq!(*r.get(&mem).unwrap().as_number(), 42);

    let car = NativeFunction { kind: FunctionKind::Lambda, function: NativeId::Car, parameters: vec![] };
    let n = mem.allocate_number(1);
    assert!(car.call(&mut mem, &[n], GcRef::nil(), 0).is_err());
}

#[test]
fn function_accessors() {
    let mut mem = Memory::new();
    let params = vec![mem.symbol_for("a"), mem.symbol_for("rest")];
    let f = mem.allocate_normal_function(FunctionKind::Lambda, true, GcRef::nil(), &params, GcRef::nil(), "geometry");
    let function = f.get(&mem).unwrap().as_function();
    assert_eq!(function.get_module(), "geometry");
    let nf = function.as_normal_function();
    let all = nf.get_params(&mem);
    assert_eq!(all.len(), 2);
    assert_eq!(symbol_name(&mem, &all[1]), "rest");
    let rest = nf.rest_param(&mem).unwrap();
    assert_eq!(symbol_name(&mem, &rest), "rest");

    let g = mem.allocate_normal_function(FunctionKind::Lambda, false, GcRef::nil(), &params, GcRef::nil(), "geometry");
    assert!(g.get(&mem).unwrap().as_function().as_normal_function().rest_param(&mem).is_none());

    let n = mem.allocate_native_function(FunctionKind::Lambda, vec![], NativeId::Car);
    let native = n.get(&mem).unwrap().as_function();
    assert_eq!(native.get_module(), "");
    match native {
        picilisp::memory::Function::NativeFunction(nf) => {
            assert!(nf.is_the_same_as(NativeId::Car));
            assert!(!nf.is_the_same_as(NativeId::Cdr));
        },
        _ => panic!("not a native function"),
    }
}

#[test]
fn exported_globals() {
    let mut mem = Memory::new();
    let x = mem.allocate_number(1);
    mem.define_global("x", x.clone());
    mem.define_global("y", x);
    assert!(mem.is_global_exported("x"));
    mem.add_export("x");
    assert!(mem.is_global_exported("x"));
    assert!(!mem.is_global_exported("y"));
}

#[test]
fn break_point_gives_back_its_argument() {
    let mut mem = Memory::new();
    let n = mem.allocate_number(9);
    let r = picilisp::native::reflection::break_point(&mut mem, &[n.clone()], GcRef::nil(), 0).ok().unwrap();
    assert_eq!(r.pointer, n.pointer);
    assert!(picilisp::native::reflection::break_point(&mut mem, &[], GcRef::nil(), 0).is_err());
}

#[test]
fn symbols_are_equal_when_they_are_the_same_cell() {
    let mut mem = Memory::new();
    let a1 = mem.symbol_for("a");
    let a2 = mem.symbol_for("a");
    let b = mem.symbol_for("b");
    let s_a1 = a1.get(&mem).unwrap().as_symbol();
    let s_a2 = a2.get(&mem).unwrap().as_symbol();
    let s_b = b.get(&mem).unwrap().as_symbol();
    assert!(s_a1 == s_a2);
    assert!(s_a1 != s_b);
}
