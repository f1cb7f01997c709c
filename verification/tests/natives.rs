use picilisp::memory::{Memory, FunctionKind, NativeId, PrimitiveValue};
use picilisp::native::{native_metadata, load_native_function};

#[test]
fn metadata_of_a_native() {
    let m = native_metadata(NativeId::Cons);
    assert_eq!(m.name, "cons");
    assert_eq!(m.kind, FunctionKind::Lambda);
    assert_eq!(m.parameters, vec!["car".to_string(), "cdr".to_string()]);
    assert!(m.documentation.starts_with("Create a new cons-cell"));
    assert_eq!(native_metadata(NativeId::Macro).kind, FunctionKind::Macro);
    assert_eq!(native_metadata(NativeId::Equal).name, "=");
}

#[test]
fn loading_one_native_binds_it_with_its_documentation() {
    let mut mem = Memory::new();
    load_native_function(&mut mem, native_metadata(NativeId::Car));
    let f = mem.get_global("car", "default").ok().unwrap();
    match f.get(&mem) {
        Some(PrimitiveValue::Function(picilisp::memory::Function::NativeFunction(nf))) => {
            assert_eq!(nf.function, NativeId::Car);
        },
        _ => panic!("not a native function"),
    }
    let md = f.get_meta(&mem).unwrap();
    assert_eq!(md.read_name, "car");
    assert!(md.documentation.starts_with("Return the car of `cons`."));
}
