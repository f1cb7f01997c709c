use picilisp::memory::{Memory, GcRef, FunctionKind};
use picilisp::metadata::{Metadata, Location};
use picilisp::config;

fn same_symbol(mem: &Memory, a: &GcRef, b: &GcRef) -> bool {
    a.get(mem).unwrap().as_symbol().own_address == b.get(mem).unwrap().as_symbol().own_address
}

fn global(mem: &Memory, name: &str) -> Option<GcRef> {
    let module = mem.get_current_module();
    mem.get_global(name, &module).ok()
}

#[test]
fn memory_init() {
    let mem = Memory::new();

    assert_eq!(mem.free_count(), config::INITIAL_FREE_CELLS);
    for cell in mem.cells.iter() {
        assert!(cell.content.is_none());
    }
}

#[test]
fn memory_allocate() {
    let mut mem = Memory::new();

    {
        let mut refs = vec![];
        for i in 0 .. config::INITIAL_FREE_CELLS {
            refs.push(mem.allocate_number(i as i64));
        }

        assert_eq!(mem.free_count(), 0);
        assert_eq!(mem.used_count(), config::INITIAL_FREE_CELLS);

        refs.push(mem.allocate_number(-10));

        assert_eq!(mem.free_count(), mem.used_count() * config::ALLOCATION_NUMERATOR / config::ALLOCATION_DENOMINATOR - 1);
        assert_eq!(mem.used_count(), config::INITIAL_FREE_CELLS + 1);

        for i in 0 .. 100 {
            refs.push(mem.allocate_number(i as i64));
        }
    }

    for i in 100 .. 1000 {
        mem.allocate_number(i as i64);
    }

    assert_eq!(mem.used_count(), 1);
}

#[test]
fn externalreference_deref() {
    let mut mem = Memory::new();

    let reference1 = mem.allocate_number(31416);
    let reference2 = mem.allocate_character('Q');

    assert_eq!(*reference1.get(&mem).unwrap().as_number(), 31416);
    assert_eq!(*reference2.get(&mem).unwrap().as_character(), 'Q');
}

#[test]
fn externalreference_clone() {
    let mut mem = Memory::new();

    let r4;
    {
        let r1 = mem.allocate_number(-12);
        let r2 = r1.clone();
        let r3 = mem.allocate_character('1');
        r4 = r3.clone();

        assert_eq!(*r2.get(&mem).unwrap().as_number(), -12);
        assert_eq!(mem.used_count(), 2);
    }
    assert_eq!(*r4.get(&mem).unwrap().as_character(), '1');

    mem.collect();

    assert_eq!(mem.used_count(), 1);
}

#[test]
fn memory_allocate_cons() {
    let mut mem = Memory::new();
    let length = 10;

    let remain = mem.allocate_number(99);

    {
        let mut c = GcRef::nil();
        for i in 0 .. length {
            let x = mem.allocate_number(i as i64);
            c = mem.allocate_cons(x, c);
        }

        let mut i = length;
        while !c.is_nil(&mem) {
            i -= 1;
            let car = c.get(&mem).unwrap().as_conscell().get_car(&mem);
            assert_eq!(*car.get(&mem).unwrap().as_number(), i as i64);

            c = c.get(&mem).unwrap().as_conscell().get_cdr(&mem);
        }

        assert_eq!(mem.used_count(), 2 * length + 1);
    }

    mem.collect();

    assert_eq!(mem.used_count(), 1);
    assert_eq!(*remain.get(&mem).unwrap().as_number(), 99);
}

#[test]
fn memory_allocate_symbol() {
    let mut mem = Memory::new();

    let sym1 = mem.symbol_for("elephant");
    let sym2 = mem.symbol_for("mamoth");
    let sym3 = mem.symbol_for("elephant");

    assert!(same_symbol(&mem, &sym1, &sym3));
    assert!(!same_symbol(&mem, &sym1, &sym2));
    assert!(!same_symbol(&mem, &sym3, &sym2));

    assert_eq!(mem.used_count(), 2);
}

#[test]
fn memory_allocate_unique_symbol() {
    let mut mem = Memory::new();

    let sym1 = mem.unique_symbol();
    let sym2 = mem.symbol_for("whale");
    let sym3 = mem.unique_symbol();

    assert!(!same_symbol(&mem, &sym1, &sym2));
    assert!(!same_symbol(&mem, &sym1, &sym3));
    assert!(!same_symbol(&mem, &sym2, &sym3));

    assert_eq!(mem.used_count(), 3);
}

#[test]
fn gc_collect_symbols() {
    let mut mem = Memory::new();

    let sym1 = mem.symbol_for("cat");
    {
        let mut syms = vec![];
        for i in 0 .. 10 {
            syms.push(mem.symbol_for(&format!("{i}")));
        }
    }
    let sym2 = mem.symbol_for("cat");

    mem.collect();

    assert!(same_symbol(&mem, &sym1, &sym2));

    assert_eq!(mem.used_count(), 1);
    assert_eq!(mem.symbols.len(), 1);
}

#[test]
fn mem_allocate_function() {
    let mut mem = Memory::new();

    let p1 = mem.symbol_for("oak");
    let p2 = mem.symbol_for("pine");
    let p3 = mem.symbol_for("elm");
    let body = mem.allocate_character('ß');

    let has_rest_params = false;
    let fun = mem.allocate_normal_function(FunctionKind::Lambda, has_rest_params, body, &vec![p1, p2, p3], GcRef::nil(), "default");
    let nf = fun.get(&mem).unwrap().as_function().as_normal_function();
    assert_eq!(*nf.get_body(&mem).get(&mem).unwrap().as_character(), 'ß');
    let params = nf.non_rest_params(&mem);
    let oak = mem.symbol_for("oak");
    let pine = mem.symbol_for("pine");
    let elm = mem.symbol_for("elm");
    assert!(same_symbol(&mem, &params[0], &oak));
    assert!(same_symbol(&mem, &params[1], &pine));
    assert!(same_symbol(&mem, &params[2], &elm));
    assert_eq!(params.len(), 3);
    assert_eq!(fun.get(&mem).unwrap().as_function().as_normal_function().kind, FunctionKind::Lambda);
}

#[test]
fn gc_collect_functions() {
    let mut mem = Memory::new();

    {
        mem.allocate_number(00);

        let p1 = mem.symbol_for("tulip");
        let p2 = mem.symbol_for("rose");
        let p3 = mem.symbol_for("sunflower");
        let body = mem.allocate_character('🌻');

        let has_rest_params = false;
        let fun = mem.allocate_normal_function(FunctionKind::Macro, has_rest_params, body, &vec![p1, p2, p3], GcRef::nil(), "default");

        mem.symbol_for("tulip");

        assert_eq!(fun.get(&mem).unwrap().as_function().as_normal_function().non_rest_params(&mem).len(), 3);
    }

    mem.collect();

    assert_eq!(mem.used_count(), 0);
}

#[test]
fn mem_allocate_trap() {
    let mut mem = Memory::new();

    {
        let x = mem.allocate_number(1002);
        let y = mem.allocate_character('a');
        let trap = mem.allocate_trap(x, y);

        let normal = trap.get(&mem).unwrap().as_trap().get_normal_body(&mem);
        let handler = trap.get(&mem).unwrap().as_trap().get_trap_body(&mem);
        assert_eq!(*normal.get(&mem).unwrap().as_number(), 1002);
        assert_eq!(*handler.get(&mem).unwrap().as_character(), 'a');
    }

    mem.collect();

    assert_eq!(mem.used_count(), 0);
}

#[test]
fn mem_allocate_meta() {
    let mut mem = Memory::new();

    {
        let loc1 = Location::Stdin { line: 23, column: 42 };
        let md1  = Metadata{ read_name: "".to_string(), location: loc1, documentation: "".to_string() };
        let n1   = mem.allocate_number(1370);
        let x1   = mem.allocate_metadata(n1, md1);

        let loc2 = Location::File { path: "~/the/input/file.lisp".to_string(), line: 41, column: 42 };
        let md2  = Metadata{ read_name: "".to_string(), location: loc2, documentation: "Very important information".to_string() };
        let c2   = mem.allocate_character(' ');
        let x2   = mem.allocate_metadata(c2, md2);

        let y    = mem.symbol_for("thing");

        assert_eq!(*x1.get(&mem).unwrap().as_number(),    1370);
        assert_eq!(*x2.get(&mem).unwrap().as_character(), ' ');

        assert_eq!(x1.get_meta(&mem).unwrap().location.get_file(), None);
        assert_eq!(x1.get_meta(&mem).unwrap().location.get_line().unwrap(), 23);
        assert_eq!(x1.get_meta(&mem).unwrap().documentation, "");
        assert_eq!(x2.get_meta(&mem).unwrap().location.get_file().unwrap(), "~/the/input/file.lisp".to_string());
        assert_eq!(x2.get_meta(&mem).unwrap().location.get_column().unwrap(), 42);
        assert_eq!(x2.get_meta(&mem).unwrap().documentation, "Very important information");

        assert!(y.get_meta(&mem).is_none());
    }

    mem.collect();

    assert_eq!(mem.used_count(), 0);
}

#[test]
fn mem_globals() {
    let mut mem = Memory::new();

    let x = mem.allocate_number(140);
    mem.define_global("x", x);
    let y = mem.symbol_for("thing");
    mem.define_global("y", y);

    assert_eq!(*global(&mem, "x").unwrap().get(&mem).unwrap().as_number(), 140);
    assert!(global(&mem, "z").is_none());

    mem.undefine_global("x");
    assert!(global(&mem, "x").is_none());

    mem.collect();

    let thing = mem.symbol_for("thing");
    assert!(same_symbol(&mem, &global(&mem, "y").unwrap(), &thing));
}
