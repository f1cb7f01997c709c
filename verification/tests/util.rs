use picilisp::memory::{Memory, GcRef, PrimitiveValue};
use picilisp::util::{vec_to_list, string_to_list, list_to_vec, append_lists};

fn assert_symbol(mem: &Memory, x: &GcRef, name: &str) {
    match x.get(mem) {
        Some(PrimitiveValue::Symbol(s)) => assert_eq!(s.name.as_deref(), Some(name)),
        _ => panic!("not a symbol"),
    }
}


#[test]
fn util_vec_to_list() {
    let mut mem = Memory::new();

    let vec = vec![mem.symbol_for("A"),
                   mem.symbol_for("B"),
                   mem.symbol_for("C")];

    let list = vec_to_list(&mut mem, &vec);

    let mut c = list;
    let c1 = c.get(&mem).unwrap().as_conscell();
    { let t = c1.get_car(&mem); assert_symbol(&mem, &t, "A"); }
    c = c1.get_cdr(&mem);
    let c2 = c.get(&mem).unwrap().as_conscell();
    { let t = c2.get_car(&mem); assert_symbol(&mem, &t, "B"); }
    c = c2.get_cdr(&mem);
    let c3 = c.get(&mem).unwrap().as_conscell();
    { let t = c3.get_car(&mem); assert_symbol(&mem, &t, "C"); }
    c = c3.get_cdr(&mem);
    assert!(c.is_nil(&mem));
}

#[test]
fn util_string_to_list() {
    let mut mem = Memory::new();
    
    let list = string_to_list(&mut mem, "cat");

    let mut c = list;
    let c1 = c.get(&mem).unwrap().as_conscell();
    assert_eq!(*c1.get_car(&mem).get(&mem).unwrap().as_character(), 'c');
    c = c1.get_cdr(&mem);                             
    let c2 = c.get(&mem).unwrap().as_conscell();
    assert_eq!(*c2.get_car(&mem).get(&mem).unwrap().as_character(), 'a');
    c = c2.get_cdr(&mem);
    let c3 = c.get(&mem).unwrap().as_conscell();
    assert_eq!(*c3.get_car(&mem).get(&mem).unwrap().as_character(), 't');
    c = c3.get_cdr(&mem);
    assert!(c.is_nil(&mem));
}


#[test]
fn util_vec_to_list_empty() {
    let mut mem = Memory::new();
    
    let vec = vec![];
    let list = vec_to_list(&mut mem, &vec);
    assert!(list.is_nil(&mem));
}


#[test]
fn util_list_to_vec() {
    let mut mem = Memory::new();

    // empty list
    let list = GcRef::nil();
    assert_eq!(list_to_vec(&mem, list).unwrap().len(), 0);
    
    // non-empty list
    let mut list = GcRef::nil();
    for i in (0 .. 5).rev() {
        let x = mem.allocate_number(i as i64);
        list = mem.allocate_cons(x, list);
    }

    let vec = list_to_vec(&mem, list);

    for (i, x) in vec.unwrap().iter().enumerate() {
        assert_eq!(*x.get(&mem).unwrap().as_number(), i as i64);
    }
}

#[test]
fn util_list_to_vec_fail() {
    let mut mem = Memory::new();

    // not list at all
    let not_list = mem.allocate_character('@');
    assert!(list_to_vec(&mem, not_list).is_none());

    // not valid list
    let x1 = mem.allocate_number(100);
    let x2 = mem.allocate_number(200);
    let x3 = mem.allocate_number(300);
    let c1 = mem.allocate_cons(x2, x3);
    let c2 = mem.allocate_cons(x1, c1);
    assert!(list_to_vec(&mem, c2).is_none());
}

#[test]
fn util_append_lists() {
    let mut mem = Memory::new();

    let vec1  = vec![mem.allocate_number(110), mem.allocate_number(120), mem.allocate_number(130)];
    let list1 = vec_to_list(&mut mem, &vec1);
    let vec2  = vec![mem.allocate_number(140), mem.allocate_number(150), mem.allocate_number(160)];
    let list2 = vec_to_list(&mut mem, &vec2);

    let list3 = append_lists(&mut mem, list1, list2).unwrap();
    let vec3  = list_to_vec(&mem, list3).unwrap();
    assert_eq!(vec3.iter().map(|x| *x.get(&mem).unwrap().as_number()).collect::<Vec<i64>>(), vec![110, 120, 130, 140, 150, 160]);
}


