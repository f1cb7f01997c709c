use picilisp::memory::{Memory, GcRef};
use picilisp::native::list::{cons, car, cdr, list};


#[test]
fn lists_cons() {
    let mut mem = Memory::new();

    let x = mem.allocate_number(1);
    let y = mem.allocate_number(2);
    let c = cons(&mut mem, &[x, y], GcRef::nil()).ok().unwrap();
    assert_eq!(*c.get(&mem).unwrap().as_conscell().get_car(&mem).get(&mem).unwrap().as_number(), 1);
    assert_eq!(*c.get(&mem).unwrap().as_conscell().get_cdr(&mem).get(&mem).unwrap().as_number(), 2);
}

#[test]
fn lists_car() {
    let mut mem = Memory::new();

    let x = mem.allocate_number(1);
    let y = mem.allocate_number(2);
    let c = mem.allocate_cons(x, y);
    let z = car(&mut mem, &[c], GcRef::nil()).ok().unwrap();
    assert_eq!(*z.get(&mem).unwrap().as_number(), 1);
}

#[test]
fn lists_cdr() {
    let mut mem = Memory::new();

    let x = mem.allocate_number(1);
    let y = mem.allocate_number(2);
    let c = mem.allocate_cons(x, y);
    let z = cdr(&mut mem, &[c], GcRef::nil()).ok().unwrap();
    assert_eq!(*z.get(&mem).unwrap().as_number(), 2);
}

#[test]
fn lists_list() {
    let mut mem = Memory::new();

    let x = mem.allocate_number(1);
    let y = mem.allocate_number(2);
    let z = mem.allocate_number(3);
    let l = list(&mut mem, &[x, y, z], GcRef::nil()).ok().unwrap();
    assert_eq!(*l.get(&mem).unwrap().as_conscell().get_car(&mem).get(&mem).unwrap().as_number(), 1);
    assert_eq!(*l.get(&mem).unwrap().as_conscell().get_cdr(&mem).get(&mem).unwrap().as_conscell().get_car(&mem).get(&mem).unwrap().as_number(), 2);
    assert_eq!(*l.get(&mem).unwrap().as_conscell().get_cdr(&mem).get(&mem).unwrap().as_conscell().get_cdr(&mem).get(&mem).unwrap().as_conscell().get_car(&mem).get(&mem).unwrap().as_number(), 3);
    assert!(    l.get(&mem).unwrap().as_conscell().get_cdr(&mem).get(&mem).unwrap().as_conscell().get_cdr(&mem).get(&mem).unwrap().as_conscell().get_cdr(&mem).is_nil(&mem));
}

