use picilisp::memory::{Memory, GcRef, PrimitiveValue};
use picilisp::native::list::property;
use picilisp::native::numbers::{add, substract, multiply, divide};

fn assert_symbol(mem: &Memory, x: &GcRef, name: &str) {
    match x.get(mem) {
        Some(PrimitiveValue::Symbol(s)) => assert_eq!(s.name.as_deref(), Some(name)),
        _ => panic!("not a symbol"),
    }
}


#[test]
fn numbers_add() {
    let mut mem = Memory::new();

    let x = mem.allocate_number(1);
    let y = mem.allocate_number(2);

    let z = add(&mut mem, &[x, y], GcRef::nil(), 0).ok().unwrap();
    assert_eq!(*z.get(&mem).unwrap().as_number(), 3);
}

#[test]
fn numbers_substract() {
    let mut mem = Memory::new();

    let x = mem.allocate_number(1);
    let y = mem.allocate_number(2);

    let z = substract(&mut mem, &[x, y], GcRef::nil(), 0).ok().unwrap();
    assert_eq!(*z.get(&mem).unwrap().as_number(), -1);
}

#[test]
fn numbers_multiply() {
    let mut mem = Memory::new();

    let x = mem.allocate_number(2);
    let y = mem.allocate_number(4);

    let z = multiply(&mut mem, &[x, y], GcRef::nil(), 0).ok().unwrap();
    assert_eq!(*z.get(&mem).unwrap().as_number(), 8);
}

#[test]
fn numbers_overflow() {
    let mut mem = Memory::new();

    let x = mem.allocate_number(1000000000000);
    let y = mem.allocate_number(1000000000000);

    let z = multiply(&mut mem, &[x, y], GcRef::nil(), 0).err().unwrap();
    { let t = property(&mut mem, "kind", z).unwrap(); assert_symbol(&mem, &t, "arithmetic-overflow"); }
}

#[test]
fn numbers_devide() {
    let mut mem = Memory::new();

    let x = mem.allocate_number(12);
    let y = mem.allocate_number(3);

    let z = divide(&mut mem, &[x, y], GcRef::nil(), 0).ok().unwrap();
    assert_eq!(*z.get(&mem).unwrap().as_number(), 4);
}

#[test]
fn numbers_devide_by_zero() {
    let mut mem = Memory::new();

    let x = mem.allocate_number(12);
    let y = mem.allocate_number(0);

    let z = divide(&mut mem, &[x, y], GcRef::nil(), 0).err().unwrap();
    { let t = property(&mut mem, "kind", z).unwrap(); assert_symbol(&mem, &t, "divide-by-zero"); }
}

#[test]
fn numbers_divide_overflow() {
    let mut mem = Memory::new();

    let x = mem.allocate_number(i64::MIN);
    let y = mem.allocate_number(-1);

    let z = divide(&mut mem, &[x, y], GcRef::nil(), 0).err().unwrap();
    { let t = property(&mut mem, "kind", z).unwrap(); assert_symbol(&mem, &t, "arithmetic-overflow"); }
}
