use picilisp::memory::{Memory, GcRef};
use picilisp::core_lists::{vec_to_list, vec_to_list_reverse, list_to_vec};

fn same_symbol(mem: &Memory, a: &GcRef, b: &GcRef) -> bool {
    a.get(mem).unwrap().as_symbol().own_address == b.get(mem).unwrap().as_symbol().own_address
}

#[test]
fn core_vec_to_list_reverse() {
    let mut mem = Memory::new();

    let vec = vec![mem.allocate_number(1),
                   mem.allocate_number(2),
                   mem.allocate_number(3)];

    let list = vec_to_list_reverse(&mut mem, vec);

    let mut c = list;
    let c1 = c.get(&mem).unwrap().as_conscell();
    let x1 = *c1.get_car(&mem).get(&mem).unwrap().as_number();
    assert_eq!(x1, 3);
    c = c1.get_cdr(&mem);
    let c2 = c.get(&mem).unwrap().as_conscell();
    let x2 = *c2.get_car(&mem).get(&mem).unwrap().as_number();
    assert_eq!(x2, 2);
    c = c2.get_cdr(&mem);
    let c3 = c.get(&mem).unwrap().as_conscell();
    let x3 = *c3.get_car(&mem).get(&mem).unwrap().as_number();
    assert_eq!(x3, 1);
    c = c3.get_cdr(&mem);
    assert!(c.is_nil(&mem));
}

#[test]
fn core_vec_to_list() {
    let mut mem = Memory::new();

    let vec = vec![mem.symbol_for("A"),
                   mem.symbol_for("B"),
                   mem.symbol_for("C")];

    let list = vec_to_list(&mut mem, vec);

    let a = mem.symbol_for("A");
    let b = mem.symbol_for("B");
    let cc = mem.symbol_for("C");
    let mut c = list;
    let c1 = c.get(&mem).unwrap().as_conscell();
    assert!(same_symbol(&mem, &c1.get_car(&mem), &a));
    c = c1.get_cdr(&mem);
    let c2 = c.get(&mem).unwrap().as_conscell();
    assert!(same_symbol(&mem, &c2.get_car(&mem), &b));
    c = c2.get_cdr(&mem);
    let c3 = c.get(&mem).unwrap().as_conscell();
    assert!(same_symbol(&mem, &c3.get_car(&mem), &cc));
    c = c3.get_cdr(&mem);
    assert!(c.is_nil(&mem));
}

#[test]
fn core_vec_to_list_empty() {
    let mut mem = Memory::new();

    let vec = vec![];
    let list = vec_to_list(&mut mem, vec);
    assert!(list.is_nil(&mem));
}

#[test]
fn core_list_to_vec() {
    let mut mem = Memory::new();

    let list = GcRef::nil();
    assert_eq!(list_to_vec(&mem, list).unwrap().len(), 0);

    let mut list = GcRef::nil();
    for i in 0 .. 5 {
        let x = mem.allocate_number(i as i64);
        list = mem.allocate_cons(x, list);
    }

    let vec = list_to_vec(&mem, list);

    for (i, x) in vec.unwrap().iter().enumerate() {
        assert_eq!(*x.get(&mem).unwrap().as_number(), 4 - i as i64);
    }
}

#[test]
fn core_list_to_vec_fail() {
    let mut mem = Memory::new();

    let not_list = mem.allocate_character('@');
    assert!(list_to_vec(&mem, not_list).is_none());

    let x1 = mem.allocate_number(10);
    let x2 = mem.allocate_number(20);
    let x3 = mem.allocate_number(30);
    let c1 = mem.allocate_cons(x2, x3);
    let c2 = mem.allocate_cons(x1, c1);
    assert!(list_to_vec(&mem, c2).is_none());
}

use picilisp::core_lists::{fold_tree, FoldOutput, TreeFolder};
use picilisp::memory::PrimitiveValue;

struct SumNumbers {
    signal_negatives: bool,
}

impl TreeFolder for SumNumbers {
    fn folds_atom(&self, _old: Memory, _state: Option<usize>, atom: Option<usize>, new: Memory, r: Option<usize>) -> bool {
        let a = new.make_ref(atom);
        let v = new.make_ref(r);
        match (a.get(&new), v.get(&new)) {
            (Some(PrimitiveValue::Number(x)), Some(PrimitiveValue::Number(y))) => x == y,
            (_, Some(PrimitiveValue::Number(y))) => *y == 0,
            _ => false,
        }
    }

    fn folds_list(&self, _old: Memory, _state: Option<usize>, list: Vec<GcRef>, new: Memory, r: FoldOutput) -> bool {
        match r {
            FoldOutput::Return(x) => match x.get(&new) {
                Some(PrimitiveValue::Number(_)) => list.len() < usize::MAX,
                _ => false,
            },
            FoldOutput::Signal(_) => self.signal_negatives,
            FoldOutput::Call(_, _) => false,
        }
    }

    fn fold_atom(&self, mem: &mut Memory, _state: GcRef, atom: GcRef) -> GcRef {
        if let Some(PrimitiveValue::Number(_)) = atom.get(mem) { atom } else { mem.allocate_number(0) }
    }

    fn fold_list(&self, mem: &mut Memory, _state: GcRef, list: Vec<GcRef>) -> FoldOutput {
        let mut sum = 0;
        for xr in list {
            let x = *xr.get(mem).unwrap().as_number();
            if self.signal_negatives && x < 0 {
                return FoldOutput::Signal(mem.symbol_for("found-a-negative"));
            }
            sum += x;
        }
        FoldOutput::Return(mem.allocate_number(sum))
    }
}

#[test]
fn fold_tree_atom() {
    let mut mem = Memory::new();
    let folder = SumNumbers { signal_negatives: false };

    let tree  = mem.allocate_character('z');
    let state = GcRef::nil();
    let sum   = fold_tree(&mut mem, state, tree, &folder);
    assert_eq!(*sum.as_value().get(&mem).unwrap().as_number(), 0);

    let tree  = mem.allocate_number(3);
    let state = GcRef::nil();
    let sum   = fold_tree(&mut mem, state, tree, &folder);
    assert_eq!(*sum.as_value().get(&mem).unwrap().as_number(), 3);
}

#[test]
fn fold_tree_list() {
    let mut mem = Memory::new();
    let folder = SumNumbers { signal_negatives: false };

    let tree  = GcRef::nil();
    let state = GcRef::nil();
    let sum   = fold_tree(&mut mem, state, tree, &folder);
    assert_eq!(*sum.as_value().get(&mem).unwrap().as_number(), 0);

    let vec   = vec![mem.allocate_number(1), mem.allocate_number(2), mem.allocate_character('x'), mem.allocate_number(3)];
    let tree  = vec_to_list(&mut mem, vec);
    let state = GcRef::nil();
    let sum   = fold_tree(&mut mem, state, tree, &folder);
    assert_eq!(*sum.as_value().get(&mem).unwrap().as_number(), 6);
}

#[test]
fn fold_tree_nested_list() {
    let mut mem = Memory::new();
    let folder = SumNumbers { signal_negatives: false };

    let vec1  = vec![mem.allocate_number(1), mem.symbol_for("something"), mem.allocate_number(2), mem.allocate_number(3)];
    let list1 = vec_to_list(&mut mem, vec1);
    let vec2  = vec![mem.allocate_number(4), mem.allocate_number(5), mem.allocate_number(6)];
    let list2 = vec_to_list(&mut mem, vec2);
    let vec   = vec![mem.allocate_character('?'), list1, mem.allocate_number(7), mem.allocate_number(8), GcRef::nil(), list2, mem.allocate_number(9)];
    let tree  = vec_to_list(&mut mem, vec);
    let state = GcRef::nil();
    let sum   = fold_tree(&mut mem, state, tree, &folder);
    assert_eq!(*sum.as_value().get(&mem).unwrap().as_number(), 45);
}

#[test]
fn fold_tree_signal() {
    let mut mem = Memory::new();
    let folder = SumNumbers { signal_negatives: true };

    let vec1  = vec![mem.allocate_number(1), mem.symbol_for("something"), mem.allocate_number(2), mem.allocate_number(3)];
    let list1 = vec_to_list(&mut mem, vec1);
    let vec2  = vec![mem.allocate_number(4), mem.allocate_number(-5), mem.allocate_number(6)];
    let list2 = vec_to_list(&mut mem, vec2);
    let vec   = vec![mem.allocate_character('?'), list1, mem.allocate_number(7), mem.allocate_number(8), GcRef::nil(), list2, mem.allocate_number(9)];
    let tree  = vec_to_list(&mut mem, vec);
    let state = GcRef::nil();
    let sum   = fold_tree(&mut mem, state, tree, &folder);
    let found = mem.symbol_for("found-a-negative");
    assert!(same_symbol(&mem, &sum.as_signal(), &found));

    let vec1  = vec![mem.allocate_number(1), mem.symbol_for("something"), mem.allocate_number(2), mem.allocate_number(3)];
    let list1 = vec_to_list(&mut mem, vec1);
    let vec2  = vec![mem.allocate_number(4), mem.allocate_number(-5), mem.allocate_number(6)];
    let list2 = vec_to_list(&mut mem, vec2);
    let vec   = vec![mem.allocate_character('?'), list1, mem.allocate_number(7), mem.allocate_number(8), GcRef::nil(), list2, mem.allocate_number(9)];
    let normal_tree = vec_to_list(&mut mem, vec);
    let trap_tree   = mem.allocate_number(-123);
    let tree  = mem.allocate_trap(normal_tree, trap_tree);
    let state = GcRef::nil();
    let sum   = fold_tree(&mut mem, state, tree, &folder);
    assert_eq!(*sum.as_value().get(&mem).unwrap().as_number(), -123);

    let vec1  = vec![mem.allocate_number(1), mem.symbol_for("something"), mem.allocate_number(2), mem.allocate_number(3)];
    let list1 = vec_to_list(&mut mem, vec1);
    let vec2  = vec![mem.allocate_number(4), mem.allocate_number(5), mem.allocate_number(6)];
    let list2 = vec_to_list(&mut mem, vec2);
    let vec   = vec![mem.allocate_character('?'), list1, mem.allocate_number(7), mem.allocate_number(8), GcRef::nil(), list2, mem.allocate_number(9)];
    let normal_tree = vec_to_list(&mut mem, vec);
    let trap_tree   = mem.allocate_number(-123);
    let tree  = mem.allocate_trap(normal_tree, trap_tree);
    let state = GcRef::nil();
    let sum   = fold_tree(&mut mem, state, tree, &folder);
    assert_eq!(*sum.as_value().get(&mem).unwrap().as_number(), 45);
}
