use picilisp::memory::{Memory, GcRef, PrimitiveValue};
use picilisp::util::{vec_to_list, list_to_vec, string_to_list, list_to_string};
use picilisp::native::list::{make_plist, get_property};
use picilisp::native::misc::{gensym, equal};
use picilisp::memory::FunctionKind;
use picilisp::native::globals::{define, undefine};
use picilisp::native::eval::eval_external;
use picilisp::text::{i64_to_string, parse_i64};

#[test]
fn list_round_trip() {
    let mut mem = Memory::new();
    let v = vec![mem.allocate_number(5), mem.allocate_character('q'), GcRef::nil(), mem.symbol_for("s")];
    let l = vec_to_list(&mut mem, &v);
    let w = list_to_vec(&mem, l).unwrap();
    assert_eq!(w.len(), v.len());
    for (a, b) in v.iter().zip(w.iter()) {
        assert_eq!(a.pointer, b.pointer);
    }
}

#[test]
fn string_round_trip() {
    let mut mem = Memory::new();
    for s in ["", "plain", "árvíztűrő", "with \"quotes\"\nand lines"] {
        let l = string_to_list(&mut mem, s);
        assert_eq!(list_to_string(&mem, l).unwrap(), s);
    }
}

#[test]
fn plist_lookup_gives_the_stored_value() {
    let mut mem = Memory::new();
    let one = mem.allocate_number(1);
    let two = mem.allocate_number(2);
    let p = make_plist(&mut mem, &[("first", one), ("second", two)]);
    let key = mem.symbol_for("second");
    let v = get_property(&mut mem, &[key, p.clone()], GcRef::nil()).ok().unwrap();
    assert_eq!(*v.get(&mem).unwrap().as_number(), 2);
    let key = mem.symbol_for("first");
    let v = get_property(&mut mem, &[key, p.clone()], GcRef::nil()).ok().unwrap();
    assert_eq!(*v.get(&mem).unwrap().as_number(), 1);
    let key = mem.symbol_for("third");
    let v = get_property(&mut mem, &[key, p], GcRef::nil()).ok().unwrap();
    assert!(v.is_nil(&mem));
}

#[test]
fn gensyms_are_unique() {
    let mut mem = Memory::new();
    let a = gensym(&mut mem, &[], GcRef::nil(), 0).ok().unwrap();
    let b = gensym(&mut mem, &[], GcRef::nil(), 0).ok().unwrap();
    let c = mem.symbol_for("named");
    let addr = |x: &GcRef| x.get(&mem).unwrap().as_symbol().own_address;
    assert_ne!(addr(&a), addr(&b));
    assert_ne!(addr(&a), addr(&c));
    assert_ne!(addr(&b), addr(&c));
    assert!(a.get(&mem).unwrap().as_symbol().name.is_none());
    assert!(b.get(&mem).unwrap().as_symbol().name.is_none());
}

#[test]
fn number_text_round_trip() {
    for n in [0i64, 7, -7, 10, 1234567890, -987654321, i64::MAX, i64::MIN] {
        let s = i64_to_string(n);
        let chars: Vec<char> = s.chars().collect();
        assert_eq!(parse_i64(&chars).ok().unwrap(), n);
    }
}

#[test]
fn define_then_evaluate() {
    let mut mem = Memory::new();
    let name = mem.symbol_for("answer");
    let value = mem.allocate_number(42);
    let doc = string_to_list(&mut mem, "the answer");
    let r = define(&mut mem, &[name.clone(), value, doc], GcRef::nil(), 0).ok().unwrap();
    assert_eq!(r.get(&mem).unwrap().as_symbol().name.as_deref(), Some("ok"));
    let v = eval_external(&mut mem, name).ok().unwrap();
    assert_eq!(*v.get(&mem).unwrap().as_number(), 42);
}

#[test]
fn undefine_then_evaluate() {
    let mut mem = Memory::new();
    let name = mem.symbol_for("gone");
    let value = mem.allocate_character('g');
    let doc = string_to_list(&mut mem, "");
    define(&mut mem, &[name.clone(), value, doc], GcRef::nil(), 0).ok().unwrap();
    undefine(&mut mem, &[name.clone()], GcRef::nil(), 0).ok().unwrap();
    let e = eval_external(&mut mem, name).err().unwrap();
    assert_eq!(e, "(kind unbound-symbol source eval symbol gone)");
}

#[test]
fn call_binds_each_parameter() {
    let mut mem = Memory::new();
    let params = vec![mem.symbol_for("a"), mem.symbol_for("b"), mem.symbol_for("c")];
    let plist = vec_to_list(&mut mem, &params);
    for (k, name) in ["a", "b", "c"].iter().enumerate() {
        let lambda = mem.symbol_for("lambda");
        let body = mem.symbol_for(name);
        let f = vec_to_list(&mut mem, &[lambda, plist.clone(), body]);
        let args = vec![f, mem.allocate_number(10), mem.allocate_number(20), mem.allocate_number(30)];
        let call = vec_to_list(&mut mem, &args);
        let v = eval_external(&mut mem, call).ok().unwrap();
        match v.get(&mem) {
            Some(PrimitiveValue::Number(n)) => assert_eq!(*n, 10 * (k as i64 + 1)),
            _ => panic!("not a number"),
        }
    }
}

fn equal_answer(mem: &mut Memory, x: &GcRef, y: &GcRef) -> bool {
    let r = equal(mem, &[x.clone(), y.clone()], GcRef::nil(), 0).ok().unwrap();
    !r.is_nil(mem)
}

#[test]
fn equal_is_symmetric() {
    let mut mem = Memory::new();
    let a = vec![mem.allocate_number(1), mem.allocate_character('x')];
    let b = vec![mem.allocate_number(1), mem.allocate_character('x')];
    let la = vec_to_list(&mut mem, &a);
    let lb = vec_to_list(&mut mem, &b);
    let one = mem.allocate_number(1);
    let two = mem.allocate_number(2);
    let improper = mem.allocate_cons(one.clone(), two.clone());
    let tail = vec![two.clone()];
    let proper_tail = vec_to_list(&mut mem, &tail);
    let proper = mem.allocate_cons(one.clone(), proper_tail);
    for (x, y) in [(&la, &lb), (&la, &one), (&improper, &proper), (&one, &two), (&improper, &improper)] {
        assert_eq!(equal_answer(&mut mem, x, y), equal_answer(&mut mem, y, x));
    }
    assert!(equal_answer(&mut mem, &la, &lb));
    assert!(!equal_answer(&mut mem, &improper, &proper));
}

#[test]
fn equal_is_reflexive_on_plain_values() {
    let mut mem = Memory::new();
    let inner = vec![mem.allocate_number(7), mem.symbol_for("s")];
    let inner_list = vec_to_list(&mut mem, &inner);
    let outer = vec![inner_list, mem.allocate_character('c'), GcRef::nil()];
    let x = vec_to_list(&mut mem, &outer);
    assert!(equal_answer(&mut mem, &x, &x));
    let n = mem.allocate_number(3);
    let pair = mem.allocate_cons(x.clone(), n);
    assert!(equal_answer(&mut mem, &pair, &pair));
    let f = mem.allocate_normal_function(FunctionKind::Lambda, false, GcRef::nil(), &[], GcRef::nil(), "default");
    assert!(!equal_answer(&mut mem, &f, &f));
}

#[test]
fn string_round_trip_tagged_and_bare() {
    let mut mem = Memory::new();
    let l = picilisp::util::string_to_proper_list(&mut mem, "The sky is blue.");
    assert_eq!(list_to_string(&mem, l).unwrap(), "The sky is blue.");
    let bare = string_to_list(&mut mem, "abc");
    assert_eq!(list_to_string(&mem, bare).unwrap(), "abc");
    let d = mem.symbol_for("d");
    let v = vec![mem.allocate_character('a'), mem.allocate_character('b'), mem.allocate_character('c'), d];
    let not_a_string = vec_to_list(&mut mem, &v);
    assert!(list_to_string(&mem, not_a_string).is_none());
}

#[test]
fn gensym_stays_unique_later() {
    let mut mem = Memory::new();
    let a = gensym(&mut mem, &[], GcRef::nil(), 0).ok().unwrap();
    let addr = a.get(&mem).unwrap().as_symbol().own_address;
    let mut others = Vec::new();
    for k in 0..50 {
        others.push(mem.symbol_for(&format!("s{k}")));
        others.push(gensym(&mut mem, &[], GcRef::nil(), 0).ok().unwrap());
    }
    for o in others.iter() {
        assert_ne!(o.get(&mem).unwrap().as_symbol().own_address, addr);
    }
    assert_eq!(a.get(&mem).unwrap().as_symbol().own_address, addr);
}
