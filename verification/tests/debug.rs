use std::collections::HashMap;
use picilisp::debug::{make_umbilical, GLOBAL_DEFINED};

#[test]
fn umbilical_connects_both_ways() {
    let (high, low) = make_umbilical();
    assert_eq!(low.serial_number, 0);
    assert!(!low.paused);
    assert!(!low.in_step);

    let mut m = HashMap::new();
    m.insert("kind".to_string(), GLOBAL_DEFINED.to_string());
    high.to_low_end.send(m.clone()).unwrap();
    assert_eq!(low.from_high_end.recv().unwrap(), m);

    let mut n = HashMap::new();
    n.insert("command".to_string(), "INTERRUPT".to_string());
    low.to_high_end.send(n.clone()).unwrap();
    assert_eq!(high.from_low_end.recv().unwrap(), n);
}
