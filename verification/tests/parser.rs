use picilisp::memory::{Memory, GcRef};
use picilisp::metadata::Location;
use picilisp::util::{string_to_proper_list, list_to_string, list_to_vec};
use picilisp::parser::{StringWithLocation, ParserError, Parser, AnyCharacter, EndOfInput, any_character, end_of_input,
    one_of_these_two, one_of_these_three, zero_or_more_times, at_least_once, parse_or_default, select_error,
    satisfy, ValuePredicate};
use picilisp::memory::PrimitiveValue;

fn input(mem: &mut Memory, s: &str) -> StringWithLocation {
    let l = picilisp::util::string_to_list(mem, s);
    StringWithLocation { string: l, location: Location::Stdin { line: 1, column: 1 } }
}

#[test]
fn any_character_reads_one() {
    let mut mem = Memory::new();
    let i = input(&mut mem, "ab");
    let o = any_character(&mut mem, i).ok().unwrap();
    assert_eq!(*o.value.get(&mem).unwrap().as_character(), 'a');
    assert_eq!(o.rest_of_input.location, Location::Stdin { line: 1, column: 2 });
    assert_eq!(list_to_string(&mem, o.rest_of_input.string).unwrap(), "b");
    let i = input(&mut mem, "\nx");
    let o = any_character(&mut mem, i).ok().unwrap();
    assert_eq!(o.rest_of_input.location, Location::Stdin { line: 2, column: 0 });
    let i = input(&mut mem, "");
    assert!(matches!(any_character(&mut mem, i), Err(ParserError::Incomplete)));
    let n = mem.allocate_number(3);
    let i = StringWithLocation { string: n, location: Location::Native };
    assert!(matches!(any_character(&mut mem, i), Err(ParserError::NoMatch)));
}

#[test]
fn end_of_input_matches_only_the_end() {
    let mut mem = Memory::new();
    let i = input(&mut mem, "");
    assert!(end_of_input(&mut mem, i).ok().unwrap().value.is_nil(&mem));
    let i = input(&mut mem, "x");
    assert!(matches!(end_of_input(&mut mem, i), Err(ParserError::NoMatch)));
}

#[test]
fn alternatives_and_repetition() {
    let mut mem = Memory::new();
    let any = AnyCharacter;
    let end = EndOfInput;
    let either = one_of_these_two(&end, &any);
    let i = input(&mut mem, "q");
    let o = either.parse(&mut mem, i).ok().unwrap();
    assert_eq!(*o.value.get(&mem).unwrap().as_character(), 'q');

    let three = one_of_these_three(&end, &end, &any);
    let i = input(&mut mem, "z");
    assert_eq!(*three.parse(&mut mem, i).ok().unwrap().value.get(&mem).unwrap().as_character(), 'z');

    let many = zero_or_more_times(&any);
    let i = input(&mut mem, "abc");
    let o = many.parse(&mut mem, i).ok().unwrap();
    assert_eq!(list_to_string(&mem, o.value.clone()).unwrap(), "abc");
    assert!(o.rest_of_input.string.is_nil(&mem));

    let some = at_least_once(&any);
    let i = input(&mut mem, "");
    assert!(matches!(some.parse(&mut mem, i), Err(ParserError::Incomplete)));
    let i = input(&mut mem, "xy");
    let o = some.parse(&mut mem, i).ok().unwrap();
    assert_eq!(list_to_vec(&mem, o.value).unwrap().len(), 2);

    let default = string_to_proper_list(&mut mem, "none");
    let fallback = parse_or_default(&end, &default);
    let i = input(&mut mem, "not the end");
    let o = fallback.parse(&mut mem, i).ok().unwrap();
    assert_eq!(list_to_string(&mem, o.value).unwrap(), "none");
    assert_eq!(o.location, Location::Stdin { line: 1, column: 1 });
}

#[test]
fn selecting_errors() {
    assert!(matches!(select_error(ParserError::NoMatch, ParserError::Incomplete), ParserError::NoMatch));
    assert!(matches!(select_error(ParserError::Incomplete, ParserError::NoMatch), ParserError::NoMatch));
    assert!(matches!(select_error(ParserError::Incomplete, ParserError::Incomplete), ParserError::Incomplete));
    let fatal = ParserError::Fatal { message: "bad".to_string(), location: Location::Native,
        rest_of_input: StringWithLocation { string: GcRef::nil(), location: Location::Native } };
    assert!(matches!(select_error(ParserError::Incomplete, fatal), ParserError::Incomplete));
}

#[test]
fn trim_skips_one_newline() {
    let mut mem = Memory::new();
    let i = input(&mut mem, "\nrest");
    let t = i.trim(&mem);
    assert_eq!(t.location, Location::Stdin { line: 2, column: 0 });
    assert_eq!(list_to_string(&mem, t.string).unwrap(), "rest");
}

struct IsDigit;

impl ValuePredicate for IsDigit {
    fn accepts(&self, mem: Memory, value: Option<usize>) -> bool {
        let handle = mem.make_ref(value);
        self.holds(&mem, &handle)
    }

    fn holds(&self, mem: &Memory, value: &GcRef) -> bool {
        matches!(value.get(mem), Some(PrimitiveValue::Character(c)) if c.is_ascii_digit())
    }
}

#[test]
fn satisfy_keeps_only_what_passes() {
    let mut mem = Memory::new();
    let any = AnyCharacter;
    let digit = IsDigit;
    let one_digit = satisfy(&any, &digit);
    let i = input(&mut mem, "7x");
    let o = one_digit.parse(&mut mem, i).ok().unwrap();
    assert_eq!(*o.value.get(&mem).unwrap().as_character(), '7');
    assert_eq!(list_to_string(&mem, o.rest_of_input.string).unwrap(), "x");
    let i = input(&mut mem, "x7");
    assert!(matches!(one_digit.parse(&mut mem, i), Err(ParserError::NoMatch)));
    let i = input(&mut mem, "");
    assert!(matches!(one_digit.parse(&mut mem, i), Err(ParserError::Incomplete)));
    let digits = zero_or_more_times(&one_digit);
    let i = input(&mut mem, "123abc");
    let o = digits.parse(&mut mem, i).ok().unwrap();
    assert_eq!(list_to_string(&mem, o.value).unwrap(), "123");
}

#[test]
fn three_alternatives_nest_as_two() {
    let mut mem = Memory::new();
    let end = EndOfInput;
    let any = AnyCharacter;
    let three = one_of_these_three(&end, &end, &any);
    let inner = one_of_these_two(&end, &any);
    let nested = one_of_these_two(&end, &inner);
    for text in ["", "x", "xy"] {
        let i1 = input(&mut mem, text);
        let i2 = input(&mut mem, text);
        let a = three.parse(&mut mem, i1);
        let b = nested.parse(&mut mem, i2);
        match (a, b) {
            (Ok(x), Ok(y)) => {
                assert_eq!(x.value.get(&mem).map(|v| *v.as_character()), y.value.get(&mem).map(|v| *v.as_character()));
            },
            (Err(ParserError::NoMatch), Err(ParserError::NoMatch)) => {},
            (Err(ParserError::Incomplete), Err(ParserError::Incomplete)) => {},
            (Err(ParserError::Fatal { message: m1, .. }), Err(ParserError::Fatal { message: m2, .. })) => assert_eq!(m1, m2),
            _ => panic!("the two parsers disagree"),
        }
    }
}
