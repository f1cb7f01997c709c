use picilisp::memory::{Memory, GcRef, PrimitiveValue};
use picilisp::util::{vec_to_list, string_to_proper_list, list_to_string};
use picilisp::native::load_native_functions;
use picilisp::native::eval::eval_external;
use picilisp::ui::{run_command, run_file};

const PRELUDE: &str = "(define (quote read-eval-print) (lambda (s source) (print (eval (get-property (quote result) (read s))))) \"Read, evaluate and print one expression.\")";

fn eval_text(mem: &mut Memory, text: &str) -> Result<String, String> {
    let head = mem.symbol_for("read-eval-print");
    let t = string_to_proper_list(mem, text);
    let e = vec_to_list(mem, &[head, t, GcRef::nil()]);
    eval_external(mem, e).map(|x| list_to_string(mem, x).unwrap())
}

#[test]
fn natives_are_bound_in_their_module() {
    let mut mem = Memory::new();
    load_native_functions(&mut mem);
    assert_eq!(mem.get_current_module(), "default");
    let add = mem.get_global("add", "native").ok().unwrap();
    match add.get(&mem) {
        Some(PrimitiveValue::Function(_)) => {},
        _ => panic!("add is not a function"),
    }
    assert_eq!(add.get_meta(&mem).unwrap().read_name, "add");
    assert!(mem.get_global("eval", "default").is_ok());
    assert!(mem.get_global("no-such-native", "default").is_err());
}

#[test]
fn run_command_numbers_and_lists() {
    assert_eq!(run_command(PRELUDE, "(add 1 2)").unwrap(), "3");
    assert_eq!(run_command(PRELUDE, "-3").unwrap(), "-3");
    assert_eq!(run_command(PRELUDE, "(list 1 (list 2) () (list 3 4))").unwrap(), "(1 (2) () (3 4))");
    assert_eq!(run_command(PRELUDE, "'thing").unwrap(), "thing");
    assert_eq!(run_command(PRELUDE, "(list %a %b %c)").unwrap(), "\"abc\"");
}

#[test]
fn run_command_errors() {
    let e = run_command(PRELUDE, "(divide 1 0)").err().unwrap();
    assert!(e.contains("kind divide-by-zero"));
    let e = run_command(PRELUDE, "undefined-thing").err().unwrap();
    assert_eq!(e, "(kind unbound-symbol source eval symbol undefined-thing)");
    let e = run_command(PRELUDE, "(lambda x x)").err().unwrap();
    assert!(e.contains("expected list-type actual symbol-type"));
}

#[test]
fn load_all_defines_in_order() {
    let mut mem = Memory::new();
    load_native_functions(&mut mem);
    let prelude = string_to_proper_list(&mut mem, "(define 'one 1 \"\") (define 'two (add one one) \"\")");
    let source = string_to_proper_list(&mut mem, "test-source");
    let head = mem.symbol_for("load-all");
    let e = vec_to_list(&mut mem, &[head, prelude, source]);
    let r = eval_external(&mut mem, e).ok().unwrap();
    assert_eq!(*r.get(&mem).unwrap().as_symbol().name.as_ref().unwrap(), "ok");
    assert_eq!(mem.get_current_module(), "default");
    let two = mem.get_global("two", "test-source").ok().unwrap();
    assert_eq!(*two.get(&mem).unwrap().as_number(), 2);
}

#[test]
fn traps_catch_signals() {
    let mut mem = Memory::new();
    load_native_functions(&mut mem);
    picilisp::ui::load_prelude(&mut mem, PRELUDE).unwrap();
    assert_eq!(eval_text(&mut mem, "(eval (trap (signal 'oops) *trapped-signal*))").unwrap(), "oops");
    assert_eq!(eval_text(&mut mem, "(eval (trap 5 *trapped-signal*))").unwrap(), "5");
    let e = eval_text(&mut mem, "(signal 'oops)").err().unwrap();
    assert_eq!(e, "oops");
}

#[test]
fn if_chooses_a_branch() {
    let mut mem = Memory::new();
    load_native_functions(&mut mem);
    picilisp::ui::load_prelude(&mut mem, PRELUDE).unwrap();
    assert_eq!(eval_text(&mut mem, "(if () 1 2)").unwrap(), "2");
    assert_eq!(eval_text(&mut mem, "(if 'yes 1 2)").unwrap(), "1");
    assert_eq!(eval_text(&mut mem, "((lambda (x & rest) rest) 1 2 3)").unwrap(), "(2 3)");
    assert_eq!(eval_text(&mut mem, "(quote (a b))").unwrap(), "(a b)");
}

#[test]
fn macros_expand_before_evaluation() {
    let mut mem = Memory::new();
    load_native_functions(&mut mem);
    picilisp::ui::load_prelude(&mut mem, PRELUDE).unwrap();
    assert_eq!(eval_text(&mut mem, "(define 'twice (macro (x) (list 'list x x)) \"\")").unwrap(), "ok");
    assert_eq!(eval_text(&mut mem, "(twice 7)").unwrap(), "(7 7)");
}

#[test]
fn run_file_loads_the_contents() {
    assert!(run_file(PRELUDE, "some/file.lisp", "(define 'x 1 \"\")").is_ok());
    let e = run_file(PRELUDE, "some/file.lisp", "(undefined)").err().unwrap();
    assert!(e.contains("unbound-symbol"));
}

const PRELUDE_WITH_HELPERS: &str = "(define (quote read-eval-print) (lambda (s source) ((lambda (r) (if (= (get-property (quote status) r) (quote ok)) (print (eval (get-property (quote result) r))) (signal (list (quote kind) (quote syntax-error) (quote details) (get-property (quote error) r))))) (read s))) \"Read, evaluate and print one expression; a syntax error is signalled.\") (define (quote .) (lambda (x k) (get-property k x)) \"A property of a list.\")";

fn check(input: &str, output: &str) {
    assert_eq!(run_command(PRELUDE_WITH_HELPERS, input).unwrap(), output);
}

fn check_error(input: &str, error_kind: &str, error_details: &str) {
    let e = run_command(PRELUDE_WITH_HELPERS, input).err().unwrap();
    assert!(e.contains(&format!("kind {error_kind}")), "{}", e);
    assert!(e.contains(error_details), "{}", e);
}

#[test]
fn number_literals() {
    check("1", "1");
    check("1000", "1000");
    check("-3", "-3");
    check("+5", "5");
    check("0", "0");
    check("-0", "0");
    check_error("2.0", "syntax-error", "unexpected character in number literal: '.'");
}

#[test]
fn symbols_and_quoting() {
    check("(quote abc)", "abc");
    check("(quote -abc*def>!)", "-abc*def>!");
    check("(quote cat%dog)", "cat%dog");
    check("'thing", "thing");
}

#[test]
fn lists() {
    check("()", "()");
    check("(list 1 2 3)", "(1 2 3)");
    check("(list 1 (list 2) () (list 3 4))", "(1 (2) () (3 4))");
    check("(list 1 'cat %A)", "(1 cat %A)");
}

#[test]
fn bad_function_literals() {
    check_error("(lambda x x)", "wrong-argument-type", "expected list-type actual symbol-type");
    check_error("(lambda (x))", "wrong-number-of-arguments", "expected 2 actual 1");
    check_error("(lambda (x y) x y)", "wrong-number-of-arguments", "expected 2 actual 3");
}

#[test]
fn lambdas() {
    check("((lambda (x) x) 1)", "1");
    check("((lambda (x y) x) 1 2)", "1");
    check("((lambda (x y) y) 1 2)", "2");
    check("((lambda (x y & z) z) 1 2 3 4 5)", "(3 4 5)");
    check("((lambda (x y) (add x y)) 1 2)", "3");
}

#[test]
fn closures() {
    check("(((lambda (x) (lambda (y) x)) 1) 2)", "1");
    check("(((lambda (x) (lambda (y) (add x y))) 1) 2)", "3");
}

#[test]
fn macros() {
    check("((macro (x y z) (list z y x)) 2 1 add)", "3");
    check("(macroexpand '((macro (x y z) (list z y x)) 2 1 add))", "(add 1 2)");
}

#[test]
fn branches() {
    check("(if 1 2 3)", "2");
    check("(if () 2 3)", "3");
    check("(if (= 1 1) 'true unquoted-symbol)", "true");
    check("(if (= 1 2) unquoted-symbol 'false)", "false");
}

#[test]
fn traps() {
    check("(eval (trap unquoted-symbol (. *trapped-signal* 'kind)))", "unbound-symbol");
    check("(eval (trap (list (list (list 1 2 deeply-nested 3))) (. *trapped-signal* 'symbol)))", "deeply-nested");
    check("(eval (trap (list 1 2 (signal \"Boo!\") 3) *trapped-signal*))", "\"Boo!\"");
}

#[test]
fn load_all_stops_at_the_first_signal() {
    let mut mem = Memory::new();
    load_native_functions(&mut mem);
    let text = string_to_proper_list(&mut mem, "(define 'one 1 \"\")\n(signal 'boom)\n(define 'three 3 \"\")\n");
    let source = string_to_proper_list(&mut mem, "stopping-source");
    let head = mem.symbol_for("load-all");
    let e = vec_to_list(&mut mem, &[head, text, source]);
    let r = eval_external(&mut mem, e).err().unwrap();
    assert_eq!(r, "boom");
    assert!(mem.get_global("one", "stopping-source").is_ok());
    assert!(mem.get_global("three", "stopping-source").is_err());
}

#[test]
fn load_all_reports_unfinished_and_bad_input() {
    let mut mem = Memory::new();
    load_native_functions(&mut mem);
    let text = string_to_proper_list(&mut mem, "(define 'one 1 \"\") (add 1");
    let q = mem.symbol_for("quote");
    let stdin = mem.symbol_for("stdin");
    let source = vec_to_list(&mut mem, &[q, stdin]);
    let head = mem.symbol_for("load-all");
    let e = vec_to_list(&mut mem, &[head, text, source]);
    let r = eval_external(&mut mem, e).err().unwrap();
    assert!(r.contains("kind input-incomplete"), "{}", r);

    let text = string_to_proper_list(&mut mem, "(add 1 2) %abc");
    let q = mem.symbol_for("quote");
    let stdin = mem.symbol_for("stdin");
    let source = vec_to_list(&mut mem, &[q, stdin]);
    let head = mem.symbol_for("load-all");
    let e = vec_to_list(&mut mem, &[head, text, source]);
    let r = eval_external(&mut mem, e).err().unwrap();
    assert!(r.contains("kind read-error"), "{}", r);
    assert!(r.contains("invalid character"), "{}", r);

    let text = string_to_proper_list(&mut mem, "(add 1 2)");
    let source = mem.allocate_number(7);
    let head = mem.symbol_for("load-all");
    let e = vec_to_list(&mut mem, &[head, text, source]);
    let r = eval_external(&mut mem, e).err().unwrap();
    assert!(r.contains("kind unknown-read-source"), "{}", r);
}
