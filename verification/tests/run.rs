use bakhtscript::error::Error;
use bakhtscript::grammar::{NATIVE_LEN, NATIVE_POP, NATIVE_PRINT, NATIVE_PUSH};
use bakhtscript::machine::{ArithOp, Signal};
use bakhtscript::native::{bakht_len, bakht_native, bakht_pop, bakht_print, bakht_push};
use bakhtscript::script::{BakhtScript, BakhtValue};

fn arith(op: ArithOp, a: u32, b: u32) -> u32 {
    let (x, y) = (f32::from_bits(a), f32::from_bits(b));
    let r = match op {
        ArithOp::Add => x + y,
        ArithOp::Sub => x - y,
        ArithOp::Mult => x * y,
        ArithOp::Div => x / y,
        ArithOp::Mod => x % y,
    };
    r.to_bits()
}

fn render(value: BakhtValue) -> String {
    match value {
        BakhtValue::Function => format!("<function>"),
        BakhtValue::Boolean(b) => format!("{}", b),
        BakhtValue::Number(n) => format!("{}", f32::from_bits(n)),
        BakhtValue::Array => format!("[array]"),
        BakhtValue::Nil => format!("nil"),
        BakhtValue::String(s) => s,
    }
}

/// Serves the machine until the call is over: computes the arithmetic,
/// runs the natives, and goes on after each pause.
fn serve(bs: &mut BakhtScript, first: Signal, budget: usize, out: &mut Vec<String>) -> Signal {
    let mut signal = first;
    loop {
        match signal {
            Signal::Arith(op, a, b) => bs.push_number(arith(op, a, b)),
            Signal::Native(func) => {
                if let Some(value) = bakht_native(bs, func) {
                    out.push(render(value));
                }
            }
            Signal::Paused => {}
            done => return done,
        }
        signal = bs.resume(budget);
    }
}

/// Loads `src`, calls `main` and serves it to the end.
fn run_with(src: &str, budget: usize) -> (BakhtScript, Signal, Vec<String>) {
    let mut bs = BakhtScript::default();
    bs.load(src).unwrap();
    let mut out = Vec::new();
    let first = bs.fcall(0, budget);
    let signal = serve(&mut bs, first, budget, &mut out);
    (bs, signal, out)
}

fn run(src: &str) -> (BakhtScript, Signal, Vec<String>) {
    run_with(src, 1000)
}

/// The value that `main` returns.
fn value(src: &str) -> BakhtValue {
    let (mut bs, signal, _) = run(src);
    assert_eq!(signal, Signal::Done);
    assert!(bs.error().is_ok());
    assert_eq!(bs.sp(), 1);
    bs.pop()
}

fn number(src: &str) -> f32 {
    match value(src) {
        BakhtValue::Number(n) => f32::from_bits(n),
        v => panic!("{:?}", v),
    }
}

fn boolean(src: &str) -> bool {
    match value(src) {
        BakhtValue::Boolean(b) => b,
        v => panic!("{:?}", v),
    }
}

fn string(src: &str) -> String {
    match value(src) {
        BakhtValue::String(s) => s,
        v => panic!("{:?}", v),
    }
}

/// The error that running `main` ends in.
fn fault(src: &str) -> Error {
    let (bs, signal, _) = run(src);
    assert_eq!(signal, Signal::Fault);
    bs.error().unwrap_err()
}

#[test]
fn arithmetic_with_precedence() {
    assert_eq!(number("fn main() { let a = 1 + 2 * 3 return a }"), 7.0);
    assert_eq!(number("fn main() { return (1 + 2) * 3 }"), 9.0);
    assert_eq!(number("fn main() { return 7 - 2 - 1 }"), 4.0);
    assert_eq!(number("fn main() { return 7 / 2 }"), 3.5);
    assert_eq!(number("fn main() { return 7 % 4 }"), 3.0);
    assert_eq!(number("fn main() { return -3 + 1 }"), -2.0);
    assert_eq!(number("fn main() { return - - 3 }"), 3.0);
}

#[test]
fn array_literal_and_index() {
    assert_eq!(
        number("fn main() { let xs = [10, 20, 30] return xs[1] }"),
        20.0
    );
    assert_eq!(number("fn main() { return [10, 20, 30][0] }"), 10.0);
    assert_eq!(number("fn main() { return [10, 20, 30][2] }"), 30.0);
    assert_eq!(number("fn main() { return [[1, 2], [3, 4]][1][0] }"), 3.0);
}

#[test]
fn call_with_arguments() {
    assert_eq!(
        number("fn add(a,b) { return a + b } fn main() { return add(2, 5) }"),
        7.0
    );
    assert_eq!(
        number("fn sub(a,b) { return a - b } fn main() { let x = 10 return sub(x, 4) }"),
        6.0
    );
}

#[test]
fn print_writes_and_gives_nil() {
    let (mut bs, signal, out) = run("fn main() { print('hi') return nil }");
    assert_eq!(signal, Signal::Done);
    assert_eq!(out, vec!["hi".to_string()]);
    assert!(matches!(bs.pop(), BakhtValue::Nil));
    let (_, _, out) = run("fn main() { print(true) print(nil) print([1]) print(print) print(3) print(1 / 2) }");
    assert_eq!(out, vec!["true", "nil", "[array]", "<function>", "3", "0.5"]);
}

#[test]
fn push_grows_the_array() {
    assert_eq!(
        number("fn main() { let a = [1,2] push(a, 3) return len(a) }"),
        3.0
    );
    assert_eq!(
        number("fn main() { let a = [1,2] push(a, 3) return a[2] }"),
        3.0
    );
}

#[test]
fn division_by_zero() {
    assert!(matches!(fault("fn main() { return 1 / 0 }"), Error::DivisionByZero));
    assert!(matches!(fault("fn main() { return 1 % 0 }"), Error::DivisionByZero));
    assert!(matches!(fault("fn main() { return 1 / -0 }"), Error::DivisionByZero));
    assert!(matches!(fault("fn main() { return 0 / 0 }"), Error::DivisionByZero));
}

#[test]
fn anew_then_len_gives_the_count() {
    assert_eq!(number("fn main() { return len([]) }"), 0.0);
    assert_eq!(number("fn main() { return len([nil]) }"), 1.0);
    assert_eq!(number("fn main() { return len([1, 2, 3, 4, 5]) }"), 5.0);
}

#[test]
fn len_of_a_string() {
    assert_eq!(number("fn main() { return len('hello') }"), 5.0);
    assert_eq!(number("fn main() { return len('') }"), 0.0);
}

#[test]
fn set_then_get_gives_the_value() {
    assert_eq!(
        number("fn main() { let a = [1, 2, 3] a[1] = 9 return a[1] }"),
        9.0
    );
    assert_eq!(
        number("fn main() { let a = [1, 2, 3] a[0] = 9 return a[2] }"),
        3.0
    );
    assert_eq!(
        string("fn main() { let a = [1, [2, 3]] a[1][0] = 'x' return a[1][0] }"),
        "x"
    );
}

#[test]
fn arrays_are_shared() {
    assert_eq!(
        number("fn main() { let a = [1] let b = a push(b, 2) return len(a) }"),
        2.0
    );
    assert_eq!(
        number("fn grow(a) { push(a, 0) } fn main() { let a = [] grow(a) grow(a) return len(a) }"),
        2.0
    );
}

#[test]
fn fewer_arguments_are_filled_with_nil() {
    assert!(matches!(
        value("fn second(a, b) { return b } fn main() { return second(1) }"),
        BakhtValue::Nil
    ));
    assert_eq!(
        number("fn first(a, b) { return a } fn main() { return first(1) }"),
        1.0
    );
}

#[test]
fn more_arguments_are_discarded() {
    assert_eq!(
        number("fn first(a) { return a } fn main() { return first(1, 2, 3) }"),
        1.0
    );
    assert_eq!(
        number("fn none() { return 5 } fn main() { return none(1, 2) }"),
        5.0
    );
}

#[test]
fn index_at_len_is_out_of_bound() {
    assert!(matches!(
        fault("fn main() { let a = [1, 2] return a[2] }"),
        Error::IndexOutOfBound
    ));
    assert!(matches!(
        fault("fn main() { let a = [1, 2] return a[len(a)] }"),
        Error::IndexOutOfBound
    ));
    assert!(matches!(
        fault("fn main() { let a = [] a[0] = 1 }"),
        Error::IndexOutOfBound
    ));
    assert!(matches!(
        fault("fn main() { let s = 'abc' return s[3] }"),
        Error::IndexOutOfBound
    ));
    assert!(matches!(
        fault("fn main() { return pop([]) }"),
        Error::IndexOutOfBound
    ));
}

#[test]
fn index_is_cut_to_a_whole_number() {
    assert_eq!(number("fn main() { return [10, 20][1 / 2] }"), 10.0);
    assert_eq!(number("fn main() { return [10, 20][3 / 2] }"), 20.0);
    assert_eq!(number("fn main() { return [10, 20][-1 / 2] }"), 10.0);
}

#[test]
fn a_negative_index_is_out_of_bound() {
    assert!(matches!(
        fault("fn main() { return [10, 20][-1] }"),
        Error::IndexOutOfBound
    ));
    assert!(matches!(
        fault("fn main() { let a = [10, 20] a[-1] = 0 }"),
        Error::IndexOutOfBound
    ));
    assert!(matches!(
        fault("fn main() { let s = 'abc' return s[-2] }"),
        Error::IndexOutOfBound
    ));
    assert!(matches!(
        fault("fn main() { let big = 340282366920938463463374607431768211456 return [1][big - big] }"),
        Error::IndexOutOfBound
    ));
}

#[test]
fn a_runtime_error_leaves_no_operand_behind() {
    for src in [
        "fn main() { return 1 / 0 }",
        "fn main() { return 1 % 0 }",
        "fn main() { return [1, 2][2] }",
        "fn main() { return 1 + nil }",
        "fn main() { return 1 < nil }",
    ] {
        let (bs, signal, _) = run(src);
        assert_eq!(signal, Signal::Fault);
        assert_eq!(bs.sp(), 0, "{}", src);
    }
}

#[test]
fn string_index_gives_a_one_character_string() {
    assert_eq!(
        string("fn main() { let s = 'héllo' return s[1] }"),
        "é"
    );
}

#[test]
fn invalid_operands() {
    assert!(matches!(fault("fn main() { return 1 + nil }"), Error::InvalidOperands));
    assert!(matches!(fault("fn main() { return 'a' * 2 }"), Error::InvalidOperands));
    assert!(matches!(fault("fn main() { return 1 < 'a' }"), Error::InvalidOperands));
    assert!(matches!(fault("fn main() { return nil >= nil }"), Error::InvalidOperands));
    assert!(matches!(fault("fn main() { let a = 1 return a[0] }"), Error::InvalidOperands));
    assert!(matches!(fault("fn main() { let a = [1] return a[nil] }"), Error::InvalidOperands));
    assert!(matches!(fault("fn main() { let a = 'abc' a[0] = 1 }"), Error::InvalidOperands));
    assert!(matches!(fault("fn main() { return len(1) }"), Error::InvalidOperands));
    assert!(matches!(fault("fn main() { push(1, 2) }"), Error::InvalidOperands));
}

#[test]
fn calling_non_function() {
    assert!(matches!(
        fault("fn main() { let a = 1 a() }"),
        Error::CallingNonFunction
    ));
    assert!(matches!(
        fault("fn main() { let a = [1] return a[0](2) }"),
        Error::CallingNonFunction
    ));
}

#[test]
fn equality() {
    assert!(boolean("fn main() { return 1 == 1 }"));
    assert!(!boolean("fn main() { return 1 == 2 }"));
    assert!(boolean("fn main() { return 1 != 2 }"));
    assert!(boolean("fn main() { return 0 == -0 }"));
    assert!(boolean("fn main() { return 'ab' == 'ab' }"));
    assert!(!boolean("fn main() { return 'ab' == 'abc' }"));
    assert!(boolean("fn main() { return nil == nil }"));
    assert!(!boolean("fn main() { return nil == false }"));
    assert!(boolean("fn main() { return true != false }"));
    assert!(!boolean("fn main() { return 1 == '1' }"));
    assert!(!boolean("fn main() { return [1] == [1] }"));
    assert!(boolean("fn main() { let a = [1] let b = a return a == b }"));
    assert!(boolean("fn main() { return main == main }"));
    assert!(!boolean("fn main() { return main == print }"));
    assert!(boolean("fn main() { return print == print }"));
    assert!(!boolean("fn main() { return len == print }"));
}

#[test]
fn relations_follow_their_names() {
    assert!(boolean("fn main() { return 1 < 2 }"));
    assert!(!boolean("fn main() { return 2 < 1 }"));
    assert!(!boolean("fn main() { return 1 < 1 }"));
    assert!(boolean("fn main() { return 1 <= 1 }"));
    assert!(!boolean("fn main() { return 2 <= 1 }"));
    assert!(boolean("fn main() { return 2 > 1 }"));
    assert!(!boolean("fn main() { return 1 > 2 }"));
    assert!(boolean("fn main() { return 1 >= 1 }"));
    assert!(!boolean("fn main() { return 1 >= 2 }"));
    assert!(boolean("fn main() { return -2 < 1 }"));
    assert!(boolean("fn main() { return 'abc' < 'abd' }"));
    assert!(boolean("fn main() { return 'ab' < 'abc' }"));
    assert!(!boolean("fn main() { return 'abc' < 'ab' }"));
    assert!(boolean("fn main() { return 'b' > 'abc' }"));
    assert!(boolean("fn main() { return 'abc' <= 'abc' }"));
    assert!(boolean("fn main() { return 'abc' >= 'abc' }"));
    assert!(!boolean("fn main() { return 'abc' > 'abc' }"));
}

#[test]
fn if_and_else() {
    let src = "fn pick(c) { let r = 0 if c { r = 1 } else { r = 2 } return r } fn main() { return pick(true) * 10 + pick(false) }";
    assert_eq!(number(src), 12.0);
    let src = "fn pick(c) { let r = 0 if c { r = 1 } return r } fn main() { return pick(1) * 10 + pick(nil) }";
    assert_eq!(number(src), 10.0);
    assert_eq!(
        number("fn main() { if 0 { return 1 } return 2 }"),
        1.0
    );
    assert_eq!(
        number("fn main() { if 1 < 2 { let a = 5 return a } else { return 6 } }"),
        5.0
    );
}

#[test]
fn while_loops() {
    let src = "fn main() { let i = 0 let sum = 0 while i < 10 { i = i + 1 sum = sum + i } return sum }";
    assert_eq!(number(src), 55.0);
    let src = "fn main() { let n = 0 while false { n = 1 } return n }";
    assert_eq!(number(src), 0.0);
    let src = "fn main() { let i = 0 let n = 0 while i < 3 { let j = 0 while j < 4 { j = j + 1 n = n + 1 } i = i + 1 } return n }";
    assert_eq!(number(src), 12.0);
    let src = "fn main() { let a = [] while len(a) < 5 { push(a, len(a)) } return a[4] }";
    assert_eq!(number(src), 4.0);
    let src = "fn find(a, x) { let i = 0 while i < len(a) { if a[i] == x { return i } i = i + 1 } return nil } fn main() { return find([5, 6, 7], 7) }";
    assert_eq!(number(src), 2.0);
}

#[test]
fn an_endless_loop_only_pauses() {
    let mut bs = BakhtScript::default();
    bs.load("fn main() { while true { } }").unwrap();
    assert_eq!(bs.fcall(0, 10000), Signal::Paused);
    assert_eq!(bs.resume(10000), Signal::Paused);
    assert_eq!(bs.sp(), 0);
}

#[test]
fn a_function_without_return_gives_nil() {
    assert!(matches!(value("fn main() { let a = 1 }"), BakhtValue::Nil));
    assert!(matches!(
        value("fn f() { } fn main() { return f() }"),
        BakhtValue::Nil
    ));
}

#[test]
fn recursion() {
    let src = "fn fact(n) { if n < 2 { return 1 } return n * fact(n - 1) } fn main() { return fact(5) }";
    assert_eq!(number(src), 120.0);
    let src = "fn fib(n) { if n < 2 { return n } return fib(n - 1) + fib(n - 2) } fn main() { return fib(10) }";
    assert_eq!(number(src), 55.0);
}

#[test]
fn functions_are_values() {
    let src = "fn twice(f, x) { return f(f(x)) } fn inc(x) { return x + 1 } fn main() { return twice(inc, 5) }";
    assert_eq!(number(src), 7.0);
}

#[test]
fn a_call_leaves_one_value() {
    let src = "fn f(a, b) { let c = 1 let d = 2 return a } fn main() { let x = f(7, 8) let y = f(9) return x + y }";
    assert_eq!(number(src), 16.0);
}

#[test]
fn main_is_called_wherever_it_stands() {
    assert_eq!(
        number("fn main() { return 1 } fn other() { return 2 }"),
        1.0
    );
}

#[test]
fn a_semicolon_is_no_token() {
    let mut bs = BakhtScript::default();
    assert!(matches!(
        bs.load("fn main() { let a = 1 + 2 * 3; return a }"),
        Err(Error::Scanner)
    ));
}

#[test]
fn a_small_budget_pauses_and_goes_on() {
    let src = "fn fib(n) { if n < 2 { return n } return fib(n - 1) + fib(n - 2) } fn main() { return fib(10) }";
    let mut bs = BakhtScript::default();
    bs.load(src).unwrap();
    assert_eq!(bs.fcall(0, 0), Signal::Paused);
    assert_eq!(bs.resume(1), Signal::Paused);
    let (mut bs, signal, _) = run_with(src, 3);
    assert_eq!(signal, Signal::Done);
    assert!(matches!(bs.pop(), BakhtValue::Number(n) if f32::from_bits(n) == 55.0));
}

#[test]
fn endless_recursion_only_pauses() {
    let mut bs = BakhtScript::default();
    bs.load("fn main() { return main() }").unwrap();
    assert_eq!(bs.fcall(0, 10000), Signal::Paused);
    assert_eq!(bs.resume(10000), Signal::Paused);
}

#[test]
fn reset_empties_the_machine() {
    let (mut bs, _, _) = run("fn main() { return 1 / 0 }");
    assert!(bs.error().is_err());
    bs.reset();
    assert!(bs.error().is_ok());
    assert_eq!(bs.sp(), 0);
    assert_eq!(bs.fcall(0, 10), Signal::Fault);
    assert!(matches!(bs.error(), Err(Error::InvalidBytecode)));
}

#[test]
fn fcall_after_an_error_changes_nothing() {
    let (mut bs, _, _) = run("fn main() { return 1 / 0 }");
    let sp = bs.sp();
    assert_eq!(bs.fcall(0, 10), Signal::Fault);
    assert_eq!(bs.sp(), sp);
    assert!(matches!(bs.error(), Err(Error::DivisionByZero)));
}

#[test]
fn fcall_of_what_is_no_function() {
    let mut bs = BakhtScript::default();
    bs.push_nil();
    bs.push_number(1);
    assert_eq!(bs.fcall(1, 10), Signal::Fault);
    assert!(matches!(bs.error(), Err(Error::CallingNonFunction)));
    assert_eq!(bs.sp(), 1);
    assert!(matches!(bs.pop(), BakhtValue::Number(1)));
}

#[test]
fn load_after_load_starts_afresh() {
    let mut bs = BakhtScript::default();
    bs.load("fn main() { return 1 }").unwrap();
    bs.load("fn main() { return 2 }").unwrap();
    assert_eq!(bs.sp(), 1);
    let mut out = Vec::new();
    let first = bs.fcall(0, 100);
    assert_eq!(serve(&mut bs, first, 100, &mut out), Signal::Done);
    assert!(matches!(bs.pop(), BakhtValue::Number(n) if f32::from_bits(n) == 2.0));
    assert!(bs.load("fn f() { }").is_err());
    assert_eq!(bs.sp(), 0);
}

#[test]
fn the_statement_that_sets_leaves_the_array_on_the_stack() {
    let (mut bs, signal, _) = run("fn main() { let a = [1] a[0] = 2 return 3 }");
    assert_eq!(signal, Signal::Done);
    assert!(matches!(bs.pop(), BakhtValue::Number(n) if f32::from_bits(n) == 3.0));
}

#[test]
fn natives_one_by_one() {
    let mut bs = BakhtScript::default();
    bs.push_string("héllo");
    bakht_len(&mut bs);
    assert!(matches!(bs.pop(), BakhtValue::Number(n) if f32::from_bits(n) == 5.0));
    bs.push_boolean(true);
    assert!(matches!(bakht_print(&mut bs), BakhtValue::Boolean(true)));
    assert!(matches!(bs.pop(), BakhtValue::Nil));
    bs.push_string("a b");
    match bakht_print(&mut bs) {
        BakhtValue::String(s) => assert_eq!(s, "a b"),
        v => panic!("{:?}", v),
    }
    assert_eq!(bs.sp(), 1);
    bs.push_nil();
    bakht_push(&mut bs);
    assert!(matches!(bs.error(), Err(Error::InvalidOperands)));
    assert_eq!(bs.sp(), 1);
    bs.reset();
    bs.push_number(1);
    bakht_pop(&mut bs);
    assert!(matches!(bs.error(), Err(Error::InvalidOperands)));
    assert_eq!(bs.sp(), 0);
}

#[test]
fn a_native_is_found_by_its_number() {
    let mut bs = BakhtScript::default();
    bs.push_number(7);
    match bakht_native(&mut bs, NATIVE_PRINT) {
        Some(BakhtValue::Number(7)) => {}
        v => panic!("{:?}", v),
    }
    assert!(matches!(bs.pop(), BakhtValue::Nil));
    bs.push_string("abc");
    assert!(bakht_native(&mut bs, NATIVE_LEN).is_none());
    assert!(matches!(bs.pop(), BakhtValue::Number(n) if f32::from_bits(n) == 3.0));
    assert!(bakht_native(&mut bs, NATIVE_POP).is_none());
    assert!(matches!(bs.error(), Err(Error::InvalidBytecode)));
    bs.reset();
    bs.push_nil();
    assert!(bakht_native(&mut bs, NATIVE_PUSH).is_none());
    assert!(matches!(bs.error(), Err(Error::InvalidBytecode)));
    assert_eq!(bs.sp(), 1);
    bs.reset();
    bs.push_nil();
    assert!(bakht_native(&mut bs, 4).is_none());
    assert!(matches!(bs.error(), Err(Error::CallingNonFunction)));
    assert_eq!(bs.sp(), 1);
    bs.reset();
    bs.fail(Error::DivisionByZero);
    assert!(matches!(bs.error(), Err(Error::DivisionByZero)));
}
