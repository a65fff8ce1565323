use c_wasm_interpreter::interpreter::{Interpreter, Run};
use c_wasm_interpreter::parser::Parser;

fn run(src: &str) -> Option<[u8; 65536]> {
    match Interpreter::new(src).execute_with_fuel(u64::MAX) {
        Run::Done(e) => Some(e.memory),
        _ => None,
    }
}

#[test]
fn declarations_take_consecutive_slots() {
    let m = run("char a = 1; int b = 2; short c = 3;").unwrap();
    assert_eq!(m[0], 1);
    assert_eq!(&m[1..5], &[2, 0, 0, 0]);
    assert_eq!(&m[5..7], &[3, 0]);
    assert_eq!(m[7], 0);
}

#[test]
fn declaration_writes_only_its_slot() {
    let m = run("int a = 1; char c = 2; int d = 3;").unwrap();
    assert_eq!(&m[0..4], &[1, 0, 0, 0]);
    assert_eq!(m[4], 2);
    assert_eq!(&m[5..9], &[3, 0, 0, 0]);
}

#[test]
fn initializer_is_cut_to_the_type() {
    let m = run("char c = 300; char d = 1;").unwrap();
    assert_eq!(m[0], 44);
    assert_eq!(m[1], 1);
}

#[test]
fn negative_results_in_twos_complement() {
    let m = run("int a = 0 - 1; char b = 5;").unwrap();
    assert_eq!(&m[0..4], &[255, 255, 255, 255]);
    assert_eq!(m[4], 5);
}

#[test]
fn division_truncates_toward_zero() {
    let m = run("int a = 7 / 2; int b = 0 - 7; int c = b / 2;").unwrap();
    assert_eq!(&m[0..4], &[3, 0, 0, 0]);
    assert_eq!(&m[8..12], &[253, 255, 255, 255]);
}

#[test]
fn large_numeral_is_a_long() {
    let m = run("long a = 2147483648; int b = 4294967297;").unwrap();
    assert_eq!(&m[0..8], &[0, 0, 0, 128, 0, 0, 0, 0]);
    assert_eq!(&m[8..12], &[1, 0, 0, 0]);
}

#[test]
fn numeral_beyond_long_is_a_zero_char() {
    let m = run("int a = 261; a = 9223372036854775808;").unwrap();
    assert_eq!(&m[0..4], &[0, 0, 0, 0]);
}

#[test]
fn numeral_beyond_64_bits_fails() {
    assert!(run("long a = 18446744073709551616;").is_none());
    assert!(run("long a = 18446744073709551615;").is_some());
}

#[test]
fn comparisons_yield_one_or_zero() {
    let m = run("int a = 3 < 5; int b = 5 < 3; int c = 5 > 3;").unwrap();
    assert_eq!(&m[0..12], &[1, 0, 0, 0, 0, 0, 0, 0, 1, 0, 0, 0]);
}

#[test]
fn comparison_converts_to_the_unsigned_rank() {
    let m = run("int b = 0 - 1; unsigned int a = 1; int c = a < b; int d = a < 2;").unwrap();
    assert_eq!(m[8], 1);
    assert_eq!(m[12], 1);
}

#[test]
fn declared_variable_reads_back() {
    let m = run("short a = 7; int b = a; long c = b * 3;").unwrap();
    assert_eq!(&m[2..6], &[7, 0, 0, 0]);
    assert_eq!(&m[6..14], &[21, 0, 0, 0, 0, 0, 0, 0]);
}

#[test]
fn assignment_yields_the_assigned_value() {
    let m = run("int a; int b = a = 9;").unwrap();
    assert_eq!(m[0], 9);
    assert_eq!(m[4], 9);
    let m = run("char c; int i = c = 300;").unwrap();
    assert_eq!(m[0], 44);
    assert_eq!(&m[1..5], &[44, 1, 0, 0]);
}

#[test]
fn division_by_zero_fails() {
    assert!(run("int a = 1 / 0;").is_none());
}

#[test]
fn signed_overflow_fails() {
    assert!(run("int a = 2147483647 + 1;").is_none());
    assert!(run("long a = 9223372036854775807; long b = a + 1;").is_none());
}

#[test]
fn unsigned_arithmetic_wraps() {
    let m = run("unsigned int a = 0; unsigned int b = a - 1;").unwrap();
    assert_eq!(&m[4..8], &[255, 255, 255, 255]);
}

#[test]
fn narrow_operands_are_promoted_to_int() {
    let m = run("short int a = 300; int c = a * a;").unwrap();
    assert_eq!(&m[2..6], &[144, 95, 1, 0]);
    let m = run("char a = 100; char b = a * a;").unwrap();
    assert_eq!(m[1], 16);
}

#[test]
fn stored_value_is_converted_to_the_variable_type() {
    let m = run("long int b = 0 - 1;").unwrap();
    assert_eq!(&m[0..8], &[255; 8]);
    let m = run("char c = 0 - 1; long l = c; unsigned char u = c; int i = u;").unwrap();
    assert_eq!(&m[1..9], &[255; 8]);
    assert_eq!(m[9], 255);
    assert_eq!(&m[10..14], &[255, 0, 0, 0]);
}

#[test]
fn unknown_name_fails() {
    assert!(run("int a = b;").is_none());
    assert!(run("b = 1;").is_none());
    assert!(run("void f() { } int a = f;").is_none());
}

#[test]
fn assignment_needs_a_variable() {
    assert!(run("1 = 2;").is_none());
}

#[test]
fn indexing_is_not_evaluated() {
    assert!(run("int a = 1; int b = a[0];").is_none());
    assert!(run("int a = 1; int b = ++a;").is_none());
}

#[test]
fn unary_operators() {
    let m = run("int a = -1; int b = !0; int c = !5; int d = +7; int e = -a;").unwrap();
    assert_eq!(&m[0..4], &[255, 255, 255, 255]);
    assert_eq!(m[4], 1);
    assert_eq!(m[8], 0);
    assert_eq!(m[12], 7);
    assert_eq!(m[16], 1);
}

#[test]
fn conditional_expressions() {
    let m = run("int a = 1 ? 2 : 3; int b = 0 ? 2 : 3; int c = 1 < 2 ? 5 : 6;").unwrap();
    assert_eq!(m[0], 2);
    assert_eq!(m[4], 3);
    assert_eq!(m[8], 1);
}

#[test]
fn less_or_equal() {
    let m = run("int a = 3 <= 3; int b = 4 <= 3; int c = 1 + 1 <= 2;").unwrap();
    assert_eq!([m[0], m[4], m[8]], [1, 0, 1]);
}

#[test]
fn conversions_to_floating_point_are_not_computed() {
    assert!(run("float f = 1;").is_none());
    assert!(run("float f; double d = f;").is_none());
    let m = run("float f; float g = f;").unwrap();
    assert_eq!(&m[0..8], &[0; 8]);
    assert!(run("void v;").is_none());
}

#[test]
fn any_nonzero_integer_is_true() {
    let m = run("long a = 1; while (a) a = 0; char c = 2; int r = 0; if (c) r = 5;").unwrap();
    assert_eq!(&m[0..8], &[0; 8]);
    assert_eq!(m[9], 5);
}

#[test]
fn while_false_runs_no_body() {
    let m = run("int a = 0; while (a > 0) a = 1;").unwrap();
    assert_eq!(m[0], 0);
}

#[test]
fn while_with_block_body() {
    let m = run("int a = 0; int b = 0; while (a < 3) { a = a + 1; b = b + 2; }").unwrap();
    assert_eq!(m[0], 3);
    assert_eq!(m[4], 6);
}

#[test]
fn function_declaration_runs_nothing() {
    let m = run("void f() { int x = 1; }").unwrap();
    assert!(m.iter().all(|b| *b == 0));
}

#[test]
fn runs_are_deterministic() {
    let src = "int a = 2; int b = 0; while (b < 10) b = b + a;";
    assert_eq!(run(src).unwrap().to_vec(), run(src).unwrap().to_vec());
    assert_eq!(run(src).unwrap()[4], 10);
}

#[test]
fn tree_given_directly_runs_the_same() {
    let src = "int a = 4; a = a * a;";
    let root = Parser::new(src).parse();
    let m = Interpreter::new_with_node(root).execute().unwrap().memory;
    assert_eq!(m.to_vec(), run(src).unwrap().to_vec());
    assert_eq!(m[0], 16);
}

#[test]
fn fibonacci_from_the_readme() {
    let src = "int fib(int n) { if (n <= 1) return n; return fib(n - 1) + fib(n - 2); } int r = fib(10);";
    let m = run(src).unwrap();
    assert_eq!(
        &m[0..24],
        &[55, 0, 0, 0, 8, 0, 0, 0, 6, 0, 0, 0, 4, 0, 0, 0, 2, 0, 0, 0, 0, 0, 0, 0]
    );
}

#[test]
fn functions_with_parameters_and_locals() {
    let src = "int g = 10; int add(int x, char y) { int s = x + y; return s + g; } int r = add(5, 300);";
    let m = run(src).unwrap();
    assert_eq!(&m[4..8], &[59, 0, 0, 0]);
}

#[test]
fn locals_do_not_leak_out_of_calls() {
    assert!(run("void f() { int x = 1; } f(); int y = x;").is_none());
    let m = run("int x = 7; void f() { int x = 1; x = 2; } f(); int y = x;").unwrap();
    assert_eq!(m[4], 7);
}

#[test]
fn if_else_and_early_return() {
    let src = "int sign(int v) { if (v < 0) { return 0 - 1; } else if (v <= 0) return 0; return 1; } \
               int a = sign(0 - 5); int b = sign(0); int c = sign(9);";
    let m = run(src).unwrap();
    assert_eq!(&m[0..12], &[255, 255, 255, 255, 0, 0, 0, 0, 1, 0, 0, 0]);
}

#[test]
fn calls_that_fail() {
    assert!(run("void f() { } int a = f();").is_none());
    assert!(run("int f(int x) { return x; } int a = f();").is_none());
    assert!(run("int a = g(1);").is_none());
    assert!(run("int f() { } int a = f();").is_none());
}

#[test]
fn running_out_of_fuel() {
    let mut i = Interpreter::new("int a = 0; while (1) a = 1;");
    assert!(matches!(i.execute_with_fuel(100), Run::OutOfFuel));
    let mut i = Interpreter::new("int f(int n) { return f(n); } int a = f(1);");
    assert!(matches!(i.execute_with_fuel(50), Run::OutOfFuel));
    let mut i = Interpreter::new("int a = 0; while (a < 3) a = a + 1;");
    assert!(matches!(i.execute_with_fuel(3), Run::OutOfFuel));
    let mut i = Interpreter::new("int a = 0; while (a < 3) a = a + 1;");
    match i.execute_with_fuel(4) {
        Run::Done(e) => assert_eq!(e.memory[0], 3),
        _ => panic!("Expected a completed run"),
    }
}

#[test]
fn sources_that_do_not_parse() {
    assert!(Interpreter::try_new(")").is_none());
    assert!(Interpreter::try_new("x \"").is_none());
    assert!(Interpreter::try_new("while (1").is_none());
    assert!(Interpreter::try_new("int a = 1;").is_some());
}
