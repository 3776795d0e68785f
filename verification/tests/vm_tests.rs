use bytelox::value::{Obj, Value};
use bytelox::vm::{VMError, VM};

fn num(x: f64) -> Value {
    Value::Number(x.to_bits())
}

fn text(s: &str) -> Value {
    Value::Obj(Obj::String(s.to_string()))
}

fn run(source: &str) -> (VM, Result<(), VMError>) {
    let mut vm = VM::new();
    let r = vm.interpret(source);
    (vm, r)
}

#[test]
fn arithmetic_precedence() {
    let (vm, r) = run("print 10 + 20 * 30;");
    assert!(r.is_ok());
    assert_eq!(vm.output, vec![num(610.0)]);
}

#[test]
fn grouping_overrides_precedence() {
    let (vm, r) = run("print (10 + 20) * 30;");
    assert!(r.is_ok());
    assert_eq!(vm.output, vec![num(900.0)]);
}

#[test]
fn unary_binds_tighter_than_binary() {
    let (vm, r) = run("print 10.23 - 30 * -20;");
    assert!(r.is_ok());
    assert_eq!(vm.output, vec![num(10.23 - 30.0 * -20.0)]);
}

#[test]
fn fractional_arithmetic_matches_binary64() {
    let (vm, r) = run("print 0.1 + 0.2;");
    assert!(r.is_ok());
    assert_eq!(vm.output, vec![num(0.1 + 0.2)]);
    let (vm, r) = run("print 7 / 2;");
    assert!(r.is_ok());
    assert_eq!(vm.output, vec![num(3.5)]);
}

#[test]
fn division_by_zero_is_infinity() {
    let (vm, r) = run("print 1 / 0;");
    assert!(r.is_ok());
    assert_eq!(vm.output, vec![num(f64::INFINITY)]);
}

#[test]
fn string_concat_left_associative() {
    let (vm, r) = run("print \"a\"+\"b\"+\"c\"+\"d\";");
    assert!(r.is_ok());
    assert_eq!(vm.output, vec![text("abcd")]);
}

#[test]
fn greater_equal_is_not_less() {
    let (vm, r) = run("print 10 >= 20; print 10 >= 10; print 20 >= 10;");
    assert!(r.is_ok());
    assert_eq!(
        vm.output,
        vec![Value::Bool(false), Value::Bool(true), Value::Bool(true)]
    );
}

#[test]
fn less_equal_is_not_greater() {
    let (vm, r) = run("print 20 <= 10; print 10 <= 10; print 10 <= 20;");
    assert!(r.is_ok());
    assert_eq!(
        vm.output,
        vec![Value::Bool(false), Value::Bool(true), Value::Bool(true)]
    );
}

#[test]
fn equality_and_inequality() {
    let (vm, r) = run("print 10 == 10; print 10 != 20; print 10 != 10; print 10 == 20;");
    assert!(r.is_ok());
    assert_eq!(
        vm.output,
        vec![Value::Bool(true), Value::Bool(true), Value::Bool(false), Value::Bool(false)]
    );
}

#[test]
fn var_and_print_leave_stack_empty() {
    let (vm, r) = run("var x = 10; print x;");
    assert!(r.is_ok());
    assert_eq!(vm.output, vec![num(10.0)]);
    assert_eq!(vm.stack.len(), 0);
    match &vm.output[0] {
        Value::Number(bits) => assert_eq!(format!("{}", f64::from_bits(*bits)), "10"),
        _ => panic!("expected a number"),
    }
}

#[test]
fn undefined_global_read_is_runtime_error() {
    let (vm, r) = run("print y;");
    assert_eq!(r, Err(VMError::Runtime));
    assert_eq!(vm.runtime_message, Some("Undefined variable 'y'".to_string()));
}

#[test]
fn undefined_global_write_is_runtime_error() {
    let (vm, r) = run("y = 1;");
    assert_eq!(r, Err(VMError::Runtime));
    assert_eq!(vm.runtime_message, Some("Undefined variable 'y'".to_string()));
}

#[test]
fn negating_non_number_is_runtime_error() {
    let (vm, r) = run("-true;");
    assert_eq!(r, Err(VMError::Runtime));
    assert_eq!(vm.runtime_message, Some("Operand must be a number.".to_string()));
}

#[test]
fn adding_number_and_string_is_runtime_error() {
    let (vm, r) = run("1 + \"a\";");
    assert_eq!(r, Err(VMError::Runtime));
    assert_eq!(
        vm.runtime_message,
        Some("Operands must be two numbers or two strings.".to_string())
    );
}

#[test]
fn runtime_error_halts_immediately() {
    let (vm, r) = run("print 1; -true; print 2;");
    assert_eq!(r, Err(VMError::Runtime));
    assert_eq!(vm.output, vec![num(1.0)]);
}

#[test]
fn compile_error_does_not_run() {
    let (vm, r) = run("print 1; 2 +;");
    assert_eq!(r, Err(VMError::CompileTime));
    assert_eq!(vm.output.len(), 0);
    assert_eq!(vm.stack.len(), 0);
}

#[test]
fn globals_persist_across_runs() {
    let mut vm = VM::new();
    assert!(vm.interpret("var x = 41;").is_ok());
    assert!(vm.interpret("x = x + 1;").is_ok());
    assert!(vm.interpret("print x;").is_ok());
    assert_eq!(vm.output, vec![num(42.0)]);
}

#[test]
fn redefining_a_global_overwrites_it() {
    let (vm, r) = run("var x = 1; var x = 2; print x;");
    assert!(r.is_ok());
    assert_eq!(vm.output, vec![num(2.0)]);
}

#[test]
fn assignment_is_an_expression() {
    let (vm, r) = run("var x = 1; print x = 5; print x;");
    assert!(r.is_ok());
    assert_eq!(vm.output, vec![num(5.0), num(5.0)]);
}

#[test]
fn falsiness() {
    let (vm, r) = run("print !nil; print !false; print !0; print !\"\";");
    assert!(r.is_ok());
    assert_eq!(
        vm.output,
        vec![Value::Bool(true), Value::Bool(true), Value::Bool(false), Value::Bool(false)]
    );
}

#[test]
fn cross_variant_comparisons_are_false() {
    let (vm, r) = run("print 1 == \"1\"; print 1 < true; print nil > nil;");
    assert!(r.is_ok());
    assert_eq!(
        vm.output,
        vec![Value::Bool(false), Value::Bool(false), Value::Bool(false)]
    );
}

#[test]
fn string_and_bool_ordering() {
    let (vm, r) = run("print \"abc\" < \"abd\"; print \"b\" < \"abc\"; print false < true;");
    assert!(r.is_ok());
    assert_eq!(
        vm.output,
        vec![Value::Bool(true), Value::Bool(false), Value::Bool(true)]
    );
}

#[test]
fn string_equality_is_by_contents() {
    let (vm, r) = run("print \"ab\" == \"a\" + \"b\";");
    assert!(r.is_ok());
    assert_eq!(vm.output, vec![Value::Bool(true)]);
}

#[test]
fn nil_prints_and_compares() {
    let (vm, r) = run("var x; print x == nil;");
    assert!(r.is_ok());
    assert_eq!(vm.output, vec![Value::Bool(true)]);
}

#[test]
fn negation_of_number() {
    let (vm, r) = run("print -1.5; print --2;");
    assert!(r.is_ok());
    assert_eq!(vm.output, vec![num(-1.5), num(2.0)]);
}

#[test]
fn is_falsey_values() {
    assert!(Value::Nil.is_falsey());
    assert!(Value::Bool(false).is_falsey());
    assert!(!Value::Bool(true).is_falsey());
    assert!(!num(0.0).is_falsey());
    assert!(!text("").is_falsey());
}

#[test]
fn interpret_twice_gives_same_output() {
    let mut a = VM::new();
    let mut b = VM::new();
    let src = "var x = 3; print x * 7;";
    assert!(a.interpret(src).is_ok());
    assert!(b.interpret(src).is_ok());
    assert_eq!(a.output, b.output);
    assert_eq!(a.output, vec![num(21.0)]);
}

#[test]
fn empty_source_runs_to_nothing() {
    let (vm, r) = run("");
    assert!(r.is_ok());
    assert_eq!(vm.output.len(), 0);
    assert_eq!(vm.stack.len(), 0);
}

#[test]
fn subtraction_and_multiplication_exact() {
    let (vm, r) = run("print 2.5 * 4; print 1.5 - 0.25;");
    assert!(r.is_ok());
    assert_eq!(vm.output, vec![num(10.0), num(1.25)]);
}
