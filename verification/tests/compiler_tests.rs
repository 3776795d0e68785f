use bytelox::compiler::Compiler;
use bytelox::opcode::OpCode;
use bytelox::value::{Obj, Value};
use bytelox::vm::VMError;

fn compile(source: &str) -> Result<Vec<OpCode>, VMError> {
    let mut compiler = Compiler::new();
    compiler.compile(source)
}

fn num(x: f64) -> OpCode {
    OpCode::Constant(Value::Number(x.to_bits()))
}

fn text(s: &str) -> OpCode {
    OpCode::Constant(Value::Obj(Obj::String(s.to_string())))
}

#[test]
fn unary_minus() {
    let ops = compile("-10.23;").unwrap();
    assert_eq!(ops, vec![num(10.23), OpCode::Negate, OpCode::Pop, OpCode::Return]);
}

#[test]
fn math() {
    let ops = compile("10.23 - 30 * -20;").unwrap();
    assert_eq!(
        ops,
        vec![
            num(10.23),
            num(30.0),
            num(20.0),
            OpCode::Negate,
            OpCode::Multiply,
            OpCode::Subtract,
            OpCode::Pop,
            OpCode::Return,
        ]
    );
}

#[test]
fn precedence() {
    let ops = compile("10 + 20 * 30;").unwrap();
    assert_eq!(
        ops,
        vec![
            num(10.0),
            num(20.0),
            num(30.0),
            OpCode::Multiply,
            OpCode::Add,
            OpCode::Pop,
            OpCode::Return,
        ]
    );
}

#[test]
fn grouping() {
    let ops = compile("(10 + 20) * 30;").unwrap();
    assert_eq!(
        ops,
        vec![
            num(10.0),
            num(20.0),
            OpCode::Add,
            num(30.0),
            OpCode::Multiply,
            OpCode::Pop,
            OpCode::Return,
        ]
    );
}

#[test]
fn division_precedence() {
    let ops = compile("10 - 6 / 2;").unwrap();
    assert_eq!(
        ops,
        vec![
            num(10.0),
            num(6.0),
            num(2.0),
            OpCode::Divide,
            OpCode::Subtract,
            OpCode::Pop,
            OpCode::Return,
        ]
    );
}

#[test]
fn gte_compiles_to_less_not() {
    let ops = compile("10 >= 20;").unwrap();
    assert_eq!(
        ops,
        vec![num(10.0), num(20.0), OpCode::Less, OpCode::Not, OpCode::Pop, OpCode::Return]
    );
}

#[test]
fn lte_compiles_to_greater_not() {
    let ops = compile("10 <= 20;").unwrap();
    assert_eq!(
        ops,
        vec![num(10.0), num(20.0), OpCode::Greater, OpCode::Not, OpCode::Pop, OpCode::Return]
    );
}

#[test]
fn ne_compiles_to_equal_not() {
    let ops = compile("10 != 20;").unwrap();
    assert_eq!(
        ops,
        vec![num(10.0), num(20.0), OpCode::Equal, OpCode::Not, OpCode::Pop, OpCode::Return]
    );
}

#[test]
fn ee_compiles_to_equal() {
    let ops = compile("10 == 10;").unwrap();
    assert_eq!(ops, vec![num(10.0), num(10.0), OpCode::Equal, OpCode::Pop, OpCode::Return]);
}

#[test]
fn comparisons_direct() {
    let ops = compile("1 < 2;").unwrap();
    assert_eq!(ops, vec![num(1.0), num(2.0), OpCode::Less, OpCode::Pop, OpCode::Return]);
    let ops = compile("1 > 2;").unwrap();
    assert_eq!(ops, vec![num(1.0), num(2.0), OpCode::Greater, OpCode::Pop, OpCode::Return]);
}

#[test]
fn string_concat() {
    let ops = compile("\"hello\" + \"world\";").unwrap();
    assert_eq!(
        ops,
        vec![text("hello"), text("world"), OpCode::Add, OpCode::Pop, OpCode::Return]
    );
}

#[test]
fn literals() {
    let ops = compile("true; false; nil;").unwrap();
    assert_eq!(
        ops,
        vec![
            OpCode::True,
            OpCode::Pop,
            OpCode::False,
            OpCode::Pop,
            OpCode::Nil,
            OpCode::Pop,
            OpCode::Return,
        ]
    );
}

#[test]
fn bang_compiles_to_not() {
    let ops = compile("!true;").unwrap();
    assert_eq!(ops, vec![OpCode::True, OpCode::Not, OpCode::Pop, OpCode::Return]);
}

#[test]
fn var_with_initializer() {
    let ops = compile("var x = 10;").unwrap();
    assert_eq!(ops, vec![num(10.0), OpCode::DefineGlobal("x".to_string()), OpCode::Return]);
}

#[test]
fn var_without_initializer() {
    let ops = compile("var y;").unwrap();
    assert_eq!(ops, vec![OpCode::Nil, OpCode::DefineGlobal("y".to_string()), OpCode::Return]);
}

#[test]
fn print_statement() {
    let ops = compile("print x;").unwrap();
    assert_eq!(
        ops,
        vec![OpCode::GetGlobal("x".to_string()), OpCode::Print, OpCode::Return]
    );
}

#[test]
fn assignment_expression() {
    let ops = compile("x = 5;").unwrap();
    assert_eq!(
        ops,
        vec![num(5.0), OpCode::SetGlobal("x".to_string()), OpCode::Pop, OpCode::Return]
    );
}

#[test]
fn var_then_print() {
    let ops = compile("var x = 10; print x;").unwrap();
    assert_eq!(
        ops,
        vec![
            num(10.0),
            OpCode::DefineGlobal("x".to_string()),
            OpCode::GetGlobal("x".to_string()),
            OpCode::Print,
            OpCode::Return,
        ]
    );
}

#[test]
fn compile_is_deterministic() {
    let source = "var x = 1; print x + 2 * 3; \"a\" + \"b\";";
    let first = compile(source).unwrap();
    let second = compile(source).unwrap();
    assert_eq!(first, second);
}

#[test]
fn invalid_assignment_target() {
    let mut compiler = Compiler::new();
    let r = compiler.compile("1 = 2;");
    assert!(matches!(r, Err(VMError::CompileTime)));
    let diags = compiler.diagnostics();
    assert_eq!(diags.len(), 1);
    assert_eq!(diags[0], "[line 1] Error at 4 to 5: Invalid assignment target.");
}

#[test]
fn unterminated_string_is_compile_error() {
    let mut compiler = Compiler::new();
    let r = compiler.compile("\"abc");
    assert!(matches!(r, Err(VMError::CompileTime)));
    let diags = compiler.diagnostics();
    assert_eq!(diags.len(), 1);
    assert_eq!(diags[0], "[line 1] Error: found error token");
}

#[test]
fn missing_operand_reports_at_end() {
    let mut compiler = Compiler::new();
    let r = compiler.compile("print;");
    assert!(matches!(r, Err(VMError::CompileTime)));
    let diags = compiler.diagnostics();
    assert_eq!(diags[0], "[line 1] Error at end: Expected expression");
}

#[test]
fn recovery_reports_later_errors() {
    let mut compiler = Compiler::new();
    let r = compiler.compile("1 +; 2 +;");
    assert!(matches!(r, Err(VMError::CompileTime)));
    let diags = compiler.diagnostics();
    assert_eq!(diags.len(), 2);
}

#[test]
fn missing_semicolon() {
    let mut compiler = Compiler::new();
    let r = compiler.compile("print 1");
    assert!(matches!(r, Err(VMError::CompileTime)));
    let diags = compiler.diagnostics();
    assert_eq!(diags[0], "[line 1] Error at end: Expect ';' after value.");
}

#[test]
fn missing_close_paren() {
    let mut compiler = Compiler::new();
    let r = compiler.compile("(1 + 2;");
    assert!(matches!(r, Err(VMError::CompileTime)));
    let diags = compiler.diagnostics();
    assert!(diags[0].contains("Expect ')' after expression."));
}

#[test]
fn empty_source_compiles_to_return() {
    let ops = compile("").unwrap();
    assert_eq!(ops, vec![OpCode::Return]);
}

#[test]
fn diagnostic_positions_with_two_digits() {
    let mut compiler = Compiler::new();
    let r = compiler.compile("var aaa = 1; 1 = 2;");
    assert!(matches!(r, Err(VMError::CompileTime)));
    let diags = compiler.diagnostics();
    assert_eq!(diags[0], "[line 1] Error at 17 to 18: Invalid assignment target.");
}

#[test]
fn diagnostic_line_with_two_digits() {
    let mut compiler = Compiler::new();
    let r = compiler.compile("\n\n\n\n\n\n\n\n\n\nprint;");
    assert!(matches!(r, Err(VMError::CompileTime)));
    let diags = compiler.diagnostics();
    assert_eq!(diags[0], "[line 11] Error at end: Expected expression");
}
