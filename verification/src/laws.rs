use vstd::prelude::*;

use crate::compiler::{emit, prev_kind, spec_advance, spec_binary, spec_consume, spec_declaration,
    spec_expression, spec_expression_statement, spec_infix_loop, spec_number,
    spec_parse_precedence, spec_program, spec_statement, PState, Precedence};
use crate::opcode::SpecOp;
use crate::scanner::{spec_scan_at, spec_skip_ws, str_end, SpecToken, SpecTokenValue, TokenType};
use crate::value::{spec_value_eq, spec_value_lt, SpecValue};
use crate::vm::{netsum, op_net, run_start, spec_run, spec_step, undefined_variable_msg, SpecExec,
    VmState};

verus! {

/// The parser state a token sequence is compiled from.
pub open spec fn parse_start(toks: Seq<SpecToken>) -> PState {
    PState {
        toks,
        idx: 0,
        prev: Option::None,
        cur: Option::None,
        had_error: false,
        panic_mode: false,
        ops: Seq::empty(),
        diags: Seq::empty(),
    }
}

/// What a whole token sequence compiles to, before the final `Return`.
pub open spec fn parse_result(toks: Seq<SpecToken>) -> PState {
    spec_program(spec_advance(parse_start(toks)))
}

// Standard precedence, stated over every operand value.  For all numbers a,
// b and c, the statement `a + b * c;` compiles with the product first, so
// multiplication binds tighter than addition; a parenthesized `(a + b) * c;`
// compiles with the sum first; and `- a * b;` negates only `a`, so unary
// minus binds tighter than any binary operator.

/// `a + b * c;` compiles to `a b c * + pop`, whatever the numbers are.
pub proof fn lemma_product_binds_tighter_than_sum(toks: Seq<SpecToken>, a: u64, b: u64, c: u64)
    requires
        toks.len() == 7,
        toks[0].kind == TokenType::Number && toks[0].value == Some(SpecTokenValue::Number(a)),
        toks[1].kind == TokenType::Plus,
        toks[2].kind == TokenType::Number && toks[2].value == Some(SpecTokenValue::Number(b)),
        toks[3].kind == TokenType::Star,
        toks[4].kind == TokenType::Number && toks[4].value == Some(SpecTokenValue::Number(c)),
        toks[5].kind == TokenType::Semicolon,
        toks[6].kind == TokenType::Eof,
    ensures
        !parse_result(toks).had_error,
        parse_result(toks).ops =~= seq![
            SpecOp::Constant(SpecValue::Number(a)),
            SpecOp::Constant(SpecValue::Number(b)),
            SpecOp::Constant(SpecValue::Number(c)),
            SpecOp::Multiply,
            SpecOp::Add,
            SpecOp::Pop,
        ],
{
    let st0 = parse_start(toks);
    let s1 = spec_advance(st0);
    assert(s1 =~= (PState { idx: 1nat, cur: Some(toks[0]), ..st0 }));
    let s2 = spec_advance(s1);
    assert(s2 =~= (PState { idx: 2nat, prev: Some(toks[0]), cur: Some(toks[1]), ..s1 }));
    let s3 = spec_number(s2);
    assert(s3 =~= (PState { ops: seq![SpecOp::Constant(SpecValue::Number(a))], ..s2 }));
    let s4 = spec_advance(s3);
    assert(s4 =~= (PState { idx: 3nat, prev: Some(toks[1]), cur: Some(toks[2]), ..s3 }));
    let s5 = spec_advance(s4);
    assert(s5 =~= (PState { idx: 4nat, prev: Some(toks[2]), cur: Some(toks[3]), ..s4 }));
    let s6 = spec_number(s5);
    assert(s6 =~= (PState { ops: s5.ops.push(SpecOp::Constant(SpecValue::Number(b))), ..s5 }));
    let s7 = spec_advance(s6);
    assert(s7 =~= (PState { idx: 5nat, prev: Some(toks[3]), cur: Some(toks[4]), ..s6 }));
    let s8 = spec_advance(s7);
    assert(s8 =~= (PState { idx: 6nat, prev: Some(toks[4]), cur: Some(toks[5]), ..s7 }));
    let s9 = spec_number(s8);
    assert(s9 =~= (PState { ops: s8.ops.push(SpecOp::Constant(SpecValue::Number(c))), ..s8 }));
    assert(spec_infix_loop(s9, Precedence::Unary) == s9);
    assert(spec_parse_precedence(s7, Precedence::Unary) == s9);
    let s10 = emit(s9, SpecOp::Multiply);
    assert(spec_binary(s7) == s10);
    assert(spec_infix_loop(s10, Precedence::Factor) == s10);
    assert(spec_infix_loop(s6, Precedence::Factor) == s10);
    assert(spec_parse_precedence(s4, Precedence::Factor) == s10);
    let s11 = emit(s10, SpecOp::Add);
    assert(spec_binary(s4) == s11);
    assert(spec_infix_loop(s11, Precedence::Assignment) == s11);
    assert(spec_infix_loop(s3, Precedence::Assignment) == s11);
    assert(spec_parse_precedence(s1, Precedence::Assignment) == s11);
    assert(spec_expression(s1) == s11);
    let s12 = spec_advance(s11);
    assert(s12 =~= (PState { idx: 7nat, prev: Some(toks[5]), cur: Some(toks[6]), ..s11 }));
    assert(spec_consume(s11, TokenType::Semicolon, "Expect ';' after expression."@) == s12);
    let s13 = emit(s12, SpecOp::Pop);
    assert(spec_expression_statement(s1) == s13);
    assert(spec_statement(s1) == s13);
    assert(spec_declaration(s1) == s13);
    let s14 = spec_advance(s13);
    assert(s14 =~= (PState { prev: Some(toks[6]), ..s13 }));
    assert(spec_program(s13) == s14);
    assert(spec_program(s1) == s14);
    assert(parse_result(toks) == s14);
}

/// `(a + b) * c;` compiles to `a b + c * pop`: parentheses override the
/// binding.
pub proof fn lemma_parentheses_override_precedence(toks: Seq<SpecToken>, a: u64, b: u64, c: u64)
    requires
        toks.len() == 9,
        toks[0].kind == TokenType::LeftParen,
        toks[1].kind == TokenType::Number && toks[1].value == Some(SpecTokenValue::Number(a)),
        toks[2].kind == TokenType::Plus,
        toks[3].kind == TokenType::Number && toks[3].value == Some(SpecTokenValue::Number(b)),
        toks[4].kind == TokenType::RightParen,
        toks[5].kind == TokenType::Star,
        toks[6].kind == TokenType::Number && toks[6].value == Some(SpecTokenValue::Number(c)),
        toks[7].kind == TokenType::Semicolon,
        toks[8].kind == TokenType::Eof,
    ensures
        !parse_result(toks).had_error,
        parse_result(toks).ops =~= seq![
            SpecOp::Constant(SpecValue::Number(a)),
            SpecOp::Constant(SpecValue::Number(b)),
            SpecOp::Add,
            SpecOp::Constant(SpecValue::Number(c)),
            SpecOp::Multiply,
            SpecOp::Pop,
        ],
{
    let st0 = parse_start(toks);
    let s1 = spec_advance(st0);
    assert(s1 =~= (PState { idx: 1nat, cur: Some(toks[0]), ..st0 }));
    let s2 = spec_advance(s1);
    assert(s2 =~= (PState { idx: 2nat, prev: Some(toks[0]), cur: Some(toks[1]), ..s1 }));
    let s3 = spec_advance(s2);
    assert(s3 =~= (PState { idx: 3nat, prev: Some(toks[1]), cur: Some(toks[2]), ..s2 }));
    let s4 = spec_number(s3);
    assert(s4 =~= (PState { ops: seq![SpecOp::Constant(SpecValue::Number(a))], ..s3 }));
    let s5 = spec_advance(s4);
    assert(s5 =~= (PState { idx: 4nat, prev: Some(toks[2]), cur: Some(toks[3]), ..s4 }));
    let s6 = spec_advance(s5);
    assert(s6 =~= (PState { idx: 5nat, prev: Some(toks[3]), cur: Some(toks[4]), ..s5 }));
    let s7 = spec_number(s6);
    assert(s7 =~= (PState { ops: s6.ops.push(SpecOp::Constant(SpecValue::Number(b))), ..s6 }));
    assert(spec_infix_loop(s7, Precedence::Factor) == s7);
    assert(spec_parse_precedence(s5, Precedence::Factor) == s7);
    let s8 = emit(s7, SpecOp::Add);
    assert(spec_binary(s5) == s8);
    assert(spec_infix_loop(s8, Precedence::Assignment) == s8);
    assert(spec_infix_loop(s4, Precedence::Assignment) == s8);
    assert(spec_parse_precedence(s2, Precedence::Assignment) == s8);
    assert(spec_expression(s2) == s8);
    let s9 = spec_advance(s8);
    assert(s9 =~= (PState { idx: 6nat, prev: Some(toks[4]), cur: Some(toks[5]), ..s8 }));
    assert(spec_consume(s8, TokenType::RightParen, "Expect ')' after expression."@) == s9);
    assert(crate::compiler::spec_grouping(s2) == s9);
    let s10 = spec_advance(s9);
    assert(s10 =~= (PState { idx: 7nat, prev: Some(toks[5]), cur: Some(toks[6]), ..s9 }));
    let s11 = spec_advance(s10);
    assert(s11 =~= (PState { idx: 8nat, prev: Some(toks[6]), cur: Some(toks[7]), ..s10 }));
    let s12 = spec_number(s11);
    assert(s12 =~= (PState { ops: s11.ops.push(SpecOp::Constant(SpecValue::Number(c))), ..s11 }));
    assert(spec_infix_loop(s12, Precedence::Unary) == s12);
    assert(spec_parse_precedence(s10, Precedence::Unary) == s12);
    let s13 = emit(s12, SpecOp::Multiply);
    assert(spec_binary(s10) == s13);
    assert(spec_infix_loop(s13, Precedence::Assignment) == s13);
    assert(spec_infix_loop(s9, Precedence::Assignment) == s13);
    assert(spec_parse_precedence(s1, Precedence::Assignment) == s13);
    assert(spec_expression(s1) == s13);
    let s14 = spec_advance(s13);
    assert(s14 =~= (PState { idx: 9nat, prev: Some(toks[7]), cur: Some(toks[8]), ..s13 }));
    assert(spec_consume(s13, TokenType::Semicolon, "Expect ';' after expression."@) == s14);
    let s15 = emit(s14, SpecOp::Pop);
    assert(spec_expression_statement(s1) == s15);
    assert(spec_statement(s1) == s15);
    assert(spec_declaration(s1) == s15);
    let s16 = spec_advance(s15);
    assert(s16 =~= (PState { prev: Some(toks[8]), ..s15 }));
    assert(spec_program(s15) == s16);
    assert(spec_program(s1) == s16);
    assert(parse_result(toks) == s16);
}

/// `- a * b;` compiles to `a neg b * pop`: unary minus takes only its own
/// operand, binding tighter than the binary operators.
pub proof fn lemma_unary_binds_tighter_than_binary(toks: Seq<SpecToken>, a: u64, b: u64)
    requires
        toks.len() == 6,
        toks[0].kind == TokenType::Minus,
        toks[1].kind == TokenType::Number && toks[1].value == Some(SpecTokenValue::Number(a)),
        toks[2].kind == TokenType::Star,
        toks[3].kind == TokenType::Number && toks[3].value == Some(SpecTokenValue::Number(b)),
        toks[4].kind == TokenType::Semicolon,
        toks[5].kind == TokenType::Eof,
    ensures
        !parse_result(toks).had_error,
        parse_result(toks).ops =~= seq![
            SpecOp::Constant(SpecValue::Number(a)),
            SpecOp::Negate,
            SpecOp::Constant(SpecValue::Number(b)),
            SpecOp::Multiply,
            SpecOp::Pop,
        ],
{
    let st0 = parse_start(toks);
    let s1 = spec_advance(st0);
    assert(s1 =~= (PState { idx: 1nat, cur: Some(toks[0]), ..st0 }));
    let s2 = spec_advance(s1);
    assert(s2 =~= (PState { idx: 2nat, prev: Some(toks[0]), cur: Some(toks[1]), ..s1 }));
    let s3 = spec_advance(s2);
    assert(s3 =~= (PState { idx: 3nat, prev: Some(toks[1]), cur: Some(toks[2]), ..s2 }));
    let s4 = spec_number(s3);
    assert(s4 =~= (PState { ops: seq![SpecOp::Constant(SpecValue::Number(a))], ..s3 }));
    assert(spec_infix_loop(s4, Precedence::Unary) == s4);
    assert(spec_parse_precedence(s2, Precedence::Unary) == s4);
    let s5 = emit(s4, SpecOp::Negate);
    assert(crate::compiler::spec_unary(s2) == s5);
    let s6 = spec_advance(s5);
    assert(s6 =~= (PState { idx: 4nat, prev: Some(toks[2]), cur: Some(toks[3]), ..s5 }));
    let s7 = spec_advance(s6);
    assert(s7 =~= (PState { idx: 5nat, prev: Some(toks[3]), cur: Some(toks[4]), ..s6 }));
    let s8 = spec_number(s7);
    assert(s8 =~= (PState { ops: s7.ops.push(SpecOp::Constant(SpecValue::Number(b))), ..s7 }));
    assert(spec_infix_loop(s8, Precedence::Unary) == s8);
    assert(spec_parse_precedence(s6, Precedence::Unary) == s8);
    let s9 = emit(s8, SpecOp::Multiply);
    assert(spec_binary(s6) == s9);
    assert(spec_infix_loop(s9, Precedence::Assignment) == s9);
    assert(spec_infix_loop(s5, Precedence::Assignment) == s9);
    assert(spec_parse_precedence(s1, Precedence::Assignment) == s9);
    assert(spec_expression(s1) == s9);
    let s10 = spec_advance(s9);
    assert(s10 =~= (PState { idx: 6nat, prev: Some(toks[4]), cur: Some(toks[5]), ..s9 }));
    assert(spec_consume(s9, TokenType::Semicolon, "Expect ';' after expression."@) == s10);
    let s11 = emit(s10, SpecOp::Pop);
    assert(spec_expression_statement(s1) == s11);
    assert(spec_statement(s1) == s11);
    assert(spec_declaration(s1) == s11);
    let s12 = spec_advance(s11);
    assert(s12 =~= (PState { prev: Some(toks[5]), ..s11 }));
    assert(spec_program(s11) == s12);
    assert(spec_program(s1) == s12);
    assert(parse_result(toks) == s12);
}

/// Statements are balanced: a program that compiles and runs to a normal
/// end leaves the operand stack empty, whatever the globals carried in.
pub proof fn lemma_program_leaves_stack_empty(src: Seq<char>, globals: Map<Seq<char>, SpecValue>)
    requires
        !crate::compiler::spec_compile(src).had_error,
        spec_run(run_start(src, Seq::empty(), globals)).1 is None,
    ensures
        spec_run(run_start(src, Seq::empty(), globals)).0.stack.len() == 0,
{
    let start = run_start(src, Seq::empty(), globals);
    crate::balance::lemma_compile_stack_ok(src);
    crate::balance::lemma_run_height(start);
    let ops = crate::compiler::spec_compile(src).ops;
    let fin = spec_run(start).0;
    assert(netsum(ops, 0) == 0);
    assert(fin.stack.len() == netsum(ops, fin.index as int));
    if fin.index < ops.len() {
        assert(ops[fin.index as int] == SpecOp::Return);
        assert(fin.index == ops.len() - 1);
        assert(netsum(ops, ops.len() as int) == netsum(ops, ops.len() - 1) + op_net(
            ops[ops.len() - 1],
        ));
    }
}

// What the derived comparison operators compile to.  `a >= b` goes through
// the binary handler for `>=`, which emits the right operand's code and then
// `Less`, `Not`; `a <= b` emits `Greater`, `Not`; `a != b` emits `Equal`,
// `Not`.  There are no dedicated instructions for them.

/// After a `>=`, the emitted code is the right operand's code followed by
/// `Less` and `Not`.
pub proof fn lemma_greater_equal_compiles_to_less_not(st: PState)
    requires
        prev_kind(st) == TokenType::GreaterEqual,
    ensures
        spec_binary(st) == emit(
            emit(spec_parse_precedence(st, Precedence::Term), SpecOp::Less),
            SpecOp::Not,
        ),
{
}

/// After a `<=`, the emitted code is the right operand's code followed by
/// `Greater` and `Not`.
pub proof fn lemma_less_equal_compiles_to_greater_not(st: PState)
    requires
        prev_kind(st) == TokenType::LessEqual,
    ensures
        spec_binary(st) == emit(
            emit(spec_parse_precedence(st, Precedence::Term), SpecOp::Greater),
            SpecOp::Not,
        ),
{
}

/// After a `!=`, the emitted code is the right operand's code followed by
/// `Equal` and `Not`.
pub proof fn lemma_not_equal_compiles_to_equal_not(st: PState)
    requires
        prev_kind(st) == TokenType::BangEqual,
    ensures
        spec_binary(st) == emit(
            emit(spec_parse_precedence(st, Precedence::Comparison), SpecOp::Equal),
            SpecOp::Not,
        ),
{
}

// What the derived comparisons mean when they run.  On any machine state and
// any two operands, `Less` followed by `Not` leaves exactly the negation of
// the strict order, so `a >= b` means not (a < b); likewise for the other
// two desugarings.

/// Running `Less` then `Not` on two operands pushes `not (a < b)`.
pub proof fn lemma_less_not_is_not_less(st: VmState, a: SpecValue, b: SpecValue)
    requires
        st.stack.len() >= 2,
        st.stack[st.stack.len() - 2] == a,
        st.stack.last() == b,
    ensures
        ({
            let r1 = spec_step(st, SpecOp::Less);
            &&& r1 matches SpecExec::Next(st1)
            &&& spec_step(r1->Next_0, SpecOp::Not) matches SpecExec::Next(st2) && st2.stack
                == st.stack.drop_last().drop_last().push(
                SpecValue::Bool(!spec_value_lt(a, b)),
            ) && st2.globals == st.globals && st2.output == st.output
        }),
{
}

/// Running `Greater` then `Not` on two operands pushes `not (b < a)`.
pub proof fn lemma_greater_not_is_not_greater(st: VmState, a: SpecValue, b: SpecValue)
    requires
        st.stack.len() >= 2,
        st.stack[st.stack.len() - 2] == a,
        st.stack.last() == b,
    ensures
        ({
            let r1 = spec_step(st, SpecOp::Greater);
            &&& r1 matches SpecExec::Next(st1)
            &&& spec_step(r1->Next_0, SpecOp::Not) matches SpecExec::Next(st2) && st2.stack
                == st.stack.drop_last().drop_last().push(
                SpecValue::Bool(!spec_value_lt(b, a)),
            ) && st2.globals == st.globals && st2.output == st.output
        }),
{
}

/// Running `Equal` then `Not` on two operands pushes `not (a == b)`.
pub proof fn lemma_equal_not_is_not_equal(st: VmState, a: SpecValue, b: SpecValue)
    requires
        st.stack.len() >= 2,
        st.stack[st.stack.len() - 2] == a,
        st.stack.last() == b,
    ensures
        ({
            let r1 = spec_step(st, SpecOp::Equal);
            &&& r1 matches SpecExec::Next(st1)
            &&& spec_step(r1->Next_0, SpecOp::Not) matches SpecExec::Next(st2) && st2.stack
                == st.stack.drop_last().drop_last().push(
                SpecValue::Bool(!spec_value_eq(a, b)),
            ) && st2.globals == st.globals && st2.output == st.output
        }),
{
}

// String concatenation.  `Add` on two strings pushes their concatenation,
// and concatenation of character sequences is associative, so a chain of
// additions folded from the left gives the same characters as any other
// grouping.

/// `Add` on two strings pushes their concatenation.
pub proof fn lemma_add_concatenates(st: VmState, a: Seq<char>, b: Seq<char>)
    requires
        st.stack.len() >= 2,
        st.stack[st.stack.len() - 2] == SpecValue::Str(a),
        st.stack.last() == SpecValue::Str(b),
    ensures
        spec_step(st, SpecOp::Add) == SpecExec::Next(
            VmState {
                stack: st.stack.drop_last().drop_last().push(SpecValue::Str(a + b)),
                ..st
            },
        ),
{
}

/// Concatenation of texts is associative.
pub proof fn lemma_concat_assoc(a: Seq<char>, b: Seq<char>, c: Seq<char>)
    ensures
        (a + b) + c == a + (b + c),
{
    assert((a + b) + c =~= a + (b + c));
}

// Undefined globals.  Reading or assigning a name with no binding stops the
// machine with a runtime failure naming the variable; it never does anything
// else.

/// `GetGlobal` of an unbound name fails with its message, changing nothing.
pub proof fn lemma_get_undefined_global_fails(st: VmState, n: Seq<char>)
    requires
        !st.globals.contains_key(n),
    ensures
        spec_step(st, SpecOp::GetGlobal(n)) == SpecExec::Fail(st, undefined_variable_msg(n)),
{
}

/// `SetGlobal` of an unbound name fails with its message, changing nothing.
pub proof fn lemma_set_undefined_global_fails(st: VmState, n: Seq<char>)
    requires
        !st.globals.contains_key(n),
        st.stack.len() >= 1,
    ensures
        spec_step(st, SpecOp::SetGlobal(n)) == SpecExec::Fail(st, undefined_variable_msg(n)),
{
}

/// `Negate` on anything but a number fails with "Operand must be a number.",
/// after taking its operand and nothing else.
pub proof fn lemma_negate_non_number_fails(st: VmState)
    requires
        st.stack.len() >= 1,
        !(st.stack.last() matches SpecValue::Number(_)),
    ensures
        spec_step(st, SpecOp::Negate) == SpecExec::Fail(
            VmState { stack: st.stack.drop_last(), ..st },
            "Operand must be a number."@,
        ),
{
}

/// A text that opens a string and never closes it does not compile: its
/// first token is the error token carrying "Unterminated string", and a text
/// with an error token among its tokens always compiles to a failure.
pub proof fn lemma_unterminated_string_fails_compile(src: Seq<char>)
    requires
        ({
            let (p, l) = spec_skip_ws(src, 0, 1);
            &&& p < src.len()
            &&& src[p as int] == '"'
            &&& str_end(src, p + 1) >= src.len()
        }),
    ensures
        crate::scanner::spec_tokens(src)[0].value == Some(
            SpecTokenValue::Error("Unterminated string"@),
        ),
        crate::compiler::spec_compile(src).had_error,
{
    lemma_unterminated_string_token(src, 0, 1);
    crate::scanner::lemma_scan_seq_form(src, 0, 1);
    assert(crate::scanner::spec_tokens(src)[0] == spec_scan_at(src, 0, 1).tok);
    crate::balance::lemma_error_token_fails_compile(src, 0);
}

/// A string literal that reaches the end of the input without its closing
/// quote scans to an error token carrying "Unterminated string".
pub proof fn lemma_unterminated_string_token(src: Seq<char>, pos: nat, line: nat)
    requires
        ({
            let (p, l) = spec_skip_ws(src, pos, line);
            &&& p < src.len()
            &&& src[p as int] == '"'
            &&& str_end(src, p + 1) >= src.len()
        }),
    ensures
        spec_scan_at(src, pos, line).tok.kind == TokenType::Error,
        spec_scan_at(src, pos, line).tok.value == Some(
            SpecTokenValue::Error("Unterminated string"@),
        ),
{
}

} // verus!
