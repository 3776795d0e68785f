use vstd::prelude::*;

use crate::compiler::{cur_is, cur_prec, emit, pmeasure, prec_val, prev_kind, prev_name,
    progressed, spec_advance, spec_advance_loop, spec_binary, spec_compile, spec_consume,
    spec_declaration, spec_error, spec_expression, spec_expression_statement, spec_get_rule,
    spec_grouping, spec_infix_loop, spec_literal, spec_match, spec_number, spec_parse_precedence,
    spec_prec_next, spec_print_statement, spec_program, spec_statement, spec_string,
    spec_sync_loop, spec_synchronize, spec_unary, spec_var_declaration, spec_variable, wf_ps,
    InfixRule, PState, Precedence, PrefixRule};
use crate::opcode::SpecOp;
use crate::scanner::{lemma_scan_at, lemma_scan_seq_form, spec_scan_at, spec_scan_seq, spec_tokens,
    SpecToken, SpecTokenValue, TokenType};
use crate::value::SpecValue;
use crate::vm::{netsum, op_net, op_pops, stack_ok, VmState};

verus! {

// The instructions any one parsing step emits are balanced: they never reach
// below the operands already on the stack when the step begins, and they
// leave a known net number of values.  From this, an instruction sequence
// that an error-free compilation produces keeps the machine's operand stack
// in bounds.

/// A code fragment is safe when it runs with at least `k` values already on
/// the stack: no instruction needs more operands than stand below it, and
/// the running height never goes negative.
pub open spec fn frag_ok(d: Seq<SpecOp>, k: int) -> bool {
    &&& forall|i: int| 0 <= i <= d.len() ==> k + netsum(d, i) >= 0
    &&& forall|i: int| 0 <= i < d.len() ==> k + netsum(d, i) >= op_pops(#[trigger] d[i])
}

/// Number and string tokens carry their payloads.
pub open spec fn token_payload_ok(t: SpecToken) -> bool {
    &&& (t.kind == TokenType::Number ==> t.value matches Some(SpecTokenValue::Number(_)))
    &&& (t.kind == TokenType::String ==> t.value matches Some(SpecTokenValue::Str(_)))
}

pub open spec fn prev_ok(st: PState) -> bool {
    match st.prev {
        Option::Some(t) => token_payload_ok(t),
        Option::None => true,
    }
}

/// Everything the balance argument needs of a parser state: a well-formed
/// cursor, tokens with their payloads, panic mode only after an error, and a
/// well-formed previous token.
pub open spec fn wf_full(st: PState) -> bool {
    &&& wf_ps(st)
    &&& (forall|i: int| 0 <= i < st.toks.len() ==> token_payload_ok(#[trigger] st.toks[i]))
    &&& (st.panic_mode ==> st.had_error)
    &&& prev_ok(st)
}

/// One parsing step from `st` to `st1`: tokens fixed, the cursor moves
/// forward, the old instructions stay as a prefix, errors are never
/// forgotten, and — if no error is on record afterwards — the added
/// instructions are a fragment that is safe over `k` existing operands and
/// nets `n` values.
pub open spec fn steps_ok(st: PState, st1: PState, k: int, n: int) -> bool {
    &&& st1.toks == st.toks
    &&& wf_full(st1)
    &&& st.idx <= st1.idx <= st1.toks.len()
    &&& st.ops.len() <= st1.ops.len()
    &&& st1.ops.take(st.ops.len() as int) == st.ops
    &&& (st.had_error ==> st1.had_error)
    &&& (forall|j: int|
        st.idx <= j < st1.idx && #[trigger] st1.toks[j].kind == TokenType::Error
            ==> st1.had_error)
    &&& (forall|j: int|
        st.ops.len() <= j < st1.ops.len() ==> #[trigger] st1.ops[j] != SpecOp::Return)
    &&& (!st1.had_error ==> frag_ok(st1.ops.skip(st.ops.len() as int), k) && netsum(
        st1.ops.skip(st.ops.len() as int),
        st1.ops.len() - st.ops.len(),
    ) == n)
}

proof fn lemma_netsum_prefix(a: Seq<SpecOp>, b: Seq<SpecOp>, j: int)
    requires
        0 <= j <= a.len(),
    ensures
        netsum(a + b, j) == netsum(a, j),
    decreases j,
{
    if j > 0 {
        lemma_netsum_prefix(a, b, j - 1);
        assert((a + b)[j - 1] == a[j - 1]);
    }
}

proof fn lemma_netsum_append(a: Seq<SpecOp>, b: Seq<SpecOp>, i: int)
    requires
        0 <= i <= b.len(),
    ensures
        netsum(a + b, a.len() + i) == netsum(a, a.len() as int) + netsum(b, i),
    decreases i,
{
    if i > 0 {
        lemma_netsum_append(a, b, i - 1);
        assert((a + b)[a.len() + i - 1] == b[i - 1]);
    } else {
        lemma_netsum_prefix(a, b, a.len() as int);
    }
}

/// Fragments compose: one netting `n1` over `k` operands, followed by one
/// safe over `k + n1`, is safe over `k`.
proof fn lemma_frag_concat(d1: Seq<SpecOp>, d2: Seq<SpecOp>, k: int, n1: int)
    requires
        frag_ok(d1, k),
        netsum(d1, d1.len() as int) == n1,
        frag_ok(d2, k + n1),
    ensures
        frag_ok(d1 + d2, k),
        netsum(d1 + d2, (d1 + d2).len() as int) == n1 + netsum(d2, d2.len() as int),
{
    let d = d1 + d2;
    assert forall|i: int| 0 <= i <= d.len() implies k + netsum(d, i) >= 0 by {
        if i <= d1.len() {
            lemma_netsum_prefix(d1, d2, i);
        } else {
            lemma_netsum_append(d1, d2, i - d1.len());
        }
    }
    assert forall|i: int| 0 <= i < d.len() implies k + netsum(d, i) >= op_pops(d[i]) by {
        if i < d1.len() {
            lemma_netsum_prefix(d1, d2, i);
            assert(d[i] == d1[i]);
        } else {
            lemma_netsum_append(d1, d2, i - d1.len());
            assert(d[i] == d2[i - d1.len()]);
        }
    }
    lemma_netsum_append(d1, d2, d2.len() as int);
}

/// Two steps one after the other make a step.
#[verifier::rlimit(100)]
proof fn lemma_steps_trans(st0: PState, st1: PState, st2: PState, k: int, n1: int, n2: int)
    requires
        steps_ok(st0, st1, k, n1),
        steps_ok(st1, st2, k + n1, n2),
    ensures
        steps_ok(st0, st2, k, n1 + n2),
{
    let d1 = st1.ops.skip(st0.ops.len() as int);
    let d2 = st2.ops.skip(st1.ops.len() as int);
    let d = st2.ops.skip(st0.ops.len() as int);
    assert(st2.ops.take(st0.ops.len() as int) =~= st0.ops);
    assert(d =~= d1 + d2);
    assert forall|j: int|
        st0.ops.len() <= j < st2.ops.len() implies #[trigger] st2.ops[j] != SpecOp::Return by {
        if j < st1.ops.len() {
            assert(st2.ops[j] == st2.ops.take(st1.ops.len() as int)[j]);
        }
    }
    if !st2.had_error {
        assert(!st1.had_error);
        lemma_frag_concat(d1, d2, k, n1);
    }
}

/// Standing still is a step that emits nothing.
proof fn lemma_steps_refl(st: PState, k: int)
    requires
        wf_full(st),
        k >= 0,
    ensures
        steps_ok(st, st, k, 0),
{
    assert(st.ops.take(st.ops.len() as int) =~= st.ops);
    assert(st.ops.skip(st.ops.len() as int) =~= Seq::<SpecOp>::empty());
}

/// Emitting one instruction whose operands are already present is a step.
proof fn lemma_steps_emit(st: PState, op: SpecOp, k: int)
    requires
        wf_full(st),
        op != SpecOp::Return,
        k >= op_pops(op),
        k + op_net(op) >= 0,
    ensures
        steps_ok(st, emit(st, op), k, op_net(op)),
{
    let st1 = emit(st, op);
    assert(st1.ops.take(st.ops.len() as int) =~= st.ops);
    let d = st1.ops.skip(st.ops.len() as int);
    assert(d =~= seq![op]);
    assert(netsum(d, 0) == 0);
    assert(netsum(d, 1) == op_net(op));
}

/// Reporting an error is a step; with a current token in hand, an error is
/// on record afterwards, so any net value may be claimed of it.
proof fn lemma_steps_error(st: PState, msg: Seq<char>, k: int, n: int)
    requires
        wf_full(st),
        k >= 0,
        n == 0 || st.cur is Some,
    ensures
        steps_ok(st, spec_error(st, msg), k, n),
{
    let st1 = spec_error(st, msg);
    assert(st1.ops.take(st.ops.len() as int) =~= st.ops);
    if !st1.had_error {
        assert(st1 == st);
        assert(st.ops.skip(st.ops.len() as int) =~= Seq::<SpecOp>::empty());
        match st.cur {
            Option::Some(t) => {
                assert(st1.had_error);
            },
            Option::None => {},
        }
    }
}

proof fn lemma_advance_loop(st: PState)
    requires
        st.toks.len() >= 1,
        st.toks.last().kind == TokenType::Eof,
        forall|i: int| 0 <= i < st.toks.len() - 1 ==> st.toks[i].kind != TokenType::Eof,
        st.idx <= st.toks.len(),
        st.idx >= 1 ==> st.cur == Some(st.toks[st.idx - 1]),
        st.idx == 0 ==> st.cur is None,
        st.panic_mode ==> st.had_error,
    ensures
        ({
            let st1 = spec_advance_loop(st);
            &&& st1.toks == st.toks
            &&& st1.ops == st.ops
            &&& st1.prev == st.prev
            &&& st.idx <= st1.idx <= st.toks.len()
            &&& (st1.idx >= 1 ==> st1.cur == Some(st.toks[st1.idx - 1]))
            &&& (st1.idx == 0 ==> st1.cur is None)
            &&& (st.had_error ==> st1.had_error)
            &&& (st1.panic_mode ==> st1.had_error)
            &&& (st.idx < st.toks.len() ==> st.idx < st1.idx)
            &&& (forall|j: int|
                st.idx <= j < st1.idx && #[trigger] st.toks[j].kind == TokenType::Error
                    ==> st1.had_error)
        }),
    decreases st.toks.len() - st.idx,
{
    if st.idx < st.toks.len() {
        let t = st.toks[st.idx as int];
        let stm = PState { cur: Some(t), idx: st.idx + 1, ..st };
        if t.kind == TokenType::Error {
            lemma_advance_loop(spec_error(stm, "found error token"@));
        }
    }
}

/// Moving to the next token is a step that emits nothing; its previous token
/// becomes the token that was current.
proof fn lemma_advance(st: PState, k: int)
    requires
        wf_full(st),
        k >= 0,
    ensures
        steps_ok(st, spec_advance(st), k, 0),
        spec_advance(st).prev == st.cur,
        spec_advance(st).idx >= 1,
        st.idx < st.toks.len() ==> st.idx < spec_advance(st).idx,
{
    let sta = PState { prev: st.cur, ..st };
    lemma_advance_loop(sta);
    let st1 = spec_advance(st);
    assert(st1.ops.take(st.ops.len() as int) =~= st.ops);
    assert(st1.ops.skip(st.ops.len() as int) =~= Seq::<SpecOp>::empty());
    if st.idx >= 1 {
        assert(token_payload_ok(st.toks[st.idx - 1]));
    }
    if st.idx == st.toks.len() {
        assert(st1.idx == st.idx);
    }
}

/// Consuming an expected token is a step that emits nothing.
proof fn lemma_consume(st: PState, tk: TokenType, msg: Seq<char>, k: int)
    requires
        wf_full(st),
        k >= 0,
    ensures
        steps_ok(st, spec_consume(st, tk, msg), k, 0),
{
    if cur_is(st, tk) {
        lemma_advance(st, k);
    } else {
        lemma_steps_error(st, msg, k, 0);
    }
}

/// A current token whose kind is not the final one stands before the end.
proof fn lemma_cur_not_eof(st: PState)
    requires
        wf_ps(st),
        st.cur matches Some(t) && t.kind != TokenType::Eof,
    ensures
        st.idx < st.toks.len(),
{
    if st.idx == st.toks.len() {
        assert(st.cur == Some(st.toks[st.toks.len() - 1]));
    }
}

proof fn lemma_parse_precedence_balanced(st: PState, p: Precedence)
    requires
        wf_full(st),
    ensures
        steps_ok(st, spec_parse_precedence(st, p), 0, 1),
        st.idx < st.toks.len() ==> st.idx < spec_parse_precedence(st, p).idx,
    decreases pmeasure(st), 1int,
{
    let st1 = spec_advance(st);
    lemma_advance(st, 0);
    assert(st1.cur is Some);
    let can_assign = prec_val(p) <= prec_val(Precedence::Assignment);
    let st2 = if progressed(st, st1) {
        let stx = match spec_get_rule(prev_kind(st1)).prefix {
            PrefixRule::Grouping => {
                lemma_grouping_balanced(st1);
                spec_grouping(st1)
            },
            PrefixRule::Unary => {
                lemma_unary_balanced(st1);
                spec_unary(st1)
            },
            PrefixRule::Number => {
                lemma_number_step(st1);
                spec_number(st1)
            },
            PrefixRule::Literal => {
                lemma_literal_step(st1);
                spec_literal(st1)
            },
            PrefixRule::String => {
                lemma_string_step(st1);
                spec_string(st1)
            },
            PrefixRule::Variable => {
                lemma_variable_balanced(st1, can_assign);
                spec_variable(st1, can_assign)
            },
            PrefixRule::NoPrefix => {
                lemma_steps_error(st1, "Expected expression"@, 0, 1);
                spec_error(st1, "Expected expression"@)
            },
        };
        lemma_steps_trans(st, st1, stx, 0, 0, 1);
        stx
    } else {
        lemma_steps_error(st1, "Expected expression"@, 0, 1);
        lemma_steps_trans(st, st1, spec_error(st1, "Expected expression"@), 0, 0, 1);
        spec_error(st1, "Expected expression"@)
    };
    let st3 = if progressed(st, st2) {
        lemma_infix_loop_balanced(st2, p);
        lemma_steps_trans(st, st2, spec_infix_loop(st2, p), 0, 1, 0);
        spec_infix_loop(st2, p)
    } else {
        st2
    };
    if can_assign && cur_is(st3, TokenType::Equal) {
        let st4 = spec_match(st3, TokenType::Equal).0;
        lemma_advance(st3, 1);
        lemma_steps_trans(st, st3, st4, 0, 1, 0);
        lemma_steps_error(st4, "Invalid assignment target."@, 1, 0);
        lemma_steps_trans(st, st4, spec_error(st4, "Invalid assignment target."@), 0, 1, 0);
    }
}

/// The numeric-literal handler pushes exactly one value.
proof fn lemma_number_step(st: PState)
    requires
        wf_full(st),
        spec_get_rule(prev_kind(st)).prefix == PrefixRule::Number,
    ensures
        steps_ok(st, spec_number(st), 0, 1),
{
    match st.prev {
        Option::Some(t) => {
            assert(t.kind == TokenType::Number);
            match t.value {
                Option::Some(SpecTokenValue::Number(b)) => {
                    lemma_steps_emit(st, SpecOp::Constant(SpecValue::Number(b)), 0);
                },
                _ => {
                    assert(false);
                },
            }
        },
        Option::None => {
            assert(false);
        },
    }
}

/// The literal handler pushes exactly one value.
proof fn lemma_literal_step(st: PState)
    requires
        wf_full(st),
        spec_get_rule(prev_kind(st)).prefix == PrefixRule::Literal,
    ensures
        steps_ok(st, spec_literal(st), 0, 1),
{
    match prev_kind(st) {
        TokenType::False => lemma_steps_emit(st, SpecOp::False, 0),
        TokenType::True => lemma_steps_emit(st, SpecOp::True, 0),
        TokenType::Nil => lemma_steps_emit(st, SpecOp::Nil, 0),
        _ => {
            assert(false);
        },
    }
}

/// The string-literal handler pushes exactly one value.
proof fn lemma_string_step(st: PState)
    requires
        wf_full(st),
        spec_get_rule(prev_kind(st)).prefix == PrefixRule::String,
    ensures
        steps_ok(st, spec_string(st), 0, 1),
{
    match st.prev {
        Option::Some(t) => {
            assert(t.kind == TokenType::String);
            match t.value {
                Option::Some(SpecTokenValue::Str(s)) => {
                    lemma_steps_emit(st, SpecOp::Constant(SpecValue::Str(s)), 0);
                },
                _ => {
                    assert(false);
                },
            }
        },
        Option::None => {
            assert(false);
        },
    }
}

proof fn lemma_infix_loop_balanced(st: PState, p: Precedence)
    requires
        wf_full(st),
    ensures
        steps_ok(st, spec_infix_loop(st, p), 1, 0),
    decreases pmeasure(st), 0int,
{
    if prec_val(p) <= cur_prec(st) {
        let st1 = spec_advance(st);
        lemma_advance(st, 1);
        if progressed(st, st1) {
            let st2 = if spec_get_rule(prev_kind(st1)).infix == InfixRule::Binary {
                lemma_binary_balanced(st1);
                spec_binary(st1)
            } else {
                lemma_steps_refl(st1, 1);
                st1
            };
            lemma_steps_trans(st, st1, st2, 1, 0, 0);
            if progressed(st, st2) {
                lemma_infix_loop_balanced(st2, p);
                lemma_steps_trans(st, st2, spec_infix_loop(st2, p), 1, 0, 0);
            }
        }
    } else {
        lemma_steps_refl(st, 1);
    }
}

proof fn lemma_binary_balanced(st: PState)
    requires
        wf_full(st),
        spec_get_rule(prev_kind(st)).infix == InfixRule::Binary,
    ensures
        steps_ok(st, spec_binary(st), 1, 0),
    decreases pmeasure(st), 2int,
{
    let op = prev_kind(st);
    let np = spec_prec_next(spec_get_rule(op).precedence);
    let st1 = spec_parse_precedence(st, np);
    lemma_parse_precedence_balanced(st, np);
    match op {
        TokenType::Plus => {
            lemma_steps_emit(st1, SpecOp::Add, 2);
            lemma_steps_trans(st, st1, emit(st1, SpecOp::Add), 1, 1, -1);
        },
        TokenType::Minus => {
            lemma_steps_emit(st1, SpecOp::Subtract, 2);
            lemma_steps_trans(st, st1, emit(st1, SpecOp::Subtract), 1, 1, -1);
        },
        TokenType::Star => {
            lemma_steps_emit(st1, SpecOp::Multiply, 2);
            lemma_steps_trans(st, st1, emit(st1, SpecOp::Multiply), 1, 1, -1);
        },
        TokenType::Slash => {
            lemma_steps_emit(st1, SpecOp::Divide, 2);
            lemma_steps_trans(st, st1, emit(st1, SpecOp::Divide), 1, 1, -1);
        },
        TokenType::BangEqual => {
            lemma_steps_emit(st1, SpecOp::Equal, 2);
            lemma_steps_trans(st, st1, emit(st1, SpecOp::Equal), 1, 1, -1);
            lemma_steps_emit(emit(st1, SpecOp::Equal), SpecOp::Not, 1);
            lemma_steps_trans(
                st,
                emit(st1, SpecOp::Equal),
                emit(emit(st1, SpecOp::Equal), SpecOp::Not),
                1,
                0,
                0,
            );
        },
        TokenType::EqualEqual => {
            lemma_steps_emit(st1, SpecOp::Equal, 2);
            lemma_steps_trans(st, st1, emit(st1, SpecOp::Equal), 1, 1, -1);
        },
        TokenType::Greater => {
            lemma_steps_emit(st1, SpecOp::Greater, 2);
            lemma_steps_trans(st, st1, emit(st1, SpecOp::Greater), 1, 1, -1);
        },
        TokenType::GreaterEqual => {
            lemma_steps_emit(st1, SpecOp::Less, 2);
            lemma_steps_trans(st, st1, emit(st1, SpecOp::Less), 1, 1, -1);
            lemma_steps_emit(emit(st1, SpecOp::Less), SpecOp::Not, 1);
            lemma_steps_trans(
                st,
                emit(st1, SpecOp::Less),
                emit(emit(st1, SpecOp::Less), SpecOp::Not),
                1,
                0,
                0,
            );
        },
        TokenType::Less => {
            lemma_steps_emit(st1, SpecOp::Less, 2);
            lemma_steps_trans(st, st1, emit(st1, SpecOp::Less), 1, 1, -1);
        },
        TokenType::LessEqual => {
            lemma_steps_emit(st1, SpecOp::Greater, 2);
            lemma_steps_trans(st, st1, emit(st1, SpecOp::Greater), 1, 1, -1);
            lemma_steps_emit(emit(st1, SpecOp::Greater), SpecOp::Not, 1);
            lemma_steps_trans(
                st,
                emit(st1, SpecOp::Greater),
                emit(emit(st1, SpecOp::Greater), SpecOp::Not),
                1,
                0,
                0,
            );
        },
        _ => {
            assert(false);
        },
    }
}

proof fn lemma_unary_balanced(st: PState)
    requires
        wf_full(st),
    ensures
        steps_ok(st, spec_unary(st), 0, 1),
    decreases pmeasure(st), 2int,
{
    let op = prev_kind(st);
    let st1 = spec_parse_precedence(st, Precedence::Unary);
    lemma_parse_precedence_balanced(st, Precedence::Unary);
    match op {
        TokenType::Minus => {
            lemma_steps_emit(st1, SpecOp::Negate, 1);
            lemma_steps_trans(st, st1, emit(st1, SpecOp::Negate), 0, 1, 0);
        },
        TokenType::Bang => {
            lemma_steps_emit(st1, SpecOp::Not, 1);
            lemma_steps_trans(st, st1, emit(st1, SpecOp::Not), 0, 1, 0);
        },
        _ => {},
    }
}

proof fn lemma_grouping_balanced(st: PState)
    requires
        wf_full(st),
    ensures
        steps_ok(st, spec_grouping(st), 0, 1),
    decreases pmeasure(st), 3int,
{
    lemma_expression_balanced(st);
    let st1 = spec_expression(st);
    lemma_consume(st1, TokenType::RightParen, "Expect ')' after expression."@, 1);
    lemma_steps_trans(
        st,
        st1,
        spec_consume(st1, TokenType::RightParen, "Expect ')' after expression."@),
        0,
        1,
        0,
    );
}

proof fn lemma_expression_balanced(st: PState)
    requires
        wf_full(st),
    ensures
        steps_ok(st, spec_expression(st), 0, 1),
        st.idx < st.toks.len() ==> st.idx < spec_expression(st).idx,
    decreases pmeasure(st), 2int,
{
    lemma_parse_precedence_balanced(st, Precedence::Assignment);
}

proof fn lemma_variable_balanced(st: PState, can_assign: bool)
    requires
        wf_full(st),
    ensures
        steps_ok(st, spec_variable(st, can_assign), 0, 1),
    decreases pmeasure(st), 2int,
{
    let name = prev_name(st);
    if can_assign && cur_is(st, TokenType::Equal) {
        let st1 = spec_advance(st);
        lemma_advance(st, 0);
        let st2 = if progressed(st, st1) {
            lemma_expression_balanced(st1);
            lemma_steps_trans(st, st1, spec_expression(st1), 0, 0, 1);
            spec_expression(st1)
        } else {
            st1
        };
        if progressed(st, st1) {
            lemma_steps_emit(st2, SpecOp::SetGlobal(name), 1);
            lemma_steps_trans(st, st2, emit(st2, SpecOp::SetGlobal(name)), 0, 1, 0);
        } else {
            lemma_cur_not_eof(st);
            assert(false);
        }
    } else {
        lemma_steps_emit(st, SpecOp::GetGlobal(name), 0);
    }
}

proof fn lemma_print_statement_balanced(st: PState)
    requires
        wf_full(st),
    ensures
        steps_ok(st, spec_print_statement(st), 0, 0),
    decreases pmeasure(st), 3int,
{
    lemma_expression_balanced(st);
    let st1 = spec_expression(st);
    lemma_consume(st1, TokenType::Semicolon, "Expect ';' after value."@, 1);
    let st2 = spec_consume(st1, TokenType::Semicolon, "Expect ';' after value."@);
    lemma_steps_trans(st, st1, st2, 0, 1, 0);
    lemma_steps_emit(st2, SpecOp::Print, 1);
    lemma_steps_trans(st, st2, emit(st2, SpecOp::Print), 0, 1, -1);
}

proof fn lemma_expression_statement_balanced(st: PState)
    requires
        wf_full(st),
    ensures
        steps_ok(st, spec_expression_statement(st), 0, 0),
        st.idx < st.toks.len() ==> st.idx < spec_expression_statement(st).idx,
    decreases pmeasure(st), 3int,
{
    lemma_expression_balanced(st);
    let st1 = spec_expression(st);
    lemma_consume(st1, TokenType::Semicolon, "Expect ';' after expression."@, 1);
    let st2 = spec_consume(st1, TokenType::Semicolon, "Expect ';' after expression."@);
    lemma_steps_trans(st, st1, st2, 0, 1, 0);
    lemma_steps_emit(st2, SpecOp::Pop, 1);
    lemma_steps_trans(st, st2, emit(st2, SpecOp::Pop), 0, 1, -1);
}

proof fn lemma_statement_balanced(st: PState)
    requires
        wf_full(st),
    ensures
        steps_ok(st, spec_statement(st), 0, 0),
        st.idx < st.toks.len() ==> st.idx < spec_statement(st).idx,
    decreases pmeasure(st), 4int,
{
    if cur_is(st, TokenType::Print) {
        let st1 = spec_advance(st);
        lemma_advance(st, 0);
        lemma_cur_not_eof(st);
        if progressed(st, st1) {
            lemma_print_statement_balanced(st1);
            lemma_steps_trans(st, st1, spec_print_statement(st1), 0, 0, 0);
        }
    } else {
        lemma_expression_statement_balanced(st);
    }
}

proof fn lemma_var_declaration_balanced(st: PState)
    requires
        wf_full(st),
    ensures
        steps_ok(st, spec_var_declaration(st), 0, 0),
    decreases pmeasure(st), 3int,
{
    lemma_consume(st, TokenType::Identifier, "Expect variable name."@, 0);
    let st1 = spec_consume(st, TokenType::Identifier, "Expect variable name."@);
    let name = prev_name(st1);
    let (st2, has_init) = spec_match(st1, TokenType::Equal);
    let st3 = if has_init {
        lemma_advance(st1, 0);
        lemma_cur_not_eof(st1);
        lemma_steps_trans(st, st1, st2, 0, 0, 0);
        assert(progressed(st, st2));
        lemma_expression_balanced(st2);
        lemma_steps_trans(st, st2, spec_expression(st2), 0, 0, 1);
        spec_expression(st2)
    } else {
        lemma_steps_emit(st2, SpecOp::Nil, 0);
        lemma_steps_trans(st, st2, emit(st2, SpecOp::Nil), 0, 0, 1);
        emit(st2, SpecOp::Nil)
    };
    lemma_consume(st3, TokenType::Semicolon, "Expect ';' after variable declaration."@, 1);
    let st4 = spec_consume(st3, TokenType::Semicolon, "Expect ';' after variable declaration."@);
    lemma_steps_trans(st, st3, st4, 0, 1, 0);
    lemma_steps_emit(st4, SpecOp::DefineGlobal(name), 1);
    lemma_steps_trans(st, st4, emit(st4, SpecOp::DefineGlobal(name)), 0, 1, -1);
}

proof fn lemma_sync_loop_balanced(st: PState)
    requires
        wf_full(st),
    ensures
        steps_ok(st, spec_sync_loop(st), 0, 0),
    decreases pmeasure(st), 0int,
{
    if cur_is(st, TokenType::Eof) || prev_kind(st) == TokenType::Semicolon || cur_is(
        st,
        TokenType::Class,
    ) || cur_is(st, TokenType::Fun) || cur_is(st, TokenType::Var) || cur_is(st, TokenType::For)
        || cur_is(st, TokenType::If) || cur_is(st, TokenType::While) || cur_is(
        st,
        TokenType::Print,
    ) || cur_is(st, TokenType::Return) {
        lemma_steps_refl(st, 0);
    } else {
        let st1 = spec_advance(st);
        lemma_advance(st, 0);
        if progressed(st, st1) {
            lemma_sync_loop_balanced(st1);
            lemma_steps_trans(st, st1, spec_sync_loop(st1), 0, 0, 0);
        }
    }
}

proof fn lemma_synchronize_balanced(st: PState)
    requires
        wf_full(st),
    ensures
        steps_ok(st, spec_synchronize(st), 0, 0),
    decreases pmeasure(st), 1int,
{
    let sta = PState { panic_mode: false, ..st };
    lemma_sync_loop_balanced(sta);
    let st1 = spec_sync_loop(sta);
    assert(st1.ops.take(st.ops.len() as int) == st.ops);
}

proof fn lemma_declaration_balanced(st: PState)
    requires
        wf_full(st),
    ensures
        steps_ok(st, spec_declaration(st), 0, 0),
        st.idx < st.toks.len() ==> st.idx < spec_declaration(st).idx,
    decreases pmeasure(st), 5int,
{
    let st1 = if cur_is(st, TokenType::Var) {
        let stv = spec_advance(st);
        lemma_advance(st, 0);
        lemma_cur_not_eof(st);
        if progressed(st, stv) {
            lemma_var_declaration_balanced(stv);
            lemma_steps_trans(st, stv, spec_var_declaration(stv), 0, 0, 0);
            spec_var_declaration(stv)
        } else {
            stv
        }
    } else {
        lemma_statement_balanced(st);
        spec_statement(st)
    };
    if st1.panic_mode {
        if progressed(st, st1) {
            lemma_synchronize_balanced(st1);
            lemma_steps_trans(st, st1, spec_synchronize(st1), 0, 0, 0);
        }
    }
}

proof fn lemma_program_balanced(st: PState)
    requires
        wf_full(st),
    ensures
        steps_ok(st, spec_program(st), 0, 0),
        spec_program(st).idx == st.toks.len(),
    decreases pmeasure(st), 6int,
{
    if cur_is(st, TokenType::Eof) {
        lemma_advance(st, 0);
        if st.idx < st.toks.len() {
            assert(st.cur == Some(st.toks[st.idx - 1]));
            assert(st.toks[st.idx - 1].kind != TokenType::Eof);
        }
    } else {
        if st.idx == st.toks.len() {
            assert(st.cur == Some(st.toks[st.idx - 1]));
        }
        assert(st.idx < st.toks.len());
        lemma_declaration_balanced(st);
        let st1 = spec_declaration(st);
        assert(progressed(st, st1));
        lemma_program_balanced(st1);
        lemma_steps_trans(st, st1, spec_program(st1), 0, 0, 0);
    }
}

/// Tokens out of the scanner carry their payloads.
proof fn lemma_scan_seq_payload(src: Seq<char>, pos: nat, line: nat)
    ensures
        forall|i: int|
            0 <= i < spec_scan_seq(src, pos, line).len() ==> token_payload_ok(
                #[trigger] spec_scan_seq(src, pos, line)[i],
            ),
    decreases src.len() - pos,
{
    let step = spec_scan_at(src, pos, line);
    assert(token_payload_ok(step.tok));
    let s = spec_scan_seq(src, pos, line);
    if step.tok.kind != TokenType::Eof {
        lemma_scan_at(src, pos, line);
        lemma_scan_seq_payload(src, step.pos, step.line);
        let rest = spec_scan_seq(src, step.pos, step.line);
        assert forall|i: int| 0 <= i < s.len() implies token_payload_ok(s[i]) by {
            if i == 0 {
                assert(s[i] == step.tok);
            } else {
                assert(s[i] == rest[i - 1]);
            }
        }
    } else {
        assert forall|i: int| 0 <= i < s.len() implies token_payload_ok(s[i]) by {
            assert(s[i] == step.tok);
        }
    }
}

/// The instruction sequence of a compilation that records no error keeps the
/// machine's operand stack in bounds; its statements are balanced, and its
/// only `Return` stands at the end.
pub proof fn lemma_compile_stack_ok(src: Seq<char>)
    requires
        !spec_compile(src).had_error,
    ensures
        stack_ok(spec_compile(src).ops),
        ({
            let ops = spec_compile(src).ops;
            &&& ops.len() >= 1
            &&& netsum(ops, ops.len() as int) == 0
            &&& ops.last() == SpecOp::Return
            &&& (forall|j: int| 0 <= j < ops.len() - 1 ==> #[trigger] ops[j] != SpecOp::Return)
        }),
{
    let toks = spec_tokens(src);
    lemma_scan_seq_form(src, 0, 1);
    lemma_scan_seq_payload(src, 0, 1);
    let st0 = PState {
        toks,
        idx: 0,
        prev: Option::None,
        cur: Option::None,
        had_error: false,
        panic_mode: false,
        ops: Seq::empty(),
        diags: Seq::empty(),
    };
    assert(wf_full(st0));
    lemma_advance(st0, 0);
    let st1 = spec_advance(st0);
    lemma_program_balanced(st1);
    let st2 = spec_program(st1);
    lemma_steps_trans(st0, st1, st2, 0, 0, 0);
    let fin = emit(st2, SpecOp::Return);
    assert(fin == spec_compile(src));
    let d = st2.ops;
    assert(st2.ops.skip(0) =~= st2.ops);
    assert(frag_ok(d, 0) && netsum(d, d.len() as int) == 0);
    assert(fin.ops =~= d + seq![SpecOp::Return]);
    assert forall|i: int| 0 <= i < fin.ops.len() implies netsum(fin.ops, i) >= op_pops(
        #[trigger] fin.ops[i],
    ) by {
        if i < d.len() {
            lemma_netsum_prefix(d, seq![SpecOp::Return], i);
            assert(fin.ops[i] == d[i]);
        } else {
            lemma_netsum_prefix(d, seq![SpecOp::Return], i);
            assert(fin.ops[i] == SpecOp::Return);
        }
    }
    lemma_netsum_append(d, seq![SpecOp::Return], 1);
    assert(netsum(seq![SpecOp::Return], 1) == netsum(seq![SpecOp::Return], 0) + op_net(
        seq![SpecOp::Return][0],
    ));
    assert(netsum(fin.ops, fin.ops.len() as int) == 0);
    assert(fin.ops.last() == SpecOp::Return);
    assert forall|j: int| 0 <= j < fin.ops.len() - 1 implies #[trigger] fin.ops[j]
        != SpecOp::Return by {
        assert(fin.ops[j] == d[j]);
        assert(d[j] == st2.ops.skip(0)[j]);
    }
}

/// Running the machine to a normal end never changes the difference between
/// the stack height and the code's net effect so far, and a normal end
/// stands either past the last instruction or on a `Return`.
#[verifier::rlimit(100)]
pub proof fn lemma_run_height(st: VmState)
    requires
        st.index <= st.chunks.len(),
    ensures
        ({
            let (fin, res) = crate::vm::spec_run(st);
            res is None ==> {
                &&& fin.chunks == st.chunks
                &&& st.index <= fin.index <= st.chunks.len()
                &&& fin.stack.len() - netsum(st.chunks, fin.index as int) == st.stack.len()
                    - netsum(st.chunks, st.index as int)
                &&& (fin.index < st.chunks.len() ==> st.chunks[fin.index as int]
                    == SpecOp::Return)
            }
        }),
    decreases st.chunks.len() - st.index,
{
    if st.index < st.chunks.len() {
        let op = st.chunks[st.index as int];
        match crate::vm::spec_step(st, op) {
            crate::vm::SpecExec::Next(st1) => {
                assert(st1.chunks == st.chunks);
                let stn = VmState { index: st.index + 1, ..st1 };
                lemma_run_height(stn);
                assert(crate::vm::spec_run(st) == crate::vm::spec_run(stn));
                assert(st1.stack.len() - st.stack.len() == op_net(op));
                assert(netsum(st.chunks, st.index + 1 as int) == netsum(st.chunks, st.index as int)
                    + op_net(op));
            },
            crate::vm::SpecExec::Halt(st1) => {
                assert(op == SpecOp::Return);
                assert(st1 == st);
            },
            crate::vm::SpecExec::Fail(st1, m) => {},
        }
    }
}

/// A lexical failure is a compile-time failure: when any token of the text
/// is an error token, compilation records an error.
pub proof fn lemma_error_token_fails_compile(src: Seq<char>, j: int)
    requires
        0 <= j < spec_tokens(src).len(),
        spec_tokens(src)[j].kind == TokenType::Error,
    ensures
        spec_compile(src).had_error,
{
    let toks = spec_tokens(src);
    lemma_scan_seq_form(src, 0, 1);
    lemma_scan_seq_payload(src, 0, 1);
    let st0 = PState {
        toks,
        idx: 0,
        prev: Option::None,
        cur: Option::None,
        had_error: false,
        panic_mode: false,
        ops: Seq::empty(),
        diags: Seq::empty(),
    };
    assert(wf_full(st0));
    lemma_advance(st0, 0);
    let st1 = spec_advance(st0);
    lemma_program_balanced(st1);
    let st2 = spec_program(st1);
    lemma_steps_trans(st0, st1, st2, 0, 0, 0);
    assert(st2.idx == toks.len());
    assert(st2.had_error);
}

} // verus!
