use vstd::prelude::*;

use crate::opcode::{OpCode, SpecOp};
use crate::scanner::{Scanner, SpecToken, SpecTokenValue, Token, TokenType, TokenValue,
    lemma_scan_seq_form, spec_tokens};
use crate::text::{dec_str, fmt_u128};
use crate::value::{SpecValue, Value, Obj};
use crate::vm::VMError;

verus! {

/// Binding strength of an operator, used only as a climbing threshold.
#[derive(Debug, Clone, Copy, PartialEq, Eq, Structural)]
pub enum Precedence {
    Lowest,
    Assignment,
    Or,
    And,
    Equality,
    Comparison,
    Term,
    Factor,
    Unary,
    Call,
    Primary,
    Top,
}

pub open spec fn prec_val(p: Precedence) -> int {
    match p {
        Precedence::Lowest => 0,
        Precedence::Assignment => 1,
        Precedence::Or => 2,
        Precedence::And => 3,
        Precedence::Equality => 4,
        Precedence::Comparison => 5,
        Precedence::Term => 6,
        Precedence::Factor => 7,
        Precedence::Unary => 8,
        Precedence::Call => 9,
        Precedence::Primary => 10,
        Precedence::Top => 11,
    }
}

/// The next tighter binding strength; past the top it wraps to `None`.
pub open spec fn spec_prec_next(p: Precedence) -> Precedence {
    match p {
        Precedence::Lowest => Precedence::Assignment,
        Precedence::Assignment => Precedence::Or,
        Precedence::Or => Precedence::And,
        Precedence::And => Precedence::Equality,
        Precedence::Equality => Precedence::Comparison,
        Precedence::Comparison => Precedence::Term,
        Precedence::Term => Precedence::Factor,
        Precedence::Factor => Precedence::Unary,
        Precedence::Unary => Precedence::Call,
        Precedence::Call => Precedence::Primary,
        Precedence::Primary => Precedence::Top,
        Precedence::Top => Precedence::Lowest,
    }
}

pub fn precedence_value(p: Precedence) -> (r: u8)
    ensures
        r as int == prec_val(p),
{
    match p {
        Precedence::Lowest => 0,
        Precedence::Assignment => 1,
        Precedence::Or => 2,
        Precedence::And => 3,
        Precedence::Equality => 4,
        Precedence::Comparison => 5,
        Precedence::Term => 6,
        Precedence::Factor => 7,
        Precedence::Unary => 8,
        Precedence::Call => 9,
        Precedence::Primary => 10,
        Precedence::Top => 11,
    }
}

pub fn next_precedence(p: Precedence) -> (r: Precedence)
    ensures
        r == spec_prec_next(p),
{
    match p {
        Precedence::Lowest => Precedence::Assignment,
        Precedence::Assignment => Precedence::Or,
        Precedence::Or => Precedence::And,
        Precedence::And => Precedence::Equality,
        Precedence::Equality => Precedence::Comparison,
        Precedence::Comparison => Precedence::Term,
        Precedence::Term => Precedence::Factor,
        Precedence::Factor => Precedence::Unary,
        Precedence::Unary => Precedence::Call,
        Precedence::Call => Precedence::Primary,
        Precedence::Primary => Precedence::Top,
        Precedence::Top => Precedence::Lowest,
    }
}

/// The prefix handler a token kind selects.
#[derive(Debug, Clone, Copy, PartialEq, Eq, Structural)]
pub enum PrefixRule {
    NoPrefix,
    Grouping,
    Unary,
    Number,
    Literal,
    String,
    Variable,
}

/// The infix handler a token kind selects.
#[derive(Debug, Clone, Copy, PartialEq, Eq, Structural)]
pub enum InfixRule {
    NoInfix,
    Binary,
}

/// The parse rule of a token kind: its handlers and binding strength.
#[derive(Debug, Clone, Copy, PartialEq, Eq, Structural)]
pub struct ParseRule {
    pub prefix: PrefixRule,
    pub infix: InfixRule,
    pub precedence: Precedence,
}

/// The pure, static rule lookup, written as an exhaustive match.
pub open spec fn spec_get_rule(k: TokenType) -> ParseRule {
    match k {
        TokenType::LeftParen => ParseRule {
            prefix: PrefixRule::Grouping,
            infix: InfixRule::NoInfix,
            precedence: Precedence::Lowest,
        },
        TokenType::Minus => ParseRule {
            prefix: PrefixRule::Unary,
            infix: InfixRule::Binary,
            precedence: Precedence::Term,
        },
        TokenType::Plus => ParseRule {
            prefix: PrefixRule::NoPrefix,
            infix: InfixRule::Binary,
            precedence: Precedence::Term,
        },
        TokenType::Slash => ParseRule {
            prefix: PrefixRule::NoPrefix,
            infix: InfixRule::Binary,
            precedence: Precedence::Factor,
        },
        TokenType::Star => ParseRule {
            prefix: PrefixRule::NoPrefix,
            infix: InfixRule::Binary,
            precedence: Precedence::Factor,
        },
        TokenType::Number => ParseRule {
            prefix: PrefixRule::Number,
            infix: InfixRule::NoInfix,
            precedence: Precedence::Lowest,
        },
        TokenType::False => ParseRule {
            prefix: PrefixRule::Literal,
            infix: InfixRule::NoInfix,
            precedence: Precedence::Lowest,
        },
        TokenType::True => ParseRule {
            prefix: PrefixRule::Literal,
            infix: InfixRule::NoInfix,
            precedence: Precedence::Lowest,
        },
        TokenType::Nil => ParseRule {
            prefix: PrefixRule::Literal,
            infix: InfixRule::NoInfix,
            precedence: Precedence::Lowest,
        },
        TokenType::Bang => ParseRule {
            prefix: PrefixRule::Unary,
            infix: InfixRule::NoInfix,
            precedence: Precedence::Lowest,
        },
        TokenType::BangEqual => ParseRule {
            prefix: PrefixRule::NoPrefix,
            infix: InfixRule::Binary,
            precedence: Precedence::Equality,
        },
        TokenType::EqualEqual => ParseRule {
            prefix: PrefixRule::NoPrefix,
            infix: InfixRule::Binary,
            precedence: Precedence::Equality,
        },
        TokenType::Greater => ParseRule {
            prefix: PrefixRule::NoPrefix,
            infix: InfixRule::Binary,
            precedence: Precedence::Comparison,
        },
        TokenType::GreaterEqual => ParseRule {
            prefix: PrefixRule::NoPrefix,
            infix: InfixRule::Binary,
            precedence: Precedence::Comparison,
        },
        TokenType::Less => ParseRule {
            prefix: PrefixRule::NoPrefix,
            infix: InfixRule::Binary,
            precedence: Precedence::Comparison,
        },
        TokenType::LessEqual => ParseRule {
            prefix: PrefixRule::NoPrefix,
            infix: InfixRule::Binary,
            precedence: Precedence::Comparison,
        },
        TokenType::String => ParseRule {
            prefix: PrefixRule::String,
            infix: InfixRule::NoInfix,
            precedence: Precedence::Lowest,
        },
        TokenType::Identifier => ParseRule {
            prefix: PrefixRule::Variable,
            infix: InfixRule::NoInfix,
            precedence: Precedence::Lowest,
        },
        _ => ParseRule {
            prefix: PrefixRule::NoPrefix,
            infix: InfixRule::NoInfix,
            precedence: Precedence::Lowest,
        },
    }
}

/// Looks up the parse rule of a token kind.
pub fn get_rule(token_type: &TokenType) -> (r: ParseRule)
    ensures
        r == spec_get_rule(*token_type),
{
    match token_type {
        TokenType::LeftParen => ParseRule {
            prefix: PrefixRule::Grouping,
            infix: InfixRule::NoInfix,
            precedence: Precedence::Lowest,
        },
        TokenType::Minus => ParseRule {
            prefix: PrefixRule::Unary,
            infix: InfixRule::Binary,
            precedence: Precedence::Term,
        },
        TokenType::Plus => ParseRule {
            prefix: PrefixRule::NoPrefix,
            infix: InfixRule::Binary,
            precedence: Precedence::Term,
        },
        TokenType::Slash => ParseRule {
            prefix: PrefixRule::NoPrefix,
            infix: InfixRule::Binary,
            precedence: Precedence::Factor,
        },
        TokenType::Star => ParseRule {
            prefix: PrefixRule::NoPrefix,
            infix: InfixRule::Binary,
            precedence: Precedence::Factor,
        },
        TokenType::Number => ParseRule {
            prefix: PrefixRule::Number,
            infix: InfixRule::NoInfix,
            precedence: Precedence::Lowest,
        },
        TokenType::False => ParseRule {
            prefix: PrefixRule::Literal,
            infix: InfixRule::NoInfix,
            precedence: Precedence::Lowest,
        },
        TokenType::True => ParseRule {
            prefix: PrefixRule::Literal,
            infix: InfixRule::NoInfix,
            precedence: Precedence::Lowest,
        },
        TokenType::Nil => ParseRule {
            prefix: PrefixRule::Literal,
            infix: InfixRule::NoInfix,
            precedence: Precedence::Lowest,
        },
        TokenType::Bang => ParseRule {
            prefix: PrefixRule::Unary,
            infix: InfixRule::NoInfix,
            precedence: Precedence::Lowest,
        },
        TokenType::BangEqual => ParseRule {
            prefix: PrefixRule::NoPrefix,
            infix: InfixRule::Binary,
            precedence: Precedence::Equality,
        },
        TokenType::EqualEqual => ParseRule {
            prefix: PrefixRule::NoPrefix,
            infix: InfixRule::Binary,
            precedence: Precedence::Equality,
        },
        TokenType::Greater => ParseRule {
            prefix: PrefixRule::NoPrefix,
            infix: InfixRule::Binary,
            precedence: Precedence::Comparison,
        },
        TokenType::GreaterEqual => ParseRule {
            prefix: PrefixRule::NoPrefix,
            infix: InfixRule::Binary,
            precedence: Precedence::Comparison,
        },
        TokenType::Less => ParseRule {
            prefix: PrefixRule::NoPrefix,
            infix: InfixRule::Binary,
            precedence: Precedence::Comparison,
        },
        TokenType::LessEqual => ParseRule {
            prefix: PrefixRule::NoPrefix,
            infix: InfixRule::Binary,
            precedence: Precedence::Comparison,
        },
        TokenType::String => ParseRule {
            prefix: PrefixRule::String,
            infix: InfixRule::NoInfix,
            precedence: Precedence::Lowest,
        },
        TokenType::Identifier => ParseRule {
            prefix: PrefixRule::Variable,
            infix: InfixRule::NoInfix,
            precedence: Precedence::Lowest,
        },
        _ => ParseRule {
            prefix: PrefixRule::NoPrefix,
            infix: InfixRule::NoInfix,
            precedence: Precedence::Lowest,
        },
    }
}

/// Mathematical image of the whole parser state.
#[verifier::ext_equal]
pub struct PState {
    pub toks: Seq<SpecToken>,
    pub idx: nat,
    pub prev: Option<SpecToken>,
    pub cur: Option<SpecToken>,
    pub had_error: bool,
    pub panic_mode: bool,
    pub ops: Seq<SpecOp>,
    pub diags: Seq<Seq<char>>,
}

/// The token sequence is well formed and the cursor agrees with it: tokens
/// end with their only end-of-input token, and the current token is the one
/// the cursor has just passed.
pub open spec fn wf_ps(st: PState) -> bool {
    &&& st.toks.len() >= 1
    &&& st.toks.last().kind == TokenType::Eof
    &&& (forall|i: int| 0 <= i < st.toks.len() - 1 ==> st.toks[i].kind != TokenType::Eof)
    &&& st.idx <= st.toks.len()
    &&& (st.idx == 0 ==> st.cur is None)
    &&& (st.idx >= 1 ==> st.cur == Some(st.toks[st.idx - 1]))
}

/// Tokens remaining before the cursor reaches the end.
pub open spec fn pmeasure(st: PState) -> nat {
    if st.idx <= st.toks.len() {
        (st.toks.len() - st.idx) as nat
    } else {
        0
    }
}

/// The second state reads the same tokens and has moved at least one ahead,
/// without running out.
pub open spec fn progressed(a: PState, b: PState) -> bool {
    &&& a.toks == b.toks
    &&& a.idx < b.idx
    &&& b.idx <= b.toks.len()
}

/// One diagnostic line: the line number, where the token stands, and the
/// message.
pub open spec fn spec_diag(t: SpecToken, msg: Seq<char>) -> Seq<char> {
    "[line "@ + dec_str(t.line) + "] Error"@ + (if t.kind == TokenType::Eof {
        " at end"@
    } else if t.kind == TokenType::Error {
        Seq::<char>::empty()
    } else {
        " at "@ + dec_str(t.start) + " to "@ + dec_str(t.start + t.length)
    }) + ": "@ + msg
}

/// Reports a diagnostic at a token, unless panic mode already suppresses it.
pub open spec fn spec_error_at(st: PState, t: SpecToken, msg: Seq<char>) -> PState {
    if st.panic_mode {
        st
    } else {
        PState {
            panic_mode: true,
            had_error: true,
            diags: st.diags.push(spec_diag(t, msg)),
            ..st
        }
    }
}

/// Reports a diagnostic at the current token, if there is one.
pub open spec fn spec_error(st: PState, msg: Seq<char>) -> PState {
    match st.cur {
        Option::Some(t) => spec_error_at(st, t, msg),
        Option::None => st,
    }
}

pub open spec fn spec_advance_loop(st: PState) -> PState
    decreases st.toks.len() - st.idx,
{
    if st.idx < st.toks.len() {
        let t = st.toks[st.idx as int];
        let st1 = PState { cur: Some(t), idx: st.idx + 1, ..st };
        if t.kind == TokenType::Error {
            spec_advance_loop(spec_error(st1, "found error token"@))
        } else {
            st1
        }
    } else {
        st
    }
}

/// Moves to the next token: the current one becomes the previous one, and
/// error tokens are reported and passed over.
pub open spec fn spec_advance(st: PState) -> PState {
    spec_advance_loop(PState { prev: st.cur, ..st })
}

pub open spec fn cur_is(st: PState, k: TokenType) -> bool {
    match st.cur {
        Option::Some(t) => t.kind == k,
        Option::None => false,
    }
}

pub open spec fn prev_kind(st: PState) -> TokenType {
    match st.prev {
        Option::Some(t) => t.kind,
        Option::None => TokenType::Eof,
    }
}

/// Binding strength of the current token's rule; nothing binds at the end.
pub open spec fn cur_prec(st: PState) -> int {
    match st.cur {
        Option::Some(t) => prec_val(spec_get_rule(t.kind).precedence),
        Option::None => 0,
    }
}

/// The name carried by the previous token, if it is an identifier.
pub open spec fn prev_name(st: PState) -> Seq<char> {
    match st.prev {
        Option::Some(t) => match t.value {
            Option::Some(SpecTokenValue::Identifier(s)) => s,
            _ => Seq::empty(),
        },
        Option::None => Seq::empty(),
    }
}

/// Consumes the current token when it has the expected kind, else reports.
pub open spec fn spec_consume(st: PState, k: TokenType, msg: Seq<char>) -> PState {
    if cur_is(st, k) {
        spec_advance(st)
    } else {
        spec_error(st, msg)
    }
}

/// Consumes the current token when it has the given kind.
pub open spec fn spec_match(st: PState, k: TokenType) -> (PState, bool) {
    if cur_is(st, k) {
        (spec_advance(st), true)
    } else {
        (st, false)
    }
}

pub open spec fn emit(st: PState, op: SpecOp) -> PState {
    PState { ops: st.ops.push(op), ..st }
}

/// A numeric literal becomes a constant instruction.
pub open spec fn spec_number(st: PState) -> PState {
    match st.prev {
        Option::Some(t) => match t.value {
            Option::Some(SpecTokenValue::Number(b)) => emit(
                st,
                SpecOp::Constant(SpecValue::Number(b)),
            ),
            _ => st,
        },
        Option::None => st,
    }
}

/// A string literal becomes a constant instruction.
pub open spec fn spec_string(st: PState) -> PState {
    match st.prev {
        Option::Some(t) => if t.kind == TokenType::String {
            match t.value {
                Option::Some(SpecTokenValue::Str(s)) => emit(st, SpecOp::Constant(SpecValue::Str(s))),
                _ => st,
            }
        } else {
            st
        },
        Option::None => st,
    }
}

/// `true`, `false` and `nil` become their instructions.
pub open spec fn spec_literal(st: PState) -> PState {
    match prev_kind(st) {
        TokenType::False => emit(st, SpecOp::False),
        TokenType::True => emit(st, SpecOp::True),
        TokenType::Nil => emit(st, SpecOp::Nil),
        _ => st,
    }
}

/// Climbs while the upcoming operator binds at least as tightly as the
/// threshold, emitting its code after both operands.
pub open spec fn spec_infix_loop(st: PState, p: Precedence) -> PState
    decreases pmeasure(st), 0int,
{
    if prec_val(p) <= cur_prec(st) {
        let st1 = spec_advance(st);
        if progressed(st, st1) {
            let st2 = if spec_get_rule(prev_kind(st1)).infix == InfixRule::Binary {
                spec_binary(st1)
            } else {
                st1
            };
            if progressed(st, st2) {
                spec_infix_loop(st2, p)
            } else {
                st2
            }
        } else {
            st1
        }
    } else {
        st
    }
}

/// Parses one expression at the given threshold: a prefix handler for the
/// first token, then infix operators while they bind tightly enough; a `=`
/// that survives to here is an invalid assignment target.
pub open spec fn spec_parse_precedence(st: PState, p: Precedence) -> PState
    decreases pmeasure(st), 1int,
{
    let st1 = spec_advance(st);
    let can_assign = prec_val(p) <= prec_val(Precedence::Assignment);
    let st2 = if progressed(st, st1) {
        match spec_get_rule(prev_kind(st1)).prefix {
            PrefixRule::Grouping => spec_grouping(st1),
            PrefixRule::Unary => spec_unary(st1),
            PrefixRule::Number => spec_number(st1),
            PrefixRule::Literal => spec_literal(st1),
            PrefixRule::String => spec_string(st1),
            PrefixRule::Variable => spec_variable(st1, can_assign),
            PrefixRule::NoPrefix => spec_error(st1, "Expected expression"@),
        }
    } else {
        spec_error(st1, "Expected expression"@)
    };
    let st3 = if progressed(st, st2) {
        spec_infix_loop(st2, p)
    } else {
        st2
    };
    if can_assign && cur_is(st3, TokenType::Equal) {
        spec_error(spec_match(st3, TokenType::Equal).0, "Invalid assignment target."@)
    } else {
        st3
    }
}

pub open spec fn spec_expression(st: PState) -> PState
    decreases pmeasure(st), 2int,
{
    spec_parse_precedence(st, Precedence::Assignment)
}

/// A parenthesized group: a full expression, then the closing parenthesis.
pub open spec fn spec_grouping(st: PState) -> PState
    decreases pmeasure(st), 3int,
{
    spec_consume(spec_expression(st), TokenType::RightParen, "Expect ')' after expression."@)
}

/// A unary operator: its operand at unary strength, then its instruction.
pub open spec fn spec_unary(st: PState) -> PState
    decreases pmeasure(st), 2int,
{
    let op = prev_kind(st);
    let st1 = spec_parse_precedence(st, Precedence::Unary);
    match op {
        TokenType::Minus => emit(st1, SpecOp::Negate),
        TokenType::Bang => emit(st1, SpecOp::Not),
        _ => st1,
    }
}

/// A binary operator: the right operand one step tighter, for left
/// associativity, then the operator's code; `!=`, `>=` and `<=` compile to a
/// comparison followed by `Not`.
pub open spec fn spec_binary(st: PState) -> PState
    decreases pmeasure(st), 2int,
{
    let op = prev_kind(st);
    let st1 = spec_parse_precedence(st, spec_prec_next(spec_get_rule(op).precedence));
    match op {
        TokenType::Plus => emit(st1, SpecOp::Add),
        TokenType::Minus => emit(st1, SpecOp::Subtract),
        TokenType::Star => emit(st1, SpecOp::Multiply),
        TokenType::Slash => emit(st1, SpecOp::Divide),
        TokenType::BangEqual => emit(emit(st1, SpecOp::Equal), SpecOp::Not),
        TokenType::EqualEqual => emit(st1, SpecOp::Equal),
        TokenType::Greater => emit(st1, SpecOp::Greater),
        TokenType::GreaterEqual => emit(emit(st1, SpecOp::Less), SpecOp::Not),
        TokenType::Less => emit(st1, SpecOp::Less),
        TokenType::LessEqual => emit(emit(st1, SpecOp::Greater), SpecOp::Not),
        _ => st1,
    }
}

/// An identifier in expression position: an assignment target when a `=`
/// follows and assignment is allowed here, else a read of the global.
pub open spec fn spec_variable(st: PState, can_assign: bool) -> PState
    decreases pmeasure(st), 2int,
{
    let name = prev_name(st);
    if can_assign && cur_is(st, TokenType::Equal) {
        let st1 = spec_advance(st);
        let st2 = if progressed(st, st1) {
            spec_expression(st1)
        } else {
            st1
        };
        emit(st2, SpecOp::SetGlobal(name))
    } else {
        emit(st, SpecOp::GetGlobal(name))
    }
}

/// A `print` statement after its keyword: the value, a `;`, and `Print`.
pub open spec fn spec_print_statement(st: PState) -> PState
    decreases pmeasure(st), 3int,
{
    emit(
        spec_consume(spec_expression(st), TokenType::Semicolon, "Expect ';' after value."@),
        SpecOp::Print,
    )
}

/// A bare expression statement: the value, a `;`, and `Pop` to discard it.
pub open spec fn spec_expression_statement(st: PState) -> PState
    decreases pmeasure(st), 3int,
{
    emit(
        spec_consume(spec_expression(st), TokenType::Semicolon, "Expect ';' after expression."@),
        SpecOp::Pop,
    )
}

pub open spec fn spec_statement(st: PState) -> PState
    decreases pmeasure(st), 4int,
{
    if cur_is(st, TokenType::Print) {
        let st1 = spec_advance(st);
        if progressed(st, st1) {
            spec_print_statement(st1)
        } else {
            st1
        }
    } else {
        spec_expression_statement(st)
    }
}

/// A `var` declaration after its keyword: the name, an initializer or `Nil`,
/// a `;`, and `DefineGlobal`.
pub open spec fn spec_var_declaration(st: PState) -> PState
    decreases pmeasure(st), 3int,
{
    let st1 = spec_consume(st, TokenType::Identifier, "Expect variable name."@);
    let name = prev_name(st1);
    let (st2, has_init) = spec_match(st1, TokenType::Equal);
    let st3 = if has_init {
        if progressed(st, st2) {
            spec_expression(st2)
        } else {
            st2
        }
    } else {
        emit(st2, SpecOp::Nil)
    };
    let st4 = spec_consume(st3, TokenType::Semicolon, "Expect ';' after variable declaration."@);
    emit(st4, SpecOp::DefineGlobal(name))
}

/// Skips tokens to the next statement boundary and leaves panic mode.
pub open spec fn spec_sync_loop(st: PState) -> PState
    decreases pmeasure(st), 0int,
{
    if cur_is(st, TokenType::Eof) {
        st
    } else if prev_kind(st) == TokenType::Semicolon {
        st
    } else if cur_is(st, TokenType::Class) || cur_is(st, TokenType::Fun) || cur_is(
        st,
        TokenType::Var,
    ) || cur_is(st, TokenType::For) || cur_is(st, TokenType::If) || cur_is(st, TokenType::While)
        || cur_is(st, TokenType::Print) || cur_is(st, TokenType::Return) {
        st
    } else {
        let st1 = spec_advance(st);
        if progressed(st, st1) {
            spec_sync_loop(st1)
        } else {
            st1
        }
    }
}

pub open spec fn spec_synchronize(st: PState) -> PState
    decreases pmeasure(st), 1int,
{
    spec_sync_loop(PState { panic_mode: false, ..st })
}

/// A declaration: a `var` declaration or a statement; afterwards, panic mode
/// resynchronizes to a statement boundary.
pub open spec fn spec_declaration(st: PState) -> PState
    decreases pmeasure(st), 5int,
{
    let st1 = if cur_is(st, TokenType::Var) {
        let stv = spec_advance(st);
        if progressed(st, stv) {
            spec_var_declaration(stv)
        } else {
            stv
        }
    } else {
        spec_statement(st)
    };
    if st1.panic_mode {
        if progressed(st, st1) {
            spec_synchronize(st1)
        } else {
            st1
        }
    } else {
        st1
    }
}

/// The whole program: declarations until the end of input.
pub open spec fn spec_program(st: PState) -> PState
    decreases pmeasure(st), 6int,
{
    if cur_is(st, TokenType::Eof) {
        spec_advance(st)
    } else {
        let st1 = spec_declaration(st);
        if progressed(st, st1) {
            spec_program(st1)
        } else {
            st1
        }
    }
}

/// The parser state that compiling a source text reaches: its instructions,
/// its diagnostics, and whether any error was recorded.
pub open spec fn spec_compile(src: Seq<char>) -> PState {
    let st0 = PState {
        toks: spec_tokens(src),
        idx: 0,
        prev: Option::None,
        cur: Option::None,
        had_error: false,
        panic_mode: false,
        ops: Seq::empty(),
        diags: Seq::empty(),
    };
    emit(spec_program(spec_advance(st0)), SpecOp::Return)
}

/// Parses tokens and emits instructions as it goes: one token of lookahead,
/// an error and a panic flag, the instructions built so far, and the
/// diagnostics recorded so far.
#[derive(Debug)]
pub struct Parser {
    pub tokens: Vec<Token>,
    pub idx: usize,
    pub previous: Option<Token>,
    pub current: Option<Token>,
    pub had_error: bool,
    pub panic_mode: bool,
    pub ops: Vec<OpCode>,
    pub diagnostics: Vec<String>,
}

impl View for Parser {
    type V = PState;

    open spec fn view(&self) -> PState {
        PState {
            toks: self.tokens.deep_view(),
            idx: self.idx as nat,
            prev: self.previous.deep_view(),
            cur: self.current.deep_view(),
            had_error: self.had_error,
            panic_mode: self.panic_mode,
            ops: self.ops.deep_view(),
            diags: self.diagnostics.deep_view(),
        }
    }
}

impl Parser {
    pub open spec fn wf(&self) -> bool {
        wf_ps(self@)
    }

    pub fn new() -> (p: Self)
        ensures
            p@.ops == Seq::<SpecOp>::empty(),
            p@.diags == Seq::<Seq<char>>::empty(),
            !p@.had_error,
    {
        let p = Parser {
            tokens: Vec::new(),
            idx: 0,
            previous: Option::None,
            current: Option::None,
            had_error: false,
            panic_mode: false,
            ops: Vec::new(),
            diagnostics: Vec::new(),
        };
        proof {
            assert(p@.ops =~= Seq::<SpecOp>::empty());
            assert(p@.diags =~= Seq::<Seq<char>>::empty());
        }
        p
    }

    fn check(&self, k: TokenType) -> (r: bool)
        ensures
            r == cur_is(self@, k),
    {
        match &self.current {
            Option::Some(t) => t.kind == k,
            Option::None => false,
        }
    }

    fn prev_kind_of(&self) -> (r: TokenType)
        ensures
            r == prev_kind(self@),
    {
        match &self.previous {
            Option::Some(t) => t.kind,
            Option::None => TokenType::Eof,
        }
    }

    fn cur_prec_value(&self) -> (r: u8)
        ensures
            r as int == cur_prec(self@),
    {
        match &self.current {
            Option::Some(t) => precedence_value(get_rule(&t.kind).precedence),
            Option::None => 0,
        }
    }

    /// Records one diagnostic line at a token; panic mode suppresses it.
    fn error_at(&mut self, token: &Token, message: &str)
        ensures
            final(self)@ == spec_error_at(old(self)@, token.deep_view(), message@),
    {
        if self.panic_mode {
            return ;
        }
        self.panic_mode = true;
        let mut s = String::from_str("[line ");
        let line_txt = fmt_u128(token.line as u128);
        s.append(line_txt.as_str());
        s.append("] Error");
        match token.kind {
            TokenType::Eof => {
                s.append(" at end");
            },
            TokenType::Error => {},
            _ => {
                s.append(" at ");
                let start_txt = fmt_u128(token.start as u128);
                s.append(start_txt.as_str());
                s.append(" to ");
                let end_txt = fmt_u128(token.start as u128 + token.length as u128);
                s.append(end_txt.as_str());
            },
        }
        s.append(": ");
        s.append(message);
        proof {
            assert(s@ =~= spec_diag(token.deep_view(), message@));
        }
        self.diagnostics.push(s);
        self.had_error = true;
        proof {
            assert(self@ =~= spec_error_at(old(self)@, token.deep_view(), message@));
        }
    }

    /// Records one diagnostic line at the current token.
    fn error(&mut self, message: &str)
        ensures
            final(self)@ == spec_error(old(self)@, message@),
    {
        let cur = match &self.current {
            Option::Some(t) => Option::Some(t.duplicate()),
            Option::None => Option::None,
        };
        match cur {
            Option::Some(t) => {
                self.error_at(&t, message);
            },
            Option::None => {},
        }
    }

    /// Moves to the next token, reporting and passing over error tokens.
    fn advance(&mut self)
        requires
            old(self).wf(),
        ensures
            final(self).wf(),
            final(self)@ == spec_advance(old(self)@),
            final(self)@.toks == old(self)@.toks,
            final(self)@.prev == old(self)@.cur,
            old(self)@.idx <= final(self)@.idx <= old(self)@.toks.len(),
            old(self)@.idx < old(self)@.toks.len() ==> old(self)@.idx < final(self)@.idx,
    {
        self.previous = match &self.current {
            Option::Some(t) => Option::Some(t.duplicate()),
            Option::None => Option::None,
        };
        let ghost sta = PState { prev: old(self)@.cur, ..old(self)@ };
        proof {
            assert(self@ =~= sta);
        }
        loop
            invariant_except_break
                spec_advance_loop(self@) == spec_advance_loop(sta),
                sta.idx < self@.idx || self@ == sta,
            invariant
                wf_ps(self@),
                self@.toks == sta.toks,
                self@.prev == sta.prev,
                sta.idx <= self@.idx <= self@.toks.len(),
            ensures
                wf_ps(self@),
                self@ == spec_advance_loop(sta),
                self@.toks == sta.toks,
                self@.prev == sta.prev,
                sta.idx <= self@.idx <= self@.toks.len(),
                sta.idx < self@.toks.len() ==> sta.idx < self@.idx,
            decreases self.tokens.len() - self.idx,
        {
            if self.idx < self.tokens.len() {
                let t = self.tokens[self.idx].duplicate();
                let is_err = matches!(t.kind, TokenType::Error);
                let ghost pre = self@;
                self.current = Option::Some(t);
                self.idx = self.idx + 1;
                proof {
                    assert(self@ =~= PState {
                        cur: Some(pre.toks[pre.idx as int]),
                        idx: pre.idx + 1,
                        ..pre
                    });
                }
                if is_err {
                    self.error("found error token");
                } else {
                    proof {
                        assert(spec_advance_loop(pre) == self@);
                    }
                    break ;
                }
            } else {
                proof {
                    assert(spec_advance_loop(self@) == self@);
                }
                break ;
            }
        }
    }

    /// Consumes the current token when it has the expected kind, else reports
    /// the message.
    pub fn consume(&mut self, token_type: &TokenType, message: &str)
        requires
            old(self).wf(),
        ensures
            final(self).wf(),
            final(self)@ == spec_consume(old(self)@, *token_type, message@),
            final(self)@.toks == old(self)@.toks,
            old(self)@.idx <= final(self)@.idx <= old(self)@.toks.len(),
    {
        if self.check(*token_type) {
            self.advance();
        } else {
            self.error(message);
        }
    }

    /// Consumes the current token when it has the given kind.
    fn match_token(&mut self, k: TokenType) -> (r: bool)
        requires
            old(self).wf(),
        ensures
            final(self).wf(),
            r == spec_match(old(self)@, k).1,
            final(self)@ == spec_match(old(self)@, k).0,
            final(self)@.toks == old(self)@.toks,
            old(self)@.idx <= final(self)@.idx <= old(self)@.toks.len(),
            r && old(self)@.idx < old(self)@.toks.len() ==> old(self)@.idx < final(self)@.idx,
    {
        if self.check(k) {
            self.advance();
            true
        } else {
            false
        }
    }

    fn emit_byte(&mut self, op: OpCode)
        ensures
            final(self)@ == emit(old(self)@, op.deep_view()),
    {
        self.ops.push(op);
        proof {
            assert(self@.ops =~= old(self)@.ops.push(op.deep_view()));
            assert(self@ =~= emit(old(self)@, op.deep_view()));
        }
    }

    fn emit_constant(&mut self, value: Value)
        ensures
            final(self)@ == emit(old(self)@, SpecOp::Constant(value@)),
    {
        self.emit_byte(OpCode::Constant(value));
    }

    /// The numeric literal just read becomes a constant instruction.
    fn number(&mut self)
        ensures
            final(self)@ == spec_number(old(self)@),
    {
        let bits_opt: Option<u64> = match &self.previous {
            Option::Some(t) => match &t.value {
                Option::Some(TokenValue::Number(b)) => Option::Some(*b),
                _ => Option::None,
            },
            Option::None => Option::None,
        };
        match bits_opt {
            Option::Some(b) => self.emit_constant(Value::Number(b)),
            Option::None => {},
        }
    }

    /// The string literal just read becomes a constant instruction.
    fn string(&mut self)
        ensures
            final(self)@ == spec_string(old(self)@),
    {
        let text_opt: Option<String> = match &self.previous {
            Option::Some(t) => if matches!(t.kind, TokenType::String) {
                match &t.value {
                    Option::Some(TokenValue::String(s)) => Option::Some(s.clone()),
                    _ => Option::None,
                }
            } else {
                Option::None
            },
            Option::None => Option::None,
        };
        match text_opt {
            Option::Some(s) => self.emit_constant(Value::Obj(Obj::String(s))),
            Option::None => {},
        }
    }

    /// `true`, `false` or `nil` just read becomes its instruction.
    fn literal(&mut self)
        ensures
            final(self)@ == spec_literal(old(self)@),
    {
        match self.prev_kind_of() {
            TokenType::False => self.emit_byte(OpCode::False),
            TokenType::True => self.emit_byte(OpCode::True),
            TokenType::Nil => self.emit_byte(OpCode::Nil),
            _ => {},
        }
    }

    /// A parenthesized group just opened: the expression, then `)`.
    fn grouping(&mut self)
        requires
            old(self).wf(),
        ensures
            final(self).wf(),
            final(self)@ == spec_grouping(old(self)@),
            final(self)@.toks == old(self)@.toks,
            old(self)@.idx <= final(self)@.idx <= old(self)@.toks.len(),
        decreases pmeasure(self@), 3int,
    {
        self.expression();
        self.consume(&TokenType::RightParen, "Expect ')' after expression.");
    }

    /// The unary operator just read: its operand, then its instruction.
    fn unary(&mut self)
        requires
            old(self).wf(),
        ensures
            final(self).wf(),
            final(self)@ == spec_unary(old(self)@),
            final(self)@.toks == old(self)@.toks,
            old(self)@.idx <= final(self)@.idx <= old(self)@.toks.len(),
        decreases pmeasure(self@), 2int,
    {
        let op = self.prev_kind_of();
        self.parse_precedence(Precedence::Unary);
        match op {
            TokenType::Minus => self.emit_byte(OpCode::Negate),
            TokenType::Bang => self.emit_byte(OpCode::Not),
            _ => {},
        }
    }

    /// The binary operator just read: the right operand one step tighter,
    /// then the operator's code.
    fn binary(&mut self)
        requires
            old(self).wf(),
        ensures
            final(self).wf(),
            final(self)@ == spec_binary(old(self)@),
            final(self)@.toks == old(self)@.toks,
            old(self)@.idx <= final(self)@.idx <= old(self)@.toks.len(),
        decreases pmeasure(self@), 2int,
    {
        let op = self.prev_kind_of();
        let rule_precedence = next_precedence(get_rule(&op).precedence);
        proof {
            assert(prec_val(rule_precedence) >= 1);
        }
        self.parse_precedence(rule_precedence);
        match op {
            TokenType::Plus => self.emit_byte(OpCode::Add),
            TokenType::Minus => self.emit_byte(OpCode::Subtract),
            TokenType::Star => self.emit_byte(OpCode::Multiply),
            TokenType::Slash => self.emit_byte(OpCode::Divide),
            TokenType::BangEqual => {
                self.emit_byte(OpCode::Equal);
                self.emit_byte(OpCode::Not);
            },
            TokenType::EqualEqual => self.emit_byte(OpCode::Equal),
            TokenType::Greater => self.emit_byte(OpCode::Greater),
            TokenType::GreaterEqual => {
                self.emit_byte(OpCode::Less);
                self.emit_byte(OpCode::Not);
            },
            TokenType::Less => self.emit_byte(OpCode::Less),
            TokenType::LessEqual => {
                self.emit_byte(OpCode::Greater);
                self.emit_byte(OpCode::Not);
            },
            _ => {},
        }
    }

    /// The identifier just read: an assignment when allowed and a `=`
    /// follows, else a read of the global.
    fn variable(&mut self, can_assign: bool)
        requires
            old(self).wf(),
        ensures
            final(self).wf(),
            final(self)@ == spec_variable(old(self)@, can_assign),
            final(self)@.toks == old(self)@.toks,
            old(self)@.idx <= final(self)@.idx <= old(self)@.toks.len(),
        decreases pmeasure(self@), 2int,
    {
        let name: String = match &self.previous {
            Option::Some(t) => match &t.value {
                Option::Some(TokenValue::Identifier(s)) => s.clone(),
                _ => String::new(),
            },
            Option::None => String::new(),
        };
        proof {
            assert(name@ == prev_name(self@));
        }
        if can_assign && self.check(TokenType::Equal) {
            self.advance();
            self.expression();
            self.emit_byte(OpCode::SetGlobal(name));
        } else {
            self.emit_byte(OpCode::GetGlobal(name));
        }
    }

    /// Climbs: a prefix handler for the first token, then infix operators
    /// while they bind at least as tightly as the threshold.
    fn parse_precedence(&mut self, precedence: Precedence)
        requires
            old(self).wf(),
            prec_val(precedence) >= 1,
        ensures
            final(self).wf(),
            final(self)@ == spec_parse_precedence(old(self)@, precedence),
            final(self)@.toks == old(self)@.toks,
            old(self)@.idx <= final(self)@.idx <= old(self)@.toks.len(),
            old(self)@.idx < old(self)@.toks.len() ==> old(self)@.idx < final(self)@.idx,
        decreases pmeasure(self@), 1int,
    {
        let ghost st0 = self@;
        self.advance();
        let ghost st1 = self@;
        let can_assign = precedence_value(precedence) <= precedence_value(Precedence::Assignment);
        let prefix = match &self.previous {
            Option::Some(t) => get_rule(&t.kind).prefix,
            Option::None => PrefixRule::NoPrefix,
        };
        proof {
            if !(prefix == PrefixRule::NoPrefix) {
                assert(st1.prev == st0.cur);
                assert(prev_kind(st1) != TokenType::Eof);
                assert(st0.idx < st0.toks.len());
                assert(progressed(st0, st1));
            }
        }
        match prefix {
            PrefixRule::Grouping => self.grouping(),
            PrefixRule::Unary => self.unary(),
            PrefixRule::Number => self.number(),
            PrefixRule::Literal => self.literal(),
            PrefixRule::String => self.string(),
            PrefixRule::Variable => self.variable(can_assign),
            PrefixRule::NoPrefix => self.error("Expected expression"),
        }
        let ghost st2 = self@;
        proof {
            if progressed(st0, st1) {
                assert(st2 == match spec_get_rule(prev_kind(st1)).prefix {
                    PrefixRule::Grouping => spec_grouping(st1),
                    PrefixRule::Unary => spec_unary(st1),
                    PrefixRule::Number => spec_number(st1),
                    PrefixRule::Literal => spec_literal(st1),
                    PrefixRule::String => spec_string(st1),
                    PrefixRule::Variable => spec_variable(st1, can_assign),
                    PrefixRule::NoPrefix => spec_error(st1, "Expected expression"@),
                });
            } else {
                assert(prefix == PrefixRule::NoPrefix);
                assert(st2 == spec_error(st1, "Expected expression"@));
            }
            assert(st0.idx <= st1.idx);
            assert(st1.idx <= st2.idx);
        }
        loop
            invariant
                wf_ps(self@),
                self@.toks == st2.toks,
                st2.idx <= self@.idx <= self@.toks.len(),
                spec_infix_loop(self@, precedence) == spec_infix_loop(st2, precedence),
                prec_val(precedence) >= 1,
                old(self)@.toks == st2.toks,
                old(self)@.idx <= st2.idx,
            ensures
                wf_ps(self@),
                self@ == spec_infix_loop(st2, precedence),
                self@.toks == st2.toks,
                st2.idx <= self@.idx <= self@.toks.len(),
            decreases self.tokens.len() - self.idx,
        {
            if !(precedence_value(precedence) <= self.cur_prec_value()) {
                proof {
                    assert(spec_infix_loop(self@, precedence) == self@);
                }
                break ;
            }
            let ghost stp = self@;
            proof {
                assert(cur_prec(stp) >= prec_val(precedence));
            }
            self.advance();
            let ghost sta = self@;
            proof {
                assert(cur_prec(stp) >= 1);
                assert(stp.cur matches Some(t) && prec_val(spec_get_rule(t.kind).precedence) >= 1);
                assert(stp.idx < stp.toks.len()) by {
                    if stp.idx >= stp.toks.len() {
                        assert(stp.idx == stp.toks.len());
                        assert(stp.cur == Some(stp.toks[stp.toks.len() - 1]));
                        assert(cur_prec(stp) == 0);
                    }
                }
                assert(progressed(stp, sta));
            }
            let infix = match &self.previous {
                Option::Some(t) => get_rule(&t.kind).infix,
                Option::None => InfixRule::NoInfix,
            };
            if matches!(infix, InfixRule::Binary) {
                proof {
                    assert(stp.idx < sta.idx && sta.idx <= sta.toks.len());
                    assert(pmeasure(sta) < pmeasure(old(self)@));
                }
                self.binary();
            }
            proof {
                assert(self@.idx > stp.idx);
                assert(spec_infix_loop(stp, precedence) == spec_infix_loop(self@, precedence));
            }
        }
        let ghost st3 = self@;
        proof {
            if progressed(st0, st2) {
                assert(st3 == spec_infix_loop(st2, precedence));
            } else {
                assert(prec_val(precedence) > cur_prec(st2) || st3 == spec_infix_loop(
                    st2,
                    precedence,
                ));
            }
        }
        if can_assign && self.check(TokenType::Equal) {
            let m = self.match_token(TokenType::Equal);
            self.error("Invalid assignment target.");
        }
    }

    fn expression(&mut self)
        requires
            old(self).wf(),
        ensures
            final(self).wf(),
            final(self)@ == spec_expression(old(self)@),
            final(self)@.toks == old(self)@.toks,
            old(self)@.idx <= final(self)@.idx <= old(self)@.toks.len(),
            old(self)@.idx < old(self)@.toks.len() ==> old(self)@.idx < final(self)@.idx,
        decreases pmeasure(self@), 2int,
    {
        self.parse_precedence(Precedence::Assignment);
    }

    /// After `print`: the value, a `;`, and the `Print` instruction.
    fn print_statement(&mut self)
        requires
            old(self).wf(),
        ensures
            final(self).wf(),
            final(self)@ == spec_print_statement(old(self)@),
            final(self)@.toks == old(self)@.toks,
            old(self)@.idx <= final(self)@.idx <= old(self)@.toks.len(),
        decreases pmeasure(self@), 3int,
    {
        self.expression();
        self.consume(&TokenType::Semicolon, "Expect ';' after value.");
        self.emit_byte(OpCode::Print);
    }

    /// A bare expression statement: the value, a `;`, and `Pop`.
    fn expression_statement(&mut self)
        requires
            old(self).wf(),
        ensures
            final(self).wf(),
            final(self)@ == spec_expression_statement(old(self)@),
            final(self)@.toks == old(self)@.toks,
            old(self)@.idx <= final(self)@.idx <= old(self)@.toks.len(),
            old(self)@.idx < old(self)@.toks.len() ==> old(self)@.idx < final(self)@.idx,
        decreases pmeasure(self@), 3int,
    {
        self.expression();
        self.consume(&TokenType::Semicolon, "Expect ';' after expression.");
        self.emit_byte(OpCode::Pop);
    }

    fn statement(&mut self)
        requires
            old(self).wf(),
        ensures
            final(self).wf(),
            final(self)@ == spec_statement(old(self)@),
            final(self)@.toks == old(self)@.toks,
            old(self)@.idx <= final(self)@.idx <= old(self)@.toks.len(),
            old(self)@.idx < old(self)@.toks.len() ==> old(self)@.idx < final(self)@.idx,
        decreases pmeasure(self@), 4int,
    {
        let ghost st0 = self@;
        if self.match_token(TokenType::Print) {
            proof {
                assert(st0.idx < st0.toks.len());
                assert(progressed(st0, self@));
            }
            self.print_statement();
        } else {
            self.expression_statement();
        }
    }

    /// After `var`: the name, the initializer or `Nil`, a `;`, and
    /// `DefineGlobal`.
    fn var_declaration(&mut self)
        requires
            old(self).wf(),
        ensures
            final(self).wf(),
            final(self)@ == spec_var_declaration(old(self)@),
            final(self)@.toks == old(self)@.toks,
            old(self)@.idx <= final(self)@.idx <= old(self)@.toks.len(),
        decreases pmeasure(self@), 3int,
    {
        let ghost st0 = self@;
        self.consume(&TokenType::Identifier, "Expect variable name.");
        let name: String = match &self.previous {
            Option::Some(t) => match &t.value {
                Option::Some(TokenValue::Identifier(s)) => s.clone(),
                _ => String::new(),
            },
            Option::None => String::new(),
        };
        proof {
            assert(name@ == prev_name(self@));
        }
        if self.match_token(TokenType::Equal) {
            self.expression();
        } else {
            self.emit_byte(OpCode::Nil);
        }
        self.consume(&TokenType::Semicolon, "Expect ';' after variable declaration.");
        self.emit_byte(OpCode::DefineGlobal(name));
    }

    /// Skips tokens to the next statement boundary and leaves panic mode.
    fn synchronize(&mut self)
        requires
            old(self).wf(),
        ensures
            final(self).wf(),
            final(self)@ == spec_synchronize(old(self)@),
            final(self)@.toks == old(self)@.toks,
            old(self)@.idx <= final(self)@.idx <= old(self)@.toks.len(),
        decreases pmeasure(self@), 1int,
    {
        self.panic_mode = false;
        let ghost sta = self@;
        proof {
            assert(sta =~= PState { panic_mode: false, ..old(self)@ });
        }
        loop
            invariant
                wf_ps(self@),
                self@.toks == sta.toks,
                sta.idx <= self@.idx <= self@.toks.len(),
                spec_sync_loop(self@) == spec_sync_loop(sta),
            ensures
                wf_ps(self@),
                self@ == spec_sync_loop(sta),
                self@.toks == sta.toks,
                sta.idx <= self@.idx <= self@.toks.len(),
            decreases self.tokens.len() - self.idx,
        {
            if self.check(TokenType::Eof) {
                proof {
                    assert(spec_sync_loop(self@) == self@);
                }
                break ;
            }
            if matches!(self.prev_kind_of(), TokenType::Semicolon) {
                proof {
                    assert(spec_sync_loop(self@) == self@);
                }
                break ;
            }
            if self.check(TokenType::Class) || self.check(TokenType::Fun) || self.check(
                TokenType::Var,
            ) || self.check(TokenType::For) || self.check(TokenType::If) || self.check(
                TokenType::While,
            ) || self.check(TokenType::Print) || self.check(TokenType::Return) {
                proof {
                    assert(spec_sync_loop(self@) == self@);
                }
                break ;
            }
            let ghost stp = self@;
            self.advance();
            proof {
                assert(stp.idx < stp.toks.len()) by {
                    if stp.idx == stp.toks.len() {
                        assert(cur_is(stp, TokenType::Eof));
                    }
                }
                assert(progressed(stp, self@));
                assert(spec_sync_loop(stp) == spec_sync_loop(self@));
            }
        }
    }

    /// One declaration: a `var` declaration or a statement, with panic-mode
    /// recovery afterwards.
    fn declaration(&mut self)
        requires
            old(self).wf(),
            !cur_is(old(self)@, TokenType::Eof),
        ensures
            final(self).wf(),
            final(self)@ == spec_declaration(old(self)@),
            final(self)@.toks == old(self)@.toks,
            old(self)@.idx <= final(self)@.idx <= old(self)@.toks.len(),
            old(self)@.idx < old(self)@.toks.len() ==> old(self)@.idx < final(self)@.idx,
        decreases pmeasure(self@), 5int,
    {
        let ghost st0 = self@;
        if self.match_token(TokenType::Var) {
            proof {
                assert(st0.idx < st0.toks.len());
                assert(progressed(st0, self@));
            }
            self.var_declaration();
        } else {
            self.statement();
        }
        proof {
            let st1 = if cur_is(st0, TokenType::Var) {
                let stv = spec_advance(st0);
                if progressed(st0, stv) {
                    spec_var_declaration(stv)
                } else {
                    stv
                }
            } else {
                spec_statement(st0)
            };
            assert(self@ == st1);
        }
        if self.panic_mode {
            proof {
                assert(progressed(st0, self@));
            }
            self.synchronize();
        }
    }

    /// The whole program: declarations until the end of input.
    fn program(&mut self)
        requires
            old(self).wf(),
        ensures
            final(self).wf(),
            final(self)@ == spec_program(old(self)@),
            final(self)@.toks == old(self)@.toks,
            old(self)@.idx <= final(self)@.idx <= old(self)@.toks.len(),
    {
        let ghost st0 = self@;
        let ghost goal = spec_program(st0);
        loop
            invariant
                wf_ps(self@),
                self@.toks == st0.toks,
                st0.idx <= self@.idx <= self@.toks.len(),
                spec_program(self@) == goal,
            ensures
                wf_ps(self@),
                self@ == goal,
                self@.toks == st0.toks,
                st0.idx <= self@.idx <= self@.toks.len(),
            decreases self.tokens.len() - self.idx,
        {
            let ghost stp = self@;
            if self.match_token(TokenType::Eof) {
                proof {
                    assert(spec_program(stp) == spec_advance(stp));
                }
                break ;
            }
            self.declaration();
            proof {
                assert(stp.idx < stp.toks.len()) by {
                    if stp.idx == stp.toks.len() {
                        assert(cur_is(stp, TokenType::Eof));
                    }
                }
                assert(progressed(stp, self@));
                assert(spec_program(stp) == spec_program(self@));
            }
        }
    }
}

/// Compiles one source text to an instruction sequence through its parser.
#[derive(Debug)]
pub struct Compiler {
    pub parser: Parser,
}

impl Compiler {
    pub fn new() -> (c: Self) {
        Compiler { parser: Parser::new() }
    }

    /// The diagnostics the last compilation recorded, one line per reported
    /// error.
    pub fn diagnostics(&self) -> (d: &Vec<String>)
        ensures
            d.deep_view() == self.parser@.diags,
    {
        &self.parser.diagnostics
    }

    /// Compiles a source text: its instruction sequence, or a compile-time
    /// failure when any error was recorded.  The outcome is a function of the
    /// text alone.
    pub fn compile(&mut self, source: &str) -> (r: Result<Vec<OpCode>, VMError>)
        requires
            source@.len() < usize::MAX,
        ensures
            spec_compile(source@).had_error <==> r is Err,
            r matches Err(e) ==> e == VMError::CompileTime,
            r matches Ok(ops) ==> ops.deep_view() == spec_compile(source@).ops,
            final(self).parser@.diags == spec_compile(source@).diags,
            final(self).parser@.had_error == spec_compile(source@).had_error,
    {
        let mut scanner = Scanner::new(String::from_str(source));
        let tokens = scanner.scan_tokens();
        self.parser = Parser {
            tokens,
            idx: 0,
            previous: Option::None,
            current: Option::None,
            had_error: false,
            panic_mode: false,
            ops: Vec::new(),
            diagnostics: Vec::new(),
        };
        let ghost st0 = PState {
            toks: spec_tokens(source@),
            idx: 0,
            prev: Option::None,
            cur: Option::None,
            had_error: false,
            panic_mode: false,
            ops: Seq::empty(),
            diags: Seq::empty(),
        };
        proof {
            lemma_scan_seq_form(source@, 0, 1);
            assert(self.parser@ =~= st0);
            assert(self.parser.wf());
        }
        self.parser.advance();
        self.parser.program();
        self.parser.emit_byte(OpCode::Return);
        proof {
            assert(self.parser@ == spec_compile(source@));
        }
        if self.parser.had_error {
            Err(VMError::CompileTime)
        } else {
            let mut out: Vec<OpCode> = Vec::new();
            core::mem::swap(&mut out, &mut self.parser.ops);
            Ok(out)
        }
    }
}

} // verus!
