use vstd::prelude::*;

use crate::num::{all_digits, digit_char, is_digit, is_number_literal, num_of_text, num_parse,
    number_tail};
use crate::text::str_eq;

verus! {

/// The kind of a lexical unit; a closed set.
#[derive(Debug, Clone, Copy, PartialEq, Eq, Structural)]
pub enum TokenType {
    // One character
    LeftParen,
    RightParen,
    LeftBrace,
    RightBrace,
    Comma,
    Dot,
    Minus,
    Plus,
    Semicolon,
    Slash,
    Star,
    // One or two characters
    Bang,
    BangEqual,
    Equal,
    EqualEqual,
    Greater,
    GreaterEqual,
    Less,
    LessEqual,
    // Literals
    Identifier,
    String,
    Number,
    // Keywords
    And,
    Class,
    Else,
    False,
    For,
    Fun,
    If,
    Nil,
    Or,
    Print,
    Return,
    Super,
    This,
    True,
    Var,
    While,
    Error,
    Comment,
    Eof,
}

/// The literal payload of a token: the text of an identifier or string, the
/// message of an error token, or the bit pattern a numeric literal denotes.
#[derive(Debug, Clone, PartialEq)]
pub enum TokenValue {
    Identifier(String),
    String(String),
    Error(String),
    Number(u64),
}

/// One lexical unit: its kind, optional payload, the index of its first
/// character, its extent in characters, and the source line it ends on.
#[derive(Debug, Clone, PartialEq)]
pub struct Token {
    pub value: Option<TokenValue>,
    pub kind: TokenType,
    pub start: usize,
    pub length: usize,
    pub line: usize,
}

/// Mathematical image of a token payload.
pub enum SpecTokenValue {
    Identifier(Seq<char>),
    Str(Seq<char>),
    Error(Seq<char>),
    Number(u64),
}

/// Mathematical image of a token.
pub struct SpecToken {
    pub value: Option<SpecTokenValue>,
    pub kind: TokenType,
    pub start: nat,
    pub length: nat,
    pub line: nat,
}

impl DeepView for TokenValue {
    type V = SpecTokenValue;

    open spec fn deep_view(&self) -> SpecTokenValue {
        match self {
            TokenValue::Identifier(s) => SpecTokenValue::Identifier(s@),
            TokenValue::String(s) => SpecTokenValue::Str(s@),
            TokenValue::Error(s) => SpecTokenValue::Error(s@),
            TokenValue::Number(b) => SpecTokenValue::Number(*b),
        }
    }
}

impl DeepView for Token {
    type V = SpecToken;

    open spec fn deep_view(&self) -> SpecToken {
        SpecToken {
            value: self.value.deep_view(),
            kind: self.kind,
            start: self.start as nat,
            length: self.length as nat,
            line: self.line as nat,
        }
    }
}

impl Token {
    /// An exact copy, by value.
    pub fn duplicate(&self) -> (t: Token)
        ensures
            t.deep_view() == self.deep_view(),
            t.kind == self.kind,
    {
        let value = match &self.value {
            Option::None => Option::None,
            Option::Some(TokenValue::Identifier(s)) => Option::Some(
                TokenValue::Identifier(s.clone()),
            ),
            Option::Some(TokenValue::String(s)) => Option::Some(TokenValue::String(s.clone())),
            Option::Some(TokenValue::Error(s)) => Option::Some(TokenValue::Error(s.clone())),
            Option::Some(TokenValue::Number(b)) => Option::Some(TokenValue::Number(*b)),
        };
        Token {
            value,
            kind: self.kind,
            start: self.start,
            length: self.length,
            line: self.line,
        }
    }
}

pub open spec fn is_ws(c: char) -> bool {
    c == ' ' || c == '\r' || c == '\t'
}

pub open spec fn is_alpha(c: char) -> bool {
    ('a' <= c && c <= 'z') || ('A' <= c && c <= 'Z') || c == '_'
}

pub open spec fn is_ident_char(c: char) -> bool {
    is_alpha(c) || is_digit(c)
}

/// First index at or after `pos` holding a newline, or the end of the text.
pub open spec fn comment_end(src: Seq<char>, pos: nat) -> nat
    decreases src.len() - pos,
{
    if pos >= src.len() {
        pos
    } else if src[pos as int] == '\n' {
        pos
    } else {
        comment_end(src, pos + 1)
    }
}

/// First index at or after `pos` not holding a digit.
pub open spec fn digits_end(src: Seq<char>, pos: nat) -> nat
    decreases src.len() - pos,
{
    if pos < src.len() && is_digit(src[pos as int]) {
        digits_end(src, pos + 1)
    } else {
        pos
    }
}

/// First index at or after `pos` not holding an identifier character.
pub open spec fn ident_end(src: Seq<char>, pos: nat) -> nat
    decreases src.len() - pos,
{
    if pos < src.len() && is_ident_char(src[pos as int]) {
        ident_end(src, pos + 1)
    } else {
        pos
    }
}

/// First index at or after `pos` holding a closing quote, or the end.
pub open spec fn str_end(src: Seq<char>, pos: nat) -> nat
    decreases src.len() - pos,
{
    if pos >= src.len() {
        pos
    } else if src[pos as int] == '"' {
        pos
    } else {
        str_end(src, pos + 1)
    }
}

/// How many newlines `src` holds in the index range `[from, to)`.
pub open spec fn count_nl(src: Seq<char>, from: nat, to: nat) -> nat
    decreases to - from,
{
    if to <= from {
        0
    } else {
        count_nl(src, from, (to - 1) as nat) + if src[to - 1] == '\n' {
            1nat
        } else {
            0nat
        }
    }
}

/// Cursor and line after skipping whitespace, newlines, and line comments.
pub open spec fn spec_skip_ws(src: Seq<char>, pos: nat, line: nat) -> (nat, nat)
    decreases src.len() - pos,
    via spec_skip_ws_dec
{
    if pos >= src.len() {
        (pos, line)
    } else {
        let c = src[pos as int];
        if is_ws(c) {
            spec_skip_ws(src, pos + 1, line)
        } else if c == '\n' {
            spec_skip_ws(src, pos + 1, line + 1)
        } else if c == '/' && pos + 1 < src.len() && src[pos + 1 as int] == '/' {
            spec_skip_ws(src, comment_end(src, pos + 2), line)
        } else {
            (pos, line)
        }
    }
}

#[via_fn]
proof fn spec_skip_ws_dec(src: Seq<char>, pos: nat, line: nat) {
    if pos < src.len() {
        lemma_comment_end(src, pos + 2);
    }
}

pub proof fn lemma_comment_end(src: Seq<char>, pos: nat)
    ensures
        pos <= comment_end(src, pos),
        pos <= src.len() ==> comment_end(src, pos) <= src.len(),
        pos > src.len() ==> comment_end(src, pos) == pos,
    decreases src.len() - pos,
{
    if pos < src.len() && src[pos as int] != '\n' {
        lemma_comment_end(src, pos + 1);
    }
}

pub proof fn lemma_digits_end(src: Seq<char>, pos: nat)
    ensures
        pos <= digits_end(src, pos),
        pos <= src.len() ==> digits_end(src, pos) <= src.len(),
        forall|i: int| pos <= i < digits_end(src, pos) ==> is_digit(#[trigger] src[i]),
        pos > src.len() ==> digits_end(src, pos) == pos,
    decreases src.len() - pos,
{
    if pos < src.len() && is_digit(src[pos as int]) {
        lemma_digits_end(src, pos + 1);
    }
}

pub proof fn lemma_ident_end(src: Seq<char>, pos: nat)
    ensures
        pos <= ident_end(src, pos),
        pos <= src.len() ==> ident_end(src, pos) <= src.len(),
        pos > src.len() ==> ident_end(src, pos) == pos,
    decreases src.len() - pos,
{
    if pos < src.len() && is_ident_char(src[pos as int]) {
        lemma_ident_end(src, pos + 1);
    }
}

pub proof fn lemma_str_end(src: Seq<char>, pos: nat)
    ensures
        pos <= str_end(src, pos),
        pos <= src.len() ==> str_end(src, pos) <= src.len(),
        pos > src.len() ==> str_end(src, pos) == pos,
    decreases src.len() - pos,
{
    if pos < src.len() && src[pos as int] != '"' {
        lemma_str_end(src, pos + 1);
    }
}

pub proof fn lemma_skip_ws(src: Seq<char>, pos: nat, line: nat)
    ensures
        pos <= spec_skip_ws(src, pos, line).0,
        pos <= src.len() ==> spec_skip_ws(src, pos, line).0 <= src.len(),
        pos > src.len() ==> spec_skip_ws(src, pos, line).0 == pos,
    decreases src.len() - pos,
{
    if pos < src.len() {
        let c = src[pos as int];
        if is_ws(c) {
            lemma_skip_ws(src, pos + 1, line);
        } else if c == '\n' {
            lemma_skip_ws(src, pos + 1, line + 1);
        } else if c == '/' && pos + 1 < src.len() && src[pos + 1 as int] == '/' {
            lemma_comment_end(src, pos + 2);
            lemma_skip_ws(src, comment_end(src, pos + 2), line);
        }
    }
}

/// A run of digits, taken out of its text, is all digits.
proof fn lemma_digit_run(src: Seq<char>, i: nat, j: nat)
    requires
        i <= j <= src.len(),
        forall|x: int| i <= x < j ==> is_digit(#[trigger] src[x]),
    ensures
        all_digits(src.subrange(i as int, j as int)),
    decreases j - i,
{
    if i < j {
        lemma_digit_run(src, i + 1, j);
        assert(src.subrange(i as int, j as int).drop_first() =~= src.subrange(i + 1 as int, j as int));
    }
}

proof fn lemma_all_digits_tail(s: Seq<char>)
    requires
        all_digits(s),
    ensures
        number_tail(s),
    decreases s.len(),
{
    if s.len() > 0 {
        lemma_all_digits_tail(s.drop_first());
    }
}

/// Digits, a point, then digits: a well-formed tail of a numeric literal.
proof fn lemma_number_tail_frac(src: Seq<char>, i: nat, k: nat, j: nat)
    requires
        i <= k < j <= src.len(),
        forall|x: int| i <= x < k ==> is_digit(#[trigger] src[x]),
        src[k as int] == '.',
        k + 1 < j,
        forall|x: int| k < x < j ==> is_digit(#[trigger] src[x]),
    ensures
        number_tail(src.subrange(i as int, j as int)),
    decreases k - i,
{
    let s = src.subrange(i as int, j as int);
    if i == k {
        assert(s[0] == '.');
        lemma_digit_run(src, k + 1, j);
        assert(s.drop_first() =~= src.subrange(k + 1 as int, j as int));
    } else {
        lemma_number_tail_frac(src, i + 1, k, j);
        assert(s.drop_first() =~= src.subrange(i + 1 as int, j as int));
    }
}

/// The keyword kind a text denotes, or `Identifier` for any other text.
pub open spec fn spec_keyword(t: Seq<char>) -> TokenType {
    if t == "and"@ {
        TokenType::And
    } else if t == "class"@ {
        TokenType::Class
    } else if t == "else"@ {
        TokenType::Else
    } else if t == "false"@ {
        TokenType::False
    } else if t == "for"@ {
        TokenType::For
    } else if t == "fun"@ {
        TokenType::Fun
    } else if t == "if"@ {
        TokenType::If
    } else if t == "nil"@ {
        TokenType::Nil
    } else if t == "or"@ {
        TokenType::Or
    } else if t == "print"@ {
        TokenType::Print
    } else if t == "return"@ {
        TokenType::Return
    } else if t == "super"@ {
        TokenType::Super
    } else if t == "this"@ {
        TokenType::This
    } else if t == "true"@ {
        TokenType::True
    } else if t == "var"@ {
        TokenType::Var
    } else if t == "while"@ {
        TokenType::While
    } else {
        TokenType::Identifier
    }
}

/// Decides whether a character may continue an identifier.
fn ident_char(c: char) -> (r: bool)
    ensures
        r == is_ident_char(c),
{
    (c >= 'a' && c <= 'z') || (c >= 'A' && c <= 'Z') || c == '_' || digit_char(c)
}

fn keyword_kind(t: &str) -> (k: TokenType)
    ensures
        k == spec_keyword(t@),
{
    if str_eq(t, "and") {
        TokenType::And
    } else if str_eq(t, "class") {
        TokenType::Class
    } else if str_eq(t, "else") {
        TokenType::Else
    } else if str_eq(t, "false") {
        TokenType::False
    } else if str_eq(t, "for") {
        TokenType::For
    } else if str_eq(t, "fun") {
        TokenType::Fun
    } else if str_eq(t, "if") {
        TokenType::If
    } else if str_eq(t, "nil") {
        TokenType::Nil
    } else if str_eq(t, "or") {
        TokenType::Or
    } else if str_eq(t, "print") {
        TokenType::Print
    } else if str_eq(t, "return") {
        TokenType::Return
    } else if str_eq(t, "super") {
        TokenType::Super
    } else if str_eq(t, "this") {
        TokenType::This
    } else if str_eq(t, "true") {
        TokenType::True
    } else if str_eq(t, "var") {
        TokenType::Var
    } else if str_eq(t, "while") {
        TokenType::While
    } else {
        TokenType::Identifier
    }
}

/// A scanned token together with the cursor and line after it.
pub struct ScanStep {
    pub tok: SpecToken,
    pub pos: nat,
    pub line: nat,
}

pub open spec fn simple_step(kind: TokenType, start: nat, length: nat, pos: nat, line: nat) -> ScanStep {
    ScanStep { tok: SpecToken { value: None, kind, start, length, line }, pos, line }
}

/// The next token of `src` when scanning starts at `pos` on line `line`, and
/// the scanner state after it.
pub open spec fn spec_scan_at(src: Seq<char>, pos: nat, line: nat) -> ScanStep {
    let (p, l) = spec_skip_ws(src, pos, line);
    if p >= src.len() {
        simple_step(TokenType::Eof, p, 1, p, l)
    } else {
        let c = src[p as int];
        if c == '(' {
            simple_step(TokenType::LeftParen, p, 1, p + 1, l)
        } else if c == ')' {
            simple_step(TokenType::RightParen, p, 1, p + 1, l)
        } else if c == '{' {
            simple_step(TokenType::LeftBrace, p, 1, p + 1, l)
        } else if c == '}' {
            simple_step(TokenType::RightBrace, p, 1, p + 1, l)
        } else if c == ';' {
            simple_step(TokenType::Semicolon, p, 1, p + 1, l)
        } else if c == '.' {
            simple_step(TokenType::Dot, p, 1, p + 1, l)
        } else if c == ',' {
            simple_step(TokenType::Comma, p, 1, p + 1, l)
        } else if c == '-' {
            simple_step(TokenType::Minus, p, 1, p + 1, l)
        } else if c == '+' {
            simple_step(TokenType::Plus, p, 1, p + 1, l)
        } else if c == '*' {
            simple_step(TokenType::Star, p, 1, p + 1, l)
        } else if c == '/' {
            simple_step(TokenType::Slash, p, 1, p + 1, l)
        } else if c == '!' {
            if p + 1 < src.len() && src[p + 1 as int] == '=' {
                simple_step(TokenType::BangEqual, p, 2, p + 2, l)
            } else {
                simple_step(TokenType::Bang, p, 1, p + 1, l)
            }
        } else if c == '=' {
            if p + 1 < src.len() && src[p + 1 as int] == '=' {
                simple_step(TokenType::EqualEqual, p, 2, p + 2, l)
            } else {
                simple_step(TokenType::Equal, p, 1, p + 1, l)
            }
        } else if c == '<' {
            if p + 1 < src.len() && src[p + 1 as int] == '=' {
                simple_step(TokenType::LessEqual, p, 2, p + 2, l)
            } else {
                simple_step(TokenType::Less, p, 1, p + 1, l)
            }
        } else if c == '>' {
            if p + 1 < src.len() && src[p + 1 as int] == '=' {
                simple_step(TokenType::GreaterEqual, p, 2, p + 2, l)
            } else {
                simple_step(TokenType::Greater, p, 1, p + 1, l)
            }
        } else if c == '"' {
            let e = str_end(src, p + 1);
            let l2 = l + count_nl(src, p + 1, e);
            if e >= src.len() {
                ScanStep {
                    tok: SpecToken {
                        value: Some(SpecTokenValue::Error("Unterminated string"@)),
                        kind: TokenType::Error,
                        start: p,
                        length: "Unterminated string"@.len(),
                        line: l2,
                    },
                    pos: e,
                    line: l2,
                }
            } else {
                ScanStep {
                    tok: SpecToken {
                        value: Some(SpecTokenValue::Str(src.subrange(p + 1 as int, e as int))),
                        kind: TokenType::String,
                        start: p,
                        length: (e - p + 1) as nat,
                        line: l2,
                    },
                    pos: e + 1,
                    line: l2,
                }
            }
        } else if is_digit(c) {
            let ie = digits_end(src, p);
            let end = if ie < src.len() && src[ie as int] == '.' && ie + 1 < src.len() && is_digit(
                src[ie + 1 as int],
            ) {
                digits_end(src, ie + 1)
            } else {
                ie
            };
            ScanStep {
                tok: SpecToken {
                    value: Some(
                        SpecTokenValue::Number(num_of_text(src.subrange(p as int, end as int))),
                    ),
                    kind: TokenType::Number,
                    start: p,
                    length: (end - p) as nat,
                    line: l,
                },
                pos: end,
                line: l,
            }
        } else if is_alpha(c) {
            let e = ident_end(src, p);
            let text = src.subrange(p as int, e as int);
            let k = spec_keyword(text);
            ScanStep {
                tok: SpecToken {
                    value: if k == TokenType::Identifier {
                        Some(SpecTokenValue::Identifier(text))
                    } else {
                        None
                    },
                    kind: k,
                    start: p,
                    length: (e - p) as nat,
                    line: l,
                },
                pos: e,
                line: l,
            }
        } else {
            ScanStep {
                tok: SpecToken {
                    value: Some(SpecTokenValue::Error(("Unknown Token "@).push(c))),
                    kind: TokenType::Error,
                    start: p,
                    length: 1,
                    line: l,
                },
                pos: p + 1,
                line: l,
            }
        }
    }
}

/// The scanner never stands still except at the end, and never runs past the
/// end.
pub proof fn lemma_scan_at(src: Seq<char>, pos: nat, line: nat)
    ensures
        pos <= spec_scan_at(src, pos, line).pos,
        spec_scan_at(src, pos, line).tok.kind != TokenType::Eof ==> pos < spec_scan_at(
            src,
            pos,
            line,
        ).pos,
        pos <= src.len() ==> spec_scan_at(src, pos, line).pos <= src.len(),
{
    lemma_skip_ws(src, pos, line);
    let (p, l) = spec_skip_ws(src, pos, line);
    if p < src.len() {
        let c = src[p as int];
        lemma_str_end(src, p + 1);
        lemma_digits_end(src, p);
        lemma_ident_end(src, p);
        let ie = digits_end(src, p);
        if ie < src.len() && src[ie as int] == '.' && ie + 1 < src.len() && is_digit(src[ie + 1 as int]) {
            lemma_digits_end(src, ie + 1);
        }
        if is_digit(c) {
            lemma_digits_end(src, p + 1);
            assert(digits_end(src, p) == digits_end(src, p + 1));
        }
        if is_alpha(c) {
            lemma_ident_end(src, p + 1);
            assert(ident_end(src, p) == ident_end(src, p + 1));
        }
    }
}

/// The whole token sequence of `src` from a scanner state on: every token the
/// scanner gives out, up to and including the first end-of-input token.
pub open spec fn spec_scan_seq(src: Seq<char>, pos: nat, line: nat) -> Seq<SpecToken>
    decreases src.len() - pos,
    via spec_scan_seq_dec
{
    let step = spec_scan_at(src, pos, line);
    if step.tok.kind == TokenType::Eof {
        seq![step.tok]
    } else {
        seq![step.tok] + spec_scan_seq(src, step.pos, step.line)
    }
}

#[via_fn]
proof fn spec_scan_seq_dec(src: Seq<char>, pos: nat, line: nat) {
    lemma_scan_at(src, pos, line);
}

/// The token sequence of a whole source text.
pub open spec fn spec_tokens(src: Seq<char>) -> Seq<SpecToken> {
    spec_scan_seq(src, 0, 1)
}

/// A token sequence is never empty and ends with its only end-of-input token.
pub proof fn lemma_scan_seq_form(src: Seq<char>, pos: nat, line: nat)
    ensures
        spec_scan_seq(src, pos, line).len() >= 1,
        spec_scan_seq(src, pos, line).last().kind == TokenType::Eof,
        forall|i: int|
            0 <= i < spec_scan_seq(src, pos, line).len() - 1 ==> spec_scan_seq(src, pos, line)[i].kind
                != TokenType::Eof,
    decreases src.len() - pos,
{
    let step = spec_scan_at(src, pos, line);
    if step.tok.kind != TokenType::Eof {
        lemma_scan_at(src, pos, line);
        lemma_scan_seq_form(src, step.pos, step.line);
        assert(spec_scan_seq(src, pos, line).last() == spec_scan_seq(
            src,
            step.pos,
            step.line,
        ).last());
    }
}

/// Scans a source text held as a string; `current` indexes the next unread
/// character and `line` counts the newlines read, starting from one.
#[derive(Debug)]
pub struct Scanner {
    pub source: String,
    pub current: usize,
    pub line: usize,
}

impl Scanner {
    pub open spec fn wf(&self) -> bool {
        &&& self.current <= self.source@.len()
        &&& self.source@.len() < usize::MAX
        &&& 1 <= self.line
        &&& self.line <= self.current + 1
    }

    pub open spec fn src(&self) -> Seq<char> {
        self.source@
    }

    pub open spec fn pos(&self) -> nat {
        self.current as nat
    }

    pub open spec fn line_no(&self) -> nat {
        self.line as nat
    }

    pub fn new(source: String) -> (s: Self)
        requires
            source@.len() < usize::MAX,
        ensures
            s.wf(),
            s.src() == source@,
            s.pos() == 0,
            s.line_no() == 1,
    {
        Scanner { source, current: 0, line: 1 }
    }

    fn peek_is(&self, i: usize, c: char) -> (r: bool)
        requires
            self.wf(),
        ensures
            r == (i < self.src().len() && self.src()[i as int] == c),
    {
        let len = self.source.as_str().unicode_len();
        i < len && self.source.as_str().get_char(i) == c
    }

    /// Moves the cursor past whitespace, newlines, and line comments.
    fn skip_whitespace(&mut self)
        requires
            old(self).wf(),
        ensures
            final(self).wf(),
            final(self).src() == old(self).src(),
            (final(self).pos(), final(self).line_no()) == spec_skip_ws(
                old(self).src(),
                old(self).pos(),
                old(self).line_no(),
            ),
    {
        let ghost src = self.source@;
        let ghost p0 = self.current as nat;
        let ghost l0 = self.line as nat;
        let len = self.source.as_str().unicode_len();
        loop
            invariant
                self.wf(),
                self.source@ == src,
                len == src.len(),
                spec_skip_ws(src, p0, l0) == spec_skip_ws(
                    src,
                    self.current as nat,
                    self.line as nat,
                ),
            ensures
                self.wf(),
                self.source@ == src,
                (self.current as nat, self.line as nat) == spec_skip_ws(src, p0, l0),
            decreases src.len() - self.current,
        {
            if self.current >= len {
                break ;
            }
            let c = self.source.as_str().get_char(self.current);
            if c == ' ' || c == '\r' || c == '\t' {
                self.current = self.current + 1;
            } else if c == '\n' {
                self.current = self.current + 1;
                self.line = self.line + 1;
            } else if c == '/' && self.peek_is(self.current + 1, '/') {
                let ghost pb = self.current as nat;
                let ghost ce = comment_end(src, pb + 2);
                proof {
                    lemma_comment_end(src, pb + 2);
                    assert(spec_skip_ws(src, pb, self.line as nat) == spec_skip_ws(
                        src,
                        ce,
                        self.line as nat,
                    ));
                }
                let ghost lb = self.line;
                self.current = self.current + 2;
                while self.current < len && self.source.as_str().get_char(self.current) != '\n'
                    invariant
                        self.source@ == src,
                        len == src.len(),
                        self.current <= len,
                        self.line == lb,
                        self.line <= self.current + 1,
                        1 <= self.line,
                        len < usize::MAX,
                        ce == comment_end(src, self.current as nat),
                    decreases src.len() - self.current,
                {
                    self.current = self.current + 1;
                }
                proof {
                    assert(comment_end(src, self.current as nat) == self.current as nat);
                    assert(ce == self.current as nat);
                }
            } else {
                break ;
            }
        }
    }

    /// Gives out the next token and moves the cursor past it.
    pub fn scan_token(&mut self) -> (tok: Token)
        requires
            old(self).wf(),
        ensures
            final(self).wf(),
            final(self).src() == old(self).src(),
            tok.deep_view() == spec_scan_at(
                old(self).src(),
                old(self).pos(),
                old(self).line_no(),
            ).tok,
            final(self).pos() == spec_scan_at(old(self).src(), old(self).pos(), old(self).line_no()).pos,
            final(self).line_no() == spec_scan_at(
                old(self).src(),
                old(self).pos(),
                old(self).line_no(),
            ).line,
    {
        let ghost src = self.source@;
        self.skip_whitespace();
        let len = self.source.as_str().unicode_len();
        if self.current >= len {
            return Token {
                value: None,
                kind: TokenType::Eof,
                start: self.current,
                length: 1,
                line: self.line,
            };
        }
        let start = self.current;
        let c = self.source.as_str().get_char(start);
        if c == '(' || c == ')' || c == '{' || c == '}' || c == ';' || c == '.' || c == ','
            || c == '-' || c == '+' || c == '*' || c == '/' {
            let kind = if c == '(' {
                TokenType::LeftParen
            } else if c == ')' {
                TokenType::RightParen
            } else if c == '{' {
                TokenType::LeftBrace
            } else if c == '}' {
                TokenType::RightBrace
            } else if c == ';' {
                TokenType::Semicolon
            } else if c == '.' {
                TokenType::Dot
            } else if c == ',' {
                TokenType::Comma
            } else if c == '-' {
                TokenType::Minus
            } else if c == '+' {
                TokenType::Plus
            } else if c == '*' {
                TokenType::Star
            } else {
                TokenType::Slash
            };
            self.current = start + 1;
            return Token { value: None, kind, start, length: 1, line: self.line };
        }
        if c == '!' || c == '=' || c == '<' || c == '>' {
            if self.peek_is(start + 1, '=') {
                let kind = if c == '!' {
                    TokenType::BangEqual
                } else if c == '=' {
                    TokenType::EqualEqual
                } else if c == '<' {
                    TokenType::LessEqual
                } else {
                    TokenType::GreaterEqual
                };
                self.current = start + 2;
                return Token { value: None, kind, start, length: 2, line: self.line };
            } else {
                let kind = if c == '!' {
                    TokenType::Bang
                } else if c == '=' {
                    TokenType::Equal
                } else if c == '<' {
                    TokenType::Less
                } else {
                    TokenType::Greater
                };
                self.current = start + 1;
                return Token { value: None, kind, start, length: 1, line: self.line };
            }
        }
        if c == '"' {
            let ghost e = str_end(src, (start + 1) as nat);
            let ghost l1 = self.line as nat;
            proof {
                lemma_str_end(src, (start + 1) as nat);
            }
            let mut i = start + 1;
            while i < len && self.source.as_str().get_char(i) != '"'
                invariant
                    self.source@ == src,
                    len == src.len(),
                    len < usize::MAX,
                    start + 1 <= i <= len,
                    1 <= self.line,
                    self.line <= i + 1,
                    e == str_end(src, i as nat),
                    self.line as nat == l1 + count_nl(src, (start + 1) as nat, i as nat),
                decreases src.len() - i,
            {
                if self.source.as_str().get_char(i) == '\n' {
                    self.line = self.line + 1;
                }
                i = i + 1;
            }
            proof {
                assert(i as nat == e);
            }
            if i >= len {
                self.current = i;
                let msg = String::from_str("Unterminated string");
                let length = msg.as_str().unicode_len();
                return Token {
                    value: Some(TokenValue::Error(msg)),
                    kind: TokenType::Error,
                    start,
                    length,
                    line: self.line,
                };
            } else {
                self.current = i + 1;
                let txt = self.source.as_str().substring_char(start + 1, i).to_owned();
                return Token {
                    value: Some(TokenValue::String(txt)),
                    kind: TokenType::String,
                    start,
                    length: i - start + 1,
                    line: self.line,
                };
            }
        }
        if digit_char(c) {
            let ghost ie = digits_end(src, start as nat);
            proof {
                lemma_digits_end(src, start as nat);
            }
            let mut i = start;
            while i < len && digit_char(self.source.as_str().get_char(i))
                invariant
                    self.source@ == src,
                    len == src.len(),
                    start <= i <= len,
                    ie == digits_end(src, i as nat),
                decreases src.len() - i,
            {
                i = i + 1;
            }
            proof {
                assert(i as nat == ie);
            }
            let mut end = i;
            if i < len && self.source.as_str().get_char(i) == '.' && i + 1 < len && digit_char(
                self.source.as_str().get_char(i + 1),
            ) {
                let ghost fe = digits_end(src, (i + 1) as nat);
                proof {
                    lemma_digits_end(src, (i + 1) as nat);
                }
                let mut j = i + 1;
                while j < len && digit_char(self.source.as_str().get_char(j))
                    invariant
                        self.source@ == src,
                        len == src.len(),
                        i + 1 <= j <= len,
                        fe == digits_end(src, j as nat),
                    decreases src.len() - j,
                {
                    j = j + 1;
                }
                proof {
                    assert(j as nat == fe);
                }
                end = j;
            }
            let txt = self.source.as_str().substring_char(start, end);
            proof {
                let s = src.subrange(start as int, end as int);
                assert(s[0] == src[start as int]);
                if end as nat == ie {
                    lemma_digit_run(src, (start + 1) as nat, end as nat);
                    assert(s.drop_first() =~= src.subrange(start + 1, end as int));
                    lemma_all_digits_tail(s.drop_first());
                } else {
                    lemma_digits_end(src, (ie + 1) as nat);
                    assert(digits_end(src, (ie + 1) as nat) >= ie + 2);
                    lemma_number_tail_frac(src, (start + 1) as nat, ie, end as nat);
                    assert(s.drop_first() =~= src.subrange(start + 1, end as int));
                }
                assert(is_number_literal(txt@));
            }
            let bits = num_parse(txt);
            self.current = end;
            return Token {
                value: Some(TokenValue::Number(bits)),
                kind: TokenType::Number,
                start,
                length: end - start,
                line: self.line,
            };
        }
        if (c >= 'a' && c <= 'z') || (c >= 'A' && c <= 'Z') || c == '_' {
            let ghost e = ident_end(src, start as nat);
            proof {
                lemma_ident_end(src, start as nat);
            }
            let mut i = start;
            while i < len && ident_char(self.source.as_str().get_char(i))
                invariant
                    self.source@ == src,
                    len == src.len(),
                    start <= i <= len,
                    e == ident_end(src, i as nat),
                decreases src.len() - i,
            {
                i = i + 1;
            }
            proof {
                assert(i as nat == e);
            }
            let txt = self.source.as_str().substring_char(start, i);
            let kind = keyword_kind(txt);
            self.current = i;
            let value = if let TokenType::Identifier = kind {
                Some(TokenValue::Identifier(txt.to_owned()))
            } else {
                None
            };
            return Token { value, kind, start, length: i - start, line: self.line };
        }
        self.current = start + 1;
        let mut msg = String::from_str("Unknown Token ");
        crate::text::push_char(&mut msg, c);
        return Token {
            value: Some(TokenValue::Error(msg)),
            kind: TokenType::Error,
            start,
            length: 1,
            line: self.line,
        };
    }

    /// Scans the whole remaining text: every token up to and including the
    /// first end-of-input token.
    pub fn scan_tokens(&mut self) -> (tokens: Vec<Token>)
        requires
            old(self).wf(),
        ensures
            final(self).wf(),
            tokens.deep_view() == spec_scan_seq(old(self).src(), old(self).pos(), old(self).line_no()),
    {
        let ghost src = self.source@;
        let ghost p0 = self.current as nat;
        let ghost l0 = self.line as nat;
        let mut tokens: Vec<Token> = Vec::new();
        loop
            invariant_except_break
                self.wf(),
                self.source@ == src,
                spec_scan_seq(src, p0, l0) == tokens.deep_view() + spec_scan_seq(
                    src,
                    self.current as nat,
                    self.line as nat,
                ),
            ensures
                self.wf(),
                tokens.deep_view() == spec_scan_seq(src, p0, l0),
            decreases src.len() - self.current,
        {
            let ghost pb = self.current as nat;
            let ghost lb = self.line as nat;
            let ghost td = tokens.deep_view();
            proof {
                lemma_scan_at(src, pb, lb);
            }
            let tok = self.scan_token();
            let ghost step = spec_scan_at(src, pb, lb);
            let is_eof = matches!(tok.kind, TokenType::Eof);
            tokens.push(tok);
            proof {
                assert(tokens.deep_view() =~= td + seq![step.tok]);
            }
            if is_eof {
                proof {
                    assert(spec_scan_seq(src, pb, lb) == seq![step.tok]);
                    assert(tokens.deep_view() =~= spec_scan_seq(src, p0, l0));
                }
                break ;
            }
            proof {
                assert(spec_scan_seq(src, pb, lb) == seq![step.tok] + spec_scan_seq(
                    src,
                    self.current as nat,
                    self.line as nat,
                ));
                assert(td + (seq![step.tok] + spec_scan_seq(
                    src,
                    self.current as nat,
                    self.line as nat,
                )) =~= (td + seq![step.tok]) + spec_scan_seq(
                    src,
                    self.current as nat,
                    self.line as nat,
                ));
            }
        }
        tokens
    }
}

} // verus!
