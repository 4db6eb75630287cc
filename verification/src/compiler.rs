use vstd::prelude::*;

use crate::chunk::{Chunk, OpCode, spec_opcode_byte};
use crate::scanner::{
    lemma_scan_token_bounds, spec_scan_token, ScanError, Scanner, SpecToken, Token, TokenType,
};
use crate::value::{
    add_bits, bits_of_lexeme, div_bits, mul_bits, neg_bits, sub_bits,
};

verus! {

/// What a compile-time error report says: the failure itself, plus where
/// the offending token lay. Printing is the driver's business; the
/// library hands the report out as data.
#[derive(Debug, Clone, Copy, PartialEq, Eq, Structural)]
pub enum DiagKind {
    UnexpectedCharacter,
    UnterminatedString,
    ExpectedExpression,
    ExpectedRightParen,
    ExpectedEndOfExpression,
    TooManyConstants,
}

/// How a diagnostic points at the source: at a token's text, at the end
/// of input, or nowhere (the offending token was itself an error token,
/// whose message already says everything).
#[derive(Debug, Clone, Copy, PartialEq, Eq, Structural)]
pub enum DiagLocation {
    AtEnd,
    AtLexeme,
    Unlocated,
}

/// One compile-time error report.
#[derive(Debug, Clone, Copy, PartialEq, Eq, Structural)]
pub struct Diagnostic {
    pub line: usize,
    pub kind: DiagKind,
    pub location: DiagLocation,
    pub start: usize,
    pub length: usize,
}

/// The mathematical image of a diagnostic.
pub ghost struct SpecDiag {
    pub line: int,
    pub kind: DiagKind,
    pub location: DiagLocation,
    pub start: int,
    pub length: int,
}

impl View for Diagnostic {
    type V = SpecDiag;

    open spec fn view(&self) -> SpecDiag {
        SpecDiag {
            line: self.line as int,
            kind: self.kind,
            location: self.location,
            start: self.start as int,
            length: self.length as int,
        }
    }
}

/// The parser's token window and recovery flags: the token just consumed,
/// the token under the cursor, the sticky failure flag, and the panic flag
/// that suppresses cascading reports.
pub struct Parser {
    pub previous: Option<Token>,
    pub current: Option<Token>,
    pub had_error: bool,
    pub panic_mode: bool,
    pub diagnostics: Vec<Diagnostic>,
}

pub open spec fn opt_token_view(t: Option<Token>) -> Option<SpecToken> {
    match t {
        Some(t) => Some(t@),
        None => None,
    }
}

/// The whole lexical-and-parser state the compiler threads along: the
/// source, the scanner cursor, the token window, the recovery flags and
/// the diagnostics gathered so far.
pub ghost struct PSt {
    pub src: Seq<u8>,
    pub pos: int,
    pub line: int,
    pub prev: Option<SpecToken>,
    pub cur: Option<SpecToken>,
    pub had_error: bool,
    pub panic_mode: bool,
    pub diags: Seq<SpecDiag>,
}

/// The compiler's full state: the parse state plus the chunk under
/// construction. `vals` carries the value that direct evaluation of the
/// expression parsed so far would put on a stack, and `lits` records each
/// literal's constant-pool emission; both are specification-only
/// instrumentation that the executable state never stores.
pub ghost struct CState {
    pub lex: PSt,
    pub code: Seq<u8>,
    pub consts: Seq<u64>,
    pub lines: Seq<int>,
    pub vals: Seq<u64>,
    pub lits: Seq<LitRec>,
}

/// One literal's emission: where its `CONSTANT` instruction begins, which
/// pool slot it references, the lexeme it came from, and its source line.
pub ghost struct LitRec {
    pub off: int,
    pub idx: int,
    pub lexeme: Seq<u8>,
    pub line: int,
}

pub open spec fn token_opt_wf(t: Option<SpecToken>, src: Seq<u8>) -> bool {
    match t {
        Some(t) => 0 <= t.start && 0 <= t.length && t.start + t.length <= src.len(),
        None => true,
    }
}

pub open spec fn pst_wf(l: PSt) -> bool {
    &&& 0 <= l.pos <= l.src.len()
    &&& token_opt_wf(l.prev, l.src)
    &&& token_opt_wf(l.cur, l.src)
}

pub open spec fn st_wf(st: CState) -> bool {
    pst_wf(st.lex)
}

/// The termination measure of the climbing parser: the unscanned suffix of
/// the source, plus one if a token other than end-of-input sits buffered in
/// the parser's window.
pub open spec fn m_pst(l: PSt) -> int {
    let base = if 0 <= l.pos <= l.src.len() {
        l.src.len() - l.pos
    } else {
        0
    };
    base + match l.cur {
        Some(t) => if t.kind != TokenType::TOKEN_EOF {
            1int
        } else {
            0
        },
        None => 0,
    }
}

pub open spec fn m_of(st: CState) -> int {
    m_pst(st.lex)
}

/// The token a handler speaks about when the window holds none: scanning
/// always fills the window, so this placeholder only keeps the functions
/// total.
pub open spec fn tok_or_eof(t: Option<SpecToken>) -> SpecToken {
    match t {
        Some(t) => t,
        None => SpecToken {
            kind: TokenType::TOKEN_EOF,
            start: 0,
            length: 0,
            line: 1,
            error: None,
        },
    }
}

pub open spec fn diag_of(t: SpecToken, kind: DiagKind) -> SpecDiag {
    SpecDiag {
        line: t.line,
        kind,
        location: if t.kind == TokenType::TOKEN_EOF {
            DiagLocation::AtEnd
        } else if t.kind == TokenType::TOKEN_ERROR {
            DiagLocation::Unlocated
        } else {
            DiagLocation::AtLexeme
        },
        start: t.start,
        length: t.length,
    }
}

/// One error report: ignored while the parser is already panicking, else
/// it records the diagnostic, enters panic mode and makes the whole
/// compile fail.
pub open spec fn sp_error_at(l: PSt, t: SpecToken, kind: DiagKind) -> PSt {
    if l.panic_mode {
        l
    } else {
        PSt { had_error: true, panic_mode: true, diags: l.diags.push(diag_of(t, kind)), ..l }
    }
}

pub open spec fn kind_of_scan_error(e: Option<ScanError>) -> DiagKind {
    match e {
        Some(ScanError::UnterminatedString) => DiagKind::UnterminatedString,
        _ => DiagKind::UnexpectedCharacter,
    }
}

/// Scan tokens into the window until one is not an error token, reporting
/// each error token as it passes.
pub open spec fn sp_advance_loop(l: PSt) -> PSt
    decreases l.src.len() - l.pos,
{
    if !(0 <= l.pos <= l.src.len()) {
        l
    } else {
        let (t, p, nl) = spec_scan_token(l.src, l.pos, l.line);
        let l1 = PSt { pos: p, line: nl, cur: Some(t), ..l };
        if t.kind != TokenType::TOKEN_ERROR {
            l1
        } else {
            proof {
                lemma_scan_token_bounds(l.src, l.pos, l.line);
            }
            sp_advance_loop(sp_error_at(l1, t, kind_of_scan_error(t.error)))
        }
    }
}

/// Shift the window: the current token becomes the previous one, and the
/// scanner pulls the next real token.
pub open spec fn sp_advance(l: PSt) -> PSt {
    sp_advance_loop(PSt { prev: l.cur, ..l })
}

/// Advance past the current token when it has the expected kind, else
/// report `dk` at it.
pub open spec fn sp_consume(l: PSt, kind: TokenType, dk: DiagKind) -> PSt {
    if tok_or_eof(l.cur).kind == kind {
        sp_advance(l)
    } else {
        sp_error_at(l, tok_or_eof(l.cur), dk)
    }
}

/// The precedence table: the only tokens that bind as infix operators are
/// the four arithmetic ones, terms below factors.
pub open spec fn sp_prec(t: TokenType) -> int {
    match t {
        TokenType::TOKEN_MINUS => 6,
        TokenType::TOKEN_PLUS => 6,
        TokenType::TOKEN_SLASH => 7,
        TokenType::TOKEN_STAR => 7,
        _ => 0,
    }
}

/// The tagged prefix handlers of the rule table.
#[derive(Debug, Clone, Copy, PartialEq, Eq, Structural)]
pub enum PrefixFn {
    Grouping,
    Unary,
    Number,
}

/// The tagged infix handlers of the rule table.
#[derive(Debug, Clone, Copy, PartialEq, Eq, Structural)]
pub enum InfixFn {
    Binary,
}

pub open spec fn sp_prefix(t: TokenType) -> Option<PrefixFn> {
    match t {
        TokenType::TOKEN_LEFT_PAREN => Some(PrefixFn::Grouping),
        TokenType::TOKEN_MINUS => Some(PrefixFn::Unary),
        TokenType::TOKEN_NUMBER => Some(PrefixFn::Number),
        _ => None,
    }
}

pub open spec fn sp_infix(t: TokenType) -> Option<InfixFn> {
    if sp_prec(t) > 0 {
        Some(InfixFn::Binary)
    } else {
        None
    }
}

/// Append one instruction byte, attributed to the line of the token that
/// was just consumed.
pub open spec fn sp_emit_byte(st: CState, b: u8) -> CState {
    CState {
        code: st.code.push(b),
        lines: st.lines.push(tok_or_eof(st.lex.prev).line),
        ..st
    }
}

pub open spec fn sp_emit_two(st: CState, b1: u8, b2: u8) -> CState {
    sp_emit_byte(sp_emit_byte(st, b1), b2)
}

/// Room for one more constant: the pool is indexed by one byte, and its
/// last slot is reserved so the overflow report can substitute index 0.
pub open spec fn consts_have_room(consts: Seq<u64>) -> bool {
    consts.len() < 255
}

/// Append a value to the pool and give its index; once the pool is full,
/// report "too many constants" at the token just consumed and substitute
/// index 0.
pub open spec fn sp_make_constant(st: CState, v: u64) -> (CState, u8) {
    if consts_have_room(st.consts) {
        (CState { consts: st.consts.push(v), ..st }, st.consts.len() as u8)
    } else {
        (
            CState {
                lex: sp_error_at(st.lex, tok_or_eof(st.lex.prev), DiagKind::TooManyConstants),
                ..st
            },
            0u8,
        )
    }
}

/// The number-literal handler: parse the lexeme just consumed, pool the
/// value and emit `CONSTANT` with its index.
pub open spec fn sp_number(st: CState) -> CState {
    let t = tok_or_eof(st.lex.prev);
    let lexeme = st.lex.src.subrange(t.start, t.start + t.length);
    let v = bits_of_lexeme(lexeme);
    let room = consts_have_room(st.consts);
    let r = sp_make_constant(st, v);
    let st1 = r.0;
    let idx = r.1;
    let off = st1.code.len() as int;
    let st2 = sp_emit_two(st1, spec_opcode_byte(OpCode::OP_CONSTANT), idx);
    CState {
        vals: st2.vals.push(v),
        lits: if room {
            st2.lits.push(LitRec { off, idx: idx as int, lexeme, line: t.line })
        } else {
            st2.lits
        },
        ..st2
    }
}

/// Direct evaluation of a unary negation on the value stack.
pub open spec fn apply_unary(vals: Seq<u64>) -> Seq<u64> {
    if vals.len() >= 1 {
        vals.update(vals.len() - 1, neg_bits(vals.last()))
    } else {
        vals
    }
}

pub open spec fn op_bits(op: TokenType, a: u64, b: u64) -> u64 {
    match op {
        TokenType::TOKEN_PLUS => add_bits(a, b),
        TokenType::TOKEN_MINUS => sub_bits(a, b),
        TokenType::TOKEN_STAR => mul_bits(a, b),
        TokenType::TOKEN_SLASH => div_bits(a, b),
        _ => a,
    }
}

/// Direct evaluation of a binary operator on the value stack: the right
/// operand was pushed last.
pub open spec fn apply_binop(vals: Seq<u64>, op: TokenType) -> Seq<u64> {
    if vals.len() >= 2 {
        let b = vals.last();
        let a = vals[vals.len() - 2];
        vals.take(vals.len() - 2).push(op_bits(op, a, b))
    } else {
        vals
    }
}

pub open spec fn byte_of_binop(op: TokenType) -> u8 {
    match op {
        TokenType::TOKEN_PLUS => spec_opcode_byte(OpCode::OP_ADD),
        TokenType::TOKEN_MINUS => spec_opcode_byte(OpCode::OP_SUBTRACT),
        TokenType::TOKEN_STAR => spec_opcode_byte(OpCode::OP_MULTIPLY),
        _ => spec_opcode_byte(OpCode::OP_DIVIDE),
    }
}

/// Keep a recursive result only if it respects the termination measure;
/// the lemmas below show the fallback never fires.
pub open spec fn clamped(bound: CState, st: CState) -> CState {
    if st_wf(st) && m_of(st) <= m_of(bound) {
        st
    } else {
        bound
    }
}

/// Precedence climbing: consume one token, run its prefix handler (or
/// report "expected expression" if it has none), then fold in every infix
/// operator that binds at least as tightly as `min_prec`.
pub open spec fn sp_parse_precedence(st: CState, min_prec: int) -> CState
    decreases m_of(st), 1int,
{
    if !st_wf(st) {
        st
    } else {
        let st1 = CState { lex: sp_advance(st.lex), ..st };
        proof {
            lemma_advance_measure(st.lex);
        }
        let pt = tok_or_eof(st1.lex.prev);
        match sp_prefix(pt.kind) {
            None => CState {
                lex: sp_error_at(st1.lex, pt, DiagKind::ExpectedExpression),
                ..st1
            },
            Some(PrefixFn::Number) => sp_infix_loop(clamped(st1, sp_number(st1)), min_prec),
            Some(PrefixFn::Grouping) => sp_infix_loop(clamped(st1, sp_grouping(st1)), min_prec),
            Some(PrefixFn::Unary) => sp_infix_loop(clamped(st1, sp_unary(st1)), min_prec),
        }
    }
}

/// The infix half of the climb: while the buffered token binds at least as
/// tightly as `min_prec`, consume it and run the binary handler.
pub open spec fn sp_infix_loop(st: CState, min_prec: int) -> CState
    decreases m_of(st), 0int,
{
    if !st_wf(st) {
        st
    } else {
        let cp = sp_prec(tok_or_eof(st.lex.cur).kind);
        if 1 <= min_prec <= cp {
            let st1 = CState { lex: sp_advance(st.lex), ..st };
            proof {
                lemma_advance_measure(st.lex);
            }
            sp_infix_loop(clamped(st1, sp_binary(st1)), min_prec)
        } else {
            st
        }
    }
}

/// The grouping handler: the parenthesised inner expression, then the
/// required closing parenthesis. It emits no bytecode of its own.
pub open spec fn sp_grouping(st: CState) -> CState
    decreases m_of(st), 3int,
{
    if !st_wf(st) {
        st
    } else {
        let st1 = sp_expression(st);
        CState {
            lex: sp_consume(st1.lex, TokenType::TOKEN_RIGHT_PAREN, DiagKind::ExpectedRightParen),
            ..st1
        }
    }
}

/// An expression: a climb from the lowest real precedence.
pub open spec fn sp_expression(st: CState) -> CState
    decreases m_of(st), 2int,
{
    if !st_wf(st) {
        st
    } else {
        sp_parse_precedence(st, 1)
    }
}

/// The unary handler: the operand at unary precedence, then `NEGATE`.
pub open spec fn sp_unary(st: CState) -> CState
    decreases m_of(st), 3int,
{
    if !st_wf(st) {
        st
    } else {
        let op = tok_or_eof(st.lex.prev).kind;
        let st1 = sp_parse_precedence(st, 8);
        if op == TokenType::TOKEN_MINUS {
            let st2 = sp_emit_byte(st1, spec_opcode_byte(OpCode::OP_NEGATE));
            CState { vals: apply_unary(st2.vals), ..st2 }
        } else {
            st1
        }
    }
}

/// The binary handler: the right operand one level above this operator's
/// own precedence (which makes equal precedences left-associative), then
/// the matching arithmetic opcode.
pub open spec fn sp_binary(st: CState) -> CState
    decreases m_of(st), 3int,
{
    if !st_wf(st) {
        st
    } else {
        let op = tok_or_eof(st.lex.prev).kind;
        let st1 = sp_parse_precedence(st, sp_prec(op) + 1);
        if sp_prec(op) > 0 {
            let st2 = sp_emit_byte(st1, byte_of_binop(op));
            CState { vals: apply_binop(st2.vals, op), ..st2 }
        } else {
            st1
        }
    }
}

pub open spec fn sp_init_state(src: Seq<u8>) -> CState {
    CState {
        lex: PSt {
            src,
            pos: 0,
            line: 1,
            prev: None,
            cur: None,
            had_error: false,
            panic_mode: false,
            diags: Seq::empty(),
        },
        code: Seq::empty(),
        consts: Seq::empty(),
        lines: Seq::empty(),
        vals: Seq::empty(),
        lits: Seq::empty(),
    }
}

/// The whole compile of one source: prime the window, parse one
/// expression, require the end of input, and cap the code with `RETURN`.
pub open spec fn sp_compile(src: Seq<u8>) -> CState {
    let st0 = sp_init_state(src);
    let st1 = CState { lex: sp_advance(st0.lex), ..st0 };
    let st2 = sp_expression(st1);
    let st3 = CState {
        lex: sp_consume(st2.lex, TokenType::TOKEN_EOF, DiagKind::ExpectedEndOfExpression),
        ..st2
    };
    sp_emit_byte(st3, spec_opcode_byte(OpCode::OP_RETURN))
}

/// A compile succeeds exactly when no error was ever reported.
pub open spec fn sp_compile_ok(src: Seq<u8>) -> bool {
    !sp_compile(src).lex.had_error
}

/// How one advance moves the parse state: the window shifts, the new
/// current token is present and well formed, the cursor never retreats,
/// and the termination measure never grows — strictly shrinking whenever
/// a real token was buffered.
pub proof fn lemma_advance_loop_measure(l: PSt)
    requires
        0 <= l.pos <= l.src.len(),
        token_opt_wf(l.prev, l.src),
    ensures
        ({
            let l1 = sp_advance_loop(l);
            &&& pst_wf(l1)
            &&& l1.src == l.src
            &&& l1.prev == l.prev
            &&& l1.cur is Some
            &&& l.pos <= l1.pos
            &&& m_pst(l1) <= l.src.len() - l.pos
            &&& (l.had_error ==> l1.had_error)
            &&& ((l.panic_mode ==> l.had_error) ==> (l1.panic_mode ==> l1.had_error))
        }),
    decreases l.src.len() - l.pos,
{
    lemma_scan_token_bounds(l.src, l.pos, l.line);
    let (t, p, nl) = spec_scan_token(l.src, l.pos, l.line);
    let l1 = PSt { pos: p, line: nl, cur: Some(t), ..l };
    if t.kind != TokenType::TOKEN_ERROR {
    } else {
        lemma_advance_loop_measure(sp_error_at(l1, t, kind_of_scan_error(t.error)));
    }
}

/// `sp_advance` keeps the state well formed and the measure monotone, and
/// shrinks the measure strictly while a real token is buffered.
pub proof fn lemma_advance_measure(l: PSt)
    requires
        pst_wf(l),
    ensures
        ({
            let l1 = sp_advance(l);
            &&& pst_wf(l1)
            &&& l1.src == l.src
            &&& l1.prev == l.cur
            &&& l1.cur is Some
            &&& l.pos <= l1.pos
            &&& m_pst(l1) <= m_pst(l)
            &&& (tok_or_eof(l.cur).kind != TokenType::TOKEN_EOF ==> m_pst(l1) < m_pst(l))
            &&& (l.had_error ==> l1.had_error)
            &&& ((l.panic_mode ==> l.had_error) ==> (l1.panic_mode ==> l1.had_error))
        }),
{
    lemma_advance_loop_measure(PSt { prev: l.cur, ..l });
}


/// The measure never grows across the number handler: it touches only the
/// chunk, never the cursor or the token window.
pub proof fn lemma_m_number(st: CState)
    requires
        st_wf(st),
    ensures
        m_of(sp_number(st)) == m_of(st),
        st_wf(sp_number(st)),
        sp_number(st).lex.pos == st.lex.pos,
        sp_number(st).lex.cur == st.lex.cur,
        sp_number(st).lex.prev == st.lex.prev,
        sp_number(st).lex.src == st.lex.src,
        (st.lex.had_error ==> sp_number(st).lex.had_error),
{
}

/// Consuming a token never grows the measure.
pub proof fn lemma_m_consume(l: PSt, kind: TokenType, dk: DiagKind)
    requires
        pst_wf(l),
    ensures
        pst_wf(sp_consume(l, kind, dk)),
        m_pst(sp_consume(l, kind, dk)) <= m_pst(l),
        sp_consume(l, kind, dk).src == l.src,
        (l.had_error ==> sp_consume(l, kind, dk).had_error),
        ((l.panic_mode ==> l.had_error) ==> (sp_consume(l, kind, dk).panic_mode ==> sp_consume(
            l,
            kind,
            dk,
        ).had_error)),
{
    if tok_or_eof(l.cur).kind == kind {
        lemma_advance_measure(l);
    }
}

/// The whole climbing family keeps the state well formed, never grows the
/// termination measure, and never clears the sticky failure flag.
pub proof fn lemma_m_parse_precedence(st: CState, min_prec: int)
    requires
        st_wf(st),
    ensures
        ({
            let r = sp_parse_precedence(st, min_prec);
            &&& st_wf(r)
            &&& m_of(r) <= m_of(st)
            &&& r.lex.src == st.lex.src
            &&& (st.lex.had_error ==> r.lex.had_error)
        }),
    decreases m_of(st), 1int,
{
    lemma_advance_measure(st.lex);
    let st1 = CState { lex: sp_advance(st.lex), ..st };
    let pt = tok_or_eof(st1.lex.prev);
    match sp_prefix(pt.kind) {
        None => {},
        Some(PrefixFn::Number) => {
            lemma_m_number(st1);
            lemma_m_infix_loop(clamped(st1, sp_number(st1)), min_prec);
        },
        Some(PrefixFn::Grouping) => {
            lemma_m_grouping(st1);
            lemma_m_infix_loop(clamped(st1, sp_grouping(st1)), min_prec);
        },
        Some(PrefixFn::Unary) => {
            lemma_m_unary(st1);
            lemma_m_infix_loop(clamped(st1, sp_unary(st1)), min_prec);
        },
    }
}

pub proof fn lemma_m_infix_loop(st: CState, min_prec: int)
    requires
        st_wf(st),
    ensures
        ({
            let r = sp_infix_loop(st, min_prec);
            &&& st_wf(r)
            &&& m_of(r) <= m_of(st)
            &&& r.lex.src == st.lex.src
            &&& (st.lex.had_error ==> r.lex.had_error)
        }),
    decreases m_of(st), 0int,
{
    let cp = sp_prec(tok_or_eof(st.lex.cur).kind);
    if 1 <= min_prec <= cp {
        lemma_advance_measure(st.lex);
        let st1 = CState { lex: sp_advance(st.lex), ..st };
        lemma_m_binary(st1);
        lemma_m_infix_loop(clamped(st1, sp_binary(st1)), min_prec);
    }
}

pub proof fn lemma_m_grouping(st: CState)
    requires
        st_wf(st),
    ensures
        ({
            let r = sp_grouping(st);
            &&& st_wf(r)
            &&& m_of(r) <= m_of(st)
            &&& r.lex.src == st.lex.src
            &&& (st.lex.had_error ==> r.lex.had_error)
        }),
    decreases m_of(st), 3int,
{
    lemma_m_expression(st);
    let st1 = sp_expression(st);
    lemma_m_consume(st1.lex, TokenType::TOKEN_RIGHT_PAREN, DiagKind::ExpectedRightParen);
}

pub proof fn lemma_m_expression(st: CState)
    requires
        st_wf(st),
    ensures
        ({
            let r = sp_expression(st);
            &&& st_wf(r)
            &&& m_of(r) <= m_of(st)
            &&& r.lex.src == st.lex.src
            &&& (st.lex.had_error ==> r.lex.had_error)
        }),
    decreases m_of(st), 2int,
{
    lemma_m_parse_precedence(st, 1);
}

pub proof fn lemma_m_unary(st: CState)
    requires
        st_wf(st),
    ensures
        ({
            let r = sp_unary(st);
            &&& st_wf(r)
            &&& m_of(r) <= m_of(st)
            &&& r.lex.src == st.lex.src
            &&& (st.lex.had_error ==> r.lex.had_error)
        }),
    decreases m_of(st), 3int,
{
    lemma_m_parse_precedence(st, 8);
}

pub proof fn lemma_m_binary(st: CState)
    requires
        st_wf(st),
    ensures
        ({
            let r = sp_binary(st);
            &&& st_wf(r)
            &&& m_of(r) <= m_of(st)
            &&& r.lex.src == st.lex.src
            &&& (st.lex.had_error ==> r.lex.had_error)
        }),
    decreases m_of(st), 3int,
{
    let op = tok_or_eof(st.lex.prev).kind;
    lemma_m_parse_precedence(st, sp_prec(op) + 1);
}


/// The integer view of a chunk's line table.
pub open spec fn lines_view(v: Seq<usize>) -> Seq<int> {
    Seq::new(v.len(), |i: int| v[i] as int)
}

/// The mathematical view of a diagnostics list.
pub open spec fn diags_view(v: Seq<Diagnostic>) -> Seq<SpecDiag> {
    Seq::new(v.len(), |i: int| v[i]@)
}

pub proof fn lemma_lines_view_push(v: Seq<usize>, x: usize)
    ensures
        lines_view(v.push(x)) == lines_view(v).push(x as int),
{
    assert(lines_view(v.push(x)) =~= lines_view(v).push(x as int));
}

pub proof fn lemma_diags_view_push(v: Seq<Diagnostic>, d: Diagnostic)
    ensures
        diags_view(v.push(d)) == diags_view(v).push(d@),
{
    assert(diags_view(v.push(d)) =~= diags_view(v).push(d@));
}

/// The parse state that a parser and a scanner jointly represent.
pub open spec fn ps(p: Parser, s: Scanner) -> PSt {
    PSt {
        src: s.source@,
        pos: s.current as int,
        line: s.line as int,
        prev: opt_token_view(p.previous),
        cur: opt_token_view(p.current),
        had_error: p.had_error,
        panic_mode: p.panic_mode,
        diags: diags_view(p.diagnostics@),
    }
}

/// The compiler state that the three executable pieces jointly represent.
/// The specification-only `vals` and `lits` instrumentation starts empty.
pub open spec fn cstate(p: Parser, s: Scanner, c: Chunk) -> CState {
    CState {
        lex: ps(p, s),
        code: c.code@,
        consts: c.constants.values@,
        lines: lines_view(c.lines@),
        vals: Seq::empty(),
        lits: Seq::empty(),
    }
}

/// The observable part of a specification state agrees with the
/// executable state; the instrumentation fields are free.
pub open spec fn st_matches(st: CState, p: Parser, s: Scanner, c: Chunk) -> bool {
    &&& st.lex == ps(p, s)
    &&& st.code == c.code@
    &&& st.consts == c.constants.values@
    &&& st.lines == lines_view(c.lines@)
}

/// Report an error at `token`, unless the parser already panics: record
/// the diagnostic, enter panic mode, and make the compile fail.
fn error_at(token: Token, kind: DiagKind, scanner: &Scanner, parser: &mut Parser)
    ensures
        ps(*final(parser), *scanner) == sp_error_at(ps(*old(parser), *scanner), token@, kind),
        final(parser).previous == old(parser).previous,
        final(parser).current == old(parser).current,
{
    if parser.panic_mode {
        return ;
    }
    parser.panic_mode = true;
    parser.had_error = true;
    let location = if matches!(token.typo, TokenType::TOKEN_EOF) {
        DiagLocation::AtEnd
    } else if matches!(token.typo, TokenType::TOKEN_ERROR) {
        DiagLocation::Unlocated
    } else {
        DiagLocation::AtLexeme
    };
    let d = Diagnostic { line: token.line, kind, location, start: token.start, length: token.length };
    proof {
        lemma_diags_view_push(parser.diagnostics@, d);
    }
    parser.diagnostics.push(d);
}

/// Report an error at the token under the cursor.
fn error_at_current(kind: DiagKind, parser: &mut Parser, scanner: &Scanner)
    requires
        old(parser).current is Some,
    ensures
        ps(*final(parser), *scanner) == sp_error_at(
            ps(*old(parser), *scanner),
            tok_or_eof(opt_token_view(old(parser).current)),
            kind,
        ),
        final(parser).previous == old(parser).previous,
        final(parser).current == old(parser).current,
{
    let t = parser.current.unwrap();
    error_at(t, kind, scanner, parser);
}

/// Report an error at a given token; the compiler uses this for the token
/// it just consumed.
fn error(current: &Token, kind: DiagKind, scanner: &Scanner, parser: &mut Parser)
    ensures
        ps(*final(parser), *scanner) == sp_error_at(ps(*old(parser), *scanner), (*current)@, kind),
        final(parser).previous == old(parser).previous,
        final(parser).current == old(parser).current,
{
    error_at(*current, kind, scanner, parser);
}

impl Parser {
    /// Shift the token window and pull the next real token, reporting
    /// every error token the scanner hands back on the way.
    #[verifier::loop_isolation(false)]
    fn advance(&mut self, scanner: &mut Scanner)
        requires
            old(scanner).wf(),
        ensures
            final(scanner).wf(),
            final(scanner).source@ == old(scanner).source@,
            ps(*final(self), *final(scanner)) == sp_advance(ps(*old(self), *old(scanner))),
            final(self).current is Some,
            final(self).previous == old(self).current,
    {
        let ghost entry = ps(*self, *scanner);
        self.previous = self.current;
        let ghost l0 = PSt { prev: entry.cur, ..entry };
        proof {
            assert(ps(*self, *scanner) == l0);
        }
        loop
            invariant
                scanner.wf(),
                scanner.source@ == old(scanner).source@,
                self.previous == old(self).current,
                sp_advance_loop(l0) == sp_advance_loop(ps(*self, *scanner)),
            decreases scanner.source@.len() - scanner.current,
        {
            let ghost lh = ps(*self, *scanner);
            proof {
                lemma_scan_token_bounds(scanner.source@, scanner.current as int, scanner.line as int);
            }
            let t = scanner.scan_token();
            self.current = Some(t);
            if !matches!(t.typo, TokenType::TOKEN_ERROR) {
                proof {
                    assert(sp_advance_loop(lh) == ps(*self, *scanner));
                }
                return ;
            }
            let kind = match t.error {
                Some(ScanError::UnterminatedString) => DiagKind::UnterminatedString,
                _ => DiagKind::UnexpectedCharacter,
            };
            error_at(t, kind, scanner, self);
        }
    }
}

/// Advance past the current token when it has the expected kind, else
/// report `dk` at it.
fn consume(typo: TokenType, dk: DiagKind, parser: &mut Parser, scanner: &mut Scanner)
    requires
        old(scanner).wf(),
        old(parser).current is Some,
    ensures
        final(scanner).wf(),
        final(scanner).source@ == old(scanner).source@,
        ps(*final(parser), *final(scanner)) == sp_consume(
            ps(*old(parser), *old(scanner)),
            typo,
            dk,
        ),
        final(parser).current is Some,
        old(parser).previous is Some ==> final(parser).previous is Some,
{
    let cur = parser.current.unwrap();
    if cur.typo == typo {
        parser.advance(scanner);
    } else {
        error_at_current(dk, parser, scanner);
    }
}

/// Append one instruction byte to the chunk, attributed to the line of
/// the token just consumed.
fn emit_byte(byte: u8, parser: &Parser, compiling_chunk: &mut Chunk)
    requires
        old(compiling_chunk).wf(),
        parser.previous is Some,
    ensures
        final(compiling_chunk).wf(),
        final(compiling_chunk).code@ == old(compiling_chunk).code@.push(byte),
        lines_view(final(compiling_chunk).lines@) == lines_view(old(compiling_chunk).lines@).push(
            tok_or_eof(opt_token_view(parser.previous)).line,
        ),
        final(compiling_chunk).constants == old(compiling_chunk).constants,
{
    let line = parser.previous.unwrap().line;
    proof {
        lemma_lines_view_push(compiling_chunk.lines@, line);
    }
    compiling_chunk.write_chunk(byte, line);
}

fn emit_bytes(byte_1: u8, byte_2: u8, parser: &Parser, compiling_chunk: &mut Chunk)
    requires
        old(compiling_chunk).wf(),
        parser.previous is Some,
    ensures
        final(compiling_chunk).wf(),
        final(compiling_chunk).code@ == old(compiling_chunk).code@.push(byte_1).push(byte_2),
        lines_view(final(compiling_chunk).lines@) == lines_view(old(compiling_chunk).lines@).push(
            tok_or_eof(opt_token_view(parser.previous)).line,
        ).push(tok_or_eof(opt_token_view(parser.previous)).line),
        final(compiling_chunk).constants == old(compiling_chunk).constants,
{
    emit_byte(byte_1, parser, compiling_chunk);
    emit_byte(byte_2, parser, compiling_chunk);
}

/// Cap the compiled code with `RETURN`.
fn emit_return(parser: &Parser, compiling_chunk: &mut Chunk)
    requires
        old(compiling_chunk).wf(),
        parser.previous is Some,
    ensures
        final(compiling_chunk).wf(),
        final(compiling_chunk).code@ == old(compiling_chunk).code@.push(
            spec_opcode_byte(OpCode::OP_RETURN),
        ),
        lines_view(final(compiling_chunk).lines@) == lines_view(old(compiling_chunk).lines@).push(
            tok_or_eof(opt_token_view(parser.previous)).line,
        ),
        final(compiling_chunk).constants == old(compiling_chunk).constants,
{
    emit_byte(OpCode::OP_RETURN.byte(), parser, compiling_chunk);
}

fn end_compiler(parser: &Parser, compiling_chunk: &mut Chunk)
    requires
        old(compiling_chunk).wf(),
        parser.previous is Some,
    ensures
        final(compiling_chunk).wf(),
        final(compiling_chunk).code@ == old(compiling_chunk).code@.push(
            spec_opcode_byte(OpCode::OP_RETURN),
        ),
        lines_view(final(compiling_chunk).lines@) == lines_view(old(compiling_chunk).lines@).push(
            tok_or_eof(opt_token_view(parser.previous)).line,
        ),
        final(compiling_chunk).constants == old(compiling_chunk).constants,
{
    emit_return(parser, compiling_chunk);
}

/// Append the value to the constant pool and give its one-byte index;
/// report "too many constants" and substitute index 0 once the pool is
/// full.
fn make_constant(value: crate::value::Value, current_chunk: &mut Chunk, parser: &mut Parser, scanner: &Scanner) -> (index: u8)
    requires
        old(current_chunk).wf(),
        old(parser).previous is Some,
    ensures
        final(current_chunk).wf(),
        ({
            let r = sp_make_constant(cstate(*old(parser), *scanner, *old(current_chunk)), value);
            &&& index == r.1
            &&& st_matches(r.0, *final(parser), *scanner, *final(current_chunk))
        }),
        final(parser).previous == old(parser).previous,
        final(parser).current == old(parser).current,
{
    if current_chunk.constants.values.len() < 255 {
        current_chunk.add_constant(value)
    } else {
        let prev = parser.previous.unwrap();
        error(&prev, DiagKind::TooManyConstants, scanner, parser);
        0
    }
}

/// Emit `CONSTANT` with a freshly pooled value's index.
fn emit_constant(value: crate::value::Value, parser: &mut Parser, compiling_chunk: &mut Chunk, scanner: &Scanner)
    requires
        old(compiling_chunk).wf(),
        old(parser).previous is Some,
    ensures
        final(compiling_chunk).wf(),
        ({
            let r = sp_make_constant(cstate(*old(parser), *scanner, *old(compiling_chunk)), value);
            let st2 = sp_emit_two(r.0, spec_opcode_byte(OpCode::OP_CONSTANT), r.1);
            st_matches(st2, *final(parser), *scanner, *final(compiling_chunk))
        }),
        final(parser).previous == old(parser).previous,
        final(parser).current == old(parser).current,
{
    let index = make_constant(value, compiling_chunk, parser, scanner);
    emit_bytes(OpCode::OP_CONSTANT.byte(), index, parser, compiling_chunk);
}


/// The strict total order of binding strengths, from "none" to "primary".
#[allow(non_camel_case_types)]
#[derive(Debug, Clone, Copy, PartialEq, Eq, Structural)]
pub enum Precedence {
    PREC_NONE,
    PREC_ASSIGNMENT,
    PREC_OR,
    PREC_AND,
    PREC_EQUALITY,
    PREC_COMPARISON,
    PREC_TERM,
    PREC_FACTOR,
    PREC_UNARY,
    PREC_CALL,
    PREC_PRIMARY,
}

pub open spec fn prec_val(p: Precedence) -> int {
    match p {
        Precedence::PREC_NONE => 0,
        Precedence::PREC_ASSIGNMENT => 1,
        Precedence::PREC_OR => 2,
        Precedence::PREC_AND => 3,
        Precedence::PREC_EQUALITY => 4,
        Precedence::PREC_COMPARISON => 5,
        Precedence::PREC_TERM => 6,
        Precedence::PREC_FACTOR => 7,
        Precedence::PREC_UNARY => 8,
        Precedence::PREC_CALL => 9,
        Precedence::PREC_PRIMARY => 10,
    }
}

impl Precedence {
    pub fn value(self) -> (v: u8)
        ensures
            v as int == prec_val(self),
    {
        match self {
            Precedence::PREC_NONE => 0,
            Precedence::PREC_ASSIGNMENT => 1,
            Precedence::PREC_OR => 2,
            Precedence::PREC_AND => 3,
            Precedence::PREC_EQUALITY => 4,
            Precedence::PREC_COMPARISON => 5,
            Precedence::PREC_TERM => 6,
            Precedence::PREC_FACTOR => 7,
            Precedence::PREC_UNARY => 8,
            Precedence::PREC_CALL => 9,
            Precedence::PREC_PRIMARY => 10,
        }
    }

    /// The precedence one byte encodes; bytes beyond the order fall back
    /// to "none".
    pub fn from(value: u8) -> (p: Precedence)
        ensures
            prec_val(p) == if value <= 10 {
                value as int
            } else {
                0
            },
    {
        match value {
            0 => Precedence::PREC_NONE,
            1 => Precedence::PREC_ASSIGNMENT,
            2 => Precedence::PREC_OR,
            3 => Precedence::PREC_AND,
            4 => Precedence::PREC_EQUALITY,
            5 => Precedence::PREC_COMPARISON,
            6 => Precedence::PREC_TERM,
            7 => Precedence::PREC_FACTOR,
            8 => Precedence::PREC_UNARY,
            9 => Precedence::PREC_CALL,
            10 => Precedence::PREC_PRIMARY,
            _ => Precedence::PREC_NONE,
        }
    }
}

/// One row of the rule table: the token's prefix handler, its infix
/// handler, and its infix precedence, each handler a tagged identifier
/// that the climbing function dispatches on.
#[derive(Debug, Clone, Copy)]
pub struct ParseRule {
    pub prefix: Option<PrefixFn>,
    pub infix: Option<InfixFn>,
    pub precedence: Precedence,
}

/// The rule table, as a mapping from token kind to its row.
pub fn get_rule(typo: TokenType) -> (r: ParseRule)
    ensures
        r.prefix == sp_prefix(typo),
        r.infix == sp_infix(typo),
        prec_val(r.precedence) == sp_prec(typo),
{
    match typo {
        TokenType::TOKEN_LEFT_PAREN => ParseRule {
            prefix: Some(PrefixFn::Grouping),
            infix: None,
            precedence: Precedence::PREC_NONE,
        },
        TokenType::TOKEN_MINUS => ParseRule {
            prefix: Some(PrefixFn::Unary),
            infix: Some(InfixFn::Binary),
            precedence: Precedence::PREC_TERM,
        },
        TokenType::TOKEN_PLUS => ParseRule {
            prefix: None,
            infix: Some(InfixFn::Binary),
            precedence: Precedence::PREC_TERM,
        },
        TokenType::TOKEN_SLASH => ParseRule {
            prefix: None,
            infix: Some(InfixFn::Binary),
            precedence: Precedence::PREC_FACTOR,
        },
        TokenType::TOKEN_STAR => ParseRule {
            prefix: None,
            infix: Some(InfixFn::Binary),
            precedence: Precedence::PREC_FACTOR,
        },
        TokenType::TOKEN_NUMBER => ParseRule {
            prefix: Some(PrefixFn::Number),
            infix: None,
            precedence: Precedence::PREC_NONE,
        },
        _ => ParseRule { prefix: None, infix: None, precedence: Precedence::PREC_NONE },
    }
}

/// The number-literal handler: parse the lexeme just consumed as a value,
/// pool it, and emit `CONSTANT` with its index.
fn number(parser: &mut Parser, scanner: &mut Scanner, compiling_chunk: &mut Chunk, Ghost(st): Ghost<CState>) -> (g: Ghost<CState>)
    requires
        old(scanner).wf(),
        old(compiling_chunk).wf(),
        st_wf(st),
        st_matches(st, *old(parser), *old(scanner), *old(compiling_chunk)),
        old(parser).previous is Some,
        old(parser).current is Some,
    ensures
        *final(scanner) == *old(scanner),
        final(compiling_chunk).wf(),
        g@ == sp_number(st),
        st_matches(g@, *final(parser), *final(scanner), *final(compiling_chunk)),
        final(parser).previous is Some,
        final(parser).current is Some,
{
    let t = parser.previous.unwrap();
    let end = t.start + t.length;
    let lex_slice = vstd::slice::slice_subrange(scanner.source.as_slice(), t.start, end);
    let value = crate::value::value_of_lexeme(lex_slice);
    emit_constant(value, parser, compiling_chunk, scanner);
    Ghost(sp_number(st))
}

/// The grouping handler: the inner expression, then the required closing
/// parenthesis. It emits no bytecode of its own.
fn grouping(parser: &mut Parser, scanner: &mut Scanner, compiling_chunk: &mut Chunk, Ghost(st): Ghost<CState>) -> (g: Ghost<CState>)
    requires
        old(scanner).wf(),
        old(compiling_chunk).wf(),
        st_wf(st),
        st_matches(st, *old(parser), *old(scanner), *old(compiling_chunk)),
        old(parser).current is Some,
    ensures
        final(scanner).wf(),
        final(scanner).source@ == old(scanner).source@,
        final(compiling_chunk).wf(),
        g@ == sp_grouping(st),
        st_matches(g@, *final(parser), *final(scanner), *final(compiling_chunk)),
        final(parser).previous is Some,
        final(parser).current is Some,
    decreases m_of(st), 3int,
{
    let g1 = expression(parser, scanner, compiling_chunk, Ghost(st));
    consume(TokenType::TOKEN_RIGHT_PAREN, DiagKind::ExpectedRightParen, parser, scanner);
    Ghost(CState {
        lex: sp_consume(g1@.lex, TokenType::TOKEN_RIGHT_PAREN, DiagKind::ExpectedRightParen),
        ..g1@
    })
}

/// The unary handler: the operand at unary precedence, then `NEGATE` for
/// a minus operator.
fn unary(parser: &mut Parser, scanner: &mut Scanner, compiling_chunk: &mut Chunk, Ghost(st): Ghost<CState>) -> (g: Ghost<CState>)
    requires
        old(scanner).wf(),
        old(compiling_chunk).wf(),
        st_wf(st),
        st_matches(st, *old(parser), *old(scanner), *old(compiling_chunk)),
        old(parser).previous is Some,
        old(parser).current is Some,
    ensures
        final(scanner).wf(),
        final(scanner).source@ == old(scanner).source@,
        final(compiling_chunk).wf(),
        g@ == sp_unary(st),
        st_matches(g@, *final(parser), *final(scanner), *final(compiling_chunk)),
        final(parser).previous is Some,
        final(parser).current is Some,
    decreases m_of(st), 3int,
{
    let operator_type = parser.previous.unwrap().typo;
    let g1 = parse_precedence(Precedence::PREC_UNARY, parser, scanner, compiling_chunk, Ghost(st));
    match operator_type {
        TokenType::TOKEN_MINUS => {
            emit_byte(OpCode::OP_NEGATE.byte(), parser, compiling_chunk);
            let ghost st2 = sp_emit_byte(g1@, spec_opcode_byte(OpCode::OP_NEGATE));
            Ghost(CState { vals: apply_unary(st2.vals), ..st2 })
        },
        _ => g1,
    }
}

/// The binary handler: the right operand one level above this operator's
/// own precedence, then the matching arithmetic opcode.
fn binary(parser: &mut Parser, scanner: &mut Scanner, compiling_chunk: &mut Chunk, Ghost(st): Ghost<CState>) -> (g: Ghost<CState>)
    requires
        old(scanner).wf(),
        old(compiling_chunk).wf(),
        st_wf(st),
        st_matches(st, *old(parser), *old(scanner), *old(compiling_chunk)),
        old(parser).previous is Some,
        old(parser).current is Some,
    ensures
        final(scanner).wf(),
        final(scanner).source@ == old(scanner).source@,
        final(compiling_chunk).wf(),
        g@ == sp_binary(st),
        st_matches(g@, *final(parser), *final(scanner), *final(compiling_chunk)),
        final(parser).previous is Some,
        final(parser).current is Some,
    decreases m_of(st), 3int,
{
    let operator_type = parser.previous.unwrap().typo;
    let rule = get_rule(operator_type);
    let next = Precedence::from(rule.precedence.value() + 1);
    let g1 = parse_precedence(next, parser, scanner, compiling_chunk, Ghost(st));
    match operator_type {
        TokenType::TOKEN_PLUS => {
            emit_byte(OpCode::OP_ADD.byte(), parser, compiling_chunk);
            let ghost st2 = sp_emit_byte(g1@, spec_opcode_byte(OpCode::OP_ADD));
            Ghost(CState { vals: apply_binop(st2.vals, operator_type), ..st2 })
        },
        TokenType::TOKEN_MINUS => {
            emit_byte(OpCode::OP_SUBTRACT.byte(), parser, compiling_chunk);
            let ghost st2 = sp_emit_byte(g1@, spec_opcode_byte(OpCode::OP_SUBTRACT));
            Ghost(CState { vals: apply_binop(st2.vals, operator_type), ..st2 })
        },
        TokenType::TOKEN_STAR => {
            emit_byte(OpCode::OP_MULTIPLY.byte(), parser, compiling_chunk);
            let ghost st2 = sp_emit_byte(g1@, spec_opcode_byte(OpCode::OP_MULTIPLY));
            Ghost(CState { vals: apply_binop(st2.vals, operator_type), ..st2 })
        },
        TokenType::TOKEN_SLASH => {
            emit_byte(OpCode::OP_DIVIDE.byte(), parser, compiling_chunk);
            let ghost st2 = sp_emit_byte(g1@, spec_opcode_byte(OpCode::OP_DIVIDE));
            Ghost(CState { vals: apply_binop(st2.vals, operator_type), ..st2 })
        },
        _ => g1,
    }
}

/// Precedence climbing: consume one token, dispatch on its prefix rule
/// (or report "expected expression"), then fold in every infix operator
/// binding at least as tightly as `precedence`.
#[verifier::loop_isolation(false)]
fn parse_precedence(precedence: Precedence, parser: &mut Parser, scanner: &mut Scanner, chunk: &mut Chunk, Ghost(st): Ghost<CState>) -> (g: Ghost<CState>)
    requires
        old(scanner).wf(),
        old(chunk).wf(),
        st_wf(st),
        st_matches(st, *old(parser), *old(scanner), *old(chunk)),
        old(parser).current is Some,
        prec_val(precedence) >= 1,
    ensures
        final(scanner).wf(),
        final(scanner).source@ == old(scanner).source@,
        final(chunk).wf(),
        g@ == sp_parse_precedence(st, prec_val(precedence)),
        st_matches(g@, *final(parser), *final(scanner), *final(chunk)),
        final(parser).previous is Some,
        final(parser).current is Some,
    decreases m_of(st), 1int,
{
    let ghost pv = prec_val(precedence);
    parser.advance(scanner);
    proof {
        lemma_advance_measure(st.lex);
    }
    let ghost st1 = CState { lex: sp_advance(st.lex), ..st };
    let prev_t = parser.previous.unwrap();
    let rule = get_rule(prev_t.typo);
    let ghost mut gst = st1;
    match rule.prefix {
        None => {
            error(&prev_t, DiagKind::ExpectedExpression, scanner, parser);
            return Ghost(CState {
                lex: sp_error_at(st1.lex, prev_t@, DiagKind::ExpectedExpression),
                ..st1
            });
        },
        Some(PrefixFn::Number) => {
            let gn = number(parser, scanner, chunk, Ghost(st1));
            proof {
                lemma_m_number(st1);
                gst = gn@;
            }
        },
        Some(PrefixFn::Grouping) => {
            let gn = grouping(parser, scanner, chunk, Ghost(st1));
            proof {
                lemma_m_grouping(st1);
                gst = gn@;
            }
        },
        Some(PrefixFn::Unary) => {
            let gn = unary(parser, scanner, chunk, Ghost(st1));
            proof {
                lemma_m_unary(st1);
                gst = gn@;
            }
        },
    }
    let ghost stc = gst;
    proof {
        assert(sp_parse_precedence(st, pv) == sp_infix_loop(stc, pv));
    }
    loop
        invariant
            scanner.wf(),
            scanner.source@ == old(scanner).source@,
            chunk.wf(),
            st_wf(gst),
            st_matches(gst, *parser, *scanner, *chunk),
            parser.current is Some,
            parser.previous is Some,
            m_of(gst) < m_of(st),
            sp_infix_loop(gst, pv) == sp_infix_loop(stc, pv),
        decreases m_of(gst),
    {
        let cur_t = parser.current.unwrap();
        let rule2 = get_rule(cur_t.typo);
        if precedence.value() <= rule2.precedence.value() {
            let ghost gh = gst;
            parser.advance(scanner);
            proof {
                lemma_advance_measure(gh.lex);
            }
            let ghost gst1 = CState { lex: sp_advance(gh.lex), ..gh };
            match rule2.infix {
                Some(InfixFn::Binary) => {
                    let gb = binary(parser, scanner, chunk, Ghost(gst1));
                    proof {
                        lemma_m_binary(gst1);
                        assert(sp_infix_loop(gh, pv) == sp_infix_loop(clamped(gst1, sp_binary(gst1)), pv));
                        gst = gb@;
                    }
                },
                None => {
                    proof {
                        assert(false);
                    }
                },
            }
        } else {
            proof {
                assert(sp_infix_loop(gst, pv) == gst);
            }
            break ;
        }
    }
    Ghost(gst)
}

/// An expression: a climb from the lowest real precedence.
fn expression(parser: &mut Parser, scanner: &mut Scanner, compiling_chunk: &mut Chunk, Ghost(st): Ghost<CState>) -> (g: Ghost<CState>)
    requires
        old(scanner).wf(),
        old(compiling_chunk).wf(),
        st_wf(st),
        st_matches(st, *old(parser), *old(scanner), *old(compiling_chunk)),
        old(parser).current is Some,
    ensures
        final(scanner).wf(),
        final(scanner).source@ == old(scanner).source@,
        final(compiling_chunk).wf(),
        g@ == sp_expression(st),
        st_matches(g@, *final(parser), *final(scanner), *final(compiling_chunk)),
        final(parser).previous is Some,
        final(parser).current is Some,
    decreases m_of(st), 2int,
{
    parse_precedence(Precedence::PREC_ASSIGNMENT, parser, scanner, compiling_chunk, Ghost(st))
}

/// Compile one source unit into `chunk` and hand back whether it
/// succeeded together with every diagnostic the pass reported. On success
/// the chunk holds a directly executable instruction stream terminated by
/// `RETURN`; on failure its partial contents must not be executed.
pub fn compile_and_report(source: Vec<u8>, chunk: &mut Chunk) -> (r: (bool, Vec<Diagnostic>))
    requires
        old(chunk).wf(),
        old(chunk).code@ == Seq::<u8>::empty(),
        old(chunk).constants.values@ == Seq::<u64>::empty(),
        old(chunk).lines@ == Seq::<usize>::empty(),
        source@.len() < usize::MAX,
    ensures
        ({
            let f = sp_compile(source@);
            &&& r.0 == !f.lex.had_error
            &&& final(chunk).wf()
            &&& final(chunk).code@ == f.code
            &&& final(chunk).constants.values@ == f.consts
            &&& lines_view(final(chunk).lines@) == f.lines
            &&& diags_view(r.1@) == f.lex.diags
        }),
{
    let mut scanner = Scanner::init_scanner(source);
    let mut parser = Parser {
        previous: None,
        current: None,
        had_error: false,
        panic_mode: false,
        diagnostics: Vec::new(),
    };
    let ghost st0 = sp_init_state(scanner.source@);
    proof {
        assert(diags_view(parser.diagnostics@) =~= Seq::<SpecDiag>::empty());
        assert(lines_view(chunk.lines@) =~= Seq::<int>::empty());
        assert(st_matches(st0, parser, scanner, *chunk));
    }
    parser.advance(&mut scanner);
    proof {
        lemma_advance_measure(st0.lex);
    }
    let ghost st1 = CState { lex: sp_advance(st0.lex), ..st0 };
    let g2 = expression(&mut parser, &mut scanner, chunk, Ghost(st1));
    consume(TokenType::TOKEN_EOF, DiagKind::ExpectedEndOfExpression, &mut parser, &mut scanner);
    let ghost st3 = CState {
        lex: sp_consume(g2@.lex, TokenType::TOKEN_EOF, DiagKind::ExpectedEndOfExpression),
        ..g2@
    };
    end_compiler(&parser, chunk);
    let success = !parser.had_error;
    (success, parser.diagnostics)
}

/// Compile one source unit into `chunk`: the success flag alone, for
/// callers that do not report diagnostics.
pub fn compile(source: Vec<u8>, chunk: &mut Chunk) -> (success: bool)
    requires
        old(chunk).wf(),
        old(chunk).code@ == Seq::<u8>::empty(),
        old(chunk).constants.values@ == Seq::<u64>::empty(),
        old(chunk).lines@ == Seq::<usize>::empty(),
        source@.len() < usize::MAX,
    ensures
        success == sp_compile_ok(source@),
        final(chunk).wf(),
        final(chunk).code@ == sp_compile(source@).code,
        final(chunk).constants.values@ == sp_compile(source@).consts,
        lines_view(final(chunk).lines@) == sp_compile(source@).lines,
{
    let r = compile_and_report(source, chunk);
    r.0
}

} // verus!
