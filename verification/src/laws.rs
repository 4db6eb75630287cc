use vstd::prelude::*;

use crate::chunk::{OpCode, spec_opcode_of_byte};
use crate::compiler::{
    apply_binop, apply_unary, clamped, lemma_advance_measure, lemma_m_binary, lemma_m_consume,
    lemma_m_expression, lemma_m_grouping, lemma_m_infix_loop, lemma_m_number,
    lemma_m_parse_precedence, lemma_m_unary, m_of, sp_advance, sp_binary, sp_compile,
    sp_compile_ok, sp_consume, sp_emit_byte, sp_expression, sp_grouping, sp_infix_loop,
    sp_number, sp_parse_precedence, sp_prec, sp_prefix, sp_unary, st_wf, tok_or_eof, CState,
    DiagKind, PrefixFn, consts_have_room,
};
use crate::scanner::TokenType;
use crate::value::{add_bits, bits_of_lexeme, div_bits, mul_bits, neg_bits, sub_bits};
use crate::vm::{spec_binop, spec_run, RunOutcome};

verus! {

/// Running `code` from `ip` with operand stack `stack` straight to the end
/// of the code, without meeting `RETURN`, an undecodable byte, or an
/// underflow: the stack left when the instruction pointer reaches the end.
/// Expression code emitted by the compiler runs to the end this way.
pub open spec fn run_to_end(code: Seq<u8>, consts: Seq<u64>, ip: int, stack: Seq<u64>) -> Option<
    Seq<u64>,
>
    decreases code.len() - ip,
{
    if ip < 0 || ip > code.len() {
        None
    } else if ip == code.len() {
        Some(stack)
    } else {
        match spec_opcode_of_byte(code[ip]) {
            Err(_) => None,
            Ok(op) => match op {
                OpCode::OP_RETURN => None,
                OpCode::OP_CONSTANT => if ip + 1 < code.len() && (code[ip + 1] as int)
                    < consts.len() {
                    run_to_end(code, consts, ip + 2, stack.push(consts[code[ip + 1] as int]))
                } else {
                    None
                },
                OpCode::OP_NEGATE => if stack.len() >= 1 {
                    run_to_end(
                        code,
                        consts,
                        ip + 1,
                        stack.update(stack.len() - 1, neg_bits(stack.last())),
                    )
                } else {
                    None
                },
                OpCode::OP_ADD => if stack.len() >= 2 {
                    run_to_end(code, consts, ip + 1, spec_binop(stack, |a: u64, b: u64| add_bits(a, b)))
                } else {
                    None
                },
                OpCode::OP_SUBTRACT => if stack.len() >= 2 {
                    run_to_end(code, consts, ip + 1, spec_binop(stack, |a: u64, b: u64| sub_bits(a, b)))
                } else {
                    None
                },
                OpCode::OP_MULTIPLY => if stack.len() >= 2 {
                    run_to_end(code, consts, ip + 1, spec_binop(stack, |a: u64, b: u64| mul_bits(a, b)))
                } else {
                    None
                },
                OpCode::OP_DIVIDE => if stack.len() >= 2 {
                    run_to_end(code, consts, ip + 1, spec_binop(stack, |a: u64, b: u64| div_bits(a, b)))
                } else {
                    None
                },
            },
        }
    }
}

/// A straight-line run is unchanged by appending code after the end and
/// constants after the pool, and continues from the old end with the
/// stack it had produced.
pub proof fn lemma_rte_through(
    code: Seq<u8>,
    ext: Seq<u8>,
    consts: Seq<u64>,
    more: Seq<u64>,
    ip: int,
    stack: Seq<u64>,
)
    requires
        run_to_end(code, consts, ip, stack) is Some,
    ensures
        run_to_end(code + ext, consts + more, ip, stack) == run_to_end(
            code + ext,
            consts + more,
            code.len() as int,
            run_to_end(code, consts, ip, stack).unwrap(),
        ),
    decreases code.len() - ip,
{
    if ip == code.len() {
    } else {
        assert((code + ext)[ip] == code[ip]);
        match spec_opcode_of_byte(code[ip]) {
            Err(_) => {},
            Ok(op) => match op {
                OpCode::OP_RETURN => {},
                OpCode::OP_CONSTANT => {
                    assert((code + ext)[ip + 1] == code[ip + 1]);
                    assert((consts + more)[code[ip + 1] as int] == consts[code[ip + 1] as int]);
                    lemma_rte_through(
                        code,
                        ext,
                        consts,
                        more,
                        ip + 2,
                        stack.push(consts[code[ip + 1] as int]),
                    );
                },
                _ => {
                    lemma_rte_through(
                        code,
                        ext,
                        consts,
                        more,
                        ip + 1,
                        run_one_step_stack(code, consts, ip, stack),
                    );
                },
            },
        }
    }
}

/// The stack after the single one-byte instruction at `ip`.
pub open spec fn run_one_step_stack(
    code: Seq<u8>,
    consts: Seq<u64>,
    ip: int,
    stack: Seq<u64>,
) -> Seq<u64> {
    match spec_opcode_of_byte(code[ip]) {
        Ok(OpCode::OP_NEGATE) => stack.update(stack.len() - 1, neg_bits(stack.last())),
        Ok(OpCode::OP_ADD) => spec_binop(stack, |a: u64, b: u64| add_bits(a, b)),
        Ok(OpCode::OP_SUBTRACT) => spec_binop(stack, |a: u64, b: u64| sub_bits(a, b)),
        Ok(OpCode::OP_MULTIPLY) => spec_binop(stack, |a: u64, b: u64| mul_bits(a, b)),
        Ok(OpCode::OP_DIVIDE) => spec_binop(stack, |a: u64, b: u64| div_bits(a, b)),
        _ => stack,
    }
}

/// The fetch-decode-execute loop agrees with a straight-line run over the
/// part of the code the run covers: whatever `spec_run` yields on the
/// extended code from `ip`, it yields from the old end with the run's
/// stack.
pub proof fn lemma_run_through(
    code: Seq<u8>,
    ext: Seq<u8>,
    consts: Seq<u64>,
    more: Seq<u64>,
    ip: int,
    stack: Seq<u64>,
)
    requires
        run_to_end(code, consts, ip, stack) is Some,
    ensures
        spec_run(code + ext, consts + more, ip, stack) == spec_run(
            code + ext,
            consts + more,
            code.len() as int,
            run_to_end(code, consts, ip, stack).unwrap(),
        ),
    decreases code.len() - ip,
{
    if ip == code.len() {
    } else {
        assert((code + ext)[ip] == code[ip]);
        match spec_opcode_of_byte(code[ip]) {
            Err(_) => {},
            Ok(op) => match op {
                OpCode::OP_RETURN => {},
                OpCode::OP_CONSTANT => {
                    assert((code + ext)[ip + 1] == code[ip + 1]);
                    assert((consts + more)[code[ip + 1] as int] == consts[code[ip + 1] as int]);
                    lemma_run_through(
                        code,
                        ext,
                        consts,
                        more,
                        ip + 2,
                        stack.push(consts[code[ip + 1] as int]),
                    );
                },
                _ => {
                    lemma_run_through(
                        code,
                        ext,
                        consts,
                        more,
                        ip + 1,
                        run_one_step_stack(code, consts, ip, stack),
                    );
                },
            },
        }
    }
}

/// The compiler state's evaluation invariant: the code emitted so far,
/// run from an empty stack, produces exactly the direct-evaluation stack.
pub open spec fn rte_inv(st: CState) -> bool {
    run_to_end(st.code, st.consts, 0, Seq::<u64>::empty()) == Some(st.vals)
}

/// One value was pushed, everything below untouched.
pub open spec fn pushes_one(a: Seq<u64>, b: Seq<u64>) -> bool {
    &&& b.len() == a.len() + 1
    &&& b.take(a.len() as int) == a
}

/// The stack height is kept and everything below the top is untouched.
pub open spec fn keeps_below_top(a: Seq<u64>, b: Seq<u64>) -> bool {
    &&& b.len() == a.len()
    &&& b.take(a.len() - 1) == a.take(a.len() - 1)
}

/// The number handler preserves the evaluation invariant and pushes the
/// literal's value.
proof fn lemma_eval_number(st: CState)
    requires
        st_wf(st),
        rte_inv(st),
        !st.lex.had_error,
        !st.lex.panic_mode,
    ensures
        ({
            let r = sp_number(st);
            !r.lex.had_error ==> {
                &&& !r.lex.panic_mode
                &&& rte_inv(r)
                &&& pushes_one(st.vals, r.vals)
            }
        }),
{
    let t = tok_or_eof(st.lex.prev);
    let lexeme = st.lex.src.subrange(t.start, t.start + t.length);
    let v = bits_of_lexeme(lexeme);
    if consts_have_room(st.consts) {
        let idx = st.consts.len() as int;
        let consts1 = st.consts.push(v);
        let ext = seq![0u8, idx as u8];
        assert(st.consts + seq![v] =~= consts1);
        lemma_rte_through(st.code, ext, st.consts, seq![v], 0, Seq::<u64>::empty());
        let code2 = st.code + ext;
        assert(code2[st.code.len() as int] == 0u8);
        assert(code2[st.code.len() as int + 1] == idx as u8);
        assert(consts1[idx] == v);
        assert(run_to_end(code2, consts1, st.code.len() as int, st.vals) == run_to_end(
            code2,
            consts1,
            st.code.len() as int + 2,
            st.vals.push(v),
        ));
        assert(run_to_end(code2, consts1, st.code.len() as int + 2, st.vals.push(v)) == Some(
            st.vals.push(v),
        ));
        let r = sp_number(st);
        assert(r.code =~= code2);
        assert(r.consts == consts1);
        assert(r.vals == st.vals.push(v));
        assert(st.vals.push(v).take(st.vals.len() as int) =~= st.vals);
    }
}

/// Precedence climbing preserves the evaluation invariant and pushes
/// exactly one value: the expression's direct evaluation.
pub proof fn lemma_eval_parse_precedence(st: CState, min_prec: int)
    requires
        st_wf(st),
        rte_inv(st),
        !st.lex.had_error,
        !st.lex.panic_mode,
    ensures
        ({
            let r = sp_parse_precedence(st, min_prec);
            !r.lex.had_error ==> {
                &&& !r.lex.panic_mode
                &&& rte_inv(r)
                &&& pushes_one(st.vals, r.vals)
            }
        }),
    decreases m_of(st), 1int,
{
    lemma_advance_measure(st.lex);
    let st1 = CState { lex: sp_advance(st.lex), ..st };
    let pt = tok_or_eof(st1.lex.prev);
    let r = sp_parse_precedence(st, min_prec);
    match sp_prefix(pt.kind) {
        None => {},
        Some(PrefixFn::Number) => {
            lemma_m_number(st1);
            if !st1.lex.had_error {
                lemma_eval_number(st1);
                let hst = sp_number(st1);
                lemma_m_infix_loop(clamped(st1, hst), min_prec);
                if !hst.lex.had_error {
                    lemma_eval_infix_loop(hst, min_prec);
                    if !r.lex.had_error {
                        assert(hst.vals.take(hst.vals.len() - 1) =~= st.vals);
                        assert(r.vals.take(st.vals.len() as int) =~= st.vals);
                    }
                }
            } else {
                lemma_m_infix_loop(clamped(st1, sp_number(st1)), min_prec);
            }
        },
        Some(PrefixFn::Grouping) => {
            lemma_m_grouping(st1);
            if !st1.lex.had_error {
                lemma_eval_grouping(st1);
                let hst = sp_grouping(st1);
                lemma_m_infix_loop(clamped(st1, hst), min_prec);
                if !hst.lex.had_error {
                    lemma_eval_infix_loop(hst, min_prec);
                    if !r.lex.had_error {
                        assert(hst.vals.take(hst.vals.len() - 1) =~= st.vals);
                        assert(r.vals.take(st.vals.len() as int) =~= st.vals);
                    }
                }
            } else {
                lemma_m_infix_loop(clamped(st1, sp_grouping(st1)), min_prec);
            }
        },
        Some(PrefixFn::Unary) => {
            lemma_m_unary(st1);
            if !st1.lex.had_error {
                lemma_eval_unary(st1);
                let hst = sp_unary(st1);
                lemma_m_infix_loop(clamped(st1, hst), min_prec);
                if !hst.lex.had_error {
                    lemma_eval_infix_loop(hst, min_prec);
                    if !r.lex.had_error {
                        assert(hst.vals.take(hst.vals.len() - 1) =~= st.vals);
                        assert(r.vals.take(st.vals.len() as int) =~= st.vals);
                    }
                }
            } else {
                lemma_m_infix_loop(clamped(st1, sp_unary(st1)), min_prec);
            }
        },
    }
}

/// The infix loop preserves the evaluation invariant, the stack height,
/// and everything below the stack's top.
pub proof fn lemma_eval_infix_loop(st: CState, min_prec: int)
    requires
        st_wf(st),
        rte_inv(st),
        !st.lex.had_error,
        !st.lex.panic_mode,
        st.vals.len() >= 1,
    ensures
        ({
            let r = sp_infix_loop(st, min_prec);
            !r.lex.had_error ==> {
                &&& !r.lex.panic_mode
                &&& rte_inv(r)
                &&& keeps_below_top(st.vals, r.vals)
            }
        }),
    decreases m_of(st), 0int,
{
    let cp = sp_prec(tok_or_eof(st.lex.cur).kind);
    let r = sp_infix_loop(st, min_prec);
    if 1 <= min_prec <= cp {
        lemma_advance_measure(st.lex);
        let st1 = CState { lex: sp_advance(st.lex), ..st };
        lemma_m_binary(st1);
        let st2 = clamped(st1, sp_binary(st1));
        lemma_m_infix_loop(st2, min_prec);
        if !st1.lex.had_error {
            lemma_eval_binary(st1);
            if !sp_binary(st1).lex.had_error {
                lemma_eval_infix_loop(sp_binary(st1), min_prec);
                if !r.lex.had_error {
                    let b = sp_binary(st1);
                    assert(b.vals.take(b.vals.len() - 1) =~= st.vals.take(st.vals.len() - 1));
                    assert(r.vals.take(st.vals.len() - 1) =~= st.vals.take(st.vals.len() - 1));
                }
            }
        }
    }
}

/// The grouping handler preserves the evaluation invariant and pushes the
/// inner expression's value.
pub proof fn lemma_eval_grouping(st: CState)
    requires
        st_wf(st),
        rte_inv(st),
        !st.lex.had_error,
        !st.lex.panic_mode,
    ensures
        ({
            let r = sp_grouping(st);
            !r.lex.had_error ==> {
                &&& !r.lex.panic_mode
                &&& rte_inv(r)
                &&& pushes_one(st.vals, r.vals)
            }
        }),
    decreases m_of(st), 3int,
{
    lemma_eval_expression(st);
    let st1 = sp_expression(st);
    lemma_m_expression(st);
    lemma_m_consume(st1.lex, TokenType::TOKEN_RIGHT_PAREN, DiagKind::ExpectedRightParen);
}

/// An expression pushes exactly its direct evaluation.
pub proof fn lemma_eval_expression(st: CState)
    requires
        st_wf(st),
        rte_inv(st),
        !st.lex.had_error,
        !st.lex.panic_mode,
    ensures
        ({
            let r = sp_expression(st);
            !r.lex.had_error ==> {
                &&& !r.lex.panic_mode
                &&& rte_inv(r)
                &&& pushes_one(st.vals, r.vals)
            }
        }),
    decreases m_of(st), 2int,
{
    lemma_eval_parse_precedence(st, 1);
}

/// The unary handler preserves the evaluation invariant and pushes the
/// negation of its operand's value.
pub proof fn lemma_eval_unary(st: CState)
    requires
        st_wf(st),
        rte_inv(st),
        !st.lex.had_error,
        !st.lex.panic_mode,
    ensures
        ({
            let r = sp_unary(st);
            !r.lex.had_error ==> {
                &&& !r.lex.panic_mode
                &&& rte_inv(r)
                &&& pushes_one(st.vals, r.vals)
            }
        }),
    decreases m_of(st), 3int,
{
    let op = tok_or_eof(st.lex.prev).kind;
    lemma_eval_parse_precedence(st, 8);
    lemma_m_parse_precedence(st, 8);
    let st1 = sp_parse_precedence(st, 8);
    let r = sp_unary(st);
    if op == TokenType::TOKEN_MINUS && !st1.lex.had_error && !r.lex.had_error {
        let st2 = sp_emit_byte(st1, 5u8);
        let ext = seq![5u8];
        lemma_rte_through(st1.code, ext, st1.consts, Seq::<u64>::empty(), 0, Seq::<u64>::empty());
        assert(st1.consts + Seq::<u64>::empty() =~= st1.consts);
        let code2 = st1.code + ext;
        assert(code2[st1.code.len() as int] == 5u8);
        assert(st1.vals.len() >= 1);
        assert(run_to_end(code2, st1.consts, st1.code.len() as int, st1.vals) == run_to_end(
            code2,
            st1.consts,
            st1.code.len() as int + 1,
            st1.vals.update(st1.vals.len() - 1, neg_bits(st1.vals.last())),
        ));
        assert(r.code =~= code2);
        assert(r.vals == apply_unary(st1.vals));
        assert(apply_unary(st1.vals) == st1.vals.update(st1.vals.len() - 1, neg_bits(st1.vals.last())));
        assert(r.vals.take(st.vals.len() as int) =~= st.vals);
    }
}

/// The binary handler folds the two topmost values into one with the
/// operator's arithmetic, in operand order.
pub proof fn lemma_eval_binary(st: CState)
    requires
        st_wf(st),
        rte_inv(st),
        !st.lex.had_error,
        !st.lex.panic_mode,
        st.vals.len() >= 1,
        sp_prec(tok_or_eof(st.lex.prev).kind) > 0,
    ensures
        ({
            let r = sp_binary(st);
            !r.lex.had_error ==> {
                &&& !r.lex.panic_mode
                &&& rte_inv(r)
                &&& keeps_below_top(st.vals, r.vals)
            }
        }),
    decreases m_of(st), 3int,
{
    let op = tok_or_eof(st.lex.prev).kind;
    lemma_eval_parse_precedence(st, sp_prec(op) + 1);
    lemma_m_parse_precedence(st, sp_prec(op) + 1);
    let st1 = sp_parse_precedence(st, sp_prec(op) + 1);
    let r = sp_binary(st);
    if !st1.lex.had_error && !r.lex.had_error {
        let b = crate::compiler::byte_of_binop(op);
        let st2 = sp_emit_byte(st1, b);
        let ext = seq![b];
        lemma_rte_through(st1.code, ext, st1.consts, Seq::<u64>::empty(), 0, Seq::<u64>::empty());
        assert(st1.consts + Seq::<u64>::empty() =~= st1.consts);
        let code2 = st1.code + ext;
        assert(code2[st1.code.len() as int] == b);
        assert(st1.vals.len() >= 2);
        assert(run_to_end(code2, st1.consts, st1.code.len() as int, st1.vals) == run_to_end(
            code2,
            st1.consts,
            st1.code.len() as int + 1,
            run_one_step_stack(code2, st1.consts, st1.code.len() as int, st1.vals),
        ));
        assert(run_one_step_stack(code2, st1.consts, st1.code.len() as int, st1.vals)
            == apply_binop(st1.vals, op));
        assert(r.code =~= code2);
        assert(r.vals == apply_binop(st1.vals, op));
        assert(r.vals.take(st.vals.len() - 1) =~= st.vals.take(st.vals.len() - 1));
    }
}

/// A successful compile emits code that, executed by the virtual machine
/// from an empty stack, returns exactly the source's direct evaluation
/// under standard precedence and left associativity: the single value the
/// specification parser computes by applying the arithmetic operations as
/// it climbs.
pub proof fn lemma_compile_evaluates(src: Seq<u8>)
    ensures
        sp_compile_ok(src) ==> ({
            let f = sp_compile(src);
            &&& f.vals.len() == 1
            &&& spec_run(f.code, f.consts, 0, Seq::<u64>::empty()) == RunOutcome::Done {
                value: f.vals.last(),
            }
        }),
{
    if sp_compile_ok(src) {
        let st0 = crate::compiler::sp_init_state(src);
        lemma_advance_measure(st0.lex);
        let st1 = CState { lex: sp_advance(st0.lex), ..st0 };
        let st2 = sp_expression(st1);
        lemma_m_expression(st1);
        let st3 = CState {
            lex: sp_consume(st2.lex, TokenType::TOKEN_EOF, DiagKind::ExpectedEndOfExpression),
            ..st2
        };
        lemma_m_consume(st2.lex, TokenType::TOKEN_EOF, DiagKind::ExpectedEndOfExpression);
        let f = sp_compile(src);
        assert(!st2.lex.had_error);
        assert(!st1.lex.had_error);
        assert(rte_inv(st1));
        lemma_eval_expression(st1);
        assert(rte_inv(st2));
        assert(pushes_one(st1.vals, st2.vals));
        assert(st2.vals.len() == 1);
        assert(rte_inv(st3));
        let ext = seq![6u8];
        lemma_run_through(st3.code, ext, st3.consts, Seq::<u64>::empty(), 0, Seq::<u64>::empty());
        assert(st3.consts + Seq::<u64>::empty() =~= st3.consts);
        let code2 = st3.code + ext;
        assert(code2[st3.code.len() as int] == 6u8);
        assert(spec_run(code2, st3.consts, st3.code.len() as int, st3.vals) == (RunOutcome::Done {
            value: st3.vals.last(),
        }));
        assert(f.code =~= code2);
        assert(f.consts == st3.consts);
        assert(f.vals == st3.vals);
    }
}


/// The chunk part of a compiler state is parallel: one line-table entry
/// for each code byte.
pub open spec fn ck_wf(st: CState) -> bool {
    st.lines.len() == st.code.len()
}

/// One recorded literal emission still decodes to its literal: the code
/// holds `CONSTANT` then the pool index, the pool holds exactly the
/// lexeme's value at that index, and both emitted bytes carry the
/// emitting token's source line.
pub open spec fn lit_ok(st: CState, k: int) -> bool {
    let lr = st.lits[k];
    &&& 0 <= lr.off
    &&& lr.off + 1 < st.code.len()
    &&& st.code[lr.off] == crate::chunk::spec_opcode_byte(OpCode::OP_CONSTANT)
    &&& st.code[lr.off + 1] as int == lr.idx
    &&& 0 <= lr.idx < st.consts.len()
    &&& st.consts[lr.idx] == bits_of_lexeme(lr.lexeme)
    &&& st.lines[lr.off] == lr.line
    &&& st.lines[lr.off + 1] == lr.line
}

pub open spec fn good_lits(st: CState) -> bool {
    forall|k: int| 0 <= k < st.lits.len() ==> lit_ok(st, k)
}

/// A state whose chunk only grew, with its literal records untouched,
/// keeps every record good.
proof fn lemma_lits_extend(a: CState, b: CState)
    requires
        ck_wf(a),
        ck_wf(b),
        good_lits(a),
        b.lits == a.lits,
        a.code.len() <= b.code.len(),
        b.code.take(a.code.len() as int) == a.code,
        b.lines.take(a.code.len() as int) == a.lines,
        a.consts.len() <= b.consts.len(),
        b.consts.take(a.consts.len() as int) == a.consts,
    ensures
        good_lits(b),
{
    assert forall|k: int| 0 <= k < b.lits.len() implies lit_ok(b, k) by {
        assert(lit_ok(a, k));
        let lr = a.lits[k];
        assert(b.code[lr.off] == b.code.take(a.code.len() as int)[lr.off]);
        assert(b.code[lr.off + 1] == b.code.take(a.code.len() as int)[lr.off + 1]);
        assert(b.lines[lr.off] == b.lines.take(a.code.len() as int)[lr.off]);
        assert(b.lines[lr.off + 1] == b.lines.take(a.code.len() as int)[lr.off + 1]);
        assert(b.consts[lr.idx] == b.consts.take(a.consts.len() as int)[lr.idx]);
    }
}

/// A state with the same chunk and records keeps every record good.
proof fn lemma_lits_same_chunk(a: CState, b: CState)
    requires
        good_lits(a),
        b.code == a.code,
        b.lines == a.lines,
        b.consts == a.consts,
        b.lits == a.lits,
    ensures
        good_lits(b),
{
    assert forall|k: int| 0 <= k < b.lits.len() implies lit_ok(b, k) by {
        assert(lit_ok(a, k));
    }
}

/// The number handler adds one good literal record and keeps the rest.
proof fn lemma_lits_number(st: CState)
    requires
        st_wf(st),
        ck_wf(st),
        good_lits(st),
    ensures
        ck_wf(sp_number(st)),
        good_lits(sp_number(st)),
{
    let t = tok_or_eof(st.lex.prev);
    let lexeme = st.lex.src.subrange(t.start, t.start + t.length);
    let v = bits_of_lexeme(lexeme);
    let r = sp_number(st);
    if consts_have_room(st.consts) {
        let idx = st.consts.len() as int;
        let off = st.code.len() as int;
        assert(r.code == st.code.push(0u8).push(idx as u8));
        assert(r.lines == st.lines.push(t.line).push(t.line));
        assert(r.consts == st.consts.push(v));
        assert(r.lits == st.lits.push(
            crate::compiler::LitRec { off, idx: idx as u8 as int, lexeme, line: t.line },
        ));
        assert(r.code.take(off) =~= st.code);
        assert(r.lines.take(off) =~= st.lines);
        assert(r.consts.take(idx) =~= st.consts);
        assert forall|k: int| 0 <= k < r.lits.len() implies lit_ok(r, k) by {
            if k < st.lits.len() {
                assert(lit_ok(st, k));
                let lr = st.lits[k];
                assert(r.code[lr.off] == st.code[lr.off]);
                assert(r.code[lr.off + 1] == st.code[lr.off + 1]);
                assert(r.lines[lr.off] == st.lines[lr.off]);
                assert(r.lines[lr.off + 1] == st.lines[lr.off + 1]);
                assert(r.consts[lr.idx] == st.consts[lr.idx]);
            } else {
                assert(r.code[off] == 0u8);
                assert(r.code[off + 1] == idx as u8);
                assert(r.consts[idx] == v);
                assert(r.lines[off] == t.line);
                assert(r.lines[off + 1] == t.line);
            }
        }
    } else {
        assert(r.code == st.code.push(0u8).push(0u8));
        assert(r.lines == st.lines.push(t.line).push(t.line));
        assert(r.lits == st.lits);
        assert(r.consts == st.consts);
        assert(r.code.take(st.code.len() as int) =~= st.code);
        assert(r.lines.take(st.code.len() as int) =~= st.lines);
        assert(r.consts.take(st.consts.len() as int) =~= st.consts);
        lemma_lits_extend(st, r);
    }
}

/// Every climbing function preserves the chunk's parallel shape and the
/// goodness of every literal record.
pub proof fn lemma_lits_parse_precedence(st: CState, min_prec: int)
    requires
        st_wf(st),
        ck_wf(st),
        good_lits(st),
    ensures
        ck_wf(sp_parse_precedence(st, min_prec)),
        good_lits(sp_parse_precedence(st, min_prec)),
    decreases m_of(st), 1int,
{
    lemma_advance_measure(st.lex);
    let st1 = CState { lex: sp_advance(st.lex), ..st };
    lemma_lits_same_chunk(st, st1);
    let pt = tok_or_eof(st1.lex.prev);
    match sp_prefix(pt.kind) {
        None => {
            lemma_lits_same_chunk(
                st1,
                CState {
                    lex: crate::compiler::sp_error_at(
                        st1.lex,
                        pt,
                        DiagKind::ExpectedExpression,
                    ),
                    ..st1
                },
            );
        },
        Some(PrefixFn::Number) => {
            lemma_m_number(st1);
            lemma_lits_number(st1);
            lemma_lits_infix_loop(clamped(st1, sp_number(st1)), min_prec);
        },
        Some(PrefixFn::Grouping) => {
            lemma_m_grouping(st1);
            lemma_lits_grouping(st1);
            lemma_lits_infix_loop(clamped(st1, sp_grouping(st1)), min_prec);
        },
        Some(PrefixFn::Unary) => {
            lemma_m_unary(st1);
            lemma_lits_unary(st1);
            lemma_lits_infix_loop(clamped(st1, sp_unary(st1)), min_prec);
        },
    }
}

pub proof fn lemma_lits_infix_loop(st: CState, min_prec: int)
    requires
        st_wf(st),
        ck_wf(st),
        good_lits(st),
    ensures
        ck_wf(sp_infix_loop(st, min_prec)),
        good_lits(sp_infix_loop(st, min_prec)),
    decreases m_of(st), 0int,
{
    let cp = sp_prec(tok_or_eof(st.lex.cur).kind);
    if 1 <= min_prec <= cp {
        lemma_advance_measure(st.lex);
        let st1 = CState { lex: sp_advance(st.lex), ..st };
        lemma_lits_same_chunk(st, st1);
        lemma_m_binary(st1);
        lemma_lits_binary(st1);
        lemma_lits_infix_loop(clamped(st1, sp_binary(st1)), min_prec);
    }
}

pub proof fn lemma_lits_grouping(st: CState)
    requires
        st_wf(st),
        ck_wf(st),
        good_lits(st),
    ensures
        ck_wf(sp_grouping(st)),
        good_lits(sp_grouping(st)),
    decreases m_of(st), 3int,
{
    lemma_lits_expression(st);
    let st1 = sp_expression(st);
    lemma_lits_same_chunk(st1, sp_grouping(st));
}

pub proof fn lemma_lits_expression(st: CState)
    requires
        st_wf(st),
        ck_wf(st),
        good_lits(st),
    ensures
        ck_wf(sp_expression(st)),
        good_lits(sp_expression(st)),
    decreases m_of(st), 2int,
{
    lemma_lits_parse_precedence(st, 1);
}

/// A one-byte emission after a sub-parse keeps every record good.
proof fn lemma_lits_emit(st: CState, b: u8)
    requires
        ck_wf(st),
        good_lits(st),
    ensures
        ck_wf(sp_emit_byte(st, b)),
        good_lits(sp_emit_byte(st, b)),
{
    let r = sp_emit_byte(st, b);
    assert(r.code.take(st.code.len() as int) =~= st.code);
    assert(r.lines.take(st.code.len() as int) =~= st.lines);
    assert(r.consts.take(st.consts.len() as int) =~= st.consts);
    lemma_lits_extend(st, r);
}

pub proof fn lemma_lits_unary(st: CState)
    requires
        st_wf(st),
        ck_wf(st),
        good_lits(st),
    ensures
        ck_wf(sp_unary(st)),
        good_lits(sp_unary(st)),
    decreases m_of(st), 3int,
{
    let op = tok_or_eof(st.lex.prev).kind;
    lemma_lits_parse_precedence(st, 8);
    let st1 = sp_parse_precedence(st, 8);
    if op == TokenType::TOKEN_MINUS {
        lemma_lits_emit(st1, crate::chunk::spec_opcode_byte(OpCode::OP_NEGATE));
        lemma_lits_same_chunk(
            sp_emit_byte(st1, crate::chunk::spec_opcode_byte(OpCode::OP_NEGATE)),
            sp_unary(st),
        );
    }
}

pub proof fn lemma_lits_binary(st: CState)
    requires
        st_wf(st),
        ck_wf(st),
        good_lits(st),
    ensures
        ck_wf(sp_binary(st)),
        good_lits(sp_binary(st)),
    decreases m_of(st), 3int,
{
    let op = tok_or_eof(st.lex.prev).kind;
    lemma_lits_parse_precedence(st, sp_prec(op) + 1);
    let st1 = sp_parse_precedence(st, sp_prec(op) + 1);
    if sp_prec(op) > 0 {
        lemma_lits_emit(st1, crate::compiler::byte_of_binop(op));
        lemma_lits_same_chunk(
            sp_emit_byte(st1, crate::compiler::byte_of_binop(op)),
            sp_binary(st),
        );
    }
}

/// The constant-pool round trip: in every compiled chunk the line table
/// has exactly one entry per emitted byte, and each literal's emitted
/// `CONSTANT` and index decode back to the exact literal value, both its
/// bytes attributed to the emitting token's source line.
pub proof fn lemma_constant_pool_round_trip(src: Seq<u8>)
    ensures
        ({
            let f = sp_compile(src);
            &&& f.lines.len() == f.code.len()
            &&& forall|k: int| 0 <= k < f.lits.len() ==> lit_ok(f, k)
        }),
{
    let st0 = crate::compiler::sp_init_state(src);
    lemma_advance_measure(st0.lex);
    let st1 = CState { lex: sp_advance(st0.lex), ..st0 };
    assert(good_lits(st1));
    lemma_lits_expression(st1);
    let st2 = sp_expression(st1);
    let st3 = CState {
        lex: sp_consume(st2.lex, TokenType::TOKEN_EOF, DiagKind::ExpectedEndOfExpression),
        ..st2
    };
    lemma_lits_same_chunk(st2, st3);
    lemma_lits_emit(st3, crate::chunk::spec_opcode_byte(OpCode::OP_RETURN));
}


/// Scanning only ever appends diagnostics while filling the token window.
proof fn lemma_advance_loop_diags(l: crate::compiler::PSt)
    requires
        0 <= l.pos <= l.src.len(),
    ensures
        ({
            let l1 = crate::compiler::sp_advance_loop(l);
            &&& l.diags.len() <= l1.diags.len()
            &&& l1.diags.take(l.diags.len() as int) == l.diags
            &&& (l.had_error ==> l1.had_error)
        }),
    decreases l.src.len() - l.pos,
{
    let (t, p, nl) = crate::scanner::spec_scan_token(l.src, l.pos, l.line);
    crate::scanner::lemma_scan_token_bounds(l.src, l.pos, l.line);
    let l1 = crate::compiler::PSt { pos: p, line: nl, cur: Some(t), ..l };
    if t.kind != crate::scanner::TokenType::TOKEN_ERROR {
        assert(l1.diags.take(l.diags.len() as int) =~= l.diags);
    } else {
        let l2 = crate::compiler::sp_error_at(
            l1,
            t,
            crate::compiler::kind_of_scan_error(t.error),
        );
        lemma_advance_loop_diags(l2);
        let lf = crate::compiler::sp_advance_loop(l2);
        assert(lf.diags.take(l.diags.len() as int) =~= l.diags);
    }
}

/// A lexical error under the cursor is always reported: when the next
/// token the scanner would produce is an error token, advancing makes the
/// compile fail and records a diagnostic that carries the error token's
/// source line and the lexical failure it stands for.
pub proof fn lemma_scan_error_reported(l: crate::compiler::PSt)
    requires
        crate::compiler::pst_wf(l),
        !l.panic_mode,
        crate::scanner::spec_scan_token(l.src, l.pos, l.line).0.kind
            == crate::scanner::TokenType::TOKEN_ERROR,
    ensures
        ({
            let t = crate::scanner::spec_scan_token(l.src, l.pos, l.line).0;
            let l1 = sp_advance(l);
            &&& l1.had_error
            &&& l1.diags.len() > l.diags.len()
            &&& l1.diags[l.diags.len() as int] == crate::compiler::diag_of(
                t,
                crate::compiler::kind_of_scan_error(t.error),
            )
        }),
{
    let t = crate::scanner::spec_scan_token(l.src, l.pos, l.line).0;
    let l0 = crate::compiler::PSt { prev: l.cur, ..l };
    let (t0, p, nl) = crate::scanner::spec_scan_token(l0.src, l0.pos, l0.line);
    crate::scanner::lemma_scan_token_bounds(l0.src, l0.pos, l0.line);
    let l1 = crate::compiler::PSt { pos: p, line: nl, cur: Some(t0), ..l0 };
    let l2 = crate::compiler::sp_error_at(
        l1,
        t0,
        crate::compiler::kind_of_scan_error(t0.error),
    );
    lemma_advance_loop_diags(l2);
    assert(sp_advance(l).diags.take(l2.diags.len() as int)[l.diags.len() as int] == l2.diags[
        l.diags.len() as int
    ]);
}

/// Compilation is deterministic: one source has one compiled image, so
/// compiling identical sources yields byte-identical chunks, constant
/// pools, line tables and diagnostics.
pub proof fn lemma_compile_deterministic(a: Seq<u8>, b: Seq<u8>)
    requires
        a == b,
    ensures
        sp_compile(a).code == sp_compile(b).code,
        sp_compile(a).consts == sp_compile(b).consts,
        sp_compile(a).lines == sp_compile(b).lines,
        sp_compile(a).lex.diags == sp_compile(b).lex.diags,
        sp_compile(a).lex.had_error == sp_compile(b).lex.had_error,
{
}

/// Disassembly is deterministic: one chunk has one disassembly text.
pub proof fn lemma_disassembly_deterministic(
    code: Seq<u8>,
    consts: Seq<u64>,
    lines: Seq<int>,
    name: Seq<char>,
)
    ensures
        crate::debug::spec_disassemble(code, consts, lines, name) == crate::debug::spec_disassemble(
            code,
            consts,
            lines,
            name,
        ),
{
}

} // verus!
