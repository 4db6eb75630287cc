use vstd::prelude::*;

use crate::chunk::{Chunk, OpCode, spec_opcode_of_byte};
use crate::compiler::{compile_and_report, sp_compile, Diagnostic};
use crate::value::{
    add_bits, div_bits, mul_bits, neg_bits, sub_bits, value_add, value_div, value_mul,
    value_negate, value_sub, Value,
};

verus! {

/// How one interpretation ends. `INTERPRET_OK` is never carried inside an
/// error; it exists so the closed set of outcomes is complete.
#[allow(non_camel_case_types)]
#[derive(Debug, Clone, Copy, PartialEq, Eq, Structural)]
pub enum InterpretResultError {
    INTERPRET_OK,
    INTERPRET_COMPILE_ERROR,
    INTERPRET_RUNTIME_ERROR,
}

/// Where a run of the fetch-decode-execute loop ends: the returned value,
/// a byte that decodes to no opcode (or a malformed `CONSTANT`) — an
/// internal consistency fault, since the compiler never emits such code —
/// or an operand-stack underflow on hand-built bytecode.
pub ghost enum RunOutcome {
    Done { value: u64 },
    BadCode,
    Underflow,
}

/// The fetch-decode-execute loop as a function: what running `code`
/// against `consts` from instruction pointer `ip` with operand stack
/// `stack` yields.
pub open spec fn spec_run(code: Seq<u8>, consts: Seq<u64>, ip: int, stack: Seq<u64>) -> RunOutcome
    decreases code.len() - ip,
{
    if !(0 <= ip < code.len()) {
        RunOutcome::BadCode
    } else {
        match spec_opcode_of_byte(code[ip]) {
            Err(_) => RunOutcome::BadCode,
            Ok(op) => match op {
                OpCode::OP_RETURN => if stack.len() >= 1 {
                    RunOutcome::Done { value: stack.last() }
                } else {
                    RunOutcome::Underflow
                },
                OpCode::OP_CONSTANT => if ip + 1 < code.len() {
                    let idx = code[ip + 1] as int;
                    if idx < consts.len() {
                        spec_run(code, consts, ip + 2, stack.push(consts[idx]))
                    } else {
                        RunOutcome::BadCode
                    }
                } else {
                    RunOutcome::BadCode
                },
                OpCode::OP_NEGATE => if stack.len() >= 1 {
                    spec_run(
                        code,
                        consts,
                        ip + 1,
                        stack.update(stack.len() - 1, neg_bits(stack.last())),
                    )
                } else {
                    RunOutcome::Underflow
                },
                OpCode::OP_ADD => if stack.len() >= 2 {
                    spec_run(code, consts, ip + 1, spec_binop(stack, |a: u64, b: u64| add_bits(a, b)))
                } else {
                    RunOutcome::Underflow
                },
                OpCode::OP_SUBTRACT => if stack.len() >= 2 {
                    spec_run(code, consts, ip + 1, spec_binop(stack, |a: u64, b: u64| sub_bits(a, b)))
                } else {
                    RunOutcome::Underflow
                },
                OpCode::OP_MULTIPLY => if stack.len() >= 2 {
                    spec_run(code, consts, ip + 1, spec_binop(stack, |a: u64, b: u64| mul_bits(a, b)))
                } else {
                    RunOutcome::Underflow
                },
                OpCode::OP_DIVIDE => if stack.len() >= 2 {
                    spec_run(code, consts, ip + 1, spec_binop(stack, |a: u64, b: u64| div_bits(a, b)))
                } else {
                    RunOutcome::Underflow
                },
            },
        }
    }
}

/// Pop the right operand, then the left, and push the combination: the
/// order matters for subtraction and division.
pub open spec fn spec_binop(stack: Seq<u64>, f: spec_fn(u64, u64) -> u64) -> Seq<u64> {
    let b = stack.last();
    let a = stack[stack.len() - 2];
    stack.take(stack.len() - 2).push(f(a, b))
}

/// The executable result an outcome maps to.
pub open spec fn result_of_outcome(o: RunOutcome) -> Result<Value, InterpretResultError> {
    match o {
        RunOutcome::Done { value } => Ok(value),
        RunOutcome::BadCode => Err(InterpretResultError::INTERPRET_COMPILE_ERROR),
        RunOutcome::Underflow => Err(InterpretResultError::INTERPRET_RUNTIME_ERROR),
    }
}

/// The virtual machine: an instruction pointer and an operand stack. A
/// chunk is borrowed for the duration of one `run` call; between calls
/// the machine is idle and owns no chunk.
pub struct VM {
    pub ip: usize,
    pub stack: Vec<Value>,
    pub stack_top: usize,
}

impl VM {
    /// The machine's standing invariant: the stack-top index mirrors the
    /// stack's length.
    pub open spec fn wf(self) -> bool {
        self.stack_top == self.stack@.len()
    }

    pub fn new() -> (vm: VM)
        ensures
            vm.wf(),
            vm.ip == 0,
            vm.stack@ == Seq::<Value>::empty(),
    {
        VM { ip: 0, stack: Vec::new(), stack_top: 0 }
    }

    pub fn init_vm(&mut self)
        ensures
            final(self).wf(),
            final(self).ip == old(self).ip,
            final(self).stack@ == Seq::<Value>::empty(),
    {
        self.reset_stack();
    }

    fn reset_stack(&mut self)
        ensures
            final(self).wf(),
            final(self).ip == old(self).ip,
            final(self).stack@ == Seq::<Value>::empty(),
    {
        self.stack = Vec::new();
        self.stack_top = 0;
    }

    pub fn push(&mut self, value: Value)
        requires
            old(self).wf(),
        ensures
            final(self).wf(),
            final(self).ip == old(self).ip,
            final(self).stack@ == old(self).stack@.push(value),
    {
        self.stack.push(value);
        self.stack_top = self.stack.len();
    }

    pub fn pop(&mut self) -> (v: Value)
        requires
            old(self).wf(),
            old(self).stack@.len() >= 1,
        ensures
            final(self).wf(),
            final(self).ip == old(self).ip,
            final(self).stack@ == old(self).stack@.drop_last(),
            v == old(self).stack@.last(),
    {
        let v = self.stack.pop();
        self.stack_top = self.stack.len();
        match v {
            Some(x) => x,
            None => {
                proof {
                    assert(false);
                }
                0
            },
        }
    }

    /// The byte under the instruction pointer.
    pub fn ip(&self, chunk: &Chunk) -> (b: u8)
        requires
            self.ip < chunk.code@.len(),
        ensures
            b == chunk.code@[self.ip as int],
    {
        chunk.code[self.ip]
    }

    /// The fetch-decode-execute loop, from the machine's current
    /// instruction pointer and stack.
    #[verifier::loop_isolation(false)]
    pub fn run(&mut self, chunk: &Chunk) -> (r: Result<Value, InterpretResultError>)
        requires
            old(self).wf(),
            chunk.wf(),
        ensures
            final(self).wf(),
            r == result_of_outcome(
                spec_run(
                    chunk.code@,
                    chunk.constants.values@,
                    old(self).ip as int,
                    old(self).stack@,
                ),
            ),
    {
        let ghost code = chunk.code@;
        let ghost consts = chunk.constants.values@;
        let ghost target = spec_run(code, consts, old(self).ip as int, old(self).stack@);
        loop
            invariant
                self.wf(),
                spec_run(code, consts, self.ip as int, self.stack@) == target,
            decreases code.len() - self.ip,
        {
            if self.ip >= chunk.code.len() {
                return Err(InterpretResultError::INTERPRET_COMPILE_ERROR);
            }
            let instruction = self.ip(chunk);
            let ghost ip0 = self.ip as int;
            let ghost stack0 = self.stack@;
            self.ip = self.ip + 1;
            match OpCode::try_from(instruction) {
                Err(_) => {
                    return Err(InterpretResultError::INTERPRET_COMPILE_ERROR);
                },
                Ok(op) => match op {
                    OpCode::OP_RETURN => {
                        if self.stack_top < 1 {
                            return Err(InterpretResultError::INTERPRET_RUNTIME_ERROR);
                        }
                        let v = self.pop();
                        return Ok(v);
                    },
                    OpCode::OP_NEGATE => {
                        if self.stack_top < 1 {
                            return Err(InterpretResultError::INTERPRET_RUNTIME_ERROR);
                        }
                        let v = self.pop();
                        self.push(value_negate(v));
                        proof {
                            assert(self.stack@ =~= stack0.update(
                                stack0.len() - 1,
                                neg_bits(stack0.last()),
                            ));
                        }
                    },
                    OpCode::OP_ADD => {
                        if self.stack_top < 2 {
                            return Err(InterpretResultError::INTERPRET_RUNTIME_ERROR);
                        }
                        let b = self.pop();
                        let a = self.pop();
                        self.push(value_add(a, b));
                        proof {
                            assert(self.stack@ =~= spec_binop(
                                stack0,
                                |x: u64, y: u64| add_bits(x, y),
                            ));
                        }
                    },
                    OpCode::OP_SUBTRACT => {
                        if self.stack_top < 2 {
                            return Err(InterpretResultError::INTERPRET_RUNTIME_ERROR);
                        }
                        let b = self.pop();
                        let a = self.pop();
                        self.push(value_sub(a, b));
                        proof {
                            assert(self.stack@ =~= spec_binop(
                                stack0,
                                |x: u64, y: u64| sub_bits(x, y),
                            ));
                        }
                    },
                    OpCode::OP_MULTIPLY => {
                        if self.stack_top < 2 {
                            return Err(InterpretResultError::INTERPRET_RUNTIME_ERROR);
                        }
                        let b = self.pop();
                        let a = self.pop();
                        self.push(value_mul(a, b));
                        proof {
                            assert(self.stack@ =~= spec_binop(
                                stack0,
                                |x: u64, y: u64| mul_bits(x, y),
                            ));
                        }
                    },
                    OpCode::OP_DIVIDE => {
                        if self.stack_top < 2 {
                            return Err(InterpretResultError::INTERPRET_RUNTIME_ERROR);
                        }
                        let b = self.pop();
                        let a = self.pop();
                        self.push(value_div(a, b));
                        proof {
                            assert(self.stack@ =~= spec_binop(
                                stack0,
                                |x: u64, y: u64| div_bits(x, y),
                            ));
                        }
                    },
                    OpCode::OP_CONSTANT => {
                        if self.ip >= chunk.code.len() {
                            return Err(InterpretResultError::INTERPRET_COMPILE_ERROR);
                        }
                        let idx = self.ip(chunk);
                        if (idx as usize) >= chunk.constants.values.len() {
                            return Err(InterpretResultError::INTERPRET_COMPILE_ERROR);
                        }
                        let constant = chunk.constants.values[idx as usize];
                        self.push(constant);
                        self.ip = self.ip + 1;
                    },
                },
            }
        }
    }

    /// Compile `source` into `chunk` and, when compilation succeeds, run
    /// the chunk to a value or a runtime fault. A compile failure returns
    /// `INTERPRET_COMPILE_ERROR` without running anything; the
    /// diagnostics travel out as data for the driver to print.
    pub fn interpret(&mut self, source: Vec<u8>, chunk: &mut Chunk) -> (r: (
        Result<Value, InterpretResultError>,
        Vec<Diagnostic>,
    ))
        requires
            old(self).wf(),
            old(chunk).wf(),
            old(chunk).code@ == Seq::<u8>::empty(),
            old(chunk).constants.values@ == Seq::<u64>::empty(),
            old(chunk).lines@ == Seq::<usize>::empty(),
            source@.len() < usize::MAX,
        ensures
            final(self).wf(),
            final(chunk).wf(),
            ({
                let f = sp_compile(source@);
                &&& final(chunk).code@ == f.code
                &&& final(chunk).constants.values@ == f.consts
                &&& crate::compiler::diags_view(r.1@) == f.lex.diags
                &&& r.0 == if f.lex.had_error {
                    Err::<Value, InterpretResultError>(
                        InterpretResultError::INTERPRET_COMPILE_ERROR,
                    )
                } else {
                    result_of_outcome(spec_run(f.code, f.consts, 0, Seq::<u64>::empty()))
                }
                &&& (f.lex.had_error ==> *final(self) == *old(self))
                &&& (r.0 is Ok <==> !f.lex.had_error)
            }),
    {
        let compiled = compile_and_report(source, chunk);
        let success = compiled.0;
        let diagnostics = compiled.1;
        if !success {
            return (Err(InterpretResultError::INTERPRET_COMPILE_ERROR), diagnostics);
        }
        proof {
            crate::laws::lemma_compile_evaluates(source@);
        }
        self.ip = 0;
        self.reset_stack();
        let result = self.run(chunk);
        (result, diagnostics)
    }
}

} // verus!
