use vstd::prelude::*;
use vstd::string::StringExecFns;

use crate::chunk::{Chunk, OpCode, spec_opcode_of_byte};
use crate::compiler::lines_view;
use crate::value::{render_value, rendered_value};

verus! {

pub uninterp spec fn decimal_of(n: int) -> Seq<char>;

/// Relies on std's decimal formatting of `usize`, a deterministic
/// function of the number alone.
#[verifier::external_body]
fn usize_text(n: usize) -> (s: String)
    ensures
        s@ == decimal_of(n as int),
{
    format!("{}", n)
}

/// The mnemonic each opcode is printed as.
pub open spec fn spec_mnemonic(op: OpCode) -> Seq<char> {
    match op {
        OpCode::OP_CONSTANT => "OP_CONSTANT"@,
        OpCode::OP_ADD => "OP_ADD"@,
        OpCode::OP_SUBTRACT => "OP_SUBTRACT"@,
        OpCode::OP_MULTIPLY => "OP_MULTIPLY"@,
        OpCode::OP_DIVIDE => "OP_DIVIDE"@,
        OpCode::OP_NEGATE => "OP_NEGATE"@,
        OpCode::OP_RETURN => "OP_RETURN"@,
    }
}

fn mnemonic_text(op: OpCode) -> (s: &'static str)
    ensures
        s@ == spec_mnemonic(op),
{
    match op {
        OpCode::OP_CONSTANT => "OP_CONSTANT",
        OpCode::OP_ADD => "OP_ADD",
        OpCode::OP_SUBTRACT => "OP_SUBTRACT",
        OpCode::OP_MULTIPLY => "OP_MULTIPLY",
        OpCode::OP_DIVIDE => "OP_DIVIDE",
        OpCode::OP_NEGATE => "OP_NEGATE",
        OpCode::OP_RETURN => "OP_RETURN",
    }
}

/// An instruction line's head: the byte offset, then the source line, the
/// latter replaced by a placeholder when it repeats the previous byte's
/// line, to reduce clutter.
pub open spec fn spec_prefix(lines: Seq<int>, offset: int) -> Seq<char> {
    let line_part = if offset > 0 && lines[offset] == lines[offset - 1] {
        "   |"@
    } else {
        decimal_of(lines[offset])
    };
    decimal_of(offset) + " "@ + line_part + " "@
}

/// One decoded instruction's text and the offset just past it. An
/// undecodable byte is reported and given width one, so a walk always
/// terminates; a `CONSTANT` renders its pool value and has width two.
pub open spec fn spec_disasm_instruction(
    code: Seq<u8>,
    consts: Seq<u64>,
    lines: Seq<int>,
    offset: int,
) -> (Seq<char>, int) {
    if !(0 <= offset < code.len()) {
        (Seq::<char>::empty(), offset + 1)
    } else {
        let pre = spec_prefix(lines, offset);
        match spec_opcode_of_byte(code[offset]) {
            Err(_) => (pre + "Unknown opcode "@ + decimal_of(code[offset] as int) + "\n"@, offset + 1),
            Ok(op) => match op {
                OpCode::OP_CONSTANT => if offset + 1 < code.len() {
                    let idx = code[offset + 1] as int;
                    let shown = if idx < consts.len() {
                        rendered_value(consts[idx])
                    } else {
                        "?"@
                    };
                    (
                        pre + "OP_CONSTANT"@ + " "@ + decimal_of(idx) + " '"@ + shown + "'\n"@,
                        offset + 2,
                    )
                } else {
                    (pre + "OP_CONSTANT"@ + " (truncated)\n"@, offset + 1)
                },
                _ => (pre + spec_mnemonic(op) + "\n"@, offset + 1),
            },
        }
    }
}

/// The disassembly of everything from `offset` to the end of the code.
pub open spec fn spec_disasm_from(
    code: Seq<u8>,
    consts: Seq<u64>,
    lines: Seq<int>,
    offset: int,
) -> Seq<char>
    decreases code.len() - offset,
{
    if !(0 <= offset < code.len()) {
        Seq::<char>::empty()
    } else {
        let r = spec_disasm_instruction(code, consts, lines, offset);
        r.0 + spec_disasm_from(code, consts, lines, r.1)
    }
}

/// The whole chunk's disassembly under a heading.
pub open spec fn spec_disassemble(
    code: Seq<u8>,
    consts: Seq<u64>,
    lines: Seq<int>,
    name: Seq<char>,
) -> Seq<char> {
    "== "@ + name + " ==\n"@ + spec_disasm_from(code, consts, lines, 0)
}

/// A one-byte instruction's text: the mnemonic alone.
fn simple_instruction(name: &str, offset: usize) -> (r: (String, usize))
    requires
        offset < usize::MAX,
    ensures
        r.0@ == name@ + "\n"@,
        r.1 == offset + 1,
{
    let text = String::from_str(name).concat("\n");
    (text, offset + 1)
}

/// A `CONSTANT` instruction's text: the mnemonic, the pool index, and the
/// referenced value, quoted.
fn constant_instruction(name: &str, chunk: &Chunk, offset: usize) -> (r: (String, usize))
    requires
        chunk.wf(),
        offset < chunk.code@.len(),
        chunk.code@.len() <= usize::MAX,
    ensures
        ({
            let tail = if offset + 1 < chunk.code@.len() {
                let idx = chunk.code@[offset + 1] as int;
                let shown = if idx < chunk.constants.values@.len() {
                    rendered_value(chunk.constants.values@[idx])
                } else {
                    "?"@
                };
                (name@ + " "@ + decimal_of(idx) + " '"@ + shown + "'\n"@, offset + 2 as int)
            } else {
                (name@ + " (truncated)\n"@, offset + 1 as int)
            };
            r.0@ == tail.0 && r.1 as int == tail.1
        }),
{
    let mut text = String::from_str(name);
    if offset + 1 < chunk.code.len() {
        let idx = chunk.code[offset + 1];
        text.append(" ");
        let it = usize_text(idx as usize);
        text.append(it.as_str());
        text.append(" '");
        if (idx as usize) < chunk.constants.values.len() {
            let vt = render_value(chunk.constants.values[idx as usize]);
            text.append(vt.as_str());
        } else {
            text.append("?");
        }
        text.append("'\n");
        (text, offset + 2)
    } else {
        text.append(" (truncated)\n");
        (text, offset + 1)
    }
}

/// The text of the single instruction at `offset`, and the offset just
/// past it.
pub fn disassemble_instruction(chunk: &Chunk, offset: usize) -> (r: (String, usize))
    requires
        chunk.wf(),
        offset < chunk.code@.len(),
    ensures
        ({
            let s = spec_disasm_instruction(
                chunk.code@,
                chunk.constants.values@,
                lines_view(chunk.lines@),
                offset as int,
            );
            &&& r.0@ == s.0
            &&& r.1 as int == s.1
        }),
        offset < r.1,
{
    let n = chunk.code.len();
    proof {
        assert(chunk.code@.len() <= usize::MAX);
    }
    let mut text = usize_text(offset);
    text.append(" ");
    if offset > 0 && chunk.lines[offset] == chunk.lines[offset - 1] {
        text.append("   |");
    } else {
        let lt = usize_text(chunk.lines[offset]);
        text.append(lt.as_str());
    }
    text.append(" ");
    let byte = chunk.code[offset];
    match OpCode::try_from(byte) {
        Err(_) => {
            text.append("Unknown opcode ");
            let bt = usize_text(byte as usize);
            text.append(bt.as_str());
            text.append("\n");
            (text, offset + 1)
        },
        Ok(op) => match op {
            OpCode::OP_CONSTANT => {
                let tail = constant_instruction("OP_CONSTANT", chunk, offset);
                (text.concat(tail.0.as_str()), tail.1)
            },
            _ => {
                let tail = simple_instruction(mnemonic_text(op), offset);
                (text.concat(tail.0.as_str()), tail.1)
            },
        },
    }
}

/// The whole chunk's disassembly: a read-only walk whose text is a
/// function of the chunk and heading alone, so disassembling twice gives
/// identical text.
#[verifier::loop_isolation(false)]
pub fn disassemble_chunk(chunk: &Chunk, name: &str) -> (r: String)
    requires
        chunk.wf(),
    ensures
        r@ == spec_disassemble(
            chunk.code@,
            chunk.constants.values@,
            lines_view(chunk.lines@),
            name@,
        ),
{
    let ghost code = chunk.code@;
    let ghost consts = chunk.constants.values@;
    let ghost lines = lines_view(chunk.lines@);
    let mut text = String::from_str("== ").concat(name).concat(" ==\n");
    let mut offset: usize = 0;
    while offset < chunk.code.len()
        invariant
            text@ + spec_disasm_from(code, consts, lines, offset as int) == spec_disassemble(
                code,
                consts,
                lines,
                name@,
            ),
        decreases code.len() - offset,
    {
        let step = disassemble_instruction(chunk, offset);
        proof {
            assert((text@ + step.0@) + spec_disasm_from(code, consts, lines, step.1 as int)
                =~= text@ + (step.0@ + spec_disasm_from(code, consts, lines, step.1 as int)));
        }
        text.append(step.0.as_str());
        offset = step.1;
    }
    proof {
        assert(text@ + spec_disasm_from(code, consts, lines, offset as int) =~= text@);
    }
    text
}

} // verus!
