use vstd::prelude::*;

use crate::value::{Value, ValueArray};

verus! {

/// A single-byte instruction tag. `OP_CONSTANT` is the only variable-width
/// instruction (tag plus one operand byte, a constant-pool index); all
/// others are one byte wide.
#[allow(non_camel_case_types)]
#[derive(Debug, Clone, Copy, PartialEq, Eq, Structural)]
pub enum OpCode {
    OP_CONSTANT,
    OP_ADD,
    OP_SUBTRACT,
    OP_MULTIPLY,
    OP_DIVIDE,
    OP_NEGATE,
    OP_RETURN,
}

/// The byte that encodes each opcode.
pub open spec fn spec_opcode_byte(op: OpCode) -> u8 {
    match op {
        OpCode::OP_CONSTANT => 0,
        OpCode::OP_ADD => 1,
        OpCode::OP_SUBTRACT => 2,
        OpCode::OP_MULTIPLY => 3,
        OpCode::OP_DIVIDE => 4,
        OpCode::OP_NEGATE => 5,
        OpCode::OP_RETURN => 6,
    }
}

/// The checked decoding of a byte: the inverse of `spec_opcode_byte` where
/// one exists, `Err` on every byte that encodes no opcode.
pub open spec fn spec_opcode_of_byte(value: u8) -> Result<OpCode, ()> {
    if value == 0 {
        Ok(OpCode::OP_CONSTANT)
    } else if value == 1 {
        Ok(OpCode::OP_ADD)
    } else if value == 2 {
        Ok(OpCode::OP_SUBTRACT)
    } else if value == 3 {
        Ok(OpCode::OP_MULTIPLY)
    } else if value == 4 {
        Ok(OpCode::OP_DIVIDE)
    } else if value == 5 {
        Ok(OpCode::OP_NEGATE)
    } else if value == 6 {
        Ok(OpCode::OP_RETURN)
    } else {
        Err(())
    }
}

impl OpCode {
    /// The byte this opcode is written as in a chunk's code.
    pub fn byte(self) -> (b: u8)
        ensures
            b == spec_opcode_byte(self),
    {
        match self {
            OpCode::OP_CONSTANT => 0,
            OpCode::OP_ADD => 1,
            OpCode::OP_SUBTRACT => 2,
            OpCode::OP_MULTIPLY => 3,
            OpCode::OP_DIVIDE => 4,
            OpCode::OP_NEGATE => 5,
            OpCode::OP_RETURN => 6,
        }
    }

    /// The explicit checked decode of a byte: a byte matching no known tag
    /// is a reportable condition, not undefined behaviour.
    pub fn try_from(value: u8) -> (r: Result<OpCode, ()>)
        ensures
            r == spec_opcode_of_byte(value),
    {
        match value {
            0 => Ok(OpCode::OP_CONSTANT),
            1 => Ok(OpCode::OP_ADD),
            2 => Ok(OpCode::OP_SUBTRACT),
            3 => Ok(OpCode::OP_MULTIPLY),
            4 => Ok(OpCode::OP_DIVIDE),
            5 => Ok(OpCode::OP_NEGATE),
            6 => Ok(OpCode::OP_RETURN),
            _ => Err(()),
        }
    }
}

/// Decoding a byte recovers exactly the opcode that produced it.
pub proof fn lemma_opcode_byte_round_trip(op: OpCode)
    ensures
        spec_opcode_of_byte(spec_opcode_byte(op)) == Ok::<OpCode, ()>(op),
{
}

/// The largest number of constants one chunk can hold: the pool is
/// referenced by a single-byte index.
pub const MAX_CONSTANTS: usize = 256;

/// A compiled bytecode unit: instruction bytes, a constant pool, and a
/// byte-parallel table giving the source line that produced each byte.
#[derive(Debug, Clone)]
pub struct Chunk {
    pub code: Vec<u8>,
    pub constants: ValueArray,
    pub lines: Vec<usize>,
}

impl Chunk {
    /// The chunk's standing invariant: one line-table entry for each code
    /// byte, and a constant pool small enough to index with one byte.
    pub open spec fn wf(self) -> bool {
        &&& self.lines@.len() == self.code@.len()
        &&& self.constants.values@.len() <= MAX_CONSTANTS
    }

    pub fn init_chunk() -> (c: Chunk)
        ensures
            c.wf(),
            c.code@ == Seq::<u8>::empty(),
            c.constants.values@ == Seq::<Value>::empty(),
            c.lines@ == Seq::<usize>::empty(),
    {
        Chunk { code: Vec::new(), constants: ValueArray::init_value_array(), lines: Vec::new() }
    }

    /// Append one instruction byte together with the source line that
    /// produced it.
    pub fn write_chunk(&mut self, byte: u8, line: usize)
        requires
            old(self).wf(),
        ensures
            final(self).wf(),
            final(self).code@ == old(self).code@.push(byte),
            final(self).lines@ == old(self).lines@.push(line),
            final(self).constants == old(self).constants,
    {
        self.code.push(byte);
        self.lines.push(line);
    }

    /// Append a constant value and return its pool index. The caller must
    /// guarantee that the index fits one byte; the compiler enforces this,
    /// not the chunk.
    pub fn add_constant(&mut self, value: Value) -> (index: u8)
        requires
            old(self).wf(),
            old(self).constants.values@.len() < MAX_CONSTANTS,
        ensures
            final(self).wf(),
            final(self).constants.values@ == old(self).constants.values@.push(value),
            final(self).code@ == old(self).code@,
            final(self).lines@ == old(self).lines@,
            index as int == old(self).constants.values@.len(),
    {
        self.constants.write_value_array(value);
        (self.constants.values.len() - 1) as u8
    }
}

} // verus!
