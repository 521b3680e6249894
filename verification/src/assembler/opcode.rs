//! The operation codes of the byte code, one per instruction.
use vstd::prelude::*;
use crate::word::{spec_from_be_bytes, spec_to_be_bytes, from_be_bytes, to_be_bytes};

verus! {

#[derive(Debug, Clone, Copy, PartialEq, Eq, Structural)]
pub enum OpCode {
    // Data movement.
    LoadString,
    LoadFile,
    LoadImmediate,
    Move,
    // Control flow.
    BranchEqual,
    BranchLessEqual,
    BranchLess,
    BranchGreaterEqual,
    BranchGreater,
    Exit,
    // I/O.
    Out,
    // Generative operations.
    Morph,
    Project,
    // Cognitive operations.
    Distill,
    Correlate,
    // Guardrails operations.
    Audit,
    Similarity,
}

impl OpCode {
    /// The number that stands for the operation in the byte code.
    pub open spec fn spec_code(self) -> u32 {
        match self {
            OpCode::LoadString => 0x00,
            OpCode::LoadFile => 0x01,
            OpCode::LoadImmediate => 0x02,
            OpCode::Move => 0x03,
            OpCode::BranchEqual => 0x04,
            OpCode::BranchLessEqual => 0x05,
            OpCode::BranchLess => 0x06,
            OpCode::BranchGreaterEqual => 0x07,
            OpCode::BranchGreater => 0x08,
            OpCode::Exit => 0x09,
            OpCode::Out => 0x0A,
            OpCode::Morph => 0x0B,
            OpCode::Project => 0x0C,
            OpCode::Distill => 0x0D,
            OpCode::Correlate => 0x0E,
            OpCode::Audit => 0x0F,
            OpCode::Similarity => 0x10,
        }
    }

    /// The operation that `value` stands for, if any.
    pub open spec fn spec_from_code(value: u32) -> Option<OpCode> {
        if value == 0x00 {
            Some(OpCode::LoadString)
        } else if value == 0x01 {
            Some(OpCode::LoadFile)
        } else if value == 0x02 {
            Some(OpCode::LoadImmediate)
        } else if value == 0x03 {
            Some(OpCode::Move)
        } else if value == 0x04 {
            Some(OpCode::BranchEqual)
        } else if value == 0x05 {
            Some(OpCode::BranchLessEqual)
        } else if value == 0x06 {
            Some(OpCode::BranchLess)
        } else if value == 0x07 {
            Some(OpCode::BranchGreaterEqual)
        } else if value == 0x08 {
            Some(OpCode::BranchGreater)
        } else if value == 0x09 {
            Some(OpCode::Exit)
        } else if value == 0x0A {
            Some(OpCode::Out)
        } else if value == 0x0B {
            Some(OpCode::Morph)
        } else if value == 0x0C {
            Some(OpCode::Project)
        } else if value == 0x0D {
            Some(OpCode::Distill)
        } else if value == 0x0E {
            Some(OpCode::Correlate)
        } else if value == 0x0F {
            Some(OpCode::Audit)
        } else if value == 0x10 {
            Some(OpCode::Similarity)
        } else {
            None
        }
    }

    pub fn code(self) -> (r: u32)
        ensures
            r == self.spec_code(),
    {
        match self {
            OpCode::LoadString => 0x00,
            OpCode::LoadFile => 0x01,
            OpCode::LoadImmediate => 0x02,
            OpCode::Move => 0x03,
            OpCode::BranchEqual => 0x04,
            OpCode::BranchLessEqual => 0x05,
            OpCode::BranchLess => 0x06,
            OpCode::BranchGreaterEqual => 0x07,
            OpCode::BranchGreater => 0x08,
            OpCode::Exit => 0x09,
            OpCode::Out => 0x0A,
            OpCode::Morph => 0x0B,
            OpCode::Project => 0x0C,
            OpCode::Distill => 0x0D,
            OpCode::Correlate => 0x0E,
            OpCode::Audit => 0x0F,
            OpCode::Similarity => 0x10,
        }
    }

    /// The operation that `value` stands for; an error for a number that stands for none.
    pub fn try_from_code(value: u32) -> (r: Result<OpCode, &'static str>)
        ensures
            r matches Ok(op) ==> OpCode::spec_from_code(value) == Some(op),
            r is Err ==> OpCode::spec_from_code(value) is None,
            OpCode::spec_from_code(value) is None ==> r == Err::<OpCode, &'static str>("Byte value does not correspond to any known opcode."),
    {
        if value == 0x00 {
            Ok(OpCode::LoadString)
        } else if value == 0x01 {
            Ok(OpCode::LoadFile)
        } else if value == 0x02 {
            Ok(OpCode::LoadImmediate)
        } else if value == 0x03 {
            Ok(OpCode::Move)
        } else if value == 0x04 {
            Ok(OpCode::BranchEqual)
        } else if value == 0x05 {
            Ok(OpCode::BranchLessEqual)
        } else if value == 0x06 {
            Ok(OpCode::BranchLess)
        } else if value == 0x07 {
            Ok(OpCode::BranchGreaterEqual)
        } else if value == 0x08 {
            Ok(OpCode::BranchGreater)
        } else if value == 0x09 {
            Ok(OpCode::Exit)
        } else if value == 0x0A {
            Ok(OpCode::Out)
        } else if value == 0x0B {
            Ok(OpCode::Morph)
        } else if value == 0x0C {
            Ok(OpCode::Project)
        } else if value == 0x0D {
            Ok(OpCode::Distill)
        } else if value == 0x0E {
            Ok(OpCode::Correlate)
        } else if value == 0x0F {
            Ok(OpCode::Audit)
        } else if value == 0x10 {
            Ok(OpCode::Similarity)
        } else {
            Err("Byte value does not correspond to any known opcode.")
        }
    }

    /// The operation that a single byte stands for.
    pub fn from_byte(byte: u8) -> (r: Result<OpCode, &'static str>)
        ensures
            r matches Ok(op) ==> OpCode::spec_from_code(byte as u32) == Some(op),
            r is Err ==> OpCode::spec_from_code(byte as u32) is None,
            OpCode::spec_from_code(byte as u32) is None ==> r == Err::<OpCode, &'static str>("Byte value does not correspond to any known opcode."),
    {
        OpCode::try_from_code(byte as u32)
    }

    pub fn to_be_bytes(self) -> (r: [u8; 4])
        ensures
            r@ == spec_to_be_bytes(self.spec_code()),
    {
        to_be_bytes(self.code())
    }

    pub fn from_be_bytes(bytes: [u8; 4]) -> (r: Result<OpCode, &'static str>)
        ensures
            r matches Ok(op) ==> OpCode::spec_from_code(spec_from_be_bytes(bytes@)) == Some(op),
            r is Err ==> OpCode::spec_from_code(spec_from_be_bytes(bytes@)) is None,
            OpCode::spec_from_code(spec_from_be_bytes(bytes@)) is None ==> r == Err::<OpCode, &'static str>("Byte value does not correspond to any known opcode."),
    {
        let value = from_be_bytes(bytes);
        OpCode::try_from_code(value)
    }
}

/// Every operation is read back from its own code.
pub proof fn lemma_opcode_round_trip(op: OpCode)
    ensures
        OpCode::spec_from_code(op.spec_code()) == Some(op),
{
}

} // verus!
