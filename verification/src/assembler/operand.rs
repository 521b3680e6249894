//! Operand kinds of the byte-oriented encoding.
use vstd::prelude::*;
use crate::word::{spec_from_be_bytes, spec_to_be_bytes, from_be_bytes, to_be_bytes};

verus! {

#[allow(non_camel_case_types)]
#[derive(Debug, Clone, Copy, PartialEq, Eq, Structural)]
pub enum OperandType {
    NUMBER,
    TEXT,
    REGISTER,
}

impl OperandType {
    pub open spec fn spec_code(self) -> u32 {
        match self {
            OperandType::NUMBER => 0x00,
            OperandType::TEXT => 0x01,
            OperandType::REGISTER => 0x02,
        }
    }

    pub fn from_be_bytes(be_bytes: [u8; 4]) -> (r: Result<OperandType, &'static str>)
        ensures
            r matches Ok(t) ==> t.spec_code() == spec_from_be_bytes(be_bytes@),
            r is Err ==> spec_from_be_bytes(be_bytes@) > 0x02,
            spec_from_be_bytes(be_bytes@) > 0x02 ==> r == Err::<OperandType, &'static str>("Invalid operand type byte."),
    {
        let value = from_be_bytes(be_bytes);
        if value == 0x00 {
            Ok(OperandType::NUMBER)
        } else if value == 0x01 {
            Ok(OperandType::TEXT)
        } else if value == 0x02 {
            Ok(OperandType::REGISTER)
        } else {
            Err("Invalid operand type byte.")
        }
    }

    pub fn to_be_bytes(&self) -> (r: [u8; 4])
        ensures
            r@ == spec_to_be_bytes(self.spec_code()),
    {
        let value: u32 = match self {
            OperandType::NUMBER => 0x00,
            OperandType::TEXT => 0x01,
            OperandType::REGISTER => 0x02,
        };
        to_be_bytes(value)
    }
}

#[derive(Debug)]
pub enum Operand {
    Number(u32),
    Text(String),
    Register(u32),
}

} // verus!
