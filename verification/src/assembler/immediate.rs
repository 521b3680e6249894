//! Immediate kinds: a literal number or a literal string.
use vstd::prelude::*;
use crate::word::{spec_from_be_bytes, spec_to_be_bytes, from_be_bytes, to_be_bytes};

verus! {

#[allow(non_camel_case_types)]
#[derive(Debug, Clone, Copy, PartialEq, Eq, Structural)]
pub enum ImmediateType {
    TEXT,
    NUMBER,
}

impl ImmediateType {
    pub open spec fn spec_code(self) -> u32 {
        match self {
            ImmediateType::NUMBER => 0x00,
            ImmediateType::TEXT => 0x01,
        }
    }

    pub fn from_be_bytes(be_bytes: [u8; 4]) -> (r: Result<ImmediateType, &'static str>)
        ensures
            r matches Ok(t) ==> t.spec_code() == spec_from_be_bytes(be_bytes@),
            r is Err ==> spec_from_be_bytes(be_bytes@) > 0x01,
            spec_from_be_bytes(be_bytes@) > 0x01 ==> r == Err::<ImmediateType, &'static str>("Byte value does not correspond to any known immediate type."),
    {
        let value = from_be_bytes(be_bytes);
        if value == 0x00 {
            Ok(ImmediateType::NUMBER)
        } else if value == 0x01 {
            Ok(ImmediateType::TEXT)
        } else {
            Err("Byte value does not correspond to any known immediate type.")
        }
    }

    /// Every immediate type has a code, so this never fails.
    pub fn to_be_bytes(&self) -> (r: Result<[u8; 4], &'static str>)
        ensures
            r matches Ok(b) && b@ == spec_to_be_bytes(self.spec_code()),
    {
        let value: u32 = match self {
            ImmediateType::NUMBER => 0x00,
            ImmediateType::TEXT => 0x01,
        };
        Ok(to_be_bytes(value))
    }
}

#[derive(Debug)]
pub enum Immediate {
    Text(String),
    Number(u32),
}

} // verus!
