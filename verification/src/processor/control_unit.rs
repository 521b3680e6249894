//! The control unit: fetches, decodes and executes instructions from memory.
pub mod decoder;
pub mod executor;
pub mod instruction;
pub mod language_logic_unit;
pub mod registers;

use vstd::prelude::*;
use crate::processor::control_unit::decoder::{Decoder, instruction_words, spec_decode};
use crate::processor::control_unit::executor::{Effect, Executor, SpecEffect, spec_execute};
use crate::processor::control_unit::instruction::Instruction;
use crate::processor::control_unit::registers::{REGISTER_COUNT, Registers, Value, ValueView, valid_register};
use crate::processor::fault::Fault;
use crate::processor::memory::{Memory, cell_words};
use crate::word::{from_be_bytes, spec_from_be_bytes};

verus! {

/// The four cells of the instruction at `ip`, or the first address that cannot be read.
pub open spec fn spec_read_instruction(cells: Seq<[u8; 4]>, ip: int) -> Result<[[u8; 4]; 4], Fault> {
    if ip + 4 <= cells.len() {
        Ok([cells[ip], cells[ip + 1], cells[ip + 2], cells[ip + 3]])
    } else if ip >= cells.len() {
        Err(Fault::AddressOutOfBounds(ip as usize))
    } else {
        Err(Fault::AddressOutOfBounds(cells.len() as usize))
    }
}

pub struct ControlUnit {
    memory: Memory,
    registers: Registers,
}

impl ControlUnit {
    pub closed spec fn cells(&self) -> Seq<[u8; 4]> {
        self.memory.cells()
    }

    pub closed spec fn values(&self) -> Seq<ValueView> {
        self.registers.values()
    }

    pub closed spec fn ip(&self) -> int {
        self.registers.ip() as int
    }

    pub closed spec fn dsp(&self) -> int {
        self.registers.dsp() as int
    }

    pub closed spec fn instr(&self) -> Option<[[u8; 4]; 4]> {
        self.registers.instr()
    }

    pub closed spec fn wf(&self) -> bool {
        &&& self.registers.wf()
        &&& self.registers.dsp() <= u32::MAX
    }

    /// A well-formed control unit holds 32 registers.
    pub proof fn lemma_register_count(&self)
        requires
            self.wf(),
        ensures
            self.values().len() == REGISTER_COUNT,
    {
        self.registers.lemma_register_count();
    }

    pub fn new() -> (r: Self)
        ensures
            r.wf(),
            r.cells() == Seq::<[u8; 4]>::empty(),
            r.values() == Seq::new(32, |i: int| ValueView::Empty),
            r.ip() == 0,
            r.dsp() == 0,
            r.instr() is None,
    {
        ControlUnit { memory: Memory::new(), registers: Registers::new() }
    }

    fn read_instruction(&self) -> (r: Result<[[u8; 4]; 4], Fault>)
        requires
            self.wf(),
        ensures
            r == spec_read_instruction(self.cells(), self.ip()),
    {
        let instruction_pointer = self.registers.get_instruction_pointer();
        let length = self.memory.length();
        if instruction_pointer >= length {
            return Err(Fault::AddressOutOfBounds(instruction_pointer));
        }
        if length - instruction_pointer < 4 {
            return Err(Fault::AddressOutOfBounds(length));
        }
        let a = match self.memory.read(instruction_pointer) {
            Ok(w) => w,
            Err(f) => {
                return Err(f);
            },
        };
        let b = match self.memory.read(instruction_pointer + 1) {
            Ok(w) => w,
            Err(f) => {
                return Err(f);
            },
        };
        let c = match self.memory.read(instruction_pointer + 2) {
            Ok(w) => w,
            Err(f) => {
                return Err(f);
            },
        };
        let d = match self.memory.read(instruction_pointer + 3) {
            Ok(w) => w,
            Err(f) => {
                return Err(f);
            },
        };
        Ok([a, b, c, d])
    }

    /// Header word `index` as an address.
    fn header_pointer(index: usize, byte_code: &Vec<[u8; 4]>) -> (r: Result<usize, Fault>)
        ensures
            index < byte_code@.len() ==> r == Ok::<usize, Fault>(spec_from_be_bytes(byte_code@[index as int]@) as usize),
            index >= byte_code@.len() ==> r == Err::<usize, Fault>(Fault::MissingHeader),
    {
        if index >= byte_code.len() {
            return Err(Fault::MissingHeader);
        }
        Ok(from_be_bytes(byte_code[index]) as usize)
    }

    /// Loads byte code: the instruction pointer goes to the start of the text segment
    /// that the header names, and the data segment is where the header says.
    pub fn load(&mut self, byte_code: Vec<[u8; 4]>) -> (r: Result<(), Fault>)
        requires
            old(self).wf(),
        ensures
            final(self).wf(),
            byte_code@.len() < 2 ==> r == Err::<(), Fault>(Fault::MissingHeader) && *final(self) == *old(self),
            byte_code@.len() >= 2 ==> {
                &&& r is Ok
                &&& final(self).cells() == byte_code@
                &&& final(self).ip() == spec_from_be_bytes(byte_code@[0]@)
                &&& final(self).dsp() == spec_from_be_bytes(byte_code@[1]@)
                &&& final(self).instr() is None
                &&& final(self).values() == old(self).values()
            },
    {
        let instruction_section_pointer = match Self::header_pointer(0, &byte_code) {
            Ok(p) => p,
            Err(f) => {
                return Err(f);
            },
        };
        let data_section_pointer = match Self::header_pointer(1, &byte_code) {
            Ok(p) => p,
            Err(f) => {
                return Err(f);
            },
        };
        self.memory.load(byte_code);
        self.registers.set_instruction_pointer(instruction_section_pointer);
        self.registers.set_instruction(None);
        self.registers.set_data_section_pointer(data_section_pointer);
        Ok(())
    }

    /// Fetches the instruction at the instruction pointer and moves past it. Nothing is
    /// fetched (`false`) once the pointer reaches the data segment.
    pub fn fetch(&mut self) -> (r: Result<bool, Fault>)
        requires
            old(self).wf(),
        ensures
            final(self).wf(),
            final(self).cells() == old(self).cells(),
            final(self).values() == old(self).values(),
            final(self).dsp() == old(self).dsp(),
            old(self).ip() >= old(self).dsp() ==> r == Ok::<bool, Fault>(false) && *final(self) == *old(self),
            old(self).ip() < old(self).dsp() ==> match spec_read_instruction(old(self).cells(), old(self).ip()) {
                Ok(words) => r == Ok::<bool, Fault>(true) && final(self).instr() == Some(words)
                    && final(self).ip() == old(self).ip() + 4,
                Err(f) => r == Err::<bool, Fault>(f) && *final(self) == *old(self),
            },
    {
        if self.registers.get_instruction_pointer() >= self.registers.get_data_section_pointer() {
            return Ok(false);
        }
        let instruction_bytes = match self.read_instruction() {
            Ok(bytes) => bytes,
            Err(f) => {
                return Err(f);
            },
        };
        let length = self.memory.length();
        assert(self.registers.ip() + 4 <= length);
        self.registers.set_instruction(Some(instruction_bytes));
        self.registers.advance_instruction_pointer(4);
        Ok(true)
    }

    /// Decodes the fetched instruction.
    pub fn decode(&self) -> (r: Result<Instruction, Fault>)
        requires
            self.wf(),
        ensures
            match self.instr() {
                None => r == Err::<Instruction, Fault>(Fault::NoInstructionLoaded),
                Some(bytes) => match spec_decode(cell_words(self.cells()), self.dsp(), instruction_words(bytes)) {
                    Ok(i) => r matches Ok(v) && v@ == i,
                    Err(f) => r == Err::<Instruction, Fault>(f),
                },
            },
    {
        let bytes = match self.registers.get_instruction() {
            Some(b) => b,
            None => {
                return Err(Fault::NoInstructionLoaded);
            },
        };
        Decoder::decode(&self.memory, &self.registers, bytes)
    }

    /// Executes a decoded instruction.
    pub fn execute(&mut self, instruction: Instruction) -> (r: Result<Effect, Fault>)
        requires
            old(self).wf(),
        ensures
            final(self).wf(),
            final(self).cells() == old(self).cells(),
            final(self).dsp() == old(self).dsp(),
            final(self).instr() == old(self).instr(),
            match spec_execute(old(self).values(), old(self).ip(), old(self).cells().len() as int, instruction@) {
                Ok((values, ip, e)) => r matches Ok(x) && x@ == e && final(self).values() == values && final(self).ip() == ip,
                Err(f) => r matches Err(g) && g == f && final(self).values() == old(self).values() && final(self).ip() == old(self).ip(),
            },
    {
        Executor::execute(&self.memory, &mut self.registers, &instruction)
    }

    /// Stores the result of an effect in a register.
    pub fn store(&mut self, register_number: u32, value: Value) -> (r: Result<(), Fault>)
        requires
            old(self).wf(),
        ensures
            final(self).wf(),
            final(self).cells() == old(self).cells(),
            final(self).ip() == old(self).ip(),
            final(self).dsp() == old(self).dsp(),
            final(self).instr() == old(self).instr(),
            valid_register(register_number) ==> r is Ok && final(self).values() == old(self).values().update(register_number - 1, value@),
            !valid_register(register_number) ==> r == Err::<(), Fault>(Fault::InvalidRegister(register_number))
                && final(self).values() == old(self).values(),
    {
        self.registers.set_register(register_number, &value)
    }

    /// The value of register `register_number`.
    pub fn register(&self, register_number: u32) -> (r: Result<&Value, Fault>)
        requires
            self.wf(),
        ensures
            valid_register(register_number) ==> (r matches Ok(v) && v@ == self.values()[register_number - 1]),
            !valid_register(register_number) ==> (r matches Err(f) && f == Fault::InvalidRegister(register_number)),
    {
        self.registers.get_register(register_number)
    }
}

} // verus!
