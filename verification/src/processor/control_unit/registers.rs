//! The register file: 32 general-purpose registers, the instruction pointer, the
//! address of the data segment and the instruction being executed.
use vstd::prelude::*;
use crate::processor::fault::Fault;

verus! {

#[derive(Debug)]
pub enum Value {
    Text(String),
    Number(u32),
    Empty,
}

/// What a register holds, as a mathematical value.
pub enum ValueView {
    Text(Seq<char>),
    Number(u32),
    Empty,
}

impl View for Value {
    type V = ValueView;

    open spec fn view(&self) -> ValueView {
        match self {
            Value::Text(s) => ValueView::Text(s@),
            Value::Number(n) => ValueView::Number(*n),
            Value::Empty => ValueView::Empty,
        }
    }
}

impl Value {
    pub fn duplicate(&self) -> (r: Value)
        ensures
            r@ == self@,
    {
        match self {
            Value::Text(s) => Value::Text(s.clone()),
            Value::Number(n) => Value::Number(*n),
            Value::Empty => Value::Empty,
        }
    }
}

/// The number of general-purpose registers.
pub const REGISTER_COUNT: usize = 32;

/// Whether `n` names a register (they are numbered from 1 to 32).
pub open spec fn valid_register(n: u32) -> bool {
    1 <= n && n <= 32
}

pub struct Registers {
    general_purpose_registers: Vec<Value>,
    instruction_pointer: usize,
    data_section_pointer: usize,
    instruction: Option<[[u8; 4]; 4]>,
}

impl Registers {
    /// The contents of registers 1 to 32, in order.
    pub closed spec fn values(&self) -> Seq<ValueView> {
        self.general_purpose_registers@.map_values(|v: Value| v@)
    }

    pub closed spec fn ip(&self) -> usize {
        self.instruction_pointer
    }

    pub closed spec fn dsp(&self) -> usize {
        self.data_section_pointer
    }

    pub closed spec fn instr(&self) -> Option<[[u8; 4]; 4]> {
        self.instruction
    }

    pub closed spec fn wf(&self) -> bool {
        self.general_purpose_registers@.len() == REGISTER_COUNT
    }

    /// A well-formed register file holds 32 registers.
    pub proof fn lemma_register_count(&self)
        requires
            self.wf(),
        ensures
            self.values().len() == REGISTER_COUNT,
    {
    }

    pub fn new() -> (r: Self)
        ensures
            r.wf(),
            r.values() == Seq::new(32, |i: int| ValueView::Empty),
            r.ip() == 0,
            r.dsp() == 0,
            r.instr() is None,
    {
        let mut general_purpose_registers: Vec<Value> = Vec::new();
        let mut i: usize = 0;
        while i < REGISTER_COUNT
            invariant
                i <= REGISTER_COUNT,
                general_purpose_registers@.len() == i,
                forall|k: int| 0 <= k < i ==> general_purpose_registers@[k]@ == ValueView::Empty,
            decreases REGISTER_COUNT - i,
        {
            general_purpose_registers.push(Value::Empty);
            i = i + 1;
        }
        let r = Registers { general_purpose_registers, instruction_pointer: 0, data_section_pointer: 0, instruction: None };
        assert(r.values() =~= Seq::new(32, |i: int| ValueView::Empty));
        r
    }

    /// The index of register `register_number` in the register file.
    fn to_index(register_number: u32) -> (r: Result<usize, Fault>)
        ensures
            valid_register(register_number) ==> r == Ok::<usize, Fault>((register_number - 1) as usize),
            !valid_register(register_number) ==> r == Err::<usize, Fault>(Fault::InvalidRegister(register_number)),
    {
        if register_number == 0 || register_number > 32 {
            return Err(Fault::InvalidRegister(register_number));
        }
        Ok((register_number - 1) as usize)
    }

    pub fn get_register(&self, register_number: u32) -> (r: Result<&Value, Fault>)
        requires
            self.wf(),
        ensures
            valid_register(register_number) ==> (r matches Ok(v) && v@ == self.values()[register_number - 1]),
            !valid_register(register_number) ==> (r matches Err(f) && f == Fault::InvalidRegister(register_number)),
    {
        let idx = match Self::to_index(register_number) {
            Ok(i) => i,
            Err(f) => {
                return Err(f);
            },
        };
        Ok(&self.general_purpose_registers[idx])
    }

    pub fn set_register(&mut self, register_number: u32, value: &Value) -> (r: Result<(), Fault>)
        requires
            old(self).wf(),
        ensures
            final(self).wf(),
            final(self).ip() == old(self).ip(),
            final(self).dsp() == old(self).dsp(),
            final(self).instr() == old(self).instr(),
            valid_register(register_number) ==> r is Ok && final(self).values() == old(self).values().update(register_number - 1, value@),
            !valid_register(register_number) ==> r == Err::<(), Fault>(Fault::InvalidRegister(register_number))
                && final(self).values() == old(self).values(),
    {
        let idx = match Self::to_index(register_number) {
            Ok(i) => i,
            Err(f) => {
                return Err(f);
            },
        };
        self.general_purpose_registers.set(idx, value.duplicate());
        assert(self.values() =~= old(self).values().update(register_number - 1, value@));
        Ok(())
    }

    pub fn get_instruction_pointer(&self) -> (r: usize)
        ensures
            r == self.ip(),
    {
        self.instruction_pointer
    }

    pub fn set_instruction_pointer(&mut self, address: usize)
        ensures
            final(self).ip() == address,
            final(self).values() == old(self).values(),
            final(self).dsp() == old(self).dsp(),
            final(self).instr() == old(self).instr(),
            final(self).wf() == old(self).wf(),
    {
        self.instruction_pointer = address;
    }

    pub fn advance_instruction_pointer(&mut self, count: usize)
        requires
            old(self).ip() + count <= usize::MAX,
        ensures
            final(self).ip() == old(self).ip() + count,
            final(self).values() == old(self).values(),
            final(self).dsp() == old(self).dsp(),
            final(self).instr() == old(self).instr(),
            final(self).wf() == old(self).wf(),
    {
        self.instruction_pointer = self.instruction_pointer + count;
    }

    pub fn get_data_section_pointer(&self) -> (r: usize)
        ensures
            r == self.dsp(),
    {
        self.data_section_pointer
    }

    pub fn set_data_section_pointer(&mut self, address: usize)
        ensures
            final(self).dsp() == address,
            final(self).values() == old(self).values(),
            final(self).ip() == old(self).ip(),
            final(self).instr() == old(self).instr(),
            final(self).wf() == old(self).wf(),
    {
        self.data_section_pointer = address;
    }

    pub fn get_instruction(&self) -> (r: Option<[[u8; 4]; 4]>)
        ensures
            r == self.instr(),
    {
        self.instruction
    }

    pub fn set_instruction(&mut self, instruction: Option<[[u8; 4]; 4]>)
        ensures
            final(self).instr() == instruction,
            final(self).values() == old(self).values(),
            final(self).ip() == old(self).ip(),
            final(self).dsp() == old(self).dsp(),
            final(self).wf() == old(self).wf(),
    {
        self.instruction = instruction;
    }
}

/// Reading a register gives what was last written to it; writing one register leaves
/// the others as they were.
pub proof fn lemma_register_read_after_write(values: Seq<ValueView>, n: u32, m: u32, v: ValueView)
    requires
        values.len() == REGISTER_COUNT,
        valid_register(n),
        valid_register(m),
    ensures
        values.update(n - 1, v)[n - 1] == v,
        n != m ==> values.update(n - 1, v)[m - 1] == values[m - 1],
{
}

} // verus!
