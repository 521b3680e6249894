//! The executor: carries out a decoded instruction on the registers. What needs the
//! world outside the processor (a file, the console, the language model) comes back as
//! an `Effect` for the caller to perform.
use vstd::prelude::*;
use crate::assembler::immediate::Immediate;
use crate::processor::control_unit::instruction::{
    BranchInstruction, BranchType, Instruction, LoadImmediateInstruction, LoadStringInstruction,
    MoveInstruction, OutputInstruction, RType, SpecInstruction,
};
use crate::processor::control_unit::language_logic_unit::micro_prompt::{create, spec_micro_prompt};
use crate::processor::control_unit::registers::{Registers, Value, ValueView, valid_register};
use crate::processor::fault::Fault;
use crate::processor::memory::Memory;
use crate::text::{decimal, spec_decimal, string_from_chars};

verus! {

/// Work that the caller performs for an instruction.
#[derive(Debug)]
pub enum Effect {
    /// Nothing is left to do.
    Done,
    /// Read the file at `file_path` and store its text in the destination register.
    ReadFile { destination_register: u32, file_path: String },
    /// Print `text` on a line of its own.
    Print { text: String },
    /// Ask the language model `micro_prompt` after the user message `content`, and store
    /// the cleaned reply in the destination register as text.
    Generate { destination_register: u32, r_type: RType, content: String, micro_prompt: String },
    /// Ask as for `Generate`, then store 100 in the destination register when the reply
    /// is nearer to a "yes" answer than to a "no" answer, else 0.
    Audit { destination_register: u32, content: String, micro_prompt: String },
    /// Store the similarity of the two texts, from 0 to 100, in the destination register.
    Similarity { destination_register: u32, value_a: String, value_b: String },
}

pub enum SpecEffect {
    Done,
    ReadFile { destination: u32, path: Seq<char> },
    Print { text: Seq<char> },
    Generate { destination: u32, op: RType, content: Seq<char>, prompt: Seq<char> },
    Audit { destination: u32, content: Seq<char>, prompt: Seq<char> },
    Similarity { destination: u32, a: Seq<char>, b: Seq<char> },
}

impl View for Effect {
    type V = SpecEffect;

    open spec fn view(&self) -> SpecEffect {
        match self {
            Effect::Done => SpecEffect::Done,
            Effect::ReadFile { destination_register, file_path } => SpecEffect::ReadFile { destination: *destination_register, path: file_path@ },
            Effect::Print { text } => SpecEffect::Print { text: text@ },
            Effect::Generate { destination_register, r_type, content, micro_prompt } => SpecEffect::Generate {
                destination: *destination_register,
                op: *r_type,
                content: content@,
                prompt: micro_prompt@,
            },
            Effect::Audit { destination_register, content, micro_prompt } => SpecEffect::Audit {
                destination: *destination_register,
                content: content@,
                prompt: micro_prompt@,
            },
            Effect::Similarity { destination_register, value_a, value_b } => SpecEffect::Similarity {
                destination: *destination_register,
                a: value_a@,
                b: value_b@,
            },
        }
    }
}

pub open spec fn spec_get(values: Seq<ValueView>, n: u32) -> Result<ValueView, Fault> {
    if valid_register(n) {
        Ok(values[n - 1])
    } else {
        Err(Fault::InvalidRegister(n))
    }
}

pub open spec fn spec_set(values: Seq<ValueView>, n: u32, v: ValueView) -> Result<Seq<ValueView>, Fault> {
    if valid_register(n) {
        Ok(values.update(n - 1, v))
    } else {
        Err(Fault::InvalidRegister(n))
    }
}

pub open spec fn spec_text(values: Seq<ValueView>, n: u32) -> Result<Seq<char>, Fault> {
    match spec_get(values, n) {
        Ok(ValueView::Text(s)) => Ok(s),
        Ok(_) => Err(Fault::ExpectedText(n)),
        Err(f) => Err(f),
    }
}

pub open spec fn spec_number(values: Seq<ValueView>, n: u32) -> Result<u32, Fault> {
    match spec_get(values, n) {
        Ok(ValueView::Number(x)) => Ok(x),
        Ok(_) => Err(Fault::ExpectedNumber(n)),
        Err(f) => Err(f),
    }
}

pub open spec fn spec_compare(t: BranchType, a: u32, b: u32) -> bool {
    match t {
        BranchType::Equal => a == b,
        BranchType::Less => a < b,
        BranchType::LessEqual => a <= b,
        BranchType::Greater => a > b,
        BranchType::GreaterEqual => a >= b,
    }
}

/// How `out` prints a register: text as it is, a number in decimal, nothing for an
/// empty register.
pub open spec fn spec_render(v: ValueView) -> Seq<char> {
    match v {
        ValueView::Text(s) => s,
        ValueView::Number(n) => spec_decimal(n as nat),
        ValueView::Empty => Seq::empty(),
    }
}

/// One instruction on registers `values` with instruction pointer `ip`, in a memory of
/// `mem_len` words: the registers and instruction pointer after it and the work left to
/// the caller, or the fault that stops the program.
pub open spec fn spec_execute(values: Seq<ValueView>, ip: int, mem_len: int, i: SpecInstruction) -> Result<(Seq<ValueView>, int, SpecEffect), Fault> {
    match i {
        SpecInstruction::LoadString { destination, value } => match spec_set(values, destination, ValueView::Text(value)) {
            Ok(v) => Ok((v, ip, SpecEffect::Done)),
            Err(f) => Err(f),
        },
        SpecInstruction::LoadImmediate { destination, number } => match spec_set(values, destination, ValueView::Number(number)) {
            Ok(v) => Ok((v, ip, SpecEffect::Done)),
            Err(f) => Err(f),
        },
        SpecInstruction::LoadFile { destination, path } => Ok((values, ip, SpecEffect::ReadFile { destination, path })),
        SpecInstruction::Move { destination, source } => match spec_get(values, source) {
            Err(f) => Err(f),
            Ok(x) => match spec_set(values, destination, x) {
                Ok(v) => Ok((v, ip, SpecEffect::Done)),
                Err(f) => Err(f),
            },
        },
        SpecInstruction::Branch { branch_type, source_1, source_2, target } => match spec_number(values, source_1) {
            Err(f) => Err(f),
            Ok(a) => match spec_number(values, source_2) {
                Err(f) => Err(f),
                Ok(b) => Ok((values, if spec_compare(branch_type, a, b) {
                    target as int
                } else {
                    ip
                }, SpecEffect::Done)),
            },
        },
        SpecInstruction::Exit => Ok((values, mem_len, SpecEffect::Done)),
        SpecInstruction::Output { source } => match spec_get(values, source) {
            Err(f) => Err(f),
            Ok(x) => Ok((values, ip, SpecEffect::Print { text: spec_render(x) })),
        },
        SpecInstruction::OutputNumber { number } => Ok((values, ip, SpecEffect::Print { text: spec_decimal(number as nat) })),
        SpecInstruction::OutputText { text } => Ok((values, ip, SpecEffect::Print { text })),
        SpecInstruction::Language { op, destination, source_1, source_2 } => match spec_text(values, source_1) {
            Err(f) => Err(f),
            Ok(a) => match spec_text(values, source_2) {
                Err(f) => Err(f),
                Ok(b) => Ok((values, ip, if op == RType::Similarity {
                    SpecEffect::Similarity { destination, a, b }
                } else if op == RType::Audit {
                    SpecEffect::Audit { destination, content: a, prompt: spec_micro_prompt(op, b).unwrap() }
                } else {
                    SpecEffect::Generate { destination, op, content: a, prompt: spec_micro_prompt(op, b).unwrap() }
                })),
            },
        },
    }
}

/// Each branch jumps to its target exactly when its comparison of the two numbers holds
/// (`beq`: equal, `blt`: less, `ble`: less or equal, `bgt`: greater, `bge`: greater or
/// equal), and otherwise goes on; it changes no register and leaves nothing to do.
pub proof fn lemma_branch_jumps(
    values: Seq<ValueView>,
    ip: int,
    mem_len: int,
    branch_type: BranchType,
    source_1: u32,
    source_2: u32,
    target: u32,
    a: u32,
    b: u32,
)
    requires
        valid_register(source_1),
        valid_register(source_2),
        values[source_1 - 1] == ValueView::Number(a),
        values[source_2 - 1] == ValueView::Number(b),
    ensures
        ({
            let taken = match branch_type {
                BranchType::Equal => a == b,
                BranchType::Less => a < b,
                BranchType::LessEqual => a <= b,
                BranchType::Greater => a > b,
                BranchType::GreaterEqual => a >= b,
            };
            spec_execute(values, ip, mem_len, SpecInstruction::Branch { branch_type, source_1, source_2, target })
                == Ok::<(Seq<ValueView>, int, SpecEffect), Fault>((values, if taken { target as int } else { ip }, SpecEffect::Done))
        }),
{
}

/// A language instruction asks the model about the text of its first source register,
/// with its operation's prompt framing the text of its second source register; `aud`
/// asks for a yes/no verdict the same way, and `sim` compares the two texts. No register
/// changes and the instruction pointer goes on.
pub proof fn lemma_language_effect(
    values: Seq<ValueView>,
    ip: int,
    mem_len: int,
    op: RType,
    destination: u32,
    source_1: u32,
    source_2: u32,
    a: Seq<char>,
    b: Seq<char>,
)
    requires
        valid_register(source_1),
        valid_register(source_2),
        values[source_1 - 1] == ValueView::Text(a),
        values[source_2 - 1] == ValueView::Text(b),
    ensures
        ({
            let effect = match op {
                RType::Morph => SpecEffect::Generate {
                    destination,
                    op,
                    content: a,
                    prompt: "Transform it into the following format:\n"@ + b + "\n\nTransformed Output:"@,
                },
                RType::Project => SpecEffect::Generate {
                    destination,
                    op,
                    content: a,
                    prompt: "Project how it might evolve based on this direction or trend:\n"@ + b + "\n\nProjected Output:"@,
                },
                RType::Distill => SpecEffect::Generate {
                    destination,
                    op,
                    content: a,
                    prompt: "Distill it down following the goal or criteria:\n"@ + b + "\n\nDistilled Result:"@,
                },
                RType::Correlate => SpecEffect::Generate {
                    destination,
                    op,
                    content: a,
                    prompt: "Find the correlation with:\n"@ + b + "\n\nRelational Analysis:"@,
                },
                RType::Audit => SpecEffect::Audit {
                    destination,
                    content: a,
                    prompt: "Does it comply with the evidence:\n"@ + b + "\n\nYES/NO:"@,
                },
                RType::Similarity => SpecEffect::Similarity { destination, a, b },
            };
            spec_execute(values, ip, mem_len, SpecInstruction::Language { op, destination, source_1, source_2 })
                == Ok::<(Seq<ValueView>, int, SpecEffect), Fault>((values, ip, effect))
        }),
{
}

pub struct Executor;

impl Executor {
    fn read_text(registers: &Registers, register_number: u32) -> (r: Result<String, Fault>)
        requires
            registers.wf(),
        ensures
            match spec_text(registers.values(), register_number) {
                Ok(s) => r matches Ok(t) && t@ == s,
                Err(f) => r == Err::<String, Fault>(f),
            },
    {
        match registers.get_register(register_number) {
            Ok(Value::Text(text)) => Ok(text.clone()),
            Ok(_) => Err(Fault::ExpectedText(register_number)),
            Err(f) => Err(f),
        }
    }

    fn read_number(registers: &Registers, register_number: u32) -> (r: Result<u32, Fault>)
        requires
            registers.wf(),
        ensures
            r == spec_number(registers.values(), register_number),
    {
        match registers.get_register(register_number) {
            Ok(Value::Number(number)) => Ok(*number),
            Ok(_) => Err(Fault::ExpectedNumber(register_number)),
            Err(f) => Err(f),
        }
    }

    /// How `out` prints a value.
    pub fn render(value: &Value) -> (r: String)
        ensures
            r@ == spec_render(value@),
    {
        match value {
            Value::Text(s) => s.clone(),
            Value::Number(n) => {
                let digits = decimal(*n as u64);
                string_from_chars(digits.as_slice())
            },
            Value::Empty => String::new(),
        }
    }

    fn load_string(registers: &mut Registers, instruction: &LoadStringInstruction) -> (r: Result<(), Fault>)
        requires
            old(registers).wf(),
        ensures
            final(registers).wf(),
            final(registers).ip() == old(registers).ip(),
            final(registers).dsp() == old(registers).dsp(),
            final(registers).instr() == old(registers).instr(),
            match spec_set(old(registers).values(), instruction.destination_register, ValueView::Text(instruction.value@)) {
                Ok(v) => r is Ok && final(registers).values() == v,
                Err(f) => r == Err::<(), Fault>(f) && final(registers).values() == old(registers).values(),
            },
    {
        let value = Value::Text(instruction.value.clone());
        registers.set_register(instruction.destination_register, &value)
    }

    fn load_immediate(registers: &mut Registers, instruction: &LoadImmediateInstruction) -> (r: Result<(), Fault>)
        requires
            old(registers).wf(),
        ensures
            final(registers).wf(),
            final(registers).ip() == old(registers).ip(),
            final(registers).dsp() == old(registers).dsp(),
            final(registers).instr() == old(registers).instr(),
            match spec_set(old(registers).values(), instruction.destination_register, ValueView::Number(instruction.value)) {
                Ok(v) => r is Ok && final(registers).values() == v,
                Err(f) => r == Err::<(), Fault>(f) && final(registers).values() == old(registers).values(),
            },
    {
        let value = Value::Number(instruction.value);
        registers.set_register(instruction.destination_register, &value)
    }

    fn mov(registers: &mut Registers, instruction: &MoveInstruction) -> (r: Result<(), Fault>)
        requires
            old(registers).wf(),
        ensures
            final(registers).wf(),
            final(registers).ip() == old(registers).ip(),
            final(registers).dsp() == old(registers).dsp(),
            final(registers).instr() == old(registers).instr(),
            match spec_get(old(registers).values(), instruction.source_register) {
                Err(f) => r == Err::<(), Fault>(f) && final(registers).values() == old(registers).values(),
                Ok(x) => match spec_set(old(registers).values(), instruction.destination_register, x) {
                    Ok(v) => r is Ok && final(registers).values() == v,
                    Err(f) => r == Err::<(), Fault>(f) && final(registers).values() == old(registers).values(),
                },
            },
    {
        let value = match registers.get_register(instruction.source_register) {
            Ok(v) => v.duplicate(),
            Err(f) => {
                return Err(f);
            },
        };
        registers.set_register(instruction.destination_register, &value)
    }

    fn b_type(registers: &mut Registers, instruction: &BranchInstruction) -> (r: Result<(), Fault>)
        requires
            old(registers).wf(),
        ensures
            final(registers).wf(),
            final(registers).values() == old(registers).values(),
            final(registers).dsp() == old(registers).dsp(),
            final(registers).instr() == old(registers).instr(),
            match spec_number(old(registers).values(), instruction.source_register_1) {
                Err(f) => r == Err::<(), Fault>(f) && final(registers).ip() == old(registers).ip(),
                Ok(a) => match spec_number(old(registers).values(), instruction.source_register_2) {
                    Err(f) => r == Err::<(), Fault>(f) && final(registers).ip() == old(registers).ip(),
                    Ok(b) => r is Ok && final(registers).ip() == (if spec_compare(instruction.branch_type, a, b) {
                        instruction.instruction_pointer_jump_index as int
                    } else {
                        old(registers).ip() as int
                    }),
                },
            },
    {
        let value_a = match Self::read_number(registers, instruction.source_register_1) {
            Ok(v) => v,
            Err(f) => {
                return Err(f);
            },
        };
        let value_b = match Self::read_number(registers, instruction.source_register_2) {
            Ok(v) => v,
            Err(f) => {
                return Err(f);
            },
        };
        let is_true = match instruction.branch_type {
            BranchType::Equal => value_a == value_b,
            BranchType::Less => value_a < value_b,
            BranchType::LessEqual => value_a <= value_b,
            BranchType::Greater => value_a > value_b,
            BranchType::GreaterEqual => value_a >= value_b,
        };
        if is_true {
            registers.set_instruction_pointer(instruction.instruction_pointer_jump_index as usize);
        }
        Ok(())
    }

    fn output(registers: &Registers, instruction: &OutputInstruction) -> (r: Result<Effect, Fault>)
        requires
            registers.wf(),
        ensures
            match spec_get(registers.values(), instruction.source_register) {
                Err(f) => r matches Err(g) && g == f,
                Ok(x) => r matches Ok(e) && e@ == (SpecEffect::Print { text: spec_render(x) }),
            },
    {
        match registers.get_register(instruction.source_register) {
            Ok(v) => Ok(Effect::Print { text: Self::render(v) }),
            Err(f) => Err(f),
        }
    }

    /// Moves the instruction pointer past the end of memory, which halts the program.
    fn exit(memory: &Memory, registers: &mut Registers)
        ensures
            final(registers).ip() == memory.cells().len(),
            final(registers).values() == old(registers).values(),
            final(registers).dsp() == old(registers).dsp(),
            final(registers).instr() == old(registers).instr(),
            final(registers).wf() == old(registers).wf(),
    {
        registers.set_instruction_pointer(memory.length());
    }

    fn r_type(registers: &Registers, r_type: RType, destination_register: u32, source_register_1: u32, source_register_2: u32) -> (r: Result<Effect, Fault>)
        requires
            registers.wf(),
        ensures
            match spec_execute(registers.values(), 0, 0, SpecInstruction::Language {
                op: r_type,
                destination: destination_register,
                source_1: source_register_1,
                source_2: source_register_2,
            }) {
                Ok((_, _, e)) => r matches Ok(x) && x@ == e,
                Err(f) => r matches Err(g) && g == f,
            },
    {
        let value_a = match Self::read_text(registers, source_register_1) {
            Ok(v) => v,
            Err(f) => {
                return Err(f);
            },
        };
        let value_b = match Self::read_text(registers, source_register_2) {
            Ok(v) => v,
            Err(f) => {
                return Err(f);
            },
        };
        match r_type {
            RType::Similarity => Ok(Effect::Similarity { destination_register, value_a, value_b }),
            _ => {
                let micro_prompt = match create(&r_type, value_b.as_str()) {
                    Ok(p) => p,
                    Err(_) => String::new(),
                };
                match r_type {
                    RType::Audit => Ok(Effect::Audit { destination_register, content: value_a, micro_prompt }),
                    _ => Ok(Effect::Generate { destination_register, r_type, content: value_a, micro_prompt }),
                }
            },
        }
    }

    /// Carries out `instruction`; the registers change as `spec_execute` says.
    pub fn execute(memory: &Memory, registers: &mut Registers, instruction: &Instruction) -> (r: Result<Effect, Fault>)
        requires
            old(registers).wf(),
        ensures
            final(registers).wf(),
            final(registers).dsp() == old(registers).dsp(),
            final(registers).instr() == old(registers).instr(),
            match spec_execute(old(registers).values(), old(registers).ip() as int, memory.cells().len() as int, instruction@) {
                Ok((values, ip, e)) => r matches Ok(x) && x@ == e && final(registers).values() == values
                    && final(registers).ip() == ip,
                Err(f) => r matches Err(g) && g == f && final(registers).values() == old(registers).values()
                    && final(registers).ip() == old(registers).ip(),
            },
    {
        match instruction {
            Instruction::LoadString(i) => match Self::load_string(registers, i) {
                Ok(()) => Ok(Effect::Done),
                Err(f) => Err(f),
            },
            Instruction::LoadImmediate(i) => match Self::load_immediate(registers, i) {
                Ok(()) => Ok(Effect::Done),
                Err(f) => Err(f),
            },
            Instruction::LoadFile(i) => Ok(Effect::ReadFile { destination_register: i.destination_register, file_path: i.file_path.clone() }),
            Instruction::Move(i) => match Self::mov(registers, i) {
                Ok(()) => Ok(Effect::Done),
                Err(f) => Err(f),
            },
            Instruction::Branch(i) => match Self::b_type(registers, i) {
                Ok(()) => Ok(Effect::Done),
                Err(f) => Err(f),
            },
            Instruction::Exit(_) => {
                Self::exit(memory, registers);
                Ok(Effect::Done)
            },
            Instruction::Output(i) => Self::output(registers, i),
            Instruction::OutputImmediate(i) => match &i.value {
                Immediate::Number(n) => Ok(Effect::Print { text: Self::render(&Value::Number(*n)) }),
                Immediate::Text(s) => Ok(Effect::Print { text: s.clone() }),
            },
            Instruction::Morph(i) => Self::r_type(registers, RType::Morph, i.destination_register, i.source_register_1, i.source_register_2),
            Instruction::Project(i) => Self::r_type(registers, RType::Project, i.destination_register, i.source_register_1, i.source_register_2),
            Instruction::Distill(i) => Self::r_type(registers, RType::Distill, i.destination_register, i.source_register_1, i.source_register_2),
            Instruction::Correlate(i) => Self::r_type(registers, RType::Correlate, i.destination_register, i.source_register_1, i.source_register_2),
            Instruction::Audit(i) => Self::r_type(registers, RType::Audit, i.destination_register, i.source_register_1, i.source_register_2),
            Instruction::Similarity(i) => Self::r_type(registers, RType::Similarity, i.destination_register, i.source_register_1, i.source_register_2),
        }
    }
}

} // verus!
