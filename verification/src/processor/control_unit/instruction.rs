//! The instructions that the decoder produces.
use vstd::prelude::*;
use crate::assembler::immediate::Immediate;

verus! {

#[derive(Debug)]
pub struct LoadStringInstruction {
    pub destination_register: u32,
    pub value: String,
}

#[derive(Debug)]
pub struct LoadImmediateInstruction {
    pub destination_register: u32,
    pub value: u32,
}

#[derive(Debug)]
pub struct LoadFileInstruction {
    pub destination_register: u32,
    pub file_path: String,
}

#[derive(Debug)]
pub struct MoveInstruction {
    pub destination_register: u32,
    pub source_register: u32,
}

/// Reshape the text of `source_register_1` into the form that `source_register_2` gives.
#[derive(Debug)]
pub struct MorphInstruction {
    pub destination_register: u32,
    pub source_register_1: u32,
    pub source_register_2: u32,
}

/// Predict how the text of `source_register_1` evolves in the direction of `source_register_2`.
#[derive(Debug)]
pub struct ProjectInstruction {
    pub destination_register: u32,
    pub source_register_1: u32,
    pub source_register_2: u32,
}

/// Boil the text of `source_register_1` down to what `source_register_2` asks for.
#[derive(Debug)]
pub struct DistillInstruction {
    pub destination_register: u32,
    pub source_register_1: u32,
    pub source_register_2: u32,
}

/// Relate the texts of the two source registers.
#[derive(Debug)]
pub struct CorrelateInstruction {
    pub destination_register: u32,
    pub source_register_1: u32,
    pub source_register_2: u32,
}

/// Whether the text of `source_register_1` complies with `source_register_2` (100 or 0).
#[derive(Debug)]
pub struct AuditInstruction {
    pub destination_register: u32,
    pub source_register_1: u32,
    pub source_register_2: u32,
}

/// The similarity of the two source texts, from 0 to 100.
#[derive(Debug)]
pub struct SimilarityInstruction {
    pub destination_register: u32,
    pub source_register_1: u32,
    pub source_register_2: u32,
}

#[derive(Debug, Clone, Copy, PartialEq, Eq, Structural)]
pub enum BranchType {
    Equal,
    LessEqual,
    Less,
    GreaterEqual,
    Greater,
}

#[derive(Debug)]
pub struct BranchInstruction {
    pub branch_type: BranchType,
    pub source_register_1: u32,
    pub source_register_2: u32,
    pub instruction_pointer_jump_index: u32,
}

#[derive(Debug)]
pub struct OutputInstruction {
    pub source_register: u32,
}

/// Print a number or a text written in the program.
#[derive(Debug)]
pub struct OutputImmediateInstruction {
    pub value: Immediate,
}

#[derive(Debug)]
pub struct ExitInstruction;

/// The operations that a language model carries out.
#[derive(Debug, Clone, Copy, PartialEq, Eq, Structural)]
pub enum RType {
    Morph,
    Project,
    Distill,
    Correlate,
    Audit,
    Similarity,
}

#[derive(Debug)]
pub enum Instruction {
    // Data movement.
    LoadString(LoadStringInstruction),
    LoadImmediate(LoadImmediateInstruction),
    LoadFile(LoadFileInstruction),
    Move(MoveInstruction),
    // Control flow.
    Branch(BranchInstruction),
    Exit(ExitInstruction),
    // I/O.
    Output(OutputInstruction),
    OutputImmediate(OutputImmediateInstruction),
    // Generative operations.
    Morph(MorphInstruction),
    Project(ProjectInstruction),
    // Cognitive operations.
    Distill(DistillInstruction),
    Correlate(CorrelateInstruction),
    // Guardrails operations.
    Audit(AuditInstruction),
    Similarity(SimilarityInstruction),
}

/// An instruction as a mathematical value: strings as character sequences, and the
/// language-model operations gathered under one form.
pub enum SpecInstruction {
    LoadString { destination: u32, value: Seq<char> },
    LoadImmediate { destination: u32, number: u32 },
    LoadFile { destination: u32, path: Seq<char> },
    Move { destination: u32, source: u32 },
    Branch { branch_type: BranchType, source_1: u32, source_2: u32, target: u32 },
    Exit,
    Output { source: u32 },
    OutputNumber { number: u32 },
    OutputText { text: Seq<char> },
    Language { op: RType, destination: u32, source_1: u32, source_2: u32 },
}

impl View for Instruction {
    type V = SpecInstruction;

    open spec fn view(&self) -> SpecInstruction {
        match self {
            Instruction::LoadString(i) => SpecInstruction::LoadString { destination: i.destination_register, value: i.value@ },
            Instruction::LoadImmediate(i) => SpecInstruction::LoadImmediate { destination: i.destination_register, number: i.value },
            Instruction::LoadFile(i) => SpecInstruction::LoadFile { destination: i.destination_register, path: i.file_path@ },
            Instruction::Move(i) => SpecInstruction::Move { destination: i.destination_register, source: i.source_register },
            Instruction::Branch(i) => SpecInstruction::Branch {
                branch_type: i.branch_type,
                source_1: i.source_register_1,
                source_2: i.source_register_2,
                target: i.instruction_pointer_jump_index,
            },
            Instruction::Exit(_) => SpecInstruction::Exit,
            Instruction::Output(i) => SpecInstruction::Output { source: i.source_register },
            Instruction::OutputImmediate(i) => match &i.value {
                Immediate::Number(n) => SpecInstruction::OutputNumber { number: *n },
                Immediate::Text(s) => SpecInstruction::OutputText { text: s@ },
            },
            Instruction::Morph(i) => SpecInstruction::Language { op: RType::Morph, destination: i.destination_register, source_1: i.source_register_1, source_2: i.source_register_2 },
            Instruction::Project(i) => SpecInstruction::Language { op: RType::Project, destination: i.destination_register, source_1: i.source_register_1, source_2: i.source_register_2 },
            Instruction::Distill(i) => SpecInstruction::Language { op: RType::Distill, destination: i.destination_register, source_1: i.source_register_1, source_2: i.source_register_2 },
            Instruction::Correlate(i) => SpecInstruction::Language { op: RType::Correlate, destination: i.destination_register, source_1: i.source_register_1, source_2: i.source_register_2 },
            Instruction::Audit(i) => SpecInstruction::Language { op: RType::Audit, destination: i.destination_register, source_1: i.source_register_1, source_2: i.source_register_2 },
            Instruction::Similarity(i) => SpecInstruction::Language { op: RType::Similarity, destination: i.destination_register, source_1: i.source_register_1, source_2: i.source_register_2 },
        }
    }
}

} // verus!
