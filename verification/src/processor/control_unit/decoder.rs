//! The decoder: turns the four words of a fetched instruction into an `Instruction`.
use vstd::prelude::*;
use crate::assembler::opcode::OpCode;
use crate::processor::control_unit::instruction::{
    AuditInstruction, BranchInstruction, BranchType, CorrelateInstruction, DistillInstruction,
    ExitInstruction, Instruction, LoadFileInstruction, LoadImmediateInstruction,
    LoadStringInstruction, MorphInstruction, MoveInstruction, OutputImmediateInstruction, OutputInstruction,
    ProjectInstruction, RType, SimilarityInstruction, SpecInstruction,
};
use crate::processor::control_unit::registers::Registers;
use crate::processor::fault::Fault;
use crate::processor::memory::Memory;
use crate::text::string_from_utf8;
use crate::word::{from_be_bytes, spec_from_be_bytes};
use crate::assembler::grammar::{OUT_NUMBER, OUT_TEXT, string_words};
use crate::assembler::immediate::Immediate;
use vstd::utf8::{
    encode_scalar, encode_utf8, last_continuation_byte, leading_byte_width_2, leading_byte_width_3,
    leading_byte_width_4, second_last_continuation_byte, third_last_continuation_byte,
};

verus! {

/// The bytes of the string stored from word `a` of memory up to its zero word.
pub open spec fn string_bytes(words: Seq<u32>, a: int) -> Result<Seq<u8>, Fault>
    decreases words.len() - a,
{
    if a < 0 || a >= words.len() {
        Err(Fault::UnterminatedString)
    } else if words[a] == 0 {
        Ok(Seq::empty())
    } else if words[a] > 255 {
        Err(Fault::InvalidStringByte(words[a]))
    } else {
        match string_bytes(words, a + 1) {
            Ok(rest) => Ok(seq![words[a] as u8] + rest),
            Err(f) => Err(f),
        }
    }
}

/// The string stored `pointer` words into the data segment, which starts at word `dsp`.
pub open spec fn spec_string(words: Seq<u32>, dsp: int, pointer: int) -> Result<Seq<char>, Fault> {
    match string_bytes(words, pointer + dsp) {
        Err(f) => Err(f),
        Ok(b) => if vstd::utf8::valid_utf8(b) {
            Ok(vstd::utf8::decode_utf8(b))
        } else {
            Err(Fault::InvalidUtf8)
        },
    }
}

/// The UTF-8 bytes of a character other than the zero character are all nonzero.
proof fn lemma_encode_scalar_nonzero(c: char)
    requires
        c != '\0',
    ensures
        forall|i: int| 0 <= i < encode_scalar(c as u32).len() ==> #[trigger] encode_scalar(c as u32)[i] != 0,
{
    let v = c as u32;
    vstd::utf8::char_is_scalar(c);
    assert(v != 0);
    assert(v != 0 && v <= 0x7F ==> (v & 0x7F) as u8 != 0) by (bit_vector);
    assert(leading_byte_width_2(v) != 0) by (bit_vector);
    assert(leading_byte_width_3(v) != 0) by (bit_vector);
    assert(leading_byte_width_4(v) != 0) by (bit_vector);
    assert(last_continuation_byte(v) != 0) by (bit_vector);
    assert(second_last_continuation_byte(v) != 0) by (bit_vector);
    assert(third_last_continuation_byte(v) != 0) by (bit_vector);
}

/// The text of `s` before its first zero character (all of it when it has none).
pub open spec fn before_nul(s: Seq<char>) -> Seq<char>
    decreases s.len(),
{
    if s.len() == 0 {
        s
    } else if s[0] == '\0' {
        Seq::empty()
    } else {
        seq![s[0]] + before_nul(s.drop_first())
    }
}

/// Text without the zero character is all read.
pub proof fn lemma_before_nul_whole(s: Seq<char>)
    requires
        forall|i: int| 0 <= i < s.len() ==> #[trigger] s[i] != '\0',
    ensures
        before_nul(s) == s,
    decreases s.len(),
{
    if s.len() > 0 {
        let rest = s.drop_first();
        assert(s[0] != '\0');
        assert forall|i: int| 0 <= i < rest.len() implies #[trigger] rest[i] != '\0' by {
            assert(rest[i] == s[i + 1]);
        }
        lemma_before_nul_whole(rest);
        assert(seq![s[0]] + rest =~= s);
    }
}

/// Nonzero bytes stored one per word from word `a`, followed by words that read as `rest`,
/// read as those bytes and then `rest`.
proof fn lemma_string_bytes_prefix(words: Seq<u32>, a: int, b: Seq<u8>, rest: Seq<u8>)
    requires
        0 <= a,
        a + b.len() <= words.len(),
        forall|i: int| 0 <= i < b.len() ==> #[trigger] b[i] != 0 && words[a + i] == b[i] as u32,
        string_bytes(words, a + b.len()) == Ok::<Seq<u8>, Fault>(rest),
    ensures
        string_bytes(words, a) == Ok::<Seq<u8>, Fault>(b + rest),
    decreases b.len(),
{
    if b.len() > 0 {
        let tail = b.drop_first();
        assert forall|i: int| 0 <= i < tail.len() implies #[trigger] tail[i] != 0 && words[a + 1 + i] == tail[i] as u32 by {
            assert(tail[i] == b[i + 1]);
        }
        lemma_string_bytes_prefix(words, a + 1, tail, rest);
        assert(b[0] != 0 && words[a + 0] == b[0] as u32);
        assert(seq![words[a] as u8] + (tail + rest) =~= b + rest);
    } else {
        assert(b + rest =~= rest);
    }
}

/// The words that store `s` read back as the UTF-8 bytes of its text before the first
/// zero character.
proof fn lemma_string_bytes_of(words: Seq<u32>, a: int, s: Seq<char>)
    requires
        0 <= a,
        a + string_words(s).len() <= words.len(),
        words.subrange(a, a + string_words(s).len()) == string_words(s),
    ensures
        string_bytes(words, a) == Ok::<Seq<u8>, Fault>(encode_utf8(before_nul(s))),
    decreases s.len(),
{
    let sw = string_words(s);
    if s.len() == 0 {
        assert(words[a] == words.subrange(a, a + sw.len())[0]);
        assert(encode_utf8(before_nul(s)) =~= Seq::<u8>::empty());
    } else {
        let c = s[0];
        let rest = s.drop_first();
        let head = encode_scalar(c as u32);
        let enc = encode_utf8(s);
        assert(enc == head + encode_utf8(rest));
        assert(string_words(rest) =~= sw.subrange(head.len() as int, sw.len() as int));
        if c == '\0' {
            assert(c as u32 == 0);
            assert((0u32 & 0x7F) as u8 == 0) by (bit_vector);
            assert(head == seq![0u8]);
            assert(words[a] == words.subrange(a, a + sw.len())[0]);
            assert(encode_utf8(before_nul(s)) =~= Seq::<u8>::empty());
        } else {
            lemma_encode_scalar_nonzero(c);
            assert(words.subrange(a + head.len(), a + head.len() + string_words(rest).len())
                =~= sw.subrange(head.len() as int, sw.len() as int));
            lemma_string_bytes_of(words, a + head.len(), rest);
            assert forall|i: int| 0 <= i < head.len() implies #[trigger] head[i] != 0 && words[a + i] == head[i] as u32 by {
                assert(words[a + i] == words.subrange(a, a + sw.len())[i]);
                assert(sw[i] == enc[i] as u32);
                assert(enc[i] == head[i]);
            }
            lemma_string_bytes_prefix(words, a, head, encode_utf8(before_nul(rest)));
            let x = before_nul(s);
            assert(x == seq![c] + before_nul(rest));
            assert(x.drop_first() =~= before_nul(rest));
            assert(encode_utf8(x) == head + encode_utf8(before_nul(rest)));
        }
    }
}

/// A string stored the way the assembler stores it, its UTF-8 bytes one per word and then
/// a zero word, is read back up to its first zero character.
pub proof fn lemma_string_read(words: Seq<u32>, dsp: int, pointer: int, s: Seq<char>)
    requires
        0 <= dsp + pointer,
        dsp + pointer + string_words(s).len() <= words.len(),
        words.subrange(dsp + pointer, dsp + pointer + string_words(s).len()) == string_words(s),
    ensures
        spec_string(words, dsp, pointer) == Ok::<Seq<char>, Fault>(before_nul(s)),
{
    lemma_string_bytes_of(words, pointer + dsp, s);
    vstd::utf8::encode_utf8_valid_utf8(before_nul(s));
    vstd::utf8::encode_utf8_decode_utf8(before_nul(s));
}

/// A string stored the way the assembler stores it is read back as it was written,
/// provided it holds no zero character.
pub proof fn lemma_string_round_trip(words: Seq<u32>, dsp: int, pointer: int, s: Seq<char>)
    requires
        0 <= dsp + pointer,
        forall|i: int| 0 <= i < s.len() ==> #[trigger] s[i] != '\0',
        dsp + pointer + string_words(s).len() <= words.len(),
        words.subrange(dsp + pointer, dsp + pointer + string_words(s).len()) == string_words(s),
    ensures
        spec_string(words, dsp, pointer) == Ok::<Seq<char>, Fault>(s),
{
    lemma_string_read(words, dsp, pointer, s);
    lemma_before_nul_whole(s);
}

pub open spec fn branch_type_of(op: OpCode) -> BranchType {
    match op {
        OpCode::BranchEqual => BranchType::Equal,
        OpCode::BranchLess => BranchType::Less,
        OpCode::BranchLessEqual => BranchType::LessEqual,
        OpCode::BranchGreater => BranchType::Greater,
        _ => BranchType::GreaterEqual,
    }
}

pub open spec fn rtype_of(op: OpCode) -> RType {
    match op {
        OpCode::Morph => RType::Morph,
        OpCode::Project => RType::Project,
        OpCode::Distill => RType::Distill,
        OpCode::Correlate => RType::Correlate,
        OpCode::Audit => RType::Audit,
        _ => RType::Similarity,
    }
}

/// The instruction that the words `w` (operation, then three operands) stand for, in a
/// memory whose data segment starts at word `dsp`.
pub open spec fn spec_decode(words: Seq<u32>, dsp: int, w: Seq<u32>) -> Result<SpecInstruction, Fault> {
    match OpCode::spec_from_code(w[0]) {
        None => Err(Fault::InvalidOpcode(w[0])),
        Some(op) => match op {
            OpCode::LoadString => match spec_string(words, dsp, w[2] as int) {
                Ok(s) => Ok(SpecInstruction::LoadString { destination: w[1], value: s }),
                Err(f) => Err(f),
            },
            OpCode::LoadFile => match spec_string(words, dsp, w[2] as int) {
                Ok(s) => Ok(SpecInstruction::LoadFile { destination: w[1], path: s }),
                Err(f) => Err(f),
            },
            OpCode::LoadImmediate => Ok(SpecInstruction::LoadImmediate { destination: w[1], number: w[2] }),
            OpCode::Move => Ok(SpecInstruction::Move { destination: w[1], source: w[2] }),
            OpCode::BranchEqual | OpCode::BranchLess | OpCode::BranchLessEqual | OpCode::BranchGreater
            | OpCode::BranchGreaterEqual => Ok(SpecInstruction::Branch {
                branch_type: branch_type_of(op),
                source_1: w[1],
                source_2: w[2],
                target: w[3],
            }),
            OpCode::Exit => Ok(SpecInstruction::Exit),
            OpCode::Out => if w[3] == OUT_NUMBER {
                Ok(SpecInstruction::OutputNumber { number: w[2] })
            } else if w[3] == OUT_TEXT {
                match spec_string(words, dsp, w[2] as int) {
                    Ok(s) => Ok(SpecInstruction::OutputText { text: s }),
                    Err(f) => Err(f),
                }
            } else {
                Ok(SpecInstruction::Output { source: w[1] })
            },
            _ => Ok(SpecInstruction::Language { op: rtype_of(op), destination: w[1], source_1: w[2], source_2: w[3] }),
        },
    }
}

/// Every three-register instruction decodes its operands in order: the destination is
/// word 1, the first source word 2 and the second source word 3; codes 0x0B to 0x10 are
/// `mrf`, `prj`, `dst`, `cor`, `aud` and `sim`. Every branch takes its two registers from
/// words 1 and 2 and its target from word 3; codes 4 to 8 are `beq`, `ble`, `blt`, `bge`
/// and `bgt`.
pub proof fn lemma_decode_operands(words: Seq<u32>, dsp: int, w: Seq<u32>)
    requires
        w.len() == 4,
    ensures
        0x0B <= w[0] <= 0x10 ==> spec_decode(words, dsp, w) == Ok::<SpecInstruction, Fault>(SpecInstruction::Language {
            op: if w[0] == 0x0B {
                RType::Morph
            } else if w[0] == 0x0C {
                RType::Project
            } else if w[0] == 0x0D {
                RType::Distill
            } else if w[0] == 0x0E {
                RType::Correlate
            } else if w[0] == 0x0F {
                RType::Audit
            } else {
                RType::Similarity
            },
            destination: w[1],
            source_1: w[2],
            source_2: w[3],
        }),
        4 <= w[0] <= 8 ==> spec_decode(words, dsp, w) == Ok::<SpecInstruction, Fault>(SpecInstruction::Branch {
            branch_type: if w[0] == 4 {
                BranchType::Equal
            } else if w[0] == 5 {
                BranchType::LessEqual
            } else if w[0] == 6 {
                BranchType::Less
            } else if w[0] == 7 {
                BranchType::GreaterEqual
            } else {
                BranchType::Greater
            },
            source_1: w[1],
            source_2: w[2],
            target: w[3],
        }),
{
}

/// The words of a fetched instruction.
pub open spec fn instruction_words(bytes: [[u8; 4]; 4]) -> Seq<u32> {
    seq![
        spec_from_be_bytes(bytes[0]@),
        spec_from_be_bytes(bytes[1]@),
        spec_from_be_bytes(bytes[2]@),
        spec_from_be_bytes(bytes[3]@),
    ]
}

pub struct Decoder;

impl Decoder {
    fn op_code(bytes: &[u8; 4]) -> (r: Result<OpCode, Fault>)
        ensures
            match OpCode::spec_from_code(spec_from_be_bytes(bytes@)) {
                Some(op) => r == Ok::<OpCode, Fault>(op),
                None => r == Err::<OpCode, Fault>(Fault::InvalidOpcode(spec_from_be_bytes(bytes@))),
            },
    {
        let value = from_be_bytes(*bytes);
        match OpCode::try_from_code(value) {
            Ok(op) => Ok(op),
            Err(_) => Err(Fault::InvalidOpcode(value)),
        }
    }

    /// Reads the string stored `pointer` words into the data segment.
    fn string(memory: &Memory, registers: &Registers, pointer: usize) -> (r: Result<String, Fault>)
        ensures
            match spec_string(memory.words(), registers.dsp() as int, pointer as int) {
                Ok(s) => r matches Ok(v) && v@ == s,
                Err(f) => r == Err::<String, Fault>(f),
            },
    {
        let ghost words = memory.words();
        let ghost start = pointer as int + registers.dsp() as int;
        let mut bytes: Vec<u8> = Vec::new();
        let length = memory.length();
        assert(words.len() == length);
        let mut address = match pointer.checked_add(registers.get_data_section_pointer()) {
            Some(a) => a,
            None => {
                return Err(Fault::UnterminatedString);
            },
        };
        while address < length
            invariant
                words == memory.words(),
                words.len() == length,
                start == pointer as int + registers.dsp() as int,
                start <= address,
                string_bytes(words, start) == match string_bytes(words, address as int) {
                    Ok(rest) => Ok(bytes@ + rest),
                    Err(f) => Err::<Seq<u8>, Fault>(f),
                },
            decreases length - address,
        {
            let word = match memory.read(address) {
                Ok(w) => w,
                Err(f) => {
                    return Err(f);
                },
            };
            let value = from_be_bytes(word);
            if value == 0 {
                assert(bytes@ + Seq::<u8>::empty() =~= bytes@);
                return match string_from_utf8(bytes) {
                    Some(s) => Ok(s),
                    None => Err(Fault::InvalidUtf8),
                };
            }
            if value > 255 {
                return Err(Fault::InvalidStringByte(value));
            }
            let ghost before = bytes@;
            bytes.push(value as u8);
            proof {
                if let Ok(rest) = string_bytes(words, address + 1) {
                    assert(before + (seq![value as u8] + rest) =~= bytes@ + rest);
                }
            }
            address = address + 1;
        }
        Err(Fault::UnterminatedString)
    }

    /// `ls`, `lf`, `li` and `mv`.
    fn immediate(memory: &Memory, registers: &Registers, op_code: OpCode, instruction_bytes: [[u8; 4]; 4]) -> (r: Result<Instruction, Fault>)
        requires
            op_code == OpCode::LoadString || op_code == OpCode::LoadFile || op_code == OpCode::LoadImmediate
                || op_code == OpCode::Move,
            OpCode::spec_from_code(instruction_words(instruction_bytes)[0]) == Some(op_code),
        ensures
            match spec_decode(memory.words(), registers.dsp() as int, instruction_words(instruction_bytes)) {
                Ok(i) => r matches Ok(v) && v@ == i,
                Err(f) => r == Err::<Instruction, Fault>(f),
            },
    {
        let destination_register = from_be_bytes(instruction_bytes[1]);
        match op_code {
            OpCode::LoadString | OpCode::LoadFile => {
                let pointer = from_be_bytes(instruction_bytes[2]) as usize;
                let string = match Self::string(memory, registers, pointer) {
                    Ok(s) => s,
                    Err(f) => {
                        return Err(f);
                    },
                };
                match op_code {
                    OpCode::LoadString => Ok(Instruction::LoadString(LoadStringInstruction { destination_register, value: string })),
                    _ => Ok(Instruction::LoadFile(LoadFileInstruction { destination_register, file_path: string })),
                }
            },
            OpCode::LoadImmediate => Ok(Instruction::LoadImmediate(LoadImmediateInstruction {
                destination_register,
                value: from_be_bytes(instruction_bytes[2]),
            })),
            _ => Ok(Instruction::Move(MoveInstruction {
                destination_register,
                source_register: from_be_bytes(instruction_bytes[2]),
            })),
        }
    }

    fn branch(op_code: OpCode, instruction_bytes: [[u8; 4]; 4]) -> (r: Instruction)
        ensures
            r@ == (SpecInstruction::Branch {
                branch_type: branch_type_of(op_code),
                source_1: instruction_words(instruction_bytes)[1],
                source_2: instruction_words(instruction_bytes)[2],
                target: instruction_words(instruction_bytes)[3],
            }),
    {
        let source_register_1 = from_be_bytes(instruction_bytes[1]);
        let source_register_2 = from_be_bytes(instruction_bytes[2]);
        let instruction_pointer_jump_index = from_be_bytes(instruction_bytes[3]);
        let branch_type = match op_code {
            OpCode::BranchEqual => BranchType::Equal,
            OpCode::BranchLess => BranchType::Less,
            OpCode::BranchLessEqual => BranchType::LessEqual,
            OpCode::BranchGreater => BranchType::Greater,
            _ => BranchType::GreaterEqual,
        };
        Instruction::Branch(BranchInstruction { branch_type, source_register_1, source_register_2, instruction_pointer_jump_index })
    }

    fn single_register(instruction_bytes: [[u8; 4]; 4]) -> (r: Instruction)
        ensures
            r@ == (SpecInstruction::Output { source: instruction_words(instruction_bytes)[1] }),
    {
        Instruction::Output(OutputInstruction { source_register: from_be_bytes(instruction_bytes[1]) })
    }

    /// `out`: a register, a number, or a text in the data segment, as its last word says.
    fn output(memory: &Memory, registers: &Registers, instruction_bytes: [[u8; 4]; 4]) -> (r: Result<Instruction, Fault>)
        requires
            OpCode::spec_from_code(instruction_words(instruction_bytes)[0]) == Some(OpCode::Out),
        ensures
            match spec_decode(memory.words(), registers.dsp() as int, instruction_words(instruction_bytes)) {
                Ok(i) => r matches Ok(v) && v@ == i,
                Err(f) => r == Err::<Instruction, Fault>(f),
            },
    {
        let kind = from_be_bytes(instruction_bytes[3]);
        if kind == OUT_NUMBER {
            Ok(Instruction::OutputImmediate(OutputImmediateInstruction { value: Immediate::Number(from_be_bytes(instruction_bytes[2])) }))
        } else if kind == OUT_TEXT {
            match Self::string(memory, registers, from_be_bytes(instruction_bytes[2]) as usize) {
                Ok(s) => Ok(Instruction::OutputImmediate(OutputImmediateInstruction { value: Immediate::Text(s) })),
                Err(f) => Err(f),
            }
        } else {
            Ok(Self::single_register(instruction_bytes))
        }
    }

    fn triple_register(op_code: OpCode, instruction_bytes: [[u8; 4]; 4]) -> (r: Instruction)
        ensures
            r@ == (SpecInstruction::Language {
                op: rtype_of(op_code),
                destination: instruction_words(instruction_bytes)[1],
                source_1: instruction_words(instruction_bytes)[2],
                source_2: instruction_words(instruction_bytes)[3],
            }),
    {
        let destination_register = from_be_bytes(instruction_bytes[1]);
        let source_register_1 = from_be_bytes(instruction_bytes[2]);
        let source_register_2 = from_be_bytes(instruction_bytes[3]);
        match op_code {
            OpCode::Morph => Instruction::Morph(MorphInstruction { destination_register, source_register_1, source_register_2 }),
            OpCode::Project => Instruction::Project(ProjectInstruction { destination_register, source_register_1, source_register_2 }),
            OpCode::Distill => Instruction::Distill(DistillInstruction { destination_register, source_register_1, source_register_2 }),
            OpCode::Correlate => Instruction::Correlate(CorrelateInstruction { destination_register, source_register_1, source_register_2 }),
            OpCode::Audit => Instruction::Audit(AuditInstruction { destination_register, source_register_1, source_register_2 }),
            _ => Instruction::Similarity(SimilarityInstruction { destination_register, source_register_1, source_register_2 }),
        }
    }

    /// Decodes a fetched instruction; strings are read from the data segment.
    pub fn decode(memory: &Memory, registers: &Registers, instruction_bytes: [[u8; 4]; 4]) -> (r: Result<Instruction, Fault>)
        ensures
            match spec_decode(memory.words(), registers.dsp() as int, instruction_words(instruction_bytes)) {
                Ok(i) => r matches Ok(v) && v@ == i,
                Err(f) => r == Err::<Instruction, Fault>(f),
            },
    {
        let op_code = match Self::op_code(&instruction_bytes[0]) {
            Ok(op) => op,
            Err(f) => {
                return Err(f);
            },
        };
        match op_code {
            OpCode::LoadString | OpCode::LoadImmediate | OpCode::LoadFile | OpCode::Move => {
                Self::immediate(memory, registers, op_code, instruction_bytes)
            },
            OpCode::BranchEqual | OpCode::BranchLess | OpCode::BranchLessEqual | OpCode::BranchGreater
            | OpCode::BranchGreaterEqual => Ok(Self::branch(op_code, instruction_bytes)),
            OpCode::Exit => Ok(Instruction::Exit(ExitInstruction)),
            OpCode::Out => Self::output(memory, registers, instruction_bytes),
            _ => Ok(Self::triple_register(op_code, instruction_bytes)),
        }
    }
}

} // verus!
