//! The processor: loads byte code and runs it one instruction at a time.
pub mod control_unit;
pub mod fault;
pub mod memory;

use vstd::prelude::*;
use crate::processor::control_unit::{ControlUnit, spec_read_instruction};
use crate::processor::control_unit::decoder::{instruction_words, spec_decode};
use crate::processor::control_unit::executor::{Effect, SpecEffect, spec_compare, spec_execute, spec_number};
use crate::processor::control_unit::registers::{REGISTER_COUNT, Value, ValueView, valid_register};
use crate::processor::fault::Fault;
use crate::processor::memory::cell_words;
use crate::word::{lemma_words_to_bytes_at, lemma_words_to_bytes_len, spec_from_be_bytes, spec_word_at, spec_words_to_bytes};
use crate::assembler::grammar::{
    HEADER_SIZE, SpecDiag, empty_model, is_branch_code, reads_text, lemma_assembled_layout,
    lemma_parse_opcodes, lemma_parse_registers, lemma_parse_strings, lemma_patch, model_wf, parsed_program, patch,
    program_words, registers_named, spec_assemble, stored_at, string_words,
};
use crate::assembler::opcode::{OpCode, lemma_opcode_round_trip};
use crate::processor::control_unit::decoder::{before_nul, lemma_string_read, spec_string};
use crate::processor::control_unit::instruction::SpecInstruction;

verus! {

/// One step of the machine: nothing once the instruction pointer reaches the data
/// segment; otherwise the instruction at the pointer is fetched (moving the pointer past
/// it), decoded and executed, giving the new registers, the new pointer and the work
/// left to the caller; or the fault that stops the program.
pub open spec fn spec_step(cells: Seq<[u8; 4]>, values: Seq<ValueView>, ip: int, dsp: int) -> Result<Option<(Seq<ValueView>, int, SpecEffect)>, Fault> {
    if ip >= dsp {
        Ok(None)
    } else {
        match spec_read_instruction(cells, ip) {
            Err(f) => Err(f),
            Ok(bytes) => match spec_decode(cell_words(cells), dsp, instruction_words(bytes)) {
                Err(f) => Err(f),
                Ok(i) => match spec_execute(values, ip + 4, cells.len() as int, i) {
                    Err(f) => Err(f),
                    Ok(t) => Ok(Some(t)),
                },
            },
        }
    }
}

/// Memory cells made from bytes, four at a time.
pub open spec fn cells_of(data: Seq<u8>, cells: Seq<[u8; 4]>) -> bool {
    &&& cells.len() * 4 == data.len()
    &&& forall|k: int| 0 <= k < cells.len() ==> #[trigger] cells[k]@ == data.subrange(4 * k, 4 * k + 4)
}

/// Memory cells made from the bytes of words hold those words.
pub proof fn lemma_cells_words(data: Seq<u8>, cells: Seq<[u8; 4]>, words: Seq<u32>)
    requires
        cells_of(data, cells),
        data == spec_words_to_bytes(words),
    ensures
        cell_words(cells) == words,
{
    lemma_words_to_bytes_len(words);
    assert forall|k: int| 0 <= k < words.len() implies #[trigger] cell_words(cells)[k] == words[k] by {
        lemma_words_to_bytes_at(words, k);
        assert(cells[k]@ == data.subrange(4 * k, 4 * k + 4));
    }
    assert(cell_words(cells) =~= words);
}

/// Byte code from the assembler loads without a fault: memory then holds the program's
/// words, the program starts at its first instruction, word 2, and the data segment
/// starts after the text.
pub proof fn lemma_assembled_loads(src: Seq<char>, code: Seq<u8>, cells: Seq<[u8; 4]>)
    requires
        spec_assemble(src) == Ok::<Seq<u8>, SpecDiag>(code),
        cells_of(code, cells),
    ensures
        code.len() % 4 == 0,
        code.len() >= 8,
        cell_words(cells) == program_words(parsed_program(src)),
        spec_from_be_bytes(code.subrange(0, 4)) == HEADER_SIZE,
        spec_from_be_bytes(code.subrange(4, 8)) == HEADER_SIZE + parsed_program(src).text.len(),
{
    lemma_assembled_layout(src, code);
    lemma_cells_words(code, cells, program_words(parsed_program(src)));
    assert(spec_word_at(code, 1) == spec_from_be_bytes(code.subrange(4, 8)));
}

/// The words of the instruction at text position `t` of a loaded program, and where its
/// data segment starts.
pub open spec fn program_instruction(src: Seq<char>, t: int) -> Seq<u32> {
    program_words(parsed_program(src)).subrange(HEADER_SIZE + t, HEADER_SIZE + t + 4)
}

pub open spec fn program_dsp(src: Seq<char>) -> int {
    HEADER_SIZE + parsed_program(src).text.len()
}

/// The first three words of an assembled instruction are as the assembler emitted them:
/// patching only writes the last word of a branch.
proof fn lemma_instruction_words(src: Seq<char>, code: Seq<u8>, t: int)
    requires
        spec_assemble(src) == Ok::<Seq<u8>, SpecDiag>(code),
        0 <= t < parsed_program(src).text.len(),
        t % 4 == 0,
    ensures
        model_wf(parsed_program(src)),
        forall|j: int| 0 <= j < 3 ==> #[trigger] program_instruction(src, t)[j] == parsed_program(src).text[t + j],
        !is_branch_code(parsed_program(src).text[t]) ==> program_instruction(src, t)[3] == parsed_program(src).text[t + 3],
{
    lemma_assembled_layout(src, code);
    let m = parsed_program(src);
    let w = program_words(m);
    let p = patch(m.text, m.labels, m.refs);
    lemma_patch(m.text, m.labels, m.refs);
    assert forall|j: int| 0 <= j < 3 implies #[trigger] program_instruction(src, t)[j] == m.text[t + j] by {
        assert forall|k: int| 0 <= k < m.refs.len() implies m.refs[k].index != t + j by {
            assert(m.refs[k].index % 4 == 3);
        }
        assert(program_instruction(src, t)[j] == w[HEADER_SIZE + t + j]);
        assert(w[HEADER_SIZE + t + j] == p[t + j]);
    }
    if !is_branch_code(m.text[t]) {
        assert forall|k: int| 0 <= k < m.refs.len() implies m.refs[k].index != t + 3 by {
            if m.refs[k].index == t + 3 {
                assert(is_branch_code(m.text[m.refs[k].index - 3]));
            }
        }
        assert(program_instruction(src, t)[3] == w[HEADER_SIZE + t + 3]);
        assert(w[HEADER_SIZE + t + 3] == p[t + 3]);
    }
}

/// The processor decodes every instruction that the assembler emits: its operation is
/// known, and an instruction that loads text finds its string in the data segment.
pub proof fn lemma_assembled_decodes(src: Seq<char>, code: Seq<u8>, t: int)
    requires
        spec_assemble(src) == Ok::<Seq<u8>, SpecDiag>(code),
        0 <= t < parsed_program(src).text.len(),
        t % 4 == 0,
    ensures
        spec_decode(program_words(parsed_program(src)), program_dsp(src), program_instruction(src, t)) is Ok,
{
    lemma_instruction_words(src, code, t);
    let m = parsed_program(src);
    lemma_parse_opcodes(src, 0, empty_model());
    assert(OpCode::spec_from_code(m.text[t]) is Some);
    assert(program_instruction(src, t)[0] == m.text[t]);
    if !is_branch_code(m.text[t]) {
        assert(program_instruction(src, t)[3] == m.text[t + 3]);
    }
    if reads_text(m.text[t], m.text[t + 3]) {
        lemma_text_load_reads(src, code, t);
    }
}

/// Every instruction of an assembled program that reads text (`ls`, `lf`, and `out` of a
/// string) decodes, once the program is loaded, to the string that the assembler stored
/// for it, read up to its first zero character (all of it, for a string without one).
pub proof fn lemma_text_load_reads(src: Seq<char>, code: Seq<u8>, t: int)
    requires
        spec_assemble(src) == Ok::<Seq<u8>, SpecDiag>(code),
        0 <= t < parsed_program(src).text.len(),
        t % 4 == 0,
        reads_text(parsed_program(src).text[t], parsed_program(src).text[t + 3]),
    ensures
        exists|s: Seq<char>| #[trigger] stored_at(parsed_program(src).data, parsed_program(src).text[t + 2] as int, s),
        forall|s: Seq<char>| #[trigger] stored_at(parsed_program(src).data, parsed_program(src).text[t + 2] as int, s) ==> {
            let m = parsed_program(src);
            let decoded = spec_decode(program_words(m), program_dsp(src), program_instruction(src, t));
            if m.text[t] == OpCode::LoadString.spec_code() {
                decoded == Ok::<SpecInstruction, Fault>(SpecInstruction::LoadString { destination: m.text[t + 1], value: before_nul(s) })
            } else if m.text[t] == OpCode::LoadFile.spec_code() {
                decoded == Ok::<SpecInstruction, Fault>(SpecInstruction::LoadFile { destination: m.text[t + 1], path: before_nul(s) })
            } else {
                decoded == Ok::<SpecInstruction, Fault>(SpecInstruction::OutputText { text: before_nul(s) })
            }
        },
{
    lemma_instruction_words(src, code, t);
    let m = parsed_program(src);
    lemma_parse_strings(src, 0, empty_model());
    lemma_patch(m.text, m.labels, m.refs);
    let w = program_words(m);
    assert(w.len() == HEADER_SIZE + m.text.len() + m.data.len());
    let dsp = program_dsp(src);
    let iw = program_instruction(src, t);
    assert(iw[0] == m.text[t]);
    assert(iw[1] == m.text[t + 1]);
    assert(iw[2] == m.text[t + 2]);
    assert(iw[3] == m.text[t + 3]);
    lemma_opcode_round_trip(OpCode::LoadString);
    lemma_opcode_round_trip(OpCode::LoadFile);
    lemma_opcode_round_trip(OpCode::Out);
    assert forall|s: Seq<char>| #[trigger] stored_at(m.data, m.text[t + 2] as int, s)
        implies spec_string(w, dsp, iw[2] as int) == Ok::<Seq<char>, Fault>(before_nul(s)) by {
        let q = m.text[t + 2] as int;
        let n = string_words(s).len();
        assert(w.subrange(dsp + q, dsp + q + n) =~= m.data.subrange(q, q + n));
        lemma_string_read(w, dsp, q, s);
    }
}

/// The instruction that the step at `ip` runs, once fetched and decoded.
pub open spec fn instruction_at(cells: Seq<[u8; 4]>, ip: int, dsp: int) -> Result<SpecInstruction, Fault> {
    match spec_read_instruction(cells, ip) {
        Err(f) => Err(f),
        Ok(bytes) => spec_decode(cell_words(cells), dsp, instruction_words(bytes)),
    }
}

/// Where a step leaves the instruction pointer: at the branch's target when a branch is
/// taken, at the end of memory after `exit`, and otherwise at the next instruction, four
/// words on.
pub proof fn lemma_step_control_flow(cells: Seq<[u8; 4]>, values: Seq<ValueView>, ip: int, dsp: int)
    requires
        spec_step(cells, values, ip, dsp) matches Ok(Some(_)),
    ensures
        instruction_at(cells, ip, dsp) is Ok,
        ({
            let next = spec_step(cells, values, ip, dsp)->Ok_0->Some_0.1;
            match instruction_at(cells, ip, dsp)->Ok_0 {
                SpecInstruction::Exit => next == cells.len(),
                SpecInstruction::Branch { branch_type, source_1, source_2, target } => next == if spec_compare(
                    branch_type,
                    spec_number(values, source_1)->Ok_0,
                    spec_number(values, source_2)->Ok_0,
                ) {
                    target as int
                } else {
                    ip + 4
                },
                _ => next == ip + 4,
            }
        }),
{
}

/// `exit` ends the program: the step after it does nothing, whenever the data segment
/// starts within memory, as it does in all assembled byte code.
pub proof fn lemma_exit_halts(cells: Seq<[u8; 4]>, values: Seq<ValueView>, ip: int, dsp: int)
    requires
        dsp <= cells.len(),
        ip < dsp,
        instruction_at(cells, ip, dsp) == Ok::<SpecInstruction, Fault>(SpecInstruction::Exit),
    ensures
        spec_step(cells, values, ip, dsp) == Ok::<Option<(Seq<ValueView>, int, SpecEffect)>, Fault>(
            Some((values, cells.len() as int, SpecEffect::Done)),
        ),
        spec_step(cells, values, cells.len() as int, dsp) == Ok::<Option<(Seq<ValueView>, int, SpecEffect)>, Fault>(None),
{
}

/// Once assembled byte code is loaded, the processor fetches and decodes each of its
/// instructions without a fault, into the instruction that the assembler emitted.
pub proof fn lemma_assembled_instructions_decode(src: Seq<char>, code: Seq<u8>, cells: Seq<[u8; 4]>, t: int)
    requires
        spec_assemble(src) == Ok::<Seq<u8>, SpecDiag>(code),
        cells_of(code, cells),
        0 <= t < parsed_program(src).text.len(),
        t % 4 == 0,
    ensures
        instruction_at(cells, HEADER_SIZE + t, program_dsp(src))
            == spec_decode(program_words(parsed_program(src)), program_dsp(src), program_instruction(src, t)),
        instruction_at(cells, HEADER_SIZE + t, program_dsp(src)) is Ok,
{
    lemma_assembled_layout(src, code);
    lemma_assembled_loads(src, code, cells);
    lemma_assembled_decodes(src, code, t);
    let m = parsed_program(src);
    let w = program_words(m);
    let ip = HEADER_SIZE + t;
    lemma_patch(m.text, m.labels, m.refs);
    assert(cells.len() == w.len());
    let bytes = spec_read_instruction(cells, ip)->Ok_0;
    assert(instruction_words(bytes) =~= program_instruction(src, t)) by {
        assert(cell_words(cells)[ip] == w[ip]);
        assert(cell_words(cells)[ip + 1] == w[ip + 1]);
        assert(cell_words(cells)[ip + 2] == w[ip + 2]);
        assert(cell_words(cells)[ip + 3] == w[ip + 3]);
    }
}

/// An instruction of an assembled program names registers X1 to X32 only, so running it
/// never faults for a register number.
pub proof fn lemma_assembled_registers(src: Seq<char>, code: Seq<u8>, t: int, values: Seq<ValueView>, ip: int, mem_len: int)
    requires
        spec_assemble(src) == Ok::<Seq<u8>, SpecDiag>(code),
        0 <= t < parsed_program(src).text.len(),
        t % 4 == 0,
        values.len() == 32,
    ensures
        spec_decode(program_words(parsed_program(src)), program_dsp(src), program_instruction(src, t)) matches Ok(i)
            ==> !(spec_execute(values, ip, mem_len, i) matches Err(Fault::InvalidRegister(_))),
{
    lemma_instruction_words(src, code, t);
    let m = parsed_program(src);
    lemma_parse_registers(src, 0, empty_model());
    assert(registers_named(m.text[t], m.text[t + 1], m.text[t + 2], m.text[t + 3]));
    let iw = program_instruction(src, t);
    assert(iw[0] == m.text[t]);
    assert(iw[1] == m.text[t + 1]);
    assert(iw[2] == m.text[t + 2]);
}

pub struct Processor {
    control_unit: ControlUnit,
}

impl Processor {
    pub closed spec fn cells(&self) -> Seq<[u8; 4]> {
        self.control_unit.cells()
    }

    pub closed spec fn values(&self) -> Seq<ValueView> {
        self.control_unit.values()
    }

    pub closed spec fn ip(&self) -> int {
        self.control_unit.ip()
    }

    pub closed spec fn dsp(&self) -> int {
        self.control_unit.dsp()
    }

    pub closed spec fn wf(&self) -> bool {
        self.control_unit.wf()
    }

    /// A well-formed processor holds 32 registers.
    pub proof fn lemma_register_count(&self)
        requires
            self.wf(),
        ensures
            self.values().len() == REGISTER_COUNT,
    {
        self.control_unit.lemma_register_count();
    }

    pub fn new() -> (r: Self)
        ensures
            r.wf(),
            r.cells() == Seq::<[u8; 4]>::empty(),
            r.values() == Seq::new(32, |i: int| ValueView::Empty),
            r.ip() == 0,
            r.dsp() == 0,
    {
        Processor { control_unit: ControlUnit::new() }
    }

    /// Loads byte code. Its length must be a multiple of four and it must hold the
    /// two-word header.
    pub fn load(&mut self, data: Vec<u8>) -> (r: Result<(), Fault>)
        requires
            old(self).wf(),
        ensures
            final(self).wf(),
            data@.len() % 4 != 0 ==> r == Err::<(), Fault>(Fault::InvalidBytecodeLength(data@.len() as usize))
                && final(self).cells() == old(self).cells() && final(self).ip() == old(self).ip()
                && final(self).dsp() == old(self).dsp() && final(self).values() == old(self).values(),
            data@.len() % 4 == 0 && data@.len() < 8 ==> r == Err::<(), Fault>(Fault::MissingHeader)
                && final(self).cells() == old(self).cells() && final(self).ip() == old(self).ip()
                && final(self).dsp() == old(self).dsp() && final(self).values() == old(self).values(),
            data@.len() % 4 == 0 && data@.len() >= 8 ==> {
                &&& r is Ok
                &&& cells_of(data@, final(self).cells())
                &&& final(self).ip() == spec_from_be_bytes(data@.subrange(0, 4))
                &&& final(self).dsp() == spec_from_be_bytes(data@.subrange(4, 8))
                &&& final(self).values() == old(self).values()
            },
    {
        if data.len() % 4 != 0 {
            return Err(Fault::InvalidBytecodeLength(data.len()));
        }
        let mut byte_code: Vec<[u8; 4]> = Vec::new();
        let mut i: usize = 0;
        while i < data.len() / 4
            invariant
                data@.len() % 4 == 0,
                i <= data@.len() / 4,
                byte_code@.len() == i,
                forall|k: int| 0 <= k < i ==> #[trigger] byte_code@[k]@ == data@.subrange(4 * k, 4 * k + 4),
            decreases data@.len() / 4 - i,
        {
            let cell = [data[4 * i], data[4 * i + 1], data[4 * i + 2], data[4 * i + 3]];
            assert(cell@ =~= data@.subrange(4 * i, 4 * i + 4));
            byte_code.push(cell);
            i = i + 1;
        }
        proof {
            if byte_code@.len() >= 2 {
                assert(byte_code@[0]@ == data@.subrange(0, 4));
                assert(byte_code@[1]@ == data@.subrange(4, 8));
            }
        }
        self.control_unit.load(byte_code)
    }

    /// Runs one instruction; `None` once the program has ended. The caller performs the
    /// effect that comes back and stores its result with `store`.
    pub fn step(&mut self) -> (r: Result<Option<Effect>, Fault>)
        requires
            old(self).wf(),
        ensures
            final(self).wf(),
            final(self).cells() == old(self).cells(),
            final(self).dsp() == old(self).dsp(),
            match spec_step(old(self).cells(), old(self).values(), old(self).ip(), old(self).dsp()) {
                Ok(None) => r matches Ok(None) && final(self).values() == old(self).values() && final(self).ip() == old(self).ip(),
                Ok(Some((values, ip, e))) => r matches Ok(Some(x)) && x@ == e && final(self).values() == values
                    && final(self).ip() == ip,
                Err(f) => r == Err::<Option<Effect>, Fault>(f),
            },
    {
        match self.control_unit.fetch() {
            Ok(true) => {},
            Ok(false) => {
                return Ok(None);
            },
            Err(f) => {
                return Err(f);
            },
        }
        let instruction = match self.control_unit.decode() {
            Ok(i) => i,
            Err(f) => {
                return Err(f);
            },
        };
        match self.control_unit.execute(instruction) {
            Ok(e) => Ok(Some(e)),
            Err(f) => Err(f),
        }
    }

    /// Stores the result of an effect in a register.
    pub fn store(&mut self, register_number: u32, value: Value) -> (r: Result<(), Fault>)
        requires
            old(self).wf(),
        ensures
            final(self).wf(),
            final(self).cells() == old(self).cells(),
            final(self).ip() == old(self).ip(),
            final(self).dsp() == old(self).dsp(),
            valid_register(register_number) ==> r is Ok && final(self).values() == old(self).values().update(register_number - 1, value@),
            !valid_register(register_number) ==> r == Err::<(), Fault>(Fault::InvalidRegister(register_number))
                && final(self).values() == old(self).values(),
    {
        self.control_unit.store(register_number, value)
    }

    /// The value of register `register_number`.
    pub fn register(&self, register_number: u32) -> (r: Result<&Value, Fault>)
        requires
            self.wf(),
        ensures
            valid_register(register_number) ==> (r matches Ok(v) && v@ == self.values()[register_number - 1]),
            !valid_register(register_number) ==> (r matches Err(f) && f == Fault::InvalidRegister(register_number)),
    {
        self.control_unit.register(register_number)
    }
}

} // verus!
