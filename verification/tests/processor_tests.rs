use lpu::assembler::Assembler;
use lpu::processor::control_unit::decoder::Decoder;
use lpu::processor::control_unit::executor::{Effect, Executor};
use lpu::processor::control_unit::instruction::{
    BranchInstruction, BranchType, ExitInstruction, Instruction, LoadFileInstruction, LoadImmediateInstruction,
    LoadStringInstruction, MoveInstruction, OutputImmediateInstruction, OutputInstruction, RType, SimilarityInstruction,
};
use lpu::assembler::immediate::Immediate;
use lpu::processor::control_unit::registers::{Registers, Value};
use lpu::processor::control_unit::ControlUnit;
use lpu::processor::fault::Fault;
use lpu::processor::memory::Memory;
use lpu::processor::Processor;

fn words(values: &[u32]) -> Vec<u8> {
    let mut bytes = Vec::new();
    for v in values {
        bytes.extend_from_slice(&v.to_be_bytes());
    }
    bytes
}

fn cells(values: &[u32]) -> Vec<[u8; 4]> {
    values.iter().map(|v| v.to_be_bytes()).collect()
}

fn loaded(source: &str) -> Processor {
    let code = Assembler::new(source).assemble().expect("the program assembles");
    let mut p = Processor::new();
    p.load(code).expect("the program loads");
    p
}

/// Runs a program to its end, printing into a list; other effects are left undone.
fn run_printing(p: &mut Processor) -> Result<Vec<String>, Fault> {
    let mut printed = Vec::new();
    let mut steps = 0;
    while let Some(effect) = p.step()? {
        if let Effect::Print { text } = effect {
            printed.push(text);
        }
        steps += 1;
        assert!(steps < 1000, "the program does not end");
    }
    Ok(printed)
}

fn text_of(p: &Processor, n: u32) -> String {
    match p.register(n) {
        Ok(Value::Text(s)) => s.clone(),
        other => panic!("register {} holds {:?}", n, other),
    }
}

#[test]
fn runs_a_load_and_print_program() {
    let mut p = loaded("LS X1, \"hi\"\nOUT X1\nEXIT");
    assert!(matches!(p.step(), Ok(Some(Effect::Done))));
    assert_eq!(text_of(&p, 1), "hi");
    match p.step() {
        Ok(Some(Effect::Print { text })) => assert_eq!(text, "hi"),
        other => panic!("unexpected {:?}", other),
    }
    assert!(matches!(p.step(), Ok(Some(Effect::Done))));
    assert!(matches!(p.step(), Ok(None)));
    assert!(matches!(p.step(), Ok(None)));
}

#[test]
fn strings_are_read_back_as_written() {
    let mut p = loaded("ls x1, \"héllo\\nwörld\"\nexit");
    run_printing(&mut p).unwrap();
    assert_eq!(text_of(&p, 1), "héllo\nwörld");
}

#[test]
fn branch_taken_skips_to_label() {
    let mut p = loaded("li x1, 1\nli x2, 2\nblt x1, x2, skip\nls x3, \"no\"\nout x3\nskip:\nls x3, \"yes\"\nout x3\nexit");
    assert_eq!(run_printing(&mut p).unwrap(), vec!["yes".to_string()]);
}

#[test]
fn branch_not_taken_falls_through() {
    let mut p = loaded("li x1, 3\nli x2, 2\nblt x1, x2, skip\nls x3, \"no\"\nout x3\nskip:\nls x3, \"yes\"\nout x3\nexit");
    assert_eq!(run_printing(&mut p).unwrap(), vec!["no".to_string(), "yes".to_string()]);
}

#[test]
fn loop_counts_down_with_branches() {
    let src = "li x1, 0\nli x2, 0\nli x3, 1\nagain:\nbeq x1, x3, done\nout x1\nli x1, 1\nbeq x2, x2, again\ndone:\nout x3\nexit";
    let mut p = loaded(src);
    assert_eq!(run_printing(&mut p).unwrap(), vec!["0".to_string(), "1".to_string()]);
}

#[test]
fn every_comparison() {
    let cases = [
        ("beq", 2, 2, true),
        ("beq", 2, 3, false),
        ("ble", 2, 2, true),
        ("ble", 3, 2, false),
        ("blt", 1, 2, true),
        ("blt", 2, 2, false),
        ("bge", 2, 2, true),
        ("bge", 1, 2, false),
        ("bgt", 3, 2, true),
        ("bgt", 2, 2, false),
    ];
    for (op, a, b, taken) in cases {
        let src = format!("li x1, {}\nli x2, {}\n{} x1, x2, t\nls x3, \"fell\"\nout x3\nt:\nexit", a, b, op);
        let mut p = loaded(&src);
        let printed = run_printing(&mut p).unwrap();
        assert_eq!(printed.is_empty(), taken, "{} {} {}", op, a, b);
    }
}

#[test]
fn output_renders_numbers_and_empty_registers() {
    let mut p = loaded("li x1, 4294967295\nout x1\nout x2\nli x3, 0\nout x3");
    assert_eq!(
        run_printing(&mut p).unwrap(),
        vec!["4294967295".to_string(), "".to_string(), "0".to_string()]
    );
}

#[test]
fn move_copies_a_register() {
    let mut p = loaded("ls x1, \"abc\"\nmv x2, x1\nexit");
    run_printing(&mut p).unwrap();
    assert_eq!(text_of(&p, 2), "abc");
    assert_eq!(text_of(&p, 1), "abc");
}

#[test]
fn load_file_asks_for_the_file() {
    let mut p = loaded("lf x4, \"data/x.json\"");
    match p.step() {
        Ok(Some(Effect::ReadFile { destination_register, file_path })) => {
            assert_eq!(destination_register, 4);
            assert_eq!(file_path, "data/x.json");
        },
        other => panic!("unexpected {:?}", other),
    }
    p.store(4, Value::Text("{}".to_string())).unwrap();
    assert_eq!(text_of(&p, 4), "{}");
}

#[test]
fn language_operations_ask_the_model() {
    let mut p = loaded("ls x1, \"data\"\nls x2, \"json\"\nmrf x3, x1, x2\naud x4, x1, x2\nsim x5, x1, x2\ndst x6, x1, x2");
    p.step().unwrap();
    p.step().unwrap();
    match p.step() {
        Ok(Some(Effect::Generate { destination_register, r_type, content, micro_prompt })) => {
            assert_eq!(destination_register, 3);
            assert_eq!(r_type, RType::Morph);
            assert_eq!(content, "data");
            assert_eq!(micro_prompt, "Transform it into the following format:\njson\n\nTransformed Output:");
        },
        other => panic!("unexpected {:?}", other),
    }
    match p.step() {
        Ok(Some(Effect::Audit { destination_register, content, micro_prompt })) => {
            assert_eq!(destination_register, 4);
            assert_eq!(content, "data");
            assert_eq!(micro_prompt, "Does it comply with the evidence:\njson\n\nYES/NO:");
        },
        other => panic!("unexpected {:?}", other),
    }
    match p.step() {
        Ok(Some(Effect::Similarity { destination_register, value_a, value_b })) => {
            assert_eq!(destination_register, 5);
            assert_eq!(value_a, "data");
            assert_eq!(value_b, "json");
        },
        other => panic!("unexpected {:?}", other),
    }
    match p.step() {
        Ok(Some(Effect::Generate { r_type, micro_prompt, .. })) => {
            assert_eq!(r_type, RType::Distill);
            assert_eq!(micro_prompt, "Distill it down following the goal or criteria:\njson\n\nDistilled Result:");
        },
        other => panic!("unexpected {:?}", other),
    }
    assert!(matches!(p.step(), Ok(None)));
}

#[test]
fn fault_branch_on_text() {
    let mut p = loaded("ls x1, \"a\"\nli x2, 1\nbeq x1, x2, l\nl:\nexit");
    assert_eq!(run_printing(&mut p), Err(Fault::ExpectedNumber(1)));
}

#[test]
fn fault_language_operation_on_number() {
    let mut p = loaded("li x1, 1\nls x2, \"a\"\nmrf x3, x1, x2");
    assert_eq!(run_printing(&mut p), Err(Fault::ExpectedText(1)));
}

#[test]
fn load_rejects_bad_lengths() {
    let mut p = Processor::new();
    assert_eq!(p.load(vec![0, 0, 0]), Err(Fault::InvalidBytecodeLength(3)));
    assert_eq!(p.load(vec![0, 0, 0, 2]), Err(Fault::MissingHeader));
    assert_eq!(p.load(words(&[2, 2])), Ok(()));
    assert!(matches!(p.step(), Ok(None)));
}

#[test]
fn fault_invalid_opcode() {
    let mut p = Processor::new();
    p.load(words(&[2, 6, 99, 0, 0, 0])).unwrap();
    assert_eq!(p.step().err(), Some(Fault::InvalidOpcode(99)));
}

#[test]
fn fault_instruction_past_memory() {
    let mut p = Processor::new();
    p.load(words(&[2, 9, 9, 0])).unwrap();
    assert_eq!(p.step().err(), Some(Fault::AddressOutOfBounds(4)));
    let mut q = Processor::new();
    q.load(words(&[7, 9])).unwrap();
    assert_eq!(q.step().err(), Some(Fault::AddressOutOfBounds(7)));
}

#[test]
fn fault_bad_strings() {
    let mut p = Processor::new();
    p.load(words(&[2, 6, 0, 1, 0, 0, 300, 0])).unwrap();
    assert_eq!(p.step().err(), Some(Fault::InvalidStringByte(300)));
    let mut q = Processor::new();
    q.load(words(&[2, 6, 0, 1, 0, 0, 0xFF, 0])).unwrap();
    assert_eq!(q.step().err(), Some(Fault::InvalidUtf8));
    let mut r = Processor::new();
    r.load(words(&[2, 6, 0, 1, 0, 0, 65])).unwrap();
    assert_eq!(r.step().err(), Some(Fault::UnterminatedString));
}

#[test]
fn fault_invalid_register() {
    let mut p = Processor::new();
    p.load(words(&[2, 6, 2, 33, 1, 0])).unwrap();
    assert_eq!(p.step().err(), Some(Fault::InvalidRegister(33)));
    assert_eq!(p.store(0, Value::Number(1)), Err(Fault::InvalidRegister(0)));
    assert!(matches!(p.register(33), Err(Fault::InvalidRegister(33))));
}

#[test]
fn registers_read_what_was_written() {
    let mut r = Registers::new();
    assert!(matches!(r.get_register(1), Ok(Value::Empty)));
    r.set_register(7, &Value::Number(12)).unwrap();
    r.set_register(8, &Value::Text("t".to_string())).unwrap();
    assert!(matches!(r.get_register(7), Ok(Value::Number(12))));
    assert!(matches!(r.get_register(8), Ok(Value::Text(s)) if s == "t"));
    assert!(matches!(r.get_register(32), Ok(Value::Empty)));
    assert_eq!(r.set_register(33, &Value::Number(1)), Err(Fault::InvalidRegister(33)));
    assert!(matches!(r.get_register(0), Err(Fault::InvalidRegister(0))));
}

#[test]
fn registers_pointers() {
    let mut r = Registers::new();
    assert_eq!(r.get_instruction_pointer(), 0);
    r.set_instruction_pointer(10);
    r.advance_instruction_pointer(4);
    assert_eq!(r.get_instruction_pointer(), 14);
    r.set_data_section_pointer(20);
    assert_eq!(r.get_data_section_pointer(), 20);
    assert_eq!(r.get_instruction(), None);
    r.set_instruction(Some([[0; 4], [1; 4], [2; 4], [3; 4]]));
    assert_eq!(r.get_instruction(), Some([[0; 4], [1; 4], [2; 4], [3; 4]]));
}

#[test]
fn memory_reads_cells() {
    let mut m = Memory::new();
    assert_eq!(m.length(), 0);
    m.load(cells(&[5, 6]));
    assert_eq!(m.length(), 2);
    assert_eq!(m.read(1), Ok([0, 0, 0, 6]));
    assert_eq!(m.read(2), Err(Fault::AddressOutOfBounds(2)));
}

#[test]
fn decoder_decodes_each_kind() {
    let mut memory = Memory::new();
    memory.load(cells(&[2, 4, 0, 0, 0, 0, 'o' as u32, 'k' as u32, 0]));
    let mut registers = Registers::new();
    registers.set_data_section_pointer(6);
    let w = |a: u32, b: u32, c: u32, d: u32| [a.to_be_bytes(), b.to_be_bytes(), c.to_be_bytes(), d.to_be_bytes()];
    match Decoder::decode(&memory, &registers, w(0, 3, 0, 0)) {
        Ok(Instruction::LoadString(i)) => {
            assert_eq!(i.destination_register, 3);
            assert_eq!(i.value, "ok");
        },
        other => panic!("unexpected {:?}", other),
    }
    match Decoder::decode(&memory, &registers, w(1, 2, 0, 0)) {
        Ok(Instruction::LoadFile(i)) => assert_eq!(i.file_path, "ok"),
        other => panic!("unexpected {:?}", other),
    }
    match Decoder::decode(&memory, &registers, w(1, 2, 1, 0)) {
        Ok(Instruction::LoadFile(i)) => assert_eq!(i.file_path, "k"),
        other => panic!("unexpected {:?}", other),
    }
    assert!(matches!(Decoder::decode(&memory, &registers, w(2, 1, 77, 0)),
        Ok(Instruction::LoadImmediate(LoadImmediateInstruction { destination_register: 1, value: 77 }))));
    assert!(matches!(Decoder::decode(&memory, &registers, w(3, 1, 2, 0)),
        Ok(Instruction::Move(MoveInstruction { destination_register: 1, source_register: 2 }))));
    assert!(matches!(Decoder::decode(&memory, &registers, w(8, 1, 2, 30)),
        Ok(Instruction::Branch(BranchInstruction { branch_type: BranchType::Greater, source_register_1: 1,
            source_register_2: 2, instruction_pointer_jump_index: 30 }))));
    assert!(matches!(Decoder::decode(&memory, &registers, w(5, 1, 2, 30)),
        Ok(Instruction::Branch(BranchInstruction { branch_type: BranchType::LessEqual, .. }))));
    assert!(matches!(Decoder::decode(&memory, &registers, w(9, 0, 0, 0)), Ok(Instruction::Exit(_))));
    assert!(matches!(Decoder::decode(&memory, &registers, w(10, 5, 0, 0)),
        Ok(Instruction::Output(OutputInstruction { source_register: 5 }))));
    assert!(matches!(Decoder::decode(&memory, &registers, w(0x10, 1, 2, 3)),
        Ok(Instruction::Similarity(SimilarityInstruction { destination_register: 1, source_register_1: 2,
            source_register_2: 3 }))));
    assert!(matches!(Decoder::decode(&memory, &registers, w(0x0C, 1, 2, 3)), Ok(Instruction::Project(_))));
    assert!(matches!(Decoder::decode(&memory, &registers, w(0x0E, 1, 2, 3)), Ok(Instruction::Correlate(_))));
    assert!(matches!(Decoder::decode(&memory, &registers, w(0x11, 0, 0, 0)), Err(Fault::InvalidOpcode(0x11))));
    assert!(matches!(Decoder::decode(&memory, &registers, w(0, 1, 3, 0)), Err(Fault::UnterminatedString)));
}

#[test]
fn executor_carries_out_instructions() {
    let memory = Memory::new();
    let mut registers = Registers::new();
    let e = Executor::execute(&memory, &mut registers,
        &Instruction::LoadString(LoadStringInstruction { destination_register: 2, value: "v".to_string() }));
    assert!(matches!(e, Ok(Effect::Done)));
    assert!(matches!(registers.get_register(2), Ok(Value::Text(s)) if s == "v"));
    let e = Executor::execute(&memory, &mut registers,
        &Instruction::LoadFile(LoadFileInstruction { destination_register: 3, file_path: "f".to_string() }));
    assert!(matches!(e, Ok(Effect::ReadFile { destination_register: 3, file_path }) if file_path == "f"));
    registers.set_instruction_pointer(8);
    let e = Executor::execute(&memory, &mut registers, &Instruction::Exit(ExitInstruction));
    assert!(matches!(e, Ok(Effect::Done)));
    assert_eq!(registers.get_instruction_pointer(), 0);
    let e = Executor::execute(&memory, &mut registers, &Instruction::Output(OutputInstruction { source_register: 2 }));
    assert!(matches!(e, Ok(Effect::Print { text }) if text == "v"));
}

#[test]
fn render_values() {
    assert_eq!(Executor::render(&Value::Text("a b".to_string())), "a b");
    assert_eq!(Executor::render(&Value::Number(907)), "907");
    assert_eq!(Executor::render(&Value::Empty), "");
}

#[test]
fn value_duplicate() {
    assert!(matches!(Value::Text("x".to_string()).duplicate(), Value::Text(s) if s == "x"));
    assert!(matches!(Value::Number(3).duplicate(), Value::Number(3)));
    assert!(matches!(Value::Empty.duplicate(), Value::Empty));
}

#[test]
fn control_unit_fetch_decode_execute() {
    let mut cu = ControlUnit::new();
    assert_eq!(cu.decode().err(), Some(Fault::NoInstructionLoaded));
    cu.load(cells(&[2, 6, 2, 1, 9, 0])).unwrap();
    assert_eq!(cu.fetch(), Ok(true));
    let i = cu.decode().unwrap();
    assert!(matches!(cu.execute(i), Ok(Effect::Done)));
    assert!(matches!(cu.register(1), Ok(Value::Number(9))));
    assert_eq!(cu.fetch(), Ok(false));
    cu.store(2, Value::Number(4)).unwrap();
    assert!(matches!(cu.register(2), Ok(Value::Number(4))));
    let mut short = ControlUnit::new();
    assert_eq!(short.load(cells(&[2])), Err(Fault::MissingHeader));
}

const ROOM_COMFORT: &str = r#"; Program: Room Comfort Adjustment System
; Objective: Adjust the room's temperature and lighting based on sensor data to achieve optimal physical comfort.
; Output: Adjusted temperature and lighting settings.

; Load sensor data and user feedback.
LF  X1, "examples/data/room_sensor_data.json"
LS  X2, "It's too dark to read and I am sweating."

; Sense: Brief description of the current state of the room based on sensor data.
LS  X3, "A sentence that describes the current state of the room."
MRF X4, X1, X3

RETRY:
; Think: Analyze the sensed state and determine necessary adjustments for physical comfort.
LS  X3, "New temperature and light adjustments values for physical comfort."
DST X5, X4, X3

; Guardrails: Ensure that the adjustments are within safe and reasonable limits.
LS  X3, "{ \"temp_c\": number, \"light%\": number }"
MRF X6, X5, X3

LS  X3, "The temperature must be between 18 and 24 degrees Celsius."
AUD X7, X6, X3

LI X3, 0
BEQ X7, X3, RETRY

LS X3, "The light intensity must be between 0% and 100%."
AUD X8, X6, X3

LI X3, 0
BEQ X8, X3, RETRY

; Act: Implement the adjustments to achieve the desired physical comfort.
OUT X6
"#;

#[test]
fn readme_example_assembles_and_runs() {
    let code = Assembler::new(ROOM_COMFORT).assemble().expect("the example assembles");
    let w: Vec<u32> = code.chunks(4).map(|c| u32::from_be_bytes([c[0], c[1], c[2], c[3]])).collect();
    assert_eq!(w[0], 2);
    assert_eq!(w[1], 70);
    // Both branches jump back to the instruction after RETRY:, the fifth one.
    assert_eq!(w[2 + 11 * 4], 4);
    assert_eq!(w[2 + 11 * 4 + 3], 18);
    assert_eq!(w[2 + 15 * 4 + 3], 18);

    let mut p = Processor::new();
    p.load(code).unwrap();
    let mut printed = Vec::new();
    let mut audits = 0;
    let mut json_prompt = String::new();
    while let Some(effect) = p.step().unwrap() {
        match effect {
            Effect::ReadFile { destination_register, file_path } => {
                assert_eq!(file_path, "examples/data/room_sensor_data.json");
                p.store(destination_register, Value::Text("{\"lux\": 40}".to_string())).unwrap();
            },
            Effect::Generate { destination_register, r_type, micro_prompt, .. } => {
                if r_type == RType::Morph && micro_prompt.contains("temp_c") {
                    json_prompt = micro_prompt.clone();
                }
                p.store(destination_register, Value::Text(format!("{:?} reply", r_type))).unwrap();
            },
            Effect::Audit { destination_register, .. } => {
                audits += 1;
                // The first check fails once, which sends the program back to RETRY.
                let verdict = if audits == 1 { 0 } else { 100 };
                p.store(destination_register, Value::Number(verdict)).unwrap();
            },
            Effect::Print { text } => printed.push(text),
            Effect::Done => {},
            other => panic!("unexpected {:?}", other),
        }
    }
    assert_eq!(audits, 3);
    assert_eq!(printed, vec!["Morph reply".to_string()]);
    assert_eq!(
        json_prompt,
        "Transform it into the following format:\n{ \"temp_c\": number, \"light%\": number }\n\nTransformed Output:"
    );
}

#[test]
fn escaped_quotes_stay_in_strings() {
    let mut p = loaded("ls x1, \"say \\\"hi\\\"\"\nexit");
    run_printing(&mut p).unwrap();
    assert_eq!(text_of(&p, 1), "say \"hi\"");
}

#[test]
fn strings_are_read_up_to_a_zero_character() {
    let mut p = loaded("ls x1, \"ab\u{0}cd\"\nexit");
    run_printing(&mut p).unwrap();
    assert_eq!(text_of(&p, 1), "ab");
}

#[test]
fn every_register_name_is_usable() {
    let mut p = loaded("li x32, 5\nmv x1, x32\nout x1\nls x17, \"q\"\nmrf x32, x17, x17");
    assert_eq!(p.step().unwrap().is_some(), true);
    assert_eq!(p.step().unwrap().is_some(), true);
    assert!(matches!(p.step(), Ok(Some(Effect::Print { text })) if text == "5"));
    p.step().unwrap();
    assert!(matches!(p.step(), Ok(Some(Effect::Generate { destination_register: 32, .. }))));
}

#[test]
fn out_prints_immediates() {
    let mut p = loaded("out 42\nout \"héllo\"\nli x1, 7\nout x1");
    assert_eq!(
        run_printing(&mut p).unwrap(),
        vec!["42".to_string(), "héllo".to_string(), "7".to_string()]
    );
}

#[test]
fn decoder_decodes_out_immediates() {
    let mut memory = Memory::new();
    memory.load(cells(&[2, 6, 0x0A, 0, 42, 1, 'h' as u32, 'i' as u32, 0]));
    let mut registers = Registers::new();
    registers.set_data_section_pointer(6);
    let w = |a: u32, b: u32, c: u32, d: u32| [a.to_be_bytes(), b.to_be_bytes(), c.to_be_bytes(), d.to_be_bytes()];
    assert!(matches!(Decoder::decode(&memory, &registers, w(0x0A, 0, 42, 1)),
        Ok(Instruction::OutputImmediate(OutputImmediateInstruction { value: Immediate::Number(42) }))));
    assert!(matches!(Decoder::decode(&memory, &registers, w(0x0A, 0, 0, 2)),
        Ok(Instruction::OutputImmediate(OutputImmediateInstruction { value: Immediate::Text(s) })) if s == "hi"));
    assert!(matches!(Decoder::decode(&memory, &registers, w(0x0A, 0, 5, 2)), Err(Fault::UnterminatedString)));
}

#[test]
fn faults_say_what_went_wrong() {
    assert_eq!(
        Fault::InvalidBytecodeLength(3).message(),
        "Invalid bytecode length: 3. Bytecode must be a multiple of 4 bytes."
    );
    assert_eq!(Fault::MissingHeader.message(), "Missing header pointer");
    assert_eq!(Fault::AddressOutOfBounds(17).message(), "Address out of bounds: 17");
    assert_eq!(Fault::InvalidRegister(33).message(), "Invalid register number: 33. Valid register numbers are 1-32.");
    assert_eq!(
        Fault::InvalidOpcode(0x11).message(),
        "Failed to decode opcode from byte code. Error: Byte value does not correspond to any known opcode.. Word: 0x00000011"
    );
    assert_eq!(
        Fault::InvalidOpcode(0xDEADBEEF).message(),
        "Failed to decode opcode from byte code. Error: Byte value does not correspond to any known opcode.. Word: 0xDEADBEEF"
    );
    assert_eq!(Fault::InvalidStringByte(300).message(), "Failed to convert word to byte");
    assert_eq!(
        Fault::UnterminatedString.message(),
        "Failed to read string: reached end of data segment without null terminator."
    );
    assert_eq!(Fault::InvalidUtf8.message(), "Failed to decode string bytes");
    assert_eq!(Fault::NoInstructionLoaded.message(), "Failed to decode instruction: no instruction loaded.");
    assert_eq!(Fault::ExpectedText(4).message(), "Register r4 does not contain text, expected text.");
    assert_eq!(Fault::ExpectedNumber(5).message(), "Register r5 does not contain a number, expected number.");
}

#[test]
fn undefined_labels_are_reported_in_source_order() {
    let e = Assembler::new("beq x1, x1, b\nbeq x1, x1, a\nexit").assemble().unwrap_err();
    assert_eq!((e.token.start, e.token.end), (12, 13));
    let e = Assembler::new("a:\nbeq x1, x1, a\nbeq x1, x1, b").assemble().unwrap_err();
    assert_eq!((e.token.start, e.token.end), (29, 30));
}
