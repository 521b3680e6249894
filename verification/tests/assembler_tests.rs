use lpu::assembler::grammar::AsmMessage;
use lpu::assembler::opcode::OpCode;
use lpu::assembler::scanner::token::{ScanError, Token, TokenType};
use lpu::assembler::scanner::Scanner;
use lpu::assembler::{AssembleError, Assembler};

fn words(values: &[u32]) -> Vec<u8> {
    let mut bytes = Vec::new();
    for v in values {
        bytes.extend_from_slice(&v.to_be_bytes());
    }
    bytes
}

fn assemble(source: &str) -> Result<Vec<u8>, AssembleError> {
    Assembler::new(source).assemble()
}

fn assemble_error(source: &str) -> AssembleError {
    match assemble(source) {
        Ok(code) => panic!("expected an error, got {:?}", code),
        Err(e) => e,
    }
}

fn tokens(source: &str) -> Vec<Token> {
    let mut scanner = Scanner::new(source);
    let mut out = Vec::new();
    loop {
        let t = scanner.scan_token();
        out.push(t);
        if t.token_type == TokenType::Eof || t.token_type == TokenType::Error {
            return out;
        }
    }
}

#[test]
fn scanner_reads_a_load_string_statement() {
    let ts = tokens("LS X1, \"hi\"");
    let types: Vec<TokenType> = ts.iter().map(|t| t.token_type).collect();
    assert_eq!(
        types,
        vec![TokenType::LoadString, TokenType::Identifier, TokenType::Comma, TokenType::String, TokenType::Eof]
    );
    assert_eq!((ts[0].start, ts[0].end), (0, 2));
    assert_eq!((ts[1].start, ts[1].end), (3, 5));
    assert_eq!((ts[2].start, ts[2].end), (5, 6));
    assert_eq!((ts[3].start, ts[3].end), (7, 11));
    assert_eq!(ts[3].length(), 4);
    assert!(ts.iter().all(|t| t.line == 1));
}

#[test]
fn scanner_keywords_ignore_case() {
    let ts = tokens("ls Ls lS LS");
    assert!(ts[..4].iter().all(|t| t.token_type == TokenType::LoadString));
}

#[test]
fn scanner_reads_every_keyword() {
    let ts = tokens("lf li mv beq ble blt bge bgt exit out mrf prj dst cor aud sim");
    let types: Vec<TokenType> = ts.iter().map(|t| t.token_type).collect();
    assert_eq!(
        types,
        vec![
            TokenType::LoadFile,
            TokenType::LoadImmediate,
            TokenType::Move,
            TokenType::BranchEqual,
            TokenType::BranchLessEqual,
            TokenType::BranchLess,
            TokenType::BranchGreaterEqual,
            TokenType::BranchGreater,
            TokenType::Exit,
            TokenType::Out,
            TokenType::Morph,
            TokenType::Project,
            TokenType::Distill,
            TokenType::Correlate,
            TokenType::Audit,
            TokenType::Similarity,
            TokenType::Eof,
        ]
    );
}

#[test]
fn scanner_skips_comments_and_counts_lines() {
    let ts = tokens("; a comment\n  exit ; another\nout");
    assert_eq!(ts[0].token_type, TokenType::Exit);
    assert_eq!(ts[0].line, 2);
    assert_eq!(ts[0].start, 14);
    assert_eq!(ts[1].token_type, TokenType::Out);
    assert_eq!(ts[1].line, 3);
    assert_eq!(ts[2].token_type, TokenType::Eof);
}

#[test]
fn scanner_reads_labels_and_numbers() {
    let ts = tokens("loop: 42 3.5");
    assert_eq!(ts[0].token_type, TokenType::Label);
    assert_eq!((ts[0].start, ts[0].end), (0, 5));
    assert_eq!(ts[1].token_type, TokenType::Number);
    assert_eq!((ts[1].start, ts[1].end), (6, 8));
    assert_eq!(ts[2].token_type, TokenType::Number);
    assert_eq!((ts[2].start, ts[2].end), (9, 12));
}

#[test]
fn scanner_reports_unterminated_string() {
    let ts = tokens("\"abc");
    let last = ts.last().unwrap();
    assert_eq!(last.token_type, TokenType::Error);
    assert_eq!(last.scan_error, Some(ScanError::UnterminatedString));
    assert_eq!(last.error(), Some("Unterminated string."));
}

#[test]
fn scanner_reports_unexpected_character() {
    let ts = tokens("@");
    assert_eq!(ts[0].token_type, TokenType::Error);
    assert_eq!(ts[0].error(), Some("Unexpected character"));
    assert_eq!((ts[0].start, ts[0].end), (0, 1));
}

#[test]
fn scanner_end_token_repeats() {
    let mut scanner = Scanner::new("exit");
    assert_eq!(scanner.scan_token().token_type, TokenType::Exit);
    let a = scanner.scan_token();
    let b = scanner.scan_token();
    assert_eq!(a.token_type, TokenType::Eof);
    assert_eq!(a, b);
}

#[test]
fn token_accessors() {
    let t = Token::new(TokenType::Number, 3, 7, 2, 9, None);
    assert_eq!(*t.token_type(), TokenType::Number);
    assert_eq!(t.start(), 3);
    assert_eq!(t.end(), 7);
    assert_eq!(t.length(), 4);
    assert_eq!(t.line(), 2);
    assert_eq!(t.column(), 9);
    assert_eq!(t.error(), None);
    let backwards = Token::new(TokenType::Number, 7, 3, 1, 1, None);
    assert_eq!(backwards.length(), 0);
}

#[test]
fn keyword_lookup() {
    assert_eq!(TokenType::from_keyword(&['b', 'g', 't']), Ok(TokenType::BranchGreater));
    assert_eq!(TokenType::from_keyword(&['s', 'i', 'm']), Ok(TokenType::Similarity));
    assert!(TokenType::from_keyword(&['x', '1']).is_err());
}

#[test]
fn opcode_codes() {
    assert_eq!(OpCode::LoadString.code(), 0x00);
    assert_eq!(OpCode::Out.code(), 0x0A);
    assert_eq!(OpCode::Similarity.code(), 0x10);
    assert_eq!(OpCode::try_from_code(0x0F), Ok(OpCode::Audit));
    assert!(OpCode::try_from_code(0x11).is_err());
    assert_eq!(OpCode::from_byte(9), Ok(OpCode::Exit));
    assert_eq!(OpCode::Morph.to_be_bytes(), [0, 0, 0, 0x0B]);
    assert_eq!(OpCode::from_be_bytes([0, 0, 0, 0x0C]), Ok(OpCode::Project));
    assert!(OpCode::from_be_bytes([0, 0, 1, 0]).is_err());
}

#[test]
fn assembles_a_load_and_print_program() {
    let code = assemble("LS X1, \"hi\"\nOUT X1\nEXIT").unwrap();
    assert_eq!(
        code,
        words(&[2, 14, 0, 1, 0, 0, 0x0A, 1, 0, 0, 9, 0, 0, 0, 'h' as u32, 'i' as u32, 0])
    );
}

#[test]
fn assembles_the_empty_program() {
    assert_eq!(assemble("").unwrap(), words(&[2, 2]));
    assert_eq!(assemble("; only a comment\n").unwrap(), words(&[2, 2]));
}

#[test]
fn assembles_immediates_moves_and_r_types() {
    let code = assemble("li x2, 7\nmv x3, x2\nmrf x4, x5, x6\nsim x7, x8, x9\naud x1, x2, x3").unwrap();
    assert_eq!(
        code,
        words(&[2, 22, 2, 2, 7, 0, 3, 3, 2, 0, 0x0B, 4, 5, 6, 0x10, 7, 8, 9, 0x0F, 1, 2, 3])
    );
}

#[test]
fn assembles_strings_with_escapes_as_utf8_words() {
    let code = assemble("ls x1, \"a\\nb\"\nlf x2, \"é\"").unwrap();
    assert_eq!(
        code,
        words(&[2, 10, 0, 1, 0, 0, 1, 2, 4, 0, 'a' as u32, '\n' as u32, 'b' as u32, 0, 0xC3, 0xA9, 0])
    );
}

#[test]
fn assembles_backward_branch_to_label_address() {
    let code = assemble("start:\nLI X1, 5\nLI X2, 5\nBEQ X1, X2, start\nEXIT").unwrap();
    assert_eq!(code, words(&[2, 18, 2, 1, 5, 0, 2, 2, 5, 0, 4, 1, 2, 2, 9, 0, 0, 0]));
}

#[test]
fn assembles_forward_branch_to_label_address() {
    let code = assemble("blt x1, x2, done\nexit\ndone:\nexit").unwrap();
    assert_eq!(code, words(&[2, 14, 6, 1, 2, 10, 9, 0, 0, 0, 9, 0, 0, 0]));
}

#[test]
fn every_branch_kind_has_its_code() {
    let code = assemble("l:\nbeq x1, x1, l\nble x1, x1, l\nblt x1, x1, l\nbge x1, x1, l\nbgt x1, x1, l").unwrap();
    let w: Vec<u32> = code.chunks(4).map(|c| u32::from_be_bytes([c[0], c[1], c[2], c[3]])).collect();
    assert_eq!(w[0], 2);
    assert_eq!(w[1], 22);
    assert_eq!([w[2], w[6], w[10], w[14], w[18]], [4, 5, 6, 7, 8]);
    assert!([w[5], w[9], w[13], w[17], w[21]].iter().all(|t| *t == 2));
}

#[test]
fn assembling_twice_gives_the_same_code() {
    let mut a = Assembler::new("ls x1, \"x\"\nout x1");
    let first = a.assemble().unwrap();
    let second = a.assemble().unwrap();
    assert_eq!(first, second);
}

#[test]
fn error_missing_comma() {
    let e = assemble_error("LS X1 \"hi\"");
    assert_eq!(e.message, AsmMessage::ExpectedCommaAfterDestination);
    assert_eq!(e.token.token_type, TokenType::String);
}

#[test]
fn error_register_out_of_range() {
    let e = assemble_error("LS X33, \"a\"");
    assert_eq!(e.message, AsmMessage::RegisterOutOfRange(33));
    let e0 = assemble_error("LS X0, \"a\"");
    assert_eq!(e0.message, AsmMessage::RegisterOutOfRange(0));
}

#[test]
fn error_register_format_and_number() {
    let e = assemble_error("LS Y1, \"a\"");
    assert_eq!(e.message, AsmMessage::InvalidRegisterFormat);
    assert_eq!(e.detail, vec!['Y', '1']);
    let e2 = assemble_error("LS Xa, \"a\"");
    assert_eq!(e2.message, AsmMessage::InvalidRegisterNumber);
    assert_eq!(e2.detail, vec!['X', 'a']);
}

#[test]
fn error_expected_values() {
    assert_eq!(assemble_error("LI X1, abc").message, AsmMessage::ExpectedImmediate);
    assert_eq!(assemble_error("LS X1, 5").message, AsmMessage::ExpectedString);
    assert_eq!(assemble_error("LS 5").message, AsmMessage::ExpectedDestinationRegister);
    assert_eq!(assemble_error("MV X1, 5").message, AsmMessage::ExpectedSourceRegister);
    assert_eq!(assemble_error("OUT ,").message, AsmMessage::ExpectedOutSource);
    assert_eq!(assemble_error("OUT Y").message, AsmMessage::InvalidRegisterFormat);
}

#[test]
fn error_r_type_operands() {
    assert_eq!(assemble_error("MRF 1").message, AsmMessage::ExpectedRTypeDestination);
    assert_eq!(assemble_error("MRF X1 X2").message, AsmMessage::ExpectedCommaAfterDestination);
    assert_eq!(assemble_error("MRF X1, 2").message, AsmMessage::ExpectedSourceRegister1);
    assert_eq!(assemble_error("MRF X1, X2 X3").message, AsmMessage::ExpectedCommaAfterSource1);
    assert_eq!(assemble_error("MRF X1, X2, 3").message, AsmMessage::ExpectedSourceRegister2);
}

#[test]
fn error_b_type_operands() {
    assert_eq!(assemble_error("BEQ 1").message, AsmMessage::ExpectedBranchSource1);
    assert_eq!(assemble_error("BEQ X1 X2").message, AsmMessage::ExpectedCommaAfterSource1);
    assert_eq!(assemble_error("BEQ X1, 2").message, AsmMessage::ExpectedSourceRegister2);
    assert_eq!(assemble_error("BEQ X1, X2 l").message, AsmMessage::ExpectedCommaAfterSource2);
    assert_eq!(assemble_error("BEQ X1, X2, 5").message, AsmMessage::ExpectedLabelName);
}

#[test]
fn error_invalid_number() {
    let e = assemble_error("LI X1, 99999999999");
    assert_eq!(e.message, AsmMessage::InvalidNumber);
    assert_eq!(e.detail, "99999999999".chars().collect::<Vec<char>>());
    assert_eq!(assemble_error("LI X1, 1.5").message, AsmMessage::InvalidNumber);
}

#[test]
fn error_undefined_label() {
    let e = assemble_error("BEQ X1, X2, nowhere\nEXIT");
    assert_eq!(e.message, AsmMessage::UndefinedLabel);
    assert_eq!(e.token.token_type, TokenType::Identifier);
    assert_eq!((e.token.start, e.token.end), (12, 19));
}

#[test]
fn error_unexpected_keyword() {
    let e = assemble_error("X1");
    assert_eq!(e.message, AsmMessage::UnexpectedKeyword);
    assert_eq!(assemble_error("exit\n5").message, AsmMessage::UnexpectedKeyword);
}

#[test]
fn error_scan_failures() {
    let e = assemble_error("@");
    assert_eq!(e.message, AsmMessage::ScanFailure);
    assert_eq!(e.token.scan_error, Some(ScanError::UnexpectedCharacter));
    let e2 = assemble_error("LS X1, \"abc");
    assert_eq!(e2.message, AsmMessage::ScanFailure);
    assert_eq!(e2.token.scan_error, Some(ScanError::UnterminatedString));
}

#[test]
fn error_duplicate_keeps_everything() {
    let e = assemble_error("LS Y1, \"a\"");
    let d = e.duplicate();
    assert_eq!(d.token, e.token);
    assert_eq!(d.message, e.message);
    assert_eq!(d.detail, e.detail);
}

#[test]
fn error_reports_read_like_the_assembler_prints_them() {
    let src = "LS Y1, \"a\"";
    assert_eq!(
        assemble_error(src).report(src),
        "[Line 1:6] Error: at ','. Invalid register format: 'Y1'. Expected xN (1-32)."
    );
    let src = "LS X33, \"a\"";
    assert_eq!(assemble_error(src).report(src), "[Line 1:7] Error: at ','. Register number 33 out of range (1-32).");
    let src = "@";
    assert_eq!(
        assemble_error(src).report(src),
        "[Line 1:1] Error: Unexpected character at '@'. Failed to advance to next token due to scanning error."
    );
    let src = "exit\nBEQ X1, X2, nowhere";
    assert_eq!(assemble_error(src).report(src), "[Line 2:20] Error: at 'nowhere'. Undefined label referenced here.");
    let src = "LI X1, x7";
    assert_eq!(assemble_error(src).report(src), "[Line 1:9] Error: at 'x7'. Expected immediate after ','.");
    let src = "LI X1, 5\n  7x";
    assert_eq!(assemble_error(src).report(src), "[Line 2:4] Error: at '7'. Unexpected keyword.");
}

#[test]
fn out_takes_a_register_or_an_immediate() {
    let code = assemble("out 5\nout x3\nout \"ok\"").unwrap();
    assert_eq!(
        code,
        words(&[2, 14, 0x0A, 0, 5, 1, 0x0A, 3, 0, 0, 0x0A, 0, 0, 2, 'o' as u32, 'k' as u32, 0])
    );
    let e = assemble_error("out 99999999999");
    assert_eq!(e.message, AsmMessage::InvalidNumber);
}

#[test]
fn labels_keep_the_next_character() {
    let ts = tokens("end:\nexit");
    assert_eq!(ts[0].token_type, TokenType::Label);
    assert_eq!((ts[0].start, ts[0].end), (0, 4));
    assert_eq!(ts[1].token_type, TokenType::Exit);
    assert_eq!(ts[1].line, 2);
    assert_eq!(ts[1].start, 5);
    let src = "l:\nexit\nX1";
    assert_eq!(assemble_error(src).report(src), "[Line 3:3] Error: at 'X1'. Unexpected keyword.");
}

#[test]
fn lookups_name_their_errors() {
    assert_eq!(TokenType::from_keyword(&['x']), Err("String does not correspond to any known token type."));
    assert_eq!(OpCode::try_from_code(0x11), Err("Byte value does not correspond to any known opcode."));
    assert_eq!(OpCode::from_byte(0xFF), Err("Byte value does not correspond to any known opcode."));
    assert_eq!(OpCode::from_be_bytes([1, 0, 0, 0]), Err("Byte value does not correspond to any known opcode."));
}
