//! The assembly language as a function from source text to byte code: the grammar of
//! each statement, what it adds to the program, and the first error it can meet.
use vstd::prelude::*;
use crate::assembler::opcode::{OpCode, lemma_opcode_round_trip};
use crate::assembler::scanner::token::{Token, TokenType};
use crate::assembler::scanner::{lemma_scan, lemma_state_after, nth_token, scan, state_after};
use crate::text::{spec_lower, spec_parse_u32, spec_replace, spec_trim_end};
use crate::word::{lemma_words_to_bytes_at, lemma_words_to_bytes_len, spec_word_at, spec_words_to_bytes};

verus! {

/// Number of words in the byte-code header: the address of the text segment and the
/// address of the data segment.
pub const HEADER_SIZE: u32 = 2;

/// The last word of an `out` instruction: what its operand is.
pub const OUT_REGISTER: u32 = 0;

pub const OUT_NUMBER: u32 = 1;

pub const OUT_TEXT: u32 = 2;

/// What an assembly error says.
#[derive(Debug, Clone, Copy, PartialEq, Eq, Structural)]
pub enum AsmMessage {
    ScanFailure,
    ExpectedDestinationRegister,
    ExpectedCommaAfterDestination,
    ExpectedImmediate,
    ExpectedSourceRegister,
    ExpectedString,
    ExpectedRTypeDestination,
    ExpectedSourceRegister1,
    ExpectedCommaAfterSource1,
    ExpectedSourceRegister2,
    ExpectedBranchSource1,
    ExpectedCommaAfterSource2,
    ExpectedLabelName,
    ExpectedOutSource,
    InvalidRegisterFormat,
    InvalidRegisterNumber,
    RegisterOutOfRange(u32),
    InvalidNumber,
    DataSegmentTooLarge,
    UnexpectedKeyword,
    UndefinedLabel,
    TextSegmentTooLarge,
}

/// An error: the token it is reported at, what it says, and the lexeme it quotes
/// (empty where it quotes none).
pub struct SpecDiag {
    pub token: Token,
    pub message: AsmMessage,
    pub detail: Seq<char>,
}

/// A reference to a label from a branch: the label's name, the text-segment word that
/// receives its address, and the token of the name.
pub struct SpecLabelRef {
    pub name: Seq<char>,
    pub index: int,
    pub token: Token,
}

/// The program assembled so far.
pub struct AsmModel {
    pub text: Seq<u32>,
    pub data: Seq<u32>,
    pub labels: Map<Seq<char>, int>,
    pub refs: Seq<SpecLabelRef>,
}

pub open spec fn empty_model() -> AsmModel {
    AsmModel { text: Seq::empty(), data: Seq::empty(), labels: Map::empty(), refs: Seq::empty() }
}

pub open spec fn diag(token: Token, message: AsmMessage) -> SpecDiag {
    SpecDiag { token, message, detail: Seq::empty() }
}

pub open spec fn tok(src: Seq<char>, i: int) -> Token {
    nth_token(src, i as nat)
}

pub open spec fn ttype(src: Seq<char>, i: int) -> TokenType {
    tok(src, i).token_type
}

pub open spec fn lexeme(src: Seq<char>, t: Token) -> Seq<char> {
    src.subrange(t.start as int, t.end as int)
}

/// The token at `i` is used up and the next one becomes current; a next token that
/// the scanner could not read is an error.
pub open spec fn adv(src: Seq<char>, i: int) -> Result<int, SpecDiag> {
    if ttype(src, i + 1) == TokenType::Error {
        Err(diag(tok(src, i + 1), AsmMessage::ScanFailure))
    } else {
        Ok(i + 1)
    }
}

/// The current token must have type `t`.
pub open spec fn consume(src: Seq<char>, i: int, t: TokenType, msg: AsmMessage) -> Result<int, SpecDiag> {
    if ttype(src, i) == t {
        adv(src, i)
    } else {
        Err(diag(tok(src, i), msg))
    }
}

/// A register name: `x` or `X`, then a number from 1 to 32.
pub open spec fn register_value(lex: Seq<char>) -> Result<u32, (AsmMessage, Seq<char>)> {
    if lex.len() == 0 || spec_lower(lex[0]) != 'x' {
        Err((AsmMessage::InvalidRegisterFormat, lex))
    } else {
        match spec_parse_u32(lex.drop_first()) {
            None => Err((AsmMessage::InvalidRegisterNumber, lex)),
            Some(n) => if 1 <= n && n <= 32 {
                Ok(n)
            } else {
                Err((AsmMessage::RegisterOutOfRange(n), Seq::empty()))
            },
        }
    }
}

pub open spec fn expect_register(src: Seq<char>, i: int, msg: AsmMessage) -> Result<(int, u32), SpecDiag> {
    match consume(src, i, TokenType::Identifier, msg) {
        Err(d) => Err(d),
        Ok(j) => match register_value(lexeme(src, tok(src, j - 1))) {
            Ok(n) => Ok((j, n)),
            Err((m, det)) => Err(SpecDiag { token: tok(src, j), message: m, detail: det }),
        },
    }
}

pub open spec fn expect_number(src: Seq<char>, i: int, msg: AsmMessage) -> Result<(int, u32), SpecDiag> {
    match consume(src, i, TokenType::Number, msg) {
        Err(d) => Err(d),
        Ok(j) => match spec_parse_u32(lexeme(src, tok(src, j - 1))) {
            Some(n) => Ok((j, n)),
            None => Err(SpecDiag { token: tok(src, j), message: AsmMessage::InvalidNumber, detail: lexeme(src, tok(src, j - 1)) }),
        },
    }
}

/// The text of a string literal: without its quotes, with `\n` read as a newline and
/// `\"` as a quote.
pub open spec fn unescape(lex: Seq<char>) -> Seq<char> {
    let inner = lex.subrange(1, lex.len() - 1);
    spec_replace(spec_replace(inner, seq!['\\', 'n'], seq!['\n']), seq!['\\', '"'], seq!['"'])
}

pub open spec fn expect_string(src: Seq<char>, i: int, msg: AsmMessage) -> Result<(int, Seq<char>), SpecDiag> {
    if ttype(src, i) == TokenType::String {
        match adv(src, i) {
            Err(d) => Err(d),
            Ok(j) => Ok((j, unescape(lexeme(src, tok(src, i))))),
        }
    } else {
        Err(diag(tok(src, i), msg))
    }
}

/// The words that store a string: its UTF-8 bytes, one per word, then a zero word.
pub open spec fn string_words(s: Seq<char>) -> Seq<u32> {
    vstd::utf8::encode_utf8(s).map_values(|b: u8| b as u32).push(0)
}

pub open spec fn l_opcode(t: TokenType) -> OpCode {
    match t {
        TokenType::LoadString => OpCode::LoadString,
        TokenType::LoadImmediate => OpCode::LoadImmediate,
        TokenType::LoadFile => OpCode::LoadFile,
        _ => OpCode::Move,
    }
}

pub open spec fn r_opcode(t: TokenType) -> OpCode {
    match t {
        TokenType::Morph => OpCode::Morph,
        TokenType::Project => OpCode::Project,
        TokenType::Distill => OpCode::Distill,
        TokenType::Correlate => OpCode::Correlate,
        TokenType::Audit => OpCode::Audit,
        _ => OpCode::Similarity,
    }
}

pub open spec fn b_opcode(t: TokenType) -> OpCode {
    match t {
        TokenType::BranchEqual => OpCode::BranchEqual,
        TokenType::BranchLess => OpCode::BranchLess,
        TokenType::BranchLessEqual => OpCode::BranchLessEqual,
        TokenType::BranchGreater => OpCode::BranchGreater,
        _ => OpCode::BranchGreaterEqual,
    }
}

pub open spec fn is_l_type(t: TokenType) -> bool {
    t == TokenType::LoadString || t == TokenType::LoadImmediate || t == TokenType::LoadFile || t == TokenType::Move
}

pub open spec fn is_r_type(t: TokenType) -> bool {
    t == TokenType::Morph || t == TokenType::Project || t == TokenType::Distill || t == TokenType::Correlate
        || t == TokenType::Audit || t == TokenType::Similarity
}

pub open spec fn is_b_type(t: TokenType) -> bool {
    t == TokenType::BranchEqual || t == TokenType::BranchLess || t == TokenType::BranchLessEqual
        || t == TokenType::BranchGreater || t == TokenType::BranchGreaterEqual
}

pub open spec fn emit4(m: AsmModel, a: u32, b: u32, c: u32, d: u32) -> AsmModel {
    AsmModel { text: m.text + seq![a, b, c, d], ..m }
}

/// `ls|lf rd, "text"`, `li rd, number`, `mv rd, rs`.
#[verifier::opaque]
pub open spec fn l_type(src: Seq<char>, i: int, m: AsmModel) -> Result<(int, AsmModel), SpecDiag> {
    let kw = ttype(src, i);
    let op = l_opcode(kw).spec_code();
    match adv(src, i) {
        Err(d) => Err(d),
        Ok(j0) => match expect_register(src, j0, AsmMessage::ExpectedDestinationRegister) {
            Err(d) => Err(d),
            Ok((j1, rd)) => match consume(src, j1, TokenType::Comma, AsmMessage::ExpectedCommaAfterDestination) {
                Err(d) => Err(d),
                Ok(j2) => if kw == TokenType::LoadImmediate {
                    match expect_number(src, j2, AsmMessage::ExpectedImmediate) {
                        Err(d) => Err(d),
                        Ok((j3, n)) => Ok((j3, emit4(m, op, rd, n, 0))),
                    }
                } else if kw == TokenType::Move {
                    match expect_register(src, j2, AsmMessage::ExpectedSourceRegister) {
                        Err(d) => Err(d),
                        Ok((j3, rs)) => Ok((j3, emit4(m, op, rd, rs, 0))),
                    }
                } else {
                    match expect_string(src, j2, AsmMessage::ExpectedString) {
                        Err(d) => Err(d),
                        Ok((j3, s)) => if m.data.len() > u32::MAX {
                            Err(diag(tok(src, j3), AsmMessage::DataSegmentTooLarge))
                        } else {
                            let m2 = AsmModel { data: m.data + string_words(s), ..m };
                            Ok((j3, emit4(m2, op, rd, m.data.len() as u32, 0)))
                        },
                    }
                },
            },
        },
    }
}

/// `label:` names the next text-segment word.
#[verifier::opaque]
pub open spec fn label(src: Seq<char>, i: int, m: AsmModel) -> Result<(int, AsmModel), SpecDiag> {
    match adv(src, i) {
        Err(d) => Err(d),
        Ok(j) => {
            let name = spec_trim_end(lexeme(src, tok(src, i)), ':');
            Ok((j, AsmModel { labels: m.labels.insert(name, m.text.len() as int), ..m }))
        },
    }
}

/// `mrf|prj|dst|cor|aud|sim rd, rs1, rs2`.
#[verifier::opaque]
pub open spec fn r_type(src: Seq<char>, i: int, m: AsmModel) -> Result<(int, AsmModel), SpecDiag> {
    let op = r_opcode(ttype(src, i)).spec_code();
    match adv(src, i) {
        Err(d) => Err(d),
        Ok(j0) => match expect_register(src, j0, AsmMessage::ExpectedRTypeDestination) {
            Err(d) => Err(d),
            Ok((j1, rd)) => match consume(src, j1, TokenType::Comma, AsmMessage::ExpectedCommaAfterDestination) {
                Err(d) => Err(d),
                Ok(j2) => match expect_register(src, j2, AsmMessage::ExpectedSourceRegister1) {
                    Err(d) => Err(d),
                    Ok((j3, rs1)) => match consume(src, j3, TokenType::Comma, AsmMessage::ExpectedCommaAfterSource1) {
                        Err(d) => Err(d),
                        Ok(j4) => match expect_register(src, j4, AsmMessage::ExpectedSourceRegister2) {
                            Err(d) => Err(d),
                            Ok((j5, rs2)) => Ok((j5, emit4(m, op, rd, rs1, rs2))),
                        },
                    },
                },
            },
        },
    }
}

/// `beq|blt|ble|bgt|bge rs1, rs2, label`.
#[verifier::opaque]
pub open spec fn b_type(src: Seq<char>, i: int, m: AsmModel) -> Result<(int, AsmModel), SpecDiag> {
    let op = b_opcode(ttype(src, i)).spec_code();
    match adv(src, i) {
        Err(d) => Err(d),
        Ok(j0) => match expect_register(src, j0, AsmMessage::ExpectedBranchSource1) {
            Err(d) => Err(d),
            Ok((j1, rs1)) => match consume(src, j1, TokenType::Comma, AsmMessage::ExpectedCommaAfterSource1) {
                Err(d) => Err(d),
                Ok(j2) => match expect_register(src, j2, AsmMessage::ExpectedSourceRegister2) {
                    Err(d) => Err(d),
                    Ok((j3, rs2)) => match consume(src, j3, TokenType::Comma, AsmMessage::ExpectedCommaAfterSource2) {
                        Err(d) => Err(d),
                        Ok(j4) => match consume(src, j4, TokenType::Identifier, AsmMessage::ExpectedLabelName) {
                            Err(d) => Err(d),
                            Ok(j5) => {
                                let name_tok = tok(src, j5 - 1);
                                let r = SpecLabelRef { name: lexeme(src, name_tok), index: m.text.len() as int + 3, token: name_tok };
                                let m2 = emit4(m, op, rs1, rs2, 0);
                                Ok((j5, AsmModel { refs: m.refs.push(r), ..m2 }))
                            },
                        },
                    },
                },
            },
        },
    }
}

/// `out rs`, `out number` or `out "text"`: `[out, rs, 0, OUT_REGISTER]`,
/// `[out, 0, number, OUT_NUMBER]`, or `[out, 0, address, OUT_TEXT]` with the text stored
/// in the data segment.
#[verifier::opaque]
pub open spec fn output(src: Seq<char>, i: int, m: AsmModel) -> Result<(int, AsmModel), SpecDiag> {
    let op = OpCode::Out.spec_code();
    match adv(src, i) {
        Err(d) => Err(d),
        Ok(j0) => if ttype(src, j0) == TokenType::Number {
            match expect_number(src, j0, AsmMessage::ExpectedOutSource) {
                Err(d) => Err(d),
                Ok((j1, n)) => Ok((j1, emit4(m, op, 0, n, OUT_NUMBER))),
            }
        } else if ttype(src, j0) == TokenType::String {
            match expect_string(src, j0, AsmMessage::ExpectedOutSource) {
                Err(d) => Err(d),
                Ok((j1, s)) => if m.data.len() > u32::MAX {
                    Err(diag(tok(src, j1), AsmMessage::DataSegmentTooLarge))
                } else {
                    let m2 = AsmModel { data: m.data + string_words(s), ..m };
                    Ok((j1, emit4(m2, op, 0, m.data.len() as u32, OUT_TEXT)))
                },
            }
        } else {
            match expect_register(src, j0, AsmMessage::ExpectedOutSource) {
                Err(d) => Err(d),
                Ok((j1, rs)) => Ok((j1, emit4(m, op, rs, 0, OUT_REGISTER))),
            }
        },
    }
}

/// `exit`.
#[verifier::opaque]
pub open spec fn exit(src: Seq<char>, i: int, m: AsmModel) -> Result<(int, AsmModel), SpecDiag> {
    match adv(src, i) {
        Err(d) => Err(d),
        Ok(j0) => Ok((j0, emit4(m, OpCode::Exit.spec_code(), 0, 0, 0))),
    }
}

/// One statement, starting at the current token `i`.
pub open spec fn statement(src: Seq<char>, i: int, m: AsmModel) -> Result<(int, AsmModel), SpecDiag> {
    let t = ttype(src, i);
    if is_l_type(t) {
        l_type(src, i, m)
    } else if is_b_type(t) {
        b_type(src, i, m)
    } else if t == TokenType::Exit {
        exit(src, i, m)
    } else if t == TokenType::Label {
        label(src, i, m)
    } else if t == TokenType::Out {
        output(src, i, m)
    } else if is_r_type(t) {
        r_type(src, i, m)
    } else {
        Err(diag(tok(src, i), AsmMessage::UnexpectedKeyword))
    }
}

/// After the end of the source every token is the same end token.
pub proof fn lemma_eof_stays(src: Seq<char>, n: nat)
    requires
        src.len() < usize::MAX,
        nth_token(src, n).token_type == TokenType::Eof,
    ensures
        nth_token(src, n + 1) == nth_token(src, n),
        nth_token(src, n + 1).token_type == TokenType::Eof,
{
    reveal(scan);
    lemma_state_after(src, n);
    lemma_scan(src, state_after(src, n));
}

/// A token that is not the end lies within the source: the `n`-th token starts at or
/// after position `n`.
pub proof fn lemma_token_index(src: Seq<char>, n: nat)
    requires
        src.len() < usize::MAX,
        nth_token(src, n).token_type != TokenType::Eof,
    ensures
        n <= state_after(src, n).current < src.len(),
    decreases n,
{
    lemma_state_after(src, n);
    lemma_scan(src, state_after(src, n));
    if n > 0 {
        let p = (n - 1) as nat;
        lemma_state_after(src, p);
        lemma_scan(src, state_after(src, p));
        if nth_token(src, p).token_type == TokenType::Eof {
            lemma_eof_stays(src, p);
        }
        lemma_token_index(src, p);
    }
}

/// A statement that succeeds uses up at least one token, and the last token it uses is
/// not the end.
pub proof fn lemma_statement_progress(src: Seq<char>, i: int, m: AsmModel)
    requires
        src.len() < usize::MAX,
        0 <= i,
    ensures
        statement(src, i, m) matches Ok((j, _)) ==> i < j && j <= src.len(),
{
    reveal(l_type);
    reveal(label);
    reveal(r_type);
    reveal(b_type);
    reveal(output);
    reveal(exit);
    if let Ok((j, _)) = statement(src, i, m) {
        assert(i < j);
        assert(ttype(src, j - 1) != TokenType::Eof);
        lemma_token_index(src, (j - 1) as nat);
    }
}

/// The statements from token `i` up to the end token: the index of the end token and
/// the program, or the first error.
pub open spec fn parse_from(src: Seq<char>, i: int, m: AsmModel) -> Result<(int, AsmModel), SpecDiag>
    decreases src.len() + 1 - i,
{
    if i < 0 || src.len() >= usize::MAX {
        Err(diag(tok(src, i), AsmMessage::UnexpectedKeyword))
    } else if ttype(src, i) == TokenType::Eof {
        Ok((i, m))
    } else if i > src.len() {
        Err(diag(tok(src, i), AsmMessage::UnexpectedKeyword))
    } else {
        match statement(src, i, m) {
            Err(d) => Err(d),
            Ok((j, m2)) => {
                proof {
                    lemma_statement_progress(src, i, m);
                }
                parse_from(src, j, m2)
            },
        }
    }
}

/// The operation word of a branch.
pub open spec fn is_branch_code(w: u32) -> bool {
    ||| w == OpCode::BranchEqual.spec_code()
    ||| w == OpCode::BranchLess.spec_code()
    ||| w == OpCode::BranchLessEqual.spec_code()
    ||| w == OpCode::BranchGreater.spec_code()
    ||| w == OpCode::BranchGreaterEqual.spec_code()
}

/// What every program assembled so far satisfies: the text is whole instructions of four
/// words; each label names an instruction boundary within the text; each reference is
/// the last word of a branch instruction, and references come in text order.
pub open spec fn model_wf(m: AsmModel) -> bool {
    &&& m.text.len() % 4 == 0
    &&& forall|name: Seq<char>| #[trigger] m.labels.contains_key(name)
        ==> m.labels[name] % 4 == 0 && 0 <= m.labels[name] <= m.text.len()
    &&& forall|k: int| 0 <= k < m.refs.len() ==> {
        let x = #[trigger] m.refs[k].index;
        &&& x % 4 == 3
        &&& 3 <= x < m.text.len()
        &&& is_branch_code(m.text[x - 3])
    }
    &&& forall|j: int, k: int| 0 <= j < k < m.refs.len() ==> #[trigger] m.refs[j].index < #[trigger] m.refs[k].index
}

/// Appending one instruction keeps what the earlier words say.
proof fn lemma_emit4_wf(m: AsmModel, a: u32, b: u32, c: u32, d: u32)
    requires
        model_wf(m),
    ensures
        model_wf(emit4(m, a, b, c, d)),
        emit4(m, a, b, c, d).text.len() == m.text.len() + 4,
        emit4(m, a, b, c, d).text.subrange(0, m.text.len() as int) == m.text,
        emit4(m, a, b, c, d).text[m.text.len() as int] == a,
{
    let m2 = emit4(m, a, b, c, d);
    assert(m2.text.subrange(0, m.text.len() as int) =~= m.text);
    assert forall|k: int| 0 <= k < m2.refs.len() implies {
        let x = #[trigger] m2.refs[k].index;
        &&& x % 4 == 3
        &&& 3 <= x < m2.text.len()
        &&& is_branch_code(m2.text[x - 3])
    } by {
        assert(m2.text[m.refs[k].index - 3] == m.text[m.refs[k].index - 3]);
    }
}

/// A statement keeps the program well formed.
pub proof fn lemma_statement_wf(src: Seq<char>, i: int, m: AsmModel)
    requires
        model_wf(m),
    ensures
        statement(src, i, m) matches Ok((_, m2)) ==> model_wf(m2),
{
    reveal(l_type);
    reveal(label);
    reveal(r_type);
    reveal(b_type);
    reveal(output);
    reveal(exit);
    let t = ttype(src, i);
    if let Ok((_, m2)) = statement(src, i, m) {
        let n = m.text.len() as int;
        if is_l_type(t) {
            let kw = t;
            let op = l_opcode(kw).spec_code();
            if kw != TokenType::LoadImmediate && kw != TokenType::Move {
                let m1 = AsmModel { data: m2.data, ..m };
                assert(model_wf(m1));
                lemma_emit4_wf(m1, op, m2.text[n + 1], m2.text[n + 2], 0);
            } else {
                lemma_emit4_wf(m, op, m2.text[n + 1], m2.text[n + 2], 0);
            }
        } else if is_b_type(t) {
            let op = b_opcode(t).spec_code();
            let m1 = emit4(m, op, m2.text[n + 1], m2.text[n + 2], 0);
            lemma_emit4_wf(m, op, m2.text[n + 1], m2.text[n + 2], 0);
            assert(is_branch_code(op));
            assert(m2.refs == m1.refs.push(m2.refs.last()));
            assert forall|j: int, k: int| 0 <= j < k < m2.refs.len() implies #[trigger] m2.refs[j].index < #[trigger] m2.refs[k].index by {
                if k == m2.refs.len() - 1 {
                    assert(m2.refs[j] == m1.refs[j]);
                }
            }
        } else if t == TokenType::Exit {
            lemma_emit4_wf(m, OpCode::Exit.spec_code(), 0, 0, 0);
        } else if t == TokenType::Label {
            assert forall|n: Seq<char>| #[trigger] m2.labels.contains_key(n)
                implies m2.labels[n] % 4 == 0 && 0 <= m2.labels[n] <= m2.text.len() by {
                if !m.labels.contains_key(n) || m2.labels[n] != m.labels[n] {
                    assert(m2.labels[n] == m.text.len());
                }
            }
        } else if t == TokenType::Out {
            let m1 = AsmModel { data: m2.data, ..m };
            assert(model_wf(m1));
            lemma_emit4_wf(m1, OpCode::Out.spec_code(), m2.text[n + 1], m2.text[n + 2], m2.text[n + 3]);
        } else if is_r_type(t) {
            let op = r_opcode(t).spec_code();
            lemma_emit4_wf(m, op, m2.text[n + 1], m2.text[n + 2], m2.text[n + 3]);
        }
    }
}

/// Every statement up to the end keeps the program well formed.
pub proof fn lemma_parse_wf(src: Seq<char>, i: int, m: AsmModel)
    requires
        model_wf(m),
    ensures
        parse_from(src, i, m) matches Ok((_, m2)) ==> model_wf(m2),
    decreases src.len() + 1 - i,
{
    if 0 <= i && src.len() < usize::MAX && ttype(src, i) != TokenType::Eof && i <= src.len() {
        if let Ok((j, m2)) = statement(src, i, m) {
            lemma_statement_progress(src, i, m);
            lemma_statement_wf(src, i, m);
            lemma_parse_wf(src, j, m2);
        }
    }
}

/// Applies the references to labels that are defined: each referring word receives the
/// label's absolute address.
pub open spec fn patch(text: Seq<u32>, labels: Map<Seq<char>, int>, refs: Seq<SpecLabelRef>) -> Seq<u32>
    decreases refs.len(),
{
    if refs.len() == 0 {
        text
    } else {
        let r = refs.last();
        let t = patch(text, labels, refs.drop_last());
        if labels.contains_key(r.name) {
            t.update(r.index, (HEADER_SIZE + labels[r.name]) as u32)
        } else {
            t
        }
    }
}

/// The first reference to a label that is not defined.
pub open spec fn first_undefined(refs: Seq<SpecLabelRef>, labels: Map<Seq<char>, int>) -> Option<SpecLabelRef>
    decreases refs.len(),
{
    if refs.len() == 0 {
        None
    } else if !labels.contains_key(refs[0].name) {
        Some(refs[0])
    } else {
        first_undefined(refs.drop_first(), labels)
    }
}

/// The tokens of the references to labels that are not defined, in order.
pub open spec fn unresolved(refs: Seq<SpecLabelRef>, labels: Map<Seq<char>, int>) -> Seq<Token>
    decreases refs.len(),
{
    if refs.len() == 0 {
        Seq::empty()
    } else if !labels.contains_key(refs[0].name) {
        seq![refs[0].token] + unresolved(refs.drop_first(), labels)
    } else {
        unresolved(refs.drop_first(), labels)
    }
}

/// The first undefined reference is the first of those left unresolved.
pub proof fn lemma_unresolved_first(refs: Seq<SpecLabelRef>, labels: Map<Seq<char>, int>)
    ensures
        first_undefined(refs, labels) is None <==> unresolved(refs, labels).len() == 0,
        first_undefined(refs, labels) matches Some(u) ==> unresolved(refs, labels)[0] == u.token,
    decreases refs.len(),
{
    if refs.len() > 0 {
        lemma_unresolved_first(refs.drop_first(), labels);
    }
}

/// The header: the address of the text segment, then that of the data segment.
pub open spec fn header(text_len: int) -> Seq<u32> {
    seq![HEADER_SIZE, (HEADER_SIZE + text_len) as u32]
}

/// The words of a complete program: the header, the text with its branches patched, then
/// the data.
pub open spec fn program_words(m: AsmModel) -> Seq<u32> {
    header(m.text.len() as int) + patch(m.text, m.labels, m.refs) + m.data
}

/// The byte code of a complete program, or the error that stops it.
pub open spec fn finalize(m: AsmModel, end: Token) -> Result<Seq<u8>, SpecDiag> {
    if m.text.len() + HEADER_SIZE > u32::MAX {
        Err(diag(end, AsmMessage::TextSegmentTooLarge))
    } else {
        match first_undefined(m.refs, m.labels) {
            Some(r) => Err(diag(r.token, AsmMessage::UndefinedLabel)),
            None => Ok(spec_words_to_bytes(program_words(m))),
        }
    }
}

pub open spec fn finalize_from(src: Seq<char>, r: Result<(int, AsmModel), SpecDiag>) -> Result<Seq<u8>, SpecDiag> {
    match r {
        Err(d) => Err(d),
        Ok((k, m)) => finalize(m, tok(src, k)),
    }
}

/// What assembling `src` gives: its byte code, or the first error.
pub open spec fn spec_assemble(src: Seq<char>) -> Result<Seq<u8>, SpecDiag> {
    if ttype(src, 0) == TokenType::Error {
        Err(diag(tok(src, 0), AsmMessage::ScanFailure))
    } else {
        finalize_from(src, parse_from(src, 0, empty_model()))
    }
}

/// Patching keeps the text's length, gives each reference to a defined label the label's
/// address, and leaves every other word as it was.
pub proof fn lemma_patch(text: Seq<u32>, labels: Map<Seq<char>, int>, refs: Seq<SpecLabelRef>)
    requires
        forall|k: int| 0 <= k < refs.len() ==> 0 <= #[trigger] refs[k].index < text.len(),
        forall|j: int, k: int| 0 <= j < k < refs.len() ==> #[trigger] refs[j].index < #[trigger] refs[k].index,
    ensures
        patch(text, labels, refs).len() == text.len(),
        forall|k: int| 0 <= k < refs.len() && labels.contains_key(#[trigger] refs[k].name)
            ==> patch(text, labels, refs)[refs[k].index] == (HEADER_SIZE + labels[refs[k].name]) as u32,
        forall|x: int| 0 <= x < text.len() && (forall|k: int| 0 <= k < refs.len() ==> refs[k].index != x)
            ==> #[trigger] patch(text, labels, refs)[x] == text[x],
    decreases refs.len(),
{
    if refs.len() > 0 {
        let prefix = refs.drop_last();
        lemma_patch(text, labels, prefix);
        let r = refs.last();
        assert forall|k: int| 0 <= k < refs.len() && labels.contains_key(#[trigger] refs[k].name)
            implies patch(text, labels, refs)[refs[k].index] == (HEADER_SIZE + labels[refs[k].name]) as u32 by {
            if k < refs.len() - 1 {
                assert(prefix[k] == refs[k]);
                assert(refs[k].index < r.index);
            }
        }
        assert forall|x: int| 0 <= x < text.len() && (forall|k: int| 0 <= k < refs.len() ==> refs[k].index != x)
            implies #[trigger] patch(text, labels, refs)[x] == text[x] by {
            assert(refs[refs.len() - 1].index != x);
            assert forall|k: int| 0 <= k < prefix.len() implies prefix[k].index != x by {
                assert(prefix[k] == refs[k]);
            }
        }
    }
}

/// No reference is undefined exactly when every reference names a defined label.
pub proof fn lemma_first_undefined(refs: Seq<SpecLabelRef>, labels: Map<Seq<char>, int>)
    ensures
        first_undefined(refs, labels) is None
            <==> forall|k: int| 0 <= k < refs.len() ==> labels.contains_key(#[trigger] refs[k].name),
    decreases refs.len(),
{
    if refs.len() > 0 {
        lemma_first_undefined(refs.drop_first(), labels);
        if labels.contains_key(refs[0].name) {
            assert forall|k: int| 0 <= k < refs.len() - 1 implies (labels.contains_key(#[trigger] refs.drop_first()[k].name)
                <==> labels.contains_key(refs[k + 1].name)) by {}
            if forall|k: int| 0 <= k < refs.drop_first().len() ==> labels.contains_key(#[trigger] refs.drop_first()[k].name) {
                assert forall|k: int| 0 <= k < refs.len() implies labels.contains_key(#[trigger] refs[k].name) by {
                    if k > 0 {
                        assert(refs.drop_first()[k - 1] == refs[k]);
                    }
                }
            }
        }
    }
}

/// The program that assembling `src` parses, when it parses.
pub open spec fn parsed_program(src: Seq<char>) -> AsmModel {
    parse_from(src, 0, empty_model())->Ok_0.1
}

/// Assembled byte code is the words of the parsed program, a whole number of them: the
/// header says that the text starts at word 2 and where the data segment starts, after
/// whole instructions of four words; every reference names a defined label.
pub proof fn lemma_assembled_layout(src: Seq<char>, code: Seq<u8>)
    requires
        spec_assemble(src) == Ok::<Seq<u8>, SpecDiag>(code),
    ensures
        parse_from(src, 0, empty_model()) is Ok,
        code == spec_words_to_bytes(program_words(parsed_program(src))),
        model_wf(parsed_program(src)),
        code.len() == 4 * program_words(parsed_program(src)).len(),
        code.len() >= 8,
        spec_word_at(code, 0) == HEADER_SIZE,
        spec_word_at(code, 1) == HEADER_SIZE + parsed_program(src).text.len(),
        parsed_program(src).text.len() % 4 == 0,
        forall|k: int| 0 <= k < parsed_program(src).refs.len()
            ==> parsed_program(src).labels.contains_key(#[trigger] parsed_program(src).refs[k].name),
{
    lemma_parse_wf(src, 0, empty_model());
    let m = parsed_program(src);
    let w = program_words(m);
    lemma_first_undefined(m.refs, m.labels);
    lemma_patch(m.text, m.labels, m.refs);
    lemma_words_to_bytes_len(w);
    lemma_words_to_bytes_at(w, 0);
    lemma_words_to_bytes_at(w, 1);
}

/// Every branch of assembled byte code jumps to the instruction that follows its label:
/// the branch's last word is the label's address, which is an instruction boundary.
pub proof fn lemma_assembled_branches(src: Seq<char>, code: Seq<u8>, k: int)
    requires
        spec_assemble(src) == Ok::<Seq<u8>, SpecDiag>(code),
        0 <= k < parsed_program(src).refs.len(),
    ensures
        ({
            let m = parsed_program(src);
            let r = m.refs[k];
            let target = spec_word_at(code, HEADER_SIZE + r.index);
            &&& m.labels.contains_key(r.name)
            &&& is_branch_code(spec_word_at(code, HEADER_SIZE + r.index - 3))
            &&& target == HEADER_SIZE + m.labels[r.name]
            &&& (target - HEADER_SIZE) % 4 == 0
            &&& HEADER_SIZE <= target <= HEADER_SIZE + m.text.len()
        }),
{
    lemma_assembled_layout(src, code);
    let m = parsed_program(src);
    let r = m.refs[k];
    let w = program_words(m);
    lemma_patch(m.text, m.labels, m.refs);
    assert(w[HEADER_SIZE + r.index] == patch(m.text, m.labels, m.refs)[r.index]);
    lemma_words_to_bytes_at(w, HEADER_SIZE + r.index);
    lemma_words_to_bytes_at(w, HEADER_SIZE + r.index - 3);
    assert forall|j: int| 0 <= j < m.refs.len() implies m.refs[j].index != r.index - 3 by {
        assert(m.refs[j].index % 4 == 3);
    }
    assert(w[HEADER_SIZE + r.index - 3] == patch(m.text, m.labels, m.refs)[r.index - 3]);
}

/// The operation word of an instruction that loads text from the data segment.
pub open spec fn is_text_load_code(w: u32) -> bool {
    w == OpCode::LoadString.spec_code() || w == OpCode::LoadFile.spec_code()
}

/// An instruction with first word `op` and last word `kind` reads a string whose address
/// is its third word: `ls`, `lf`, and `out` of a string.
pub open spec fn reads_text(op: u32, kind: u32) -> bool {
    is_text_load_code(op) || (op == OpCode::Out.spec_code() && kind == OUT_TEXT)
}

/// The data segment holds the string `s` from word `p` on, as the assembler stores it.
pub open spec fn stored_at(data: Seq<u32>, p: int, s: Seq<char>) -> bool {
    &&& 0 <= p
    &&& p + string_words(s).len() <= data.len()
    &&& data.subrange(p, p + string_words(s).len()) == string_words(s)
}

/// Each instruction that loads text points at a string stored in the data segment.
pub open spec fn strings_stored(m: AsmModel) -> bool {
    forall|t: int| 0 <= t < m.text.len() && t % 4 == 0 && #[trigger] reads_text(m.text[t], m.text[t + 3])
        ==> exists|s: Seq<char>| #[trigger] stored_at(m.data, m.text[t + 2] as int, s)
}

/// A string stays stored when the data segment grows at its end.
proof fn lemma_stored_extend(data: Seq<u32>, more: Seq<u32>, p: int, s: Seq<char>)
    requires
        stored_at(data, p, s),
    ensures
        stored_at(data + more, p, s),
{
    assert((data + more).subrange(p, p + string_words(s).len()) =~= data.subrange(p, p + string_words(s).len()));
}

/// Earlier instructions keep their strings when an instruction is appended and the data
/// segment grows at its end.
proof fn lemma_strings_grow(m: AsmModel, m2: AsmModel)
    requires
        strings_stored(m),
        m.text.len() % 4 == 0,
        m2.text.len() == m.text.len() + 4 || m2.text == m.text,
        m2.text.subrange(0, m.text.len() as int) == m.text,
        m.data.len() <= m2.data.len(),
        m2.data.subrange(0, m.data.len() as int) == m.data,
        m2.text.len() == m.text.len() + 4 ==> (reads_text(m2.text[m.text.len() as int], m2.text[m.text.len() as int + 3])
            ==> exists|s: Seq<char>| #[trigger] stored_at(m2.data, m2.text[m.text.len() as int + 2] as int, s)),
    ensures
        strings_stored(m2),
{
    assert forall|t: int| 0 <= t < m2.text.len() && t % 4 == 0 && #[trigger] reads_text(m2.text[t], m2.text[t + 3])
        implies exists|s: Seq<char>| #[trigger] stored_at(m2.data, m2.text[t + 2] as int, s) by {
        if t < m.text.len() {
            assert(m2.text[t] == m.text[t]);
            assert(m2.text[t + 2] == m.text[t + 2]);
            assert(m2.text[t + 3] == m.text[t + 3]);
            let s = choose|s: Seq<char>| #[trigger] stored_at(m.data, m.text[t + 2] as int, s);
            let more = m2.data.subrange(m.data.len() as int, m2.data.len() as int);
            assert(m2.data =~= m.data + more);
            lemma_stored_extend(m.data, more, m.text[t + 2] as int, s);
        }
    }
}

/// A statement keeps every text load pointing at its string.
pub proof fn lemma_statement_strings(src: Seq<char>, i: int, m: AsmModel)
    requires
        model_wf(m),
        strings_stored(m),
    ensures
        statement(src, i, m) matches Ok((_, m2)) ==> strings_stored(m2),
{
    reveal(l_type);
    reveal(label);
    reveal(r_type);
    reveal(b_type);
    reveal(output);
    reveal(exit);
    let t = ttype(src, i);
    let n = m.text.len() as int;
    if let Ok((_, m2)) = statement(src, i, m) {
        assert(m.data.subrange(0, m.data.len() as int) =~= m.data);
        assert(m2.text.subrange(0, n) =~= m.text);
        if t == TokenType::Label {
            lemma_strings_grow(m, m2);
        } else {
            if is_l_type(t) && t != TokenType::LoadImmediate && t != TokenType::Move {
                if let Ok(j0) = adv(src, i) {
                    if let Ok((j1, _)) = expect_register(src, j0, AsmMessage::ExpectedDestinationRegister) {
                        if let Ok(j2) = consume(src, j1, TokenType::Comma, AsmMessage::ExpectedCommaAfterDestination) {
                            if let Ok((_, st)) = expect_string(src, j2, AsmMessage::ExpectedString) {
                                assert(m2.data == m.data + string_words(st));
                                assert(m2.data.subrange(0, m.data.len() as int) =~= m.data);
                                assert(m2.data.subrange(m.data.len() as int, m.data.len() as int + string_words(st).len())
                                    =~= string_words(st));
                                assert(stored_at(m2.data, m2.text[n + 2] as int, st));
                            }
                        }
                    }
                }
                lemma_strings_grow(m, m2);
            } else if t == TokenType::Out {
                if let Ok(j0) = adv(src, i) {
                    if ttype(src, j0) == TokenType::String {
                        if let Ok((_, st)) = expect_string(src, j0, AsmMessage::ExpectedOutSource) {
                            assert(m2.data == m.data + string_words(st));
                            assert(m2.data.subrange(0, m.data.len() as int) =~= m.data);
                            assert(m2.data.subrange(m.data.len() as int, m.data.len() as int + string_words(st).len())
                                =~= string_words(st));
                            assert(stored_at(m2.data, m2.text[n + 2] as int, st));
                        }
                    } else {
                        assert(m2.data == m.data);
                    }
                }
                lemma_strings_grow(m, m2);
            } else {
                assert(m2.data == m.data);
                lemma_strings_grow(m, m2);
            }
        }
    }
}

/// Every statement up to the end keeps every text load pointing at its string.
pub proof fn lemma_parse_strings(src: Seq<char>, i: int, m: AsmModel)
    requires
        model_wf(m),
        strings_stored(m),
    ensures
        parse_from(src, i, m) matches Ok((_, m2)) ==> strings_stored(m2),
    decreases src.len() + 1 - i,
{
    if 0 <= i && src.len() < usize::MAX && ttype(src, i) != TokenType::Eof && i <= src.len() {
        if let Ok((j, m2)) = statement(src, i, m) {
            lemma_statement_progress(src, i, m);
            lemma_statement_wf(src, i, m);
            lemma_statement_strings(src, i, m);
            lemma_parse_strings(src, j, m2);
        }
    }
}

/// Each instruction of the text starts with the code of an operation.
pub open spec fn opcodes_valid(m: AsmModel) -> bool {
    forall|t: int| 0 <= t < m.text.len() && t % 4 == 0 ==> (#[trigger] OpCode::spec_from_code(m.text[t])) is Some
}

/// A statement starts each instruction it adds with the code of an operation.
pub proof fn lemma_statement_opcodes(src: Seq<char>, i: int, m: AsmModel)
    requires
        model_wf(m),
        opcodes_valid(m),
    ensures
        statement(src, i, m) matches Ok((_, m2)) ==> opcodes_valid(m2),
{
    reveal(l_type);
    reveal(label);
    reveal(r_type);
    reveal(b_type);
    reveal(output);
    reveal(exit);
    let t = ttype(src, i);
    let n = m.text.len() as int;
    if let Ok((_, m2)) = statement(src, i, m) {
        lemma_opcode_round_trip(l_opcode(t));
        lemma_opcode_round_trip(b_opcode(t));
        lemma_opcode_round_trip(r_opcode(t));
        lemma_opcode_round_trip(OpCode::Exit);
        lemma_opcode_round_trip(OpCode::Out);
        assert forall|x: int| 0 <= x < m2.text.len() && x % 4 == 0 implies (#[trigger] OpCode::spec_from_code(m2.text[x])) is Some by {
            if x < n {
                assert(m2.text[x] == m.text[x]);
            }
        }
    }
}

/// Every statement up to the end starts each instruction with the code of an operation.
pub proof fn lemma_parse_opcodes(src: Seq<char>, i: int, m: AsmModel)
    requires
        model_wf(m),
        opcodes_valid(m),
    ensures
        parse_from(src, i, m) matches Ok((_, m2)) ==> opcodes_valid(m2),
    decreases src.len() + 1 - i,
{
    if 0 <= i && src.len() < usize::MAX && ttype(src, i) != TokenType::Eof && i <= src.len() {
        if let Ok((j, m2)) = statement(src, i, m) {
            lemma_statement_progress(src, i, m);
            lemma_statement_wf(src, i, m);
            lemma_statement_opcodes(src, i, m);
            lemma_parse_opcodes(src, j, m2);
        }
    }
}

/// The register operands of an instruction whose words are `op`, `a`, `b`, `c` name
/// registers X1 to X32.
pub open spec fn registers_named(op: u32, a: u32, b: u32, c: u32) -> bool {
    let valid = |n: u32| 1 <= n && n <= 32;
    match OpCode::spec_from_code(op) {
        Some(OpCode::LoadString) | Some(OpCode::LoadFile) | Some(OpCode::LoadImmediate) => valid(a),
        Some(OpCode::Out) => c == OUT_NUMBER || c == OUT_TEXT || valid(a),
        Some(OpCode::Move) | Some(OpCode::BranchEqual) | Some(OpCode::BranchLess) | Some(OpCode::BranchLessEqual)
        | Some(OpCode::BranchGreater) | Some(OpCode::BranchGreaterEqual) => valid(a) && valid(b),
        Some(OpCode::Exit) | None => true,
        Some(_) => valid(a) && valid(b) && valid(c),
    }
}

/// Every instruction of the text names registers X1 to X32 only.
pub open spec fn registers_valid(m: AsmModel) -> bool {
    forall|t: int| 0 <= t < m.text.len() && t % 4 == 0
        ==> #[trigger] registers_named(m.text[t], m.text[t + 1], m.text[t + 2], m.text[t + 3])
}

/// A statement names registers X1 to X32 only.
pub proof fn lemma_statement_registers(src: Seq<char>, i: int, m: AsmModel)
    requires
        model_wf(m),
        registers_valid(m),
    ensures
        statement(src, i, m) matches Ok((_, m2)) ==> registers_valid(m2),
{
    reveal(l_type);
    reveal(label);
    reveal(r_type);
    reveal(b_type);
    reveal(output);
    reveal(exit);
    let t = ttype(src, i);
    let n = m.text.len() as int;
    if let Ok((_, m2)) = statement(src, i, m) {
        lemma_opcode_round_trip(l_opcode(t));
        lemma_opcode_round_trip(b_opcode(t));
        lemma_opcode_round_trip(r_opcode(t));
        lemma_opcode_round_trip(OpCode::Exit);
        lemma_opcode_round_trip(OpCode::Out);
        assert forall|x: int| 0 <= x < m2.text.len() && x % 4 == 0
            implies #[trigger] registers_named(m2.text[x], m2.text[x + 1], m2.text[x + 2], m2.text[x + 3]) by {
            if x < n {
                assert(m2.text[x] == m.text[x]);
                assert(m2.text[x + 1] == m.text[x + 1]);
                assert(m2.text[x + 2] == m.text[x + 2]);
                assert(m2.text[x + 3] == m.text[x + 3]);
            }
        }
    }
}

/// Every statement up to the end names registers X1 to X32 only.
pub proof fn lemma_parse_registers(src: Seq<char>, i: int, m: AsmModel)
    requires
        model_wf(m),
        registers_valid(m),
    ensures
        parse_from(src, i, m) matches Ok((_, m2)) ==> registers_valid(m2),
    decreases src.len() + 1 - i,
{
    if 0 <= i && src.len() < usize::MAX && ttype(src, i) != TokenType::Eof && i <= src.len() {
        if let Ok((j, m2)) = statement(src, i, m) {
            lemma_statement_progress(src, i, m);
            lemma_statement_wf(src, i, m);
            lemma_statement_registers(src, i, m);
            lemma_parse_registers(src, j, m2);
        }
    }
}

/// Every word of the data segment holds a byte.
pub open spec fn data_bytes(m: AsmModel) -> bool {
    forall|j: int| 0 <= j < m.data.len() ==> #[trigger] m.data[j] < 256
}

/// The words that store a string each hold a byte.
proof fn lemma_string_words_bytes(s: Seq<char>)
    ensures
        forall|j: int| 0 <= j < string_words(s).len() ==> #[trigger] string_words(s)[j] < 256,
{
    let b = vstd::utf8::encode_utf8(s);
    assert forall|j: int| 0 <= j < string_words(s).len() implies #[trigger] string_words(s)[j] < 256 by {
        if j < b.len() {
            assert(string_words(s)[j] == b[j] as u32);
        }
    }
}

/// A statement keeps every data word a byte.
pub proof fn lemma_statement_data(src: Seq<char>, i: int, m: AsmModel)
    requires
        data_bytes(m),
    ensures
        statement(src, i, m) matches Ok((_, m2)) ==> data_bytes(m2),
{
    reveal(l_type);
    reveal(label);
    reveal(r_type);
    reveal(b_type);
    reveal(output);
    reveal(exit);
    let t = ttype(src, i);
    if let Ok((_, m2)) = statement(src, i, m) {
        let mut added: Seq<u32> = Seq::empty();
        if let Ok(j0) = adv(src, i) {
            if is_l_type(t) && t != TokenType::LoadImmediate && t != TokenType::Move {
                if let Ok((j1, _)) = expect_register(src, j0, AsmMessage::ExpectedDestinationRegister) {
                    if let Ok(j2) = consume(src, j1, TokenType::Comma, AsmMessage::ExpectedCommaAfterDestination) {
                        if let Ok((_, st)) = expect_string(src, j2, AsmMessage::ExpectedString) {
                            lemma_string_words_bytes(st);
                            added = string_words(st);
                        }
                    }
                }
            } else if t == TokenType::Out && ttype(src, j0) == TokenType::String {
                if let Ok((_, st)) = expect_string(src, j0, AsmMessage::ExpectedOutSource) {
                    lemma_string_words_bytes(st);
                    added = string_words(st);
                }
            }
        }
        assert(m2.data == m.data + added);
        assert forall|j: int| 0 <= j < m2.data.len() implies #[trigger] m2.data[j] < 256 by {
            if j >= m.data.len() {
                assert(m2.data[j] == added[j - m.data.len()]);
            }
        }
    }
}

/// Every statement up to the end keeps every data word a byte.
pub proof fn lemma_parse_data(src: Seq<char>, i: int, m: AsmModel)
    requires
        model_wf(m),
        data_bytes(m),
    ensures
        parse_from(src, i, m) matches Ok((_, m2)) ==> data_bytes(m2),
    decreases src.len() + 1 - i,
{
    if 0 <= i && src.len() < usize::MAX && ttype(src, i) != TokenType::Eof && i <= src.len() {
        if let Ok((j, m2)) = statement(src, i, m) {
            lemma_statement_progress(src, i, m);
            lemma_statement_wf(src, i, m);
            lemma_statement_data(src, i, m);
            lemma_parse_data(src, j, m2);
        }
    }
}

/// Every data word of assembled byte code, from the address that the header gives for
/// the data segment to the end, holds a byte.
pub proof fn lemma_assembled_data_bytes(src: Seq<char>, code: Seq<u8>, j: int)
    requires
        spec_assemble(src) == Ok::<Seq<u8>, SpecDiag>(code),
        spec_word_at(code, 1) <= j < code.len() / 4,
    ensures
        spec_word_at(code, j) < 256,
{
    lemma_assembled_layout(src, code);
    lemma_parse_data(src, 0, empty_model());
    let m = parsed_program(src);
    let w = program_words(m);
    lemma_patch(m.text, m.labels, m.refs);
    lemma_words_to_bytes_at(w, j);
    assert(w[j] == m.data[j - HEADER_SIZE - m.text.len()]);
}

/// Each branch of the text has a reference at its last word, waiting for its label.
pub open spec fn branches_referenced(m: AsmModel) -> bool {
    forall|t: int| 0 <= t < m.text.len() && t % 4 == 0 && #[trigger] is_branch_code(m.text[t])
        ==> exists|k: int| 0 <= k < m.refs.len() && #[trigger] m.refs[k].index == t + 3
}

/// A statement gives each branch it adds a reference.
pub proof fn lemma_statement_branches(src: Seq<char>, i: int, m: AsmModel)
    requires
        model_wf(m),
        branches_referenced(m),
    ensures
        statement(src, i, m) matches Ok((_, m2)) ==> branches_referenced(m2),
{
    reveal(l_type);
    reveal(label);
    reveal(r_type);
    reveal(b_type);
    reveal(output);
    reveal(exit);
    let t = ttype(src, i);
    let n = m.text.len() as int;
    if let Ok((_, m2)) = statement(src, i, m) {
        lemma_opcode_round_trip(l_opcode(t));
        lemma_opcode_round_trip(b_opcode(t));
        lemma_opcode_round_trip(r_opcode(t));
        assert(m2.refs.len() >= m.refs.len());
        assert forall|k: int| 0 <= k < m.refs.len() implies m2.refs[k] == m.refs[k] by {}
        assert forall|x: int| 0 <= x < m2.text.len() && x % 4 == 0 && #[trigger] is_branch_code(m2.text[x])
            implies exists|k: int| 0 <= k < m2.refs.len() && #[trigger] m2.refs[k].index == x + 3 by {
            if x < n {
                assert(m2.text[x] == m.text[x]);
                let k = choose|k: int| 0 <= k < m.refs.len() && #[trigger] m.refs[k].index == x + 3;
                assert(m2.refs[k] == m.refs[k]);
            } else {
                assert(is_b_type(t));
                assert(m2.refs[m2.refs.len() - 1].index == x + 3);
            }
        }
    }
}

/// Every statement up to the end gives each branch a reference.
pub proof fn lemma_parse_branches(src: Seq<char>, i: int, m: AsmModel)
    requires
        model_wf(m),
        branches_referenced(m),
    ensures
        parse_from(src, i, m) matches Ok((_, m2)) ==> branches_referenced(m2),
    decreases src.len() + 1 - i,
{
    if 0 <= i && src.len() < usize::MAX && ttype(src, i) != TokenType::Eof && i <= src.len() {
        if let Ok((j, m2)) = statement(src, i, m) {
            lemma_statement_progress(src, i, m);
            lemma_statement_wf(src, i, m);
            lemma_statement_branches(src, i, m);
            lemma_parse_branches(src, j, m2);
        }
    }
}

/// Assembled byte code, word by word: a header that puts the text at word 2 and the data
/// after whole instructions; each instruction starts with the code of an operation; each
/// branch jumps to an instruction boundary within the text (or its end); and each data
/// word holds a byte.
pub proof fn lemma_assembled_words(src: Seq<char>, code: Seq<u8>)
    requires
        spec_assemble(src) == Ok::<Seq<u8>, SpecDiag>(code),
    ensures
        code.len() % 4 == 0,
        spec_word_at(code, 0) == HEADER_SIZE,
        HEADER_SIZE <= spec_word_at(code, 1) <= code.len() / 4,
        (spec_word_at(code, 1) - HEADER_SIZE) % 4 == 0,
        forall|i: int| HEADER_SIZE <= i < spec_word_at(code, 1) && (i - HEADER_SIZE) % 4 == 0
            ==> (#[trigger] OpCode::spec_from_code(spec_word_at(code, i))) is Some,
        forall|i: int| HEADER_SIZE <= i < spec_word_at(code, 1) && (i - HEADER_SIZE) % 4 == 0
            && #[trigger] is_branch_code(spec_word_at(code, i)) ==> {
                let target = spec_word_at(code, i + 3);
                &&& HEADER_SIZE <= target <= spec_word_at(code, 1)
                &&& (target - HEADER_SIZE) % 4 == 0
            },
        forall|j: int| spec_word_at(code, 1) <= j < code.len() / 4 ==> #[trigger] spec_word_at(code, j) < 256,
{
    lemma_assembled_layout(src, code);
    let m = parsed_program(src);
    let w = program_words(m);
    let n = m.text.len() as int;
    lemma_parse_opcodes(src, 0, empty_model());
    lemma_parse_branches(src, 0, empty_model());
    lemma_patch(m.text, m.labels, m.refs);
    assert forall|i: int| HEADER_SIZE <= i < spec_word_at(code, 1) && (i - HEADER_SIZE) % 4 == 0
        implies spec_word_at(code, i) == m.text[i - HEADER_SIZE] by {
        let t = i - HEADER_SIZE;
        lemma_words_to_bytes_at(w, i);
        assert forall|k: int| 0 <= k < m.refs.len() implies m.refs[k].index != t by {
            assert(m.refs[k].index % 4 == 3);
        }
    }
    assert forall|i: int| HEADER_SIZE <= i < spec_word_at(code, 1) && (i - HEADER_SIZE) % 4 == 0
        implies (#[trigger] OpCode::spec_from_code(spec_word_at(code, i))) is Some by {
        assert(spec_word_at(code, i) == m.text[i - HEADER_SIZE]);
    }
    assert forall|i: int| HEADER_SIZE <= i < spec_word_at(code, 1) && (i - HEADER_SIZE) % 4 == 0
        && #[trigger] is_branch_code(spec_word_at(code, i)) implies {
            let target = spec_word_at(code, i + 3);
            &&& HEADER_SIZE <= target <= spec_word_at(code, 1)
            &&& (target - HEADER_SIZE) % 4 == 0
        } by {
        let t = i - HEADER_SIZE;
        assert(spec_word_at(code, i) == m.text[t]);
        let k = choose|k: int| 0 <= k < m.refs.len() && #[trigger] m.refs[k].index == t + 3;
        lemma_assembled_branches(src, code, k);
    }
    assert forall|j: int| spec_word_at(code, 1) <= j < code.len() / 4 implies #[trigger] spec_word_at(code, j) < 256 by {
        lemma_assembled_data_bytes(src, code, j);
    }
}

} // verus!
