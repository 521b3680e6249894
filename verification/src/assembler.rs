//! The assembler: reads assembly source and produces byte code. The byte code is a
//! sequence of big-endian 32-bit words: a two-word header (the addresses of the text
//! and data segments), the text segment (four words per instruction), and the data
//! segment (the strings, one UTF-8 byte per word, each ended by a zero word).
pub mod grammar;
pub mod immediate;
pub mod opcode;
pub mod operand;
pub mod scanner;

use vstd::prelude::*;
use crate::assembler::grammar::{
    AsmMessage, AsmModel, HEADER_SIZE, OUT_NUMBER, OUT_REGISTER, OUT_TEXT, SpecDiag, SpecLabelRef, adv, consume, diag, empty_model,
    expect_number, expect_register, expect_string, finalize_from, first_undefined, header, lemma_unresolved_first, unresolved,
    is_b_type, is_l_type, is_r_type, lemma_eof_stays, lemma_statement_progress, lemma_token_index, lexeme,
    parse_from, patch, register_value, spec_assemble, string_words, tok, ttype, unescape,
};
use crate::assembler::opcode::OpCode;
use crate::assembler::scanner::token::{Token, TokenType};
use crate::assembler::scanner::{
    Scanner, initial_state, lemma_scan, lemma_state_after, nth_token, scan, state_after,
};
use crate::text::{chars_equal, chars_of, copy_range, decimal, spec_decimal, parse_u32, replace, spec_lower, string_from_chars, trim_end, lower};
use crate::word::{lemma_words_to_bytes_len, spec_words_to_bytes, words_to_bytes};

verus! {

/// An error met while assembling, with the token it is reported at.
#[derive(Debug)]
pub struct AssembleError {
    pub token: Token,
    pub message: AsmMessage,
    /// The lexeme or number that the message quotes; empty where it quotes none.
    pub detail: Vec<char>,
}

impl View for AssembleError {
    type V = SpecDiag;

    open spec fn view(&self) -> SpecDiag {
        SpecDiag { token: self.token, message: self.message, detail: self.detail@ }
    }
}

fn no_detail() -> (r: Vec<char>)
    ensures
        r@ == Seq::<char>::empty(),
{
    let r: Vec<char> = Vec::new();
    assert(r@ =~= Seq::<char>::empty());
    r
}

fn copy_chars(v: &Vec<char>) -> (r: Vec<char>)
    ensures
        r@ == v@,
{
    let r = v.clone();
    assert(r@ =~= v@);
    r
}

impl AssembleError {
    pub fn duplicate(&self) -> (r: AssembleError)
        ensures
            r@ == self@,
    {
        AssembleError { token: self.token, message: self.message, detail: copy_chars(&self.detail) }
    }
}

/// What an assembly error says, in words; `detail` is the lexeme that it quotes.
pub open spec fn spec_message_text(message: AsmMessage, detail: Seq<char>) -> Seq<char> {
    match message {
        AsmMessage::ScanFailure => "Failed to advance to next token due to scanning error."@,
        AsmMessage::ExpectedDestinationRegister => "Expected destination register."@,
        AsmMessage::ExpectedCommaAfterDestination => "Expected ',' after destination register."@,
        AsmMessage::ExpectedImmediate => "Expected immediate after ','."@,
        AsmMessage::ExpectedSourceRegister => "Expected source register after ','."@,
        AsmMessage::ExpectedString => "Expected string after ','."@,
        AsmMessage::ExpectedRTypeDestination => "Expected destination register after r-type keyword."@,
        AsmMessage::ExpectedSourceRegister1 => "Expected source register 1 after ','."@,
        AsmMessage::ExpectedCommaAfterSource1 => "Expected ',' after source register 1."@,
        AsmMessage::ExpectedSourceRegister2 => "Expected source register 2 after ','."@,
        AsmMessage::ExpectedBranchSource1 => "Expected source register 1 after branch keyword."@,
        AsmMessage::ExpectedCommaAfterSource2 => "Expected ',' after source register 2."@,
        AsmMessage::ExpectedLabelName => "Expected label name after ','."@,
        AsmMessage::ExpectedOutSource => "Expected source register or immediate after 'out'."@,
        AsmMessage::InvalidRegisterFormat => "Invalid register format: '"@ + detail + "'. Expected xN (1-32)."@,
        AsmMessage::InvalidRegisterNumber => "Failed to parse register number from '"@ + detail + "'."@,
        AsmMessage::RegisterOutOfRange(n) => "Register number "@ + spec_decimal(n as nat) + " out of range (1-32)."@,
        AsmMessage::InvalidNumber => "Failed to parse number from lexeme '"@ + detail + "'."@,
        AsmMessage::DataSegmentTooLarge => "Failed to convert data segment length to u32. Data segment length exceeds 4294967295."@,
        AsmMessage::UnexpectedKeyword => "Unexpected keyword."@,
        AsmMessage::UndefinedLabel => "Undefined label referenced here."@,
        AsmMessage::TextSegmentTooLarge => "Failed to convert text segment size to u32. Text segment size exceeds 4294967295."@,
    }
}

/// The characters of a token, or none for a token that lies outside the source.
pub open spec fn spec_token_text(src: Seq<char>, t: Token) -> Seq<char> {
    if t.start <= t.end && t.end <= src.len() {
        src.subrange(t.start as int, t.end as int)
    } else {
        Seq::empty()
    }
}

/// The line that reports an error: where it is, the scanner's complaint for a token that
/// could not be scanned, the token's text, then what the error says.
pub open spec fn spec_report(e: SpecDiag, src: Seq<char>) -> Seq<char> {
    "[Line "@ + spec_decimal(e.token.line as nat) + ":"@ + spec_decimal(e.token.column as nat) + "] Error:"@ + (
    match e.token.scan_error {
        Some(s) => if e.token.token_type == TokenType::Error {
            " "@ + s.spec_message()@
        } else {
            Seq::empty()
        },
        None => Seq::empty(),
    }) + " at '"@ + spec_token_text(src, e.token) + "'. "@ + spec_message_text(e.message, e.detail)
}

/// `before`, then `middle`, then `after`.
fn framed_chars(before: &str, middle: &Vec<char>, after: &str) -> (r: Vec<char>)
    ensures
        r@ == before@ + middle@ + after@,
{
    let mut r = chars_of(before);
    let mut m = copy_chars(middle);
    let mut a = chars_of(after);
    r.append(&mut m);
    r.append(&mut a);
    r
}

fn message_text(message: AsmMessage, detail: &Vec<char>) -> (r: Vec<char>)
    ensures
        r@ == spec_message_text(message, detail@),
{
    match message {
        AsmMessage::ScanFailure => chars_of("Failed to advance to next token due to scanning error."),
        AsmMessage::ExpectedDestinationRegister => chars_of("Expected destination register."),
        AsmMessage::ExpectedCommaAfterDestination => chars_of("Expected ',' after destination register."),
        AsmMessage::ExpectedImmediate => chars_of("Expected immediate after ','."),
        AsmMessage::ExpectedSourceRegister => chars_of("Expected source register after ','."),
        AsmMessage::ExpectedString => chars_of("Expected string after ','."),
        AsmMessage::ExpectedRTypeDestination => chars_of("Expected destination register after r-type keyword."),
        AsmMessage::ExpectedSourceRegister1 => chars_of("Expected source register 1 after ','."),
        AsmMessage::ExpectedCommaAfterSource1 => chars_of("Expected ',' after source register 1."),
        AsmMessage::ExpectedSourceRegister2 => chars_of("Expected source register 2 after ','."),
        AsmMessage::ExpectedBranchSource1 => chars_of("Expected source register 1 after branch keyword."),
        AsmMessage::ExpectedCommaAfterSource2 => chars_of("Expected ',' after source register 2."),
        AsmMessage::ExpectedLabelName => chars_of("Expected label name after ','."),
        AsmMessage::ExpectedOutSource => chars_of("Expected source register or immediate after 'out'."),
        AsmMessage::InvalidRegisterFormat => framed_chars("Invalid register format: '", detail, "'. Expected xN (1-32)."),
        AsmMessage::InvalidRegisterNumber => framed_chars("Failed to parse register number from '", detail, "'."),
        AsmMessage::RegisterOutOfRange(n) => framed_chars("Register number ", &decimal(n as u64), " out of range (1-32)."),
        AsmMessage::InvalidNumber => framed_chars("Failed to parse number from lexeme '", detail, "'."),
        AsmMessage::DataSegmentTooLarge => chars_of("Failed to convert data segment length to u32. Data segment length exceeds 4294967295."),
        AsmMessage::UnexpectedKeyword => chars_of("Unexpected keyword."),
        AsmMessage::UndefinedLabel => chars_of("Undefined label referenced here."),
        AsmMessage::TextSegmentTooLarge => chars_of("Failed to convert text segment size to u32. Text segment size exceeds 4294967295."),
    }
}

impl AssembleError {
    /// The line that reports this error in `source`, as the assembler prints it.
    pub fn report(&self, source: &str) -> (r: String)
        ensures
            r@ == spec_report(self@, source@),
    {
        let src = chars_of(source);
        let mut out = framed_chars("[Line ", &decimal(self.token.line as u64), ":");
        let mut column = decimal(self.token.column as u64);
        let mut error = chars_of("] Error:");
        out.append(&mut column);
        out.append(&mut error);
        let ghost head = out@;
        let mut complaint: Vec<char> = Vec::new();
        if let Some(s) = self.token.scan_error {
            if self.token.token_type == TokenType::Error {
                let mut space = chars_of(" ");
                let mut said = chars_of(s.message());
                complaint.append(&mut space);
                complaint.append(&mut said);
            }
        }
        let ghost scan_part = complaint@;
        out.append(&mut complaint);
        let text = if self.token.start <= self.token.end && self.token.end <= src.len() {
            copy_range(src.as_slice(), self.token.start, self.token.end)
        } else {
            Vec::new()
        };
        let mut quoted = framed_chars(" at '", &text, "'. ");
        let mut said = message_text(self.message, &self.detail);
        let ghost q = quoted@;
        let ghost m = said@;
        out.append(&mut quoted);
        out.append(&mut said);
        proof {
            let e = self@;
            let scan = match e.token.scan_error {
                Some(s) => if e.token.token_type == TokenType::Error {
                    " "@ + s.spec_message()@
                } else {
                    Seq::empty()
                },
                None => Seq::empty(),
            };
            assert(scan_part =~= scan);
            assert(text@ =~= spec_token_text(source@, e.token));
            assert(out@ =~= head + scan + q + m);
            assert(spec_report(e, source@) =~= head + scan + q + m);
        }
        string_from_chars(out.as_slice())
    }
}

/// A label definition: its name and the text-segment index it names.
struct LabelEntry {
    name: Vec<char>,
    index: usize,
}

/// A reference to a label, waiting for the label's address.
struct UnresolvedLabel {
    name: Vec<char>,
    index: usize,
    token: Token,
}

/// The labels defined by a list of definitions; a later definition of a name wins.
spec fn label_map(s: Seq<LabelEntry>) -> Map<Seq<char>, int>
    decreases s.len(),
{
    if s.len() == 0 {
        Map::empty()
    } else {
        label_map(s.drop_last()).insert(s.last().name@, s.last().index as int)
    }
}

spec fn refs_of(s: Seq<UnresolvedLabel>) -> Seq<SpecLabelRef> {
    s.map_values(|u: UnresolvedLabel| SpecLabelRef { name: u.name@, index: u.index as int, token: u.token })
}

proof fn lemma_label_map_last(s: Seq<LabelEntry>, name: Seq<char>, j: int)
    requires
        0 <= j < s.len(),
        s[j].name@ == name,
        forall|k: int| j < k < s.len() ==> #[trigger] s[k].name@ != name,
    ensures
        label_map(s).contains_key(name),
        label_map(s)[name] == s[j].index as int,
    decreases s.len(),
{
    if j < s.len() - 1 {
        assert forall|k: int| j < k < s.drop_last().len() implies #[trigger] s.drop_last()[k].name@ != name by {
            assert(s.drop_last()[k] == s[k]);
        }
        lemma_label_map_last(s.drop_last(), name, j);
        assert(s.last().name@ != name);
    }
}

proof fn lemma_label_map_absent(s: Seq<LabelEntry>, name: Seq<char>)
    requires
        forall|k: int| 0 <= k < s.len() ==> #[trigger] s[k].name@ != name,
    ensures
        !label_map(s).contains_key(name),
    decreases s.len(),
{
    if s.len() > 0 {
        assert forall|k: int| 0 <= k < s.drop_last().len() implies #[trigger] s.drop_last()[k].name@ != name by {
            assert(s.drop_last()[k] == s[k]);
        }
        lemma_label_map_absent(s.drop_last(), name);
        assert(s.last().name@ != name);
    }
}

pub struct Assembler {
    data_segment: Vec<u32>,
    text_segment: Vec<u32>,
    source: Vec<char>,
    scanner: Scanner,
    previous: Option<Token>,
    current: Option<Token>,
    labels: Vec<LabelEntry>,
    unresolved_labels: Vec<UnresolvedLabel>,
    /// The first error met, if any; later errors are not recorded.
    error: Option<AssembleError>,
    /// The index of the current token among the tokens of the source.
    position: Ghost<int>,
}

impl Assembler {
    /// The characters of the source.
    pub closed spec fn src(&self) -> Seq<char> {
        self.source@
    }

    closed spec fn model(&self) -> AsmModel {
        AsmModel {
            text: self.text_segment@,
            data: self.data_segment@,
            labels: label_map(self.labels@),
            refs: refs_of(self.unresolved_labels@),
        }
    }

    closed spec fn pos(&self) -> int {
        self.position@
    }

    /// The structure that every state keeps.
    closed spec fn inv(&self) -> bool {
        &&& self.scanner.wf()
        &&& self.scanner.src() == self.source@
        &&& self.source@.len() < usize::MAX
        &&& self.position@ >= 0
        &&& match self.current {
            None => {
                &&& self.position@ == 0
                &&& self.scanner.state() == initial_state()
                &&& self.previous is None
            },
            Some(c) => {
                &&& c == tok(self.source@, self.position@)
                &&& self.scanner.state() == state_after(self.source@, (self.position@ + 1) as nat)
                &&& self.previous == (if self.position@ == 0 {
                    None
                } else {
                    Some(tok(self.source@, self.position@ - 1))
                })
            },
        }
        &&& forall|k: int| 0 <= k < self.labels@.len() ==> #[trigger] self.labels@[k].index <= self.text_segment@.len()
        &&& forall|k: int| 0 <= k < self.unresolved_labels@.len() ==> #[trigger] self.unresolved_labels@[k].index < self.text_segment@.len()
    }

    /// The states that `new` and `assemble` leave behind.
    pub closed spec fn wf(&self) -> bool {
        &&& self.inv()
        &&& (self.current is None ==> self.error is None && self.model() == empty_model())
        &&& (self.error matches Some(e) ==> spec_assemble(self.source@) == Err::<Seq<u8>, SpecDiag>(e@))
        &&& (self.error is None && self.current is Some ==> {
            &&& ttype(self.source@, self.position@) == TokenType::Eof
            &&& spec_assemble(self.source@) == finalize_from(self.source@, parse_from(self.source@, self.position@, self.model()))
        })
    }

    /// After a step whose outcome the grammar gives as `r`: on success the position and
    /// the program are those of `r`, on failure the recorded error is that of `r`.
    closed spec fn follows(&self, old: Assembler, r: Result<(int, AsmModel), SpecDiag>) -> bool {
        &&& self.inv()
        &&& self.source == old.source
        &&& self.current is Some
        &&& match r {
            Ok((j, m)) => self.error is None && self.position@ == j && self.model() == m,
            Err(d) => self.error matches Some(e) && e@ == d,
        }
    }

    /// As `follows`, for a step that only reads tokens.
    closed spec fn reads(&self, old: Assembler, r: Result<int, SpecDiag>) -> bool {
        &&& self.inv()
        &&& self.source == old.source
        &&& self.current is Some
        &&& match r {
            Ok(j) => self.error is None && self.position@ == j && self.model() == old.model(),
            Err(d) => self.error matches Some(e) && e@ == d,
        }
    }

    closed spec fn ready(&self) -> bool {
        &&& self.inv()
        &&& self.error is None
        &&& self.current is Some
    }

    pub fn new(source: &str) -> (r: Self)
        requires
            source@.len() < usize::MAX,
        ensures
            r.wf(),
            r.src() == source@,
    {
        let r = Assembler {
            data_segment: Vec::new(),
            text_segment: Vec::new(),
            source: chars_of(source),
            scanner: Scanner::new(source),
            previous: None,
            current: None,
            labels: Vec::new(),
            unresolved_labels: Vec::new(),
            error: None,
            position: Ghost(0),
        };
        assert(label_map(r.labels@) == Map::<Seq<char>, int>::empty());
        assert(refs_of(r.unresolved_labels@) =~= Seq::<SpecLabelRef>::empty());
        r
    }

    fn lexeme(&self, token: &Token) -> (r: Vec<char>)
        requires
            token.start <= token.end <= self.source@.len(),
        ensures
            r@ == lexeme(self.source@, *token),
    {
        copy_range(self.source.as_slice(), token.start, token.end)
    }

    fn error_at(&mut self, token: Token, message: AsmMessage, detail: Vec<char>)
        ensures
            final(self).error == (if old(self).error is None {
                Some(AssembleError { token, message, detail })
            } else {
                old(self).error
            }),
            final(self).data_segment == old(self).data_segment,
            final(self).text_segment == old(self).text_segment,
            final(self).source == old(self).source,
            final(self).scanner == old(self).scanner,
            final(self).previous == old(self).previous,
            final(self).current == old(self).current,
            final(self).labels == old(self).labels,
            final(self).unresolved_labels == old(self).unresolved_labels,
            final(self).position == old(self).position,
    {
        if self.error.is_some() {
            return;
        }
        self.error = Some(AssembleError { token, message, detail });
    }

    fn error_at_current(&mut self, message: AsmMessage, detail: Vec<char>)
        requires
            old(self).current is Some,
        ensures
            final(self).error == (if old(self).error is None {
                Some(AssembleError { token: old(self).current->0, message, detail })
            } else {
                old(self).error
            }),
            final(self).data_segment == old(self).data_segment,
            final(self).text_segment == old(self).text_segment,
            final(self).source == old(self).source,
            final(self).scanner == old(self).scanner,
            final(self).previous == old(self).previous,
            final(self).current == old(self).current,
            final(self).labels == old(self).labels,
            final(self).unresolved_labels == old(self).unresolved_labels,
            final(self).position == old(self).position,
    {
        let token = match self.current {
            Some(t) => t,
            None => {
                return;
            },
        };
        self.error_at(token, message, detail);
    }

    /// Moves to the next token; a token that the scanner could not read is an error.
    fn advance(&mut self)
        requires
            old(self).inv(),
            old(self).error is None,
        ensures
            final(self).inv(),
            final(self).source == old(self).source,
            final(self).model() == old(self).model(),
            final(self).current is Some,
            final(self).position@ == (if old(self).current is None {
                0
            } else {
                old(self).position@ + 1
            }),
            ttype(old(self).source@, final(self).position@) == TokenType::Error ==> (final(self).error matches Some(e)
                && e@ == diag(tok(old(self).source@, final(self).position@), AsmMessage::ScanFailure)),
            ttype(old(self).source@, final(self).position@) != TokenType::Error ==> final(self).error is None,
    {
        let ghost next: int = if self.current is None {
            0
        } else {
            self.position@ + 1
        };
        proof {
            lemma_state_after(self.source@, next as nat);
            assert(self.scanner.state() == state_after(self.source@, next as nat));
        }
        self.previous = self.current;
        let token = self.scanner.scan_token();
        self.current = Some(token);
        self.position = Ghost(next);
        if token.token_type == TokenType::Error {
            let empty: Vec<char> = Vec::new();
            assert(empty@ =~= Seq::<char>::empty());
            self.error_at_current(AsmMessage::ScanFailure, empty);
        }
    }

    fn previous_lexeme(&self) -> (r: Vec<char>)
        requires
            self.inv(),
            self.previous is Some,
        ensures
            r@ == lexeme(self.source@, self.previous->0),
    {
        let token = match self.previous {
            Some(t) => t,
            None => {
                return Vec::new();
            },
        };
        proof {
            let p = (self.position@ - 1) as nat;
            lemma_state_after(self.source@, p);
            lemma_scan(self.source@, state_after(self.source@, p));
        }
        self.lexeme(&token)
    }

    fn current_type(&self) -> (r: TokenType)
        requires
            self.ready(),
        ensures
            r == ttype(self.source@, self.position@),
    {
        match self.current {
            Some(t) => t.token_type,
            None => TokenType::Eof,
        }
    }

    fn consume(&mut self, token_type: TokenType, message: AsmMessage)
        requires
            old(self).ready(),
        ensures
            final(self).reads(*old(self), consume(old(self).source@, old(self).position@, token_type, message)),
    {
        if self.current_type() == token_type {
            self.advance();
            return;
        }
        self.error_at_current(message, no_detail());
    }

    /// Reads a register name: `x` or `X` and a number from 1 to 32.
    fn register(&mut self, message: AsmMessage) -> (r: Result<u32, (AsmMessage, Vec<char>)>)
        requires
            old(self).ready(),
        ensures
            final(self).reads(*old(self), consume(old(self).source@, old(self).position@, TokenType::Identifier, message)),
            final(self).error is None ==> match (r, register_value(lexeme(old(self).source@, tok(old(self).source@, final(self).position@ - 1)))) {
                (Ok(n), Ok(m)) => n == m,
                (Err((m1, d1)), Err((m2, d2))) => m1 == m2 && d1@ == d2,
                _ => false,
            },
            final(self).error is Some ==> r is Err,
    {
        self.consume(TokenType::Identifier, message);
        if self.error.is_some() {
            return Err((message, Vec::new()));
        }
        let lexeme = self.previous_lexeme();
        if lexeme.len() == 0 || lower(lexeme[0]) != 'x' {
            return Err((AsmMessage::InvalidRegisterFormat, lexeme));
        }
        let ghost lex = lexeme@;
        let mut digits: Vec<char> = Vec::new();
        let mut i: usize = 1;
        while i < lexeme.len()
            invariant
                1 <= i <= lexeme@.len(),
                lexeme@ == lex,
                digits@ == lex.subrange(1, i as int),
            decreases lexeme@.len() - i,
        {
            digits.push(lexeme[i]);
            i = i + 1;
            assert(digits@ =~= lex.subrange(1, i as int));
        }
        assert(digits@ =~= lex.drop_first());
        match parse_u32(digits.as_slice()) {
            None => Err((AsmMessage::InvalidRegisterNumber, lexeme)),
            Some(num) => if num >= 1 && num <= 32 {
                Ok(num)
            } else {
                let empty: Vec<char> = Vec::new();
                assert(empty@ =~= Seq::<char>::empty());
                Err((AsmMessage::RegisterOutOfRange(num), empty))
            },
        }
    }

    fn expect_register(&mut self, message: AsmMessage) -> (r: Option<u32>)
        requires
            old(self).ready(),
        ensures
            final(self).reads(*old(self), match expect_register(old(self).source@, old(self).position@, message) {
                Ok((j, _)) => Ok(j),
                Err(d) => Err(d),
            }),
            expect_register(old(self).source@, old(self).position@, message) matches Ok((_, n)) ==> r == Some(n),
            r is Some <==> final(self).error is None,
    {
        match self.register(message) {
            Ok(r) => Some(r),
            Err((msg, detail)) => {
                self.error_at_current(msg, detail);
                None
            },
        }
    }

    /// Reads a number literal as a `u32`.
    fn number(&mut self, message: AsmMessage) -> (r: Result<u32, Vec<char>>)
        requires
            old(self).ready(),
        ensures
            final(self).reads(*old(self), consume(old(self).source@, old(self).position@, TokenType::Number, message)),
            final(self).error is None ==> match (r, spec_parse_u32_lex(old(self).source@, final(self).position@ - 1)) {
                (Ok(n), Some(m)) => n == m,
                (Err(d), None) => d@ == lexeme(old(self).source@, tok(old(self).source@, final(self).position@ - 1)),
                _ => false,
            },
            final(self).error is Some ==> r is Err,
    {
        self.consume(TokenType::Number, message);
        if self.error.is_some() {
            return Err(Vec::new());
        }
        let lexeme = self.previous_lexeme();
        match parse_u32(lexeme.as_slice()) {
            Some(value) => Ok(value),
            None => Err(lexeme),
        }
    }

    fn expect_number(&mut self, message: AsmMessage) -> (r: Option<u32>)
        requires
            old(self).ready(),
        ensures
            final(self).reads(*old(self), match expect_number(old(self).source@, old(self).position@, message) {
                Ok((j, _)) => Ok(j),
                Err(d) => Err(d),
            }),
            expect_number(old(self).source@, old(self).position@, message) matches Ok((_, n)) ==> r == Some(n),
            r is Some <==> final(self).error is None,
    {
        match self.number(message) {
            Ok(n) => Some(n),
            Err(detail) => {
                self.error_at_current(AsmMessage::InvalidNumber, detail);
                None
            },
        }
    }

    /// Reads a string literal: the text between the quotes, with `\n` and `\"` unescaped.
    fn string(&mut self) -> (r: Vec<char>)
        requires
            old(self).ready(),
            ttype(old(self).source@, old(self).position@) == TokenType::String,
        ensures
            final(self).reads(*old(self), adv(old(self).source@, old(self).position@)),
            r@ == unescape(lexeme(old(self).source@, tok(old(self).source@, old(self).position@))),
    {
        let token = match self.current {
            Some(t) => t,
            None => {
                return Vec::new();
            },
        };
        proof {
            lemma_state_after(self.source@, self.position@ as nat);
            lemma_scan(self.source@, state_after(self.source@, self.position@ as nat));
        }
        let lexeme = self.lexeme(&token);
        self.advance();
        let mut inner: Vec<char> = Vec::new();
        let mut i: usize = 1;
        while i < lexeme.len() - 1
            invariant
                lexeme@.len() >= 2,
                1 <= i <= lexeme@.len() - 1,
                inner@ == lexeme@.subrange(1, i as int),
            decreases lexeme@.len() - 1 - i,
        {
            inner.push(lexeme[i]);
            i = i + 1;
            assert(inner@ =~= lexeme@.subrange(1, i as int));
        }
        let newline_escape = ['\\', 'n'];
        let newline = ['\n'];
        let quote_escape = ['\\', '"'];
        let quote = ['"'];
        assert(inner@ =~= lexeme@.subrange(1, lexeme@.len() - 1));
        assert(newline_escape@ =~= seq!['\\', 'n']);
        assert(newline@ =~= seq!['\n']);
        assert(quote_escape@ =~= seq!['\\', '"']);
        assert(quote@ =~= seq!['"']);
        let step = replace(inner.as_slice(), &newline_escape, &newline);
        replace(step.as_slice(), &quote_escape, &quote)
    }

    fn expect_string(&mut self, message: AsmMessage) -> (r: Option<Vec<char>>)
        requires
            old(self).ready(),
        ensures
            final(self).reads(*old(self), match expect_string(old(self).source@, old(self).position@, message) {
                Ok((j, _)) => Ok(j),
                Err(d) => Err(d),
            }),
            expect_string(old(self).source@, old(self).position@, message) matches Ok((_, s)) ==> r matches Some(v) && v@ == s,
            r is Some <==> final(self).error is None,
    {
        if self.current_type() == TokenType::String {
            let s = self.string();
            if self.error.is_some() {
                return None;
            }
            return Some(s);
        }
        self.error_at_current(message, no_detail());
        None
    }

    /// Reads a label name.
    fn identifier(&mut self, message: AsmMessage) -> (r: Vec<char>)
        requires
            old(self).ready(),
        ensures
            final(self).reads(*old(self), consume(old(self).source@, old(self).position@, TokenType::Identifier, message)),
            final(self).error is None ==> r@ == lexeme(old(self).source@, tok(old(self).source@, final(self).position@ - 1)),
    {
        self.consume(TokenType::Identifier, message);
        if self.error.is_some() {
            return Vec::new();
        }
        self.previous_lexeme()
    }

    fn emit_number(&mut self, value: u32)
        requires
            old(self).inv(),
        ensures
            final(self).inv(),
            final(self).source == old(self).source,
            final(self).error == old(self).error,
            final(self).position == old(self).position,
            final(self).current == old(self).current,
            final(self).model() == (AsmModel { text: old(self).model().text.push(value), ..old(self).model() }),
    {
        self.text_segment.push(value);
    }

    fn emit_opcode(&mut self, op_code: OpCode)
        requires
            old(self).inv(),
        ensures
            final(self).inv(),
            final(self).source == old(self).source,
            final(self).error == old(self).error,
            final(self).position == old(self).position,
            final(self).current == old(self).current,
            final(self).model() == (AsmModel { text: old(self).model().text.push(op_code.spec_code()), ..old(self).model() }),
    {
        self.emit_number(op_code.code());
    }

    fn emit_padding(&mut self, words: usize)
        requires
            old(self).inv(),
        ensures
            final(self).inv(),
            final(self).source == old(self).source,
            final(self).error == old(self).error,
            final(self).position == old(self).position,
            final(self).current == old(self).current,
            final(self).model() == (AsmModel { text: old(self).model().text + Seq::new(words as nat, |k: int| 0u32), ..old(self).model() }),
    {
        let mut n: usize = 0;
        while n < words
            invariant
                n <= words,
                self.inv(),
                self.source == old(self).source,
                self.error == old(self).error,
                self.position == old(self).position,
                self.current == old(self).current,
                self.model() == (AsmModel { text: old(self).model().text + Seq::new(n as nat, |k: int| 0u32), ..old(self).model() }),
            decreases words - n,
        {
            self.emit_number(0);
            n = n + 1;
            assert(old(self).model().text + Seq::new(n as nat, |k: int| 0u32)
                =~= (old(self).model().text + Seq::new((n - 1) as nat, |k: int| 0u32)).push(0));
        }
    }

    /// Stores a string in the data segment and gives its address there.
    fn emit_string_bytecode(&mut self, value: &Vec<char>) -> (r: u32)
        requires
            old(self).ready(),
        ensures
            final(self).inv(),
            final(self).source == old(self).source,
            final(self).position == old(self).position,
            final(self).current == old(self).current,
            old(self).model().data.len() > u32::MAX ==> (final(self).error matches Some(e)
                && e@ == diag(tok(old(self).source@, old(self).position@), AsmMessage::DataSegmentTooLarge)),
            old(self).model().data.len() <= u32::MAX ==> {
                &&& final(self).error is None
                &&& r == old(self).model().data.len()
                &&& final(self).model() == (AsmModel { data: old(self).model().data + string_words(value@), ..old(self).model() })
            },
    {
        if self.data_segment.len() > 0xFFFF_FFFF {
            self.error_at_current(AsmMessage::DataSegmentTooLarge, no_detail());
            return 0;
        }
        let address = self.data_segment.len() as u32;
        let s = string_from_chars(value.as_slice());
        let bytes = s.as_str().as_bytes();
        let ghost data0 = self.data_segment@;
        let ghost encoded = vstd::utf8::encode_utf8(value@);
        let mut i: usize = 0;
        while i < bytes.len()
            invariant
                bytes@ == encoded,
                i <= bytes@.len(),
                self.inv(),
                self.source == old(self).source,
                self.error == old(self).error,
                self.position == old(self).position,
                self.current == old(self).current,
                self.text_segment == old(self).text_segment,
                self.labels == old(self).labels,
                self.unresolved_labels == old(self).unresolved_labels,
                self.data_segment@ == data0 + encoded.take(i as int).map_values(|b: u8| b as u32),
            decreases bytes@.len() - i,
        {
            self.data_segment.push(bytes[i] as u32);
            i = i + 1;
            assert(self.data_segment@ =~= data0 + encoded.take(i as int).map_values(|b: u8| b as u32));
        }
        self.data_segment.push(0);
        assert(encoded.take(i as int) =~= encoded);
        assert(self.data_segment@ =~= data0 + string_words(value@));
        address
    }

    /// Records a reference, from the word just emitted, to the label named `key`.
    fn upsert_unresolved_label(&mut self, key: Vec<char>)
        requires
            old(self).inv(),
            old(self).previous is Some,
            old(self).text_segment@.len() > 0,
        ensures
            final(self).inv(),
            final(self).source == old(self).source,
            final(self).error == old(self).error,
            final(self).position == old(self).position,
            final(self).current == old(self).current,
            final(self).model() == (AsmModel {
                refs: old(self).model().refs.push(SpecLabelRef {
                    name: key@,
                    index: old(self).text_segment@.len() - 1,
                    token: old(self).previous->0,
                }),
                ..old(self).model()
            }),
    {
        let index = self.text_segment.len() - 1;
        let token = match self.previous {
            Some(t) => t,
            None => {
                return;
            },
        };
        self.unresolved_labels.push(UnresolvedLabel { name: key, index, token });
        assert(refs_of(self.unresolved_labels@) =~= refs_of(old(self).unresolved_labels@).push(SpecLabelRef {
            name: key@,
            index: index as int,
            token,
        }));
    }

    fn emit_label_bytecode(&mut self, key: Vec<char>)
        requires
            old(self).inv(),
            old(self).previous is Some,
        ensures
            final(self).inv(),
            final(self).source == old(self).source,
            final(self).error == old(self).error,
            final(self).position == old(self).position,
            final(self).current == old(self).current,
            final(self).model() == (AsmModel {
                text: old(self).model().text.push(0),
                refs: old(self).model().refs.push(SpecLabelRef {
                    name: key@,
                    index: old(self).text_segment@.len() as int,
                    token: old(self).previous->0,
                }),
                ..old(self).model()
            }),
    {
        // A placeholder, replaced once the label's address is known.
        self.emit_number(0);
        self.upsert_unresolved_label(key);
    }

    fn emit4(&mut self, a: u32, b: u32, c: u32, d: u32)
        requires
            old(self).inv(),
        ensures
            final(self).inv(),
            final(self).source == old(self).source,
            final(self).error == old(self).error,
            final(self).position == old(self).position,
            final(self).current == old(self).current,
            final(self).model() == grammar::emit4(old(self).model(), a, b, c, d),
    {
        self.emit_number(a);
        self.emit_number(b);
        self.emit_number(c);
        self.emit_number(d);
        assert(self.model().text =~= old(self).model().text + seq![a, b, c, d]);
    }

    /// `ls`, `lf`, `li` and `mv`.
    fn l_type(&mut self, token_type: TokenType)
        requires
            old(self).ready(),
            ttype(old(self).source@, old(self).position@) == token_type,
            is_l_type(token_type),
        ensures
            final(self).follows(*old(self), grammar::l_type(old(self).source@, old(self).position@, old(self).model())),
    {
        reveal(grammar::l_type);
        let opcode = match token_type {
            TokenType::LoadString => OpCode::LoadString,
            TokenType::LoadImmediate => OpCode::LoadImmediate,
            TokenType::LoadFile => OpCode::LoadFile,
            _ => OpCode::Move,
        };
        self.advance();
        if self.error.is_some() {
            return;
        }
        let destination_register = match self.expect_register(AsmMessage::ExpectedDestinationRegister) {
            Some(r) => r,
            None => {
                return;
            },
        };
        self.consume(TokenType::Comma, AsmMessage::ExpectedCommaAfterDestination);
        if self.error.is_some() {
            return;
        }
        match opcode {
            OpCode::LoadImmediate => {
                let immediate = match self.expect_number(AsmMessage::ExpectedImmediate) {
                    Some(n) => n,
                    None => {
                        return;
                    },
                };
                self.emit4(opcode.code(), destination_register, immediate, 0);
            },
            OpCode::Move => {
                let source_register = match self.expect_register(AsmMessage::ExpectedSourceRegister) {
                    Some(r) => r,
                    None => {
                        return;
                    },
                };
                self.emit4(opcode.code(), destination_register, source_register, 0);
            },
            _ => {
                let string = match self.expect_string(AsmMessage::ExpectedString) {
                    Some(s) => s,
                    None => {
                        return;
                    },
                };
                let ptr = self.emit_string_bytecode(&string);
                if self.error.is_some() {
                    return;
                }
                self.emit4(opcode.code(), destination_register, ptr, 0);
            },
        }
    }

    /// `name:` defines a label for the next instruction.
    fn label(&mut self)
        requires
            old(self).ready(),
            ttype(old(self).source@, old(self).position@) == TokenType::Label,
        ensures
            final(self).follows(*old(self), grammar::label(old(self).source@, old(self).position@, old(self).model())),
    {
        reveal(grammar::label);
        let token = match self.current {
            Some(t) => t,
            None => {
                return;
            },
        };
        proof {
            lemma_state_after(self.source@, self.position@ as nat);
            lemma_scan(self.source@, state_after(self.source@, self.position@ as nat));
        }
        let label_name = self.lexeme(&token);
        self.advance();
        if self.error.is_some() {
            return;
        }
        let value = trim_end(label_name.as_slice(), ':');
        let byte_code_index = self.text_segment.len();
        let ghost before = self.labels@;
        self.labels.push(LabelEntry { name: value, index: byte_code_index });
        assert(self.labels@.drop_last() =~= before);
    }

    /// `mrf`, `prj`, `dst`, `cor`, `aud` and `sim`.
    fn r_type(&mut self, token_type: TokenType)
        requires
            old(self).ready(),
            ttype(old(self).source@, old(self).position@) == token_type,
            is_r_type(token_type),
        ensures
            final(self).follows(*old(self), grammar::r_type(old(self).source@, old(self).position@, old(self).model())),
    {
        reveal(grammar::r_type);
        let opcode = match token_type {
            TokenType::Morph => OpCode::Morph,
            TokenType::Project => OpCode::Project,
            TokenType::Distill => OpCode::Distill,
            TokenType::Correlate => OpCode::Correlate,
            TokenType::Audit => OpCode::Audit,
            _ => OpCode::Similarity,
        };
        self.advance();
        if self.error.is_some() {
            return;
        }
        let destination_register = match self.expect_register(AsmMessage::ExpectedRTypeDestination) {
            Some(v) => v,
            None => {
                return;
            },
        };
        self.consume(TokenType::Comma, AsmMessage::ExpectedCommaAfterDestination);
        if self.error.is_some() {
            return;
        }
        let source_register_1 = match self.expect_register(AsmMessage::ExpectedSourceRegister1) {
            Some(v) => v,
            None => {
                return;
            },
        };
        self.consume(TokenType::Comma, AsmMessage::ExpectedCommaAfterSource1);
        if self.error.is_some() {
            return;
        }
        let source_register_2 = match self.expect_register(AsmMessage::ExpectedSourceRegister2) {
            Some(v) => v,
            None => {
                return;
            },
        };
        self.emit4(opcode.code(), destination_register, source_register_1, source_register_2);
    }

    /// `beq`, `blt`, `ble`, `bgt` and `bge`.
    fn b_type(&mut self, token_type: TokenType)
        requires
            old(self).ready(),
            ttype(old(self).source@, old(self).position@) == token_type,
            is_b_type(token_type),
        ensures
            final(self).follows(*old(self), grammar::b_type(old(self).source@, old(self).position@, old(self).model())),
    {
        reveal(grammar::b_type);
        let opcode = match token_type {
            TokenType::BranchEqual => OpCode::BranchEqual,
            TokenType::BranchLess => OpCode::BranchLess,
            TokenType::BranchLessEqual => OpCode::BranchLessEqual,
            TokenType::BranchGreater => OpCode::BranchGreater,
            _ => OpCode::BranchGreaterEqual,
        };
        self.advance();
        if self.error.is_some() {
            return;
        }
        let source_register_1 = match self.expect_register(AsmMessage::ExpectedBranchSource1) {
            Some(number) => number,
            None => {
                return;
            },
        };
        self.consume(TokenType::Comma, AsmMessage::ExpectedCommaAfterSource1);
        if self.error.is_some() {
            return;
        }
        let source_register_2 = match self.expect_register(AsmMessage::ExpectedSourceRegister2) {
            Some(number) => number,
            None => {
                return;
            },
        };
        self.consume(TokenType::Comma, AsmMessage::ExpectedCommaAfterSource2);
        if self.error.is_some() {
            return;
        }
        let label_name = self.identifier(AsmMessage::ExpectedLabelName);
        if self.error.is_some() {
            return;
        }
        self.emit_opcode(opcode);
        self.emit_number(source_register_1);
        self.emit_number(source_register_2);
        self.emit_label_bytecode(label_name);
        assert(self.model().text =~= old(self).model().text + seq![opcode.spec_code(), source_register_1, source_register_2, 0u32]);
    }

    /// `out rs`, `out number` or `out "text"`.
    fn output(&mut self)
        requires
            old(self).ready(),
            ttype(old(self).source@, old(self).position@) == TokenType::Out,
        ensures
            final(self).follows(*old(self), grammar::output(old(self).source@, old(self).position@, old(self).model())),
    {
        reveal(grammar::output);
        self.advance();
        if self.error.is_some() {
            return;
        }
        let operand = self.current_type();
        if operand == TokenType::Number {
            let number = match self.expect_number(AsmMessage::ExpectedOutSource) {
                Some(n) => n,
                None => {
                    return;
                },
            };
            self.emit4(OpCode::Out.code(), 0, number, OUT_NUMBER);
        } else if operand == TokenType::String {
            let string = match self.expect_string(AsmMessage::ExpectedOutSource) {
                Some(s) => s,
                None => {
                    return;
                },
            };
            let ptr = self.emit_string_bytecode(&string);
            if self.error.is_some() {
                return;
            }
            self.emit4(OpCode::Out.code(), 0, ptr, OUT_TEXT);
        } else {
            let source_register = match self.expect_register(AsmMessage::ExpectedOutSource) {
                Some(r) => r,
                None => {
                    return;
                },
            };
            self.emit4(OpCode::Out.code(), source_register, 0, OUT_REGISTER);
        }
    }

    /// `exit`.
    fn exit(&mut self)
        requires
            old(self).ready(),
            ttype(old(self).source@, old(self).position@) == TokenType::Exit,
        ensures
            final(self).follows(*old(self), grammar::exit(old(self).source@, old(self).position@, old(self).model())),
    {
        reveal(grammar::exit);
        self.advance();
        if self.error.is_some() {
            return;
        }
        self.emit_opcode(OpCode::Exit);
        self.emit_padding(3);
        assert(self.model().text =~= old(self).model().text + seq![OpCode::Exit.spec_code(), 0u32, 0u32, 0u32]);
    }

    /// The index that the last definition of the label `name` gives, if any.
    fn find_label(&self, name: &Vec<char>) -> (r: Option<usize>)
        requires
            self.inv(),
        ensures
            match r {
                Some(i) => label_map(self.labels@).contains_key(name@) && label_map(self.labels@)[name@] == i
                    && i <= self.text_segment@.len(),
                None => !label_map(self.labels@).contains_key(name@),
            },
    {
        let mut k: usize = self.labels.len();
        while k > 0
            invariant
                self.inv(),
                k <= self.labels@.len(),
                forall|j: int| k <= j < self.labels@.len() ==> #[trigger] self.labels@[j].name@ != name@,
            decreases k,
        {
            if chars_equal(self.labels[k - 1].name.as_slice(), name.as_slice()) {
                proof {
                    lemma_label_map_last(self.labels@, name@, k - 1);
                    assert(self.labels@[k - 1].index <= self.text_segment@.len());
                }
                return Some(self.labels[k - 1].index);
            }
            k = k - 1;
        }
        proof {
            lemma_label_map_absent(self.labels@, name@);
        }
        None
    }

    /// The text segment with every reference to a defined label replaced by the
    /// label's absolute address, and the tokens of the references whose label is not
    /// defined, in order.
    fn backpatch_labels(&self) -> (r: (Vec<u32>, Vec<Token>))
        requires
            self.inv(),
            self.text_segment@.len() + HEADER_SIZE <= u32::MAX,
        ensures
            r.0@ == patch(self.model().text, self.model().labels, self.model().refs),
            r.1@ == unresolved(self.model().refs, self.model().labels),
    {
        let mut text: Vec<u32> = self.text_segment.clone();
        assert(text@ =~= self.text_segment@);
        let mut left: Vec<Token> = Vec::new();
        let ghost refs = self.model().refs;
        let ghost labels = self.model().labels;
        assert(refs.skip(0) =~= refs);
        assert(left@ + unresolved(refs.skip(0), labels) =~= unresolved(refs, labels));
        let mut i: usize = 0;
        while i < self.unresolved_labels.len()
            invariant
                self.inv(),
                refs == self.model().refs,
                labels == self.model().labels,
                self.text_segment@.len() + HEADER_SIZE <= u32::MAX,
                i <= self.unresolved_labels@.len(),
                text@ == patch(self.model().text, self.model().labels, refs_of(self.unresolved_labels@.take(i as int))),
                text@.len() == self.text_segment@.len(),
                unresolved(refs, labels) == left@ + unresolved(refs.skip(i as int), labels),
            decreases self.unresolved_labels@.len() - i,
        {
            let entry = &self.unresolved_labels[i];
            assert(refs_of(self.unresolved_labels@.take(i + 1)).drop_last() =~= refs_of(self.unresolved_labels@.take(i as int)));
            let ghost rest = refs.skip(i as int);
            assert(rest.drop_first() =~= refs.skip(i + 1));
            assert(rest[0] == refs[i as int]);
            match self.find_label(&entry.name) {
                Some(index) => {
                    let value = HEADER_SIZE + index as u32;
                    text.set(entry.index, value);
                },
                None => {
                    let ghost before = left@;
                    left.push(entry.token);
                    assert(before + unresolved(rest, labels) =~= left@ + unresolved(refs.skip(i + 1), labels));
                },
            }
            i = i + 1;
        }
        assert(self.unresolved_labels@.take(i as int) =~= self.unresolved_labels@);
        assert(refs.skip(i as int) =~= Seq::<SpecLabelRef>::empty());
        assert(left@ + Seq::<Token>::empty() =~= left@);
        (text, left)
    }

    /// Assembles the whole source: the byte code, or the first error met. Calling it
    /// again gives the same result.
    pub fn assemble(&mut self) -> (r: Result<Vec<u8>, AssembleError>)
        requires
            old(self).wf(),
        ensures
            final(self).wf(),
            final(self).src() == old(self).src(),
            match r {
                Ok(bytes) => spec_assemble(old(self).src()) == Ok::<Seq<u8>, SpecDiag>(bytes@),
                Err(e) => spec_assemble(old(self).src()) == Err::<Seq<u8>, SpecDiag>(e@),
            },
    {
        if let Some(e) = &self.error {
            return Err(e.duplicate());
        }
        let ghost was_fresh = self.current is None;
        let ghost old_pos = self.position@;
        proof {
            if !was_fresh {
                lemma_eof_stays(self.source@, old_pos as nat);
            }
        }
        self.advance();
        proof {
            if was_fresh {
                if self.error is None {
                    assert(spec_assemble(self.source@) == finalize_from(self.source@, parse_from(self.source@, 0, empty_model())));
                }
            } else {
                assert(tok(self.source@, self.position@) == tok(self.source@, old_pos));
            }
        }
        loop
            invariant
                self.inv(),
                self.current is Some,
                self.source == old(self).source,
                self.error matches Some(e) ==> spec_assemble(self.source@) == Err::<Seq<u8>, SpecDiag>(e@),
                self.error is None ==> spec_assemble(self.source@)
                    == finalize_from(self.source@, parse_from(self.source@, self.position@, self.model())),
            ensures
                self.inv(),
                self.current is Some,
                self.source == old(self).source,
                self.error matches Some(e) ==> spec_assemble(self.source@) == Err::<Seq<u8>, SpecDiag>(e@),
                self.error is None ==> spec_assemble(self.source@)
                    == finalize_from(self.source@, parse_from(self.source@, self.position@, self.model())),
                self.error is None ==> ttype(self.source@, self.position@) == TokenType::Eof,
            decreases self.source@.len() + 1 - self.position@,
        {
            if self.error.is_some() {
                break;
            }
            let ghost p = self.position@;
            let ghost m = self.model();
            let token_type = self.current_type();
            proof {
                if token_type != TokenType::Eof {
                    lemma_statement_progress(self.source@, p, m);
                    lemma_token_index(self.source@, p as nat);
                }
            }
            match token_type {
                TokenType::LoadString | TokenType::LoadImmediate | TokenType::LoadFile | TokenType::Move => {
                    self.l_type(token_type)
                },
                TokenType::BranchEqual | TokenType::BranchLess | TokenType::BranchLessEqual
                | TokenType::BranchGreater | TokenType::BranchGreaterEqual => self.b_type(token_type),
                TokenType::Exit => self.exit(),
                TokenType::Label => self.label(),
                TokenType::Out => self.output(),
                TokenType::Morph | TokenType::Project | TokenType::Distill | TokenType::Correlate
                | TokenType::Audit | TokenType::Similarity => self.r_type(token_type),
                TokenType::Eof => {
                    break;
                },
                _ => {
                    self.error_at_current(AsmMessage::UnexpectedKeyword, no_detail());
                },
            }
            if self.error.is_some() {
                break;
            }
        }
        if let Some(e) = &self.error {
            return Err(e.duplicate());
        }
        if self.text_segment.len() > 0xFFFF_FFFF - 2 {
            self.error_at_current(AsmMessage::TextSegmentTooLarge, no_detail());
            match &self.error {
                Some(e) => {
                    return Err(e.duplicate());
                },
                None => {
                    return Err(AssembleError { token: Token::new(TokenType::Eof, 0, 0, 0, 0, None), message: AsmMessage::TextSegmentTooLarge, detail: Vec::new() });
                },
            }
        }
        let (text, left) = self.backpatch_labels();
        proof {
            lemma_unresolved_first(self.model().refs, self.model().labels);
        }
        if left.len() > 0 {
            let token = left[0];
            self.error_at(token, AsmMessage::UndefinedLabel, no_detail());
            match &self.error {
                Some(e) => {
                    return Err(e.duplicate());
                },
                None => {
                    return Err(AssembleError { token, message: AsmMessage::UndefinedLabel, detail: Vec::new() });
                },
            }
        }
        let text_segment_size = self.text_segment.len() as u32;
        let mut byte_code: Vec<u32> = Vec::new();
        // The text segment starts after the header.
        byte_code.push(HEADER_SIZE);
        // The data segment starts after the header and the text segment.
        byte_code.push(HEADER_SIZE + text_segment_size);
        let mut i: usize = 0;
        while i < text.len()
            invariant
                i <= text@.len(),
                byte_code@ == header(text_segment_size as int) + text@.take(i as int),
            decreases text@.len() - i,
        {
            byte_code.push(text[i]);
            i = i + 1;
            assert(byte_code@ =~= header(text_segment_size as int) + text@.take(i as int));
        }
        let mut j: usize = 0;
        while j < self.data_segment.len()
            invariant
                j <= self.data_segment@.len(),
                byte_code@ == header(text_segment_size as int) + text@ + self.data_segment@.take(j as int),
            decreases self.data_segment@.len() - j,
        {
            byte_code.push(self.data_segment[j]);
            j = j + 1;
            assert(byte_code@ =~= header(text_segment_size as int) + text@ + self.data_segment@.take(j as int));
        }
        assert(text@.take(i as int) =~= text@);
        assert(self.data_segment@.take(j as int) =~= self.data_segment@);
        Ok(words_to_bytes(&byte_code))
    }
}

/// The number that the lexeme of token `i` reads as, if any.
pub open spec fn spec_parse_u32_lex(src: Seq<char>, i: int) -> Option<u32> {
    crate::text::spec_parse_u32(lexeme(src, tok(src, i)))
}

} // verus!
