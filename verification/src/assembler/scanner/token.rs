//! The tokens that the scanner produces.
use vstd::prelude::*;
use crate::text::chars_equal;

verus! {

#[derive(Debug, Clone, Copy, PartialEq, Eq, Structural)]
pub enum TokenType {
    // Single-character.
    Comma,
    // Literals.
    Identifier,
    String,
    Number,
    // Data movement keywords.
    LoadString,
    LoadImmediate,
    LoadFile,
    Move,
    // Control flow keywords.
    BranchEqual,
    BranchLessEqual,
    BranchLess,
    BranchGreaterEqual,
    BranchGreater,
    Exit,
    // I/O keywords.
    Out,
    // Generative operations keywords.
    Morph,
    Project,
    // Cognitive operations keywords.
    Distill,
    Correlate,
    // Guardrails operations keywords.
    Audit,
    Similarity,
    // Misc keywords.
    Label,
    Eof,
    Error,
}

/// The keyword that a lower-case word names, if any.
pub open spec fn spec_keyword(word: Seq<char>) -> Option<TokenType> {
    if word == seq!['l', 's'] {
        Some(TokenType::LoadString)
    } else if word == seq!['l', 'f'] {
        Some(TokenType::LoadFile)
    } else if word == seq!['l', 'i'] {
        Some(TokenType::LoadImmediate)
    } else if word == seq!['m', 'v'] {
        Some(TokenType::Move)
    } else if word == seq!['b', 'e', 'q'] {
        Some(TokenType::BranchEqual)
    } else if word == seq!['b', 'l', 'e'] {
        Some(TokenType::BranchLessEqual)
    } else if word == seq!['b', 'l', 't'] {
        Some(TokenType::BranchLess)
    } else if word == seq!['b', 'g', 'e'] {
        Some(TokenType::BranchGreaterEqual)
    } else if word == seq!['b', 'g', 't'] {
        Some(TokenType::BranchGreater)
    } else if word == seq!['e', 'x', 'i', 't'] {
        Some(TokenType::Exit)
    } else if word == seq!['o', 'u', 't'] {
        Some(TokenType::Out)
    } else if word == seq!['m', 'r', 'f'] {
        Some(TokenType::Morph)
    } else if word == seq!['p', 'r', 'j'] {
        Some(TokenType::Project)
    } else if word == seq!['d', 's', 't'] {
        Some(TokenType::Distill)
    } else if word == seq!['c', 'o', 'r'] {
        Some(TokenType::Correlate)
    } else if word == seq!['a', 'u', 'd'] {
        Some(TokenType::Audit)
    } else if word == seq!['s', 'i', 'm'] {
        Some(TokenType::Similarity)
    } else {
        None
    }
}

fn is_word(word: &[char], expected: &[char]) -> (r: bool)
    ensures
        r == (word@ == expected@),
{
    chars_equal(word, expected)
}

impl TokenType {
    /// The keyword that the lower-case `word` names; an error for any other word.
    pub fn from_keyword(word: &[char]) -> (r: Result<TokenType, &'static str>)
        ensures
            r matches Ok(t) ==> spec_keyword(word@) == Some(t),
            r is Err ==> spec_keyword(word@) is None,
            spec_keyword(word@) is None ==> r == Err::<TokenType, &'static str>("String does not correspond to any known token type."),
    {
        let ls = ['l', 's'];
        let lf = ['l', 'f'];
        let li = ['l', 'i'];
        let mv = ['m', 'v'];
        let beq = ['b', 'e', 'q'];
        let ble = ['b', 'l', 'e'];
        let blt = ['b', 'l', 't'];
        let bge = ['b', 'g', 'e'];
        let bgt = ['b', 'g', 't'];
        let exit = ['e', 'x', 'i', 't'];
        let out = ['o', 'u', 't'];
        let mrf = ['m', 'r', 'f'];
        let prj = ['p', 'r', 'j'];
        let dst = ['d', 's', 't'];
        let cor = ['c', 'o', 'r'];
        let aud = ['a', 'u', 'd'];
        let sim = ['s', 'i', 'm'];
        if is_word(word, &ls) {
            Ok(TokenType::LoadString)
        } else if is_word(word, &lf) {
            Ok(TokenType::LoadFile)
        } else if is_word(word, &li) {
            Ok(TokenType::LoadImmediate)
        } else if is_word(word, &mv) {
            Ok(TokenType::Move)
        } else if is_word(word, &beq) {
            Ok(TokenType::BranchEqual)
        } else if is_word(word, &ble) {
            Ok(TokenType::BranchLessEqual)
        } else if is_word(word, &blt) {
            Ok(TokenType::BranchLess)
        } else if is_word(word, &bge) {
            Ok(TokenType::BranchGreaterEqual)
        } else if is_word(word, &bgt) {
            Ok(TokenType::BranchGreater)
        } else if is_word(word, &exit) {
            Ok(TokenType::Exit)
        } else if is_word(word, &out) {
            Ok(TokenType::Out)
        } else if is_word(word, &mrf) {
            Ok(TokenType::Morph)
        } else if is_word(word, &prj) {
            Ok(TokenType::Project)
        } else if is_word(word, &dst) {
            Ok(TokenType::Distill)
        } else if is_word(word, &cor) {
            Ok(TokenType::Correlate)
        } else if is_word(word, &aud) {
            Ok(TokenType::Audit)
        } else if is_word(word, &sim) {
            Ok(TokenType::Similarity)
        } else {
            Err("String does not correspond to any known token type.")
        }
    }
}

/// Why the scanner produced an error token.
#[derive(Debug, Clone, Copy, PartialEq, Eq, Structural)]
pub enum ScanError {
    UnterminatedString,
    UnexpectedCharacter,
}

impl ScanError {
    pub open spec fn spec_message(self) -> &'static str {
        match self {
            ScanError::UnterminatedString => "Unterminated string.",
            ScanError::UnexpectedCharacter => "Unexpected character",
        }
    }

    pub fn message(&self) -> (r: &'static str)
        ensures
            r == self.spec_message(),
    {
        match self {
            ScanError::UnterminatedString => "Unterminated string.",
            ScanError::UnexpectedCharacter => "Unexpected character",
        }
    }
}

/// A token: its type, the character range `start..end` of its lexeme, and the line
/// and column at which the scanner stood when it was made.
#[derive(Debug, Clone, Copy, PartialEq, Eq, Structural)]
pub struct Token {
    pub token_type: TokenType,
    pub start: usize,
    pub end: usize,
    pub line: usize,
    pub column: usize,
    pub scan_error: Option<ScanError>,
}

impl Token {
    pub fn new(
        token_type: TokenType,
        start: usize,
        end: usize,
        line: usize,
        column: usize,
        scan_error: Option<ScanError>,
    ) -> (r: Token)
        ensures
            r == (Token { token_type, start, end, line, column, scan_error }),
    {
        Token { token_type, start, end, line, column, scan_error }
    }

    pub fn token_type(&self) -> (r: &TokenType)
        ensures
            *r == self.token_type,
    {
        &self.token_type
    }

    pub fn start(&self) -> (r: usize)
        ensures
            r == self.start,
    {
        self.start
    }

    pub fn end(&self) -> (r: usize)
        ensures
            r == self.end,
    {
        self.end
    }

    /// The number of characters in the lexeme (zero for a range that runs backwards).
    pub fn length(&self) -> (r: usize)
        ensures
            r == (if self.start <= self.end {
                self.end - self.start
            } else {
                0int
            }),
    {
        if self.start <= self.end {
            self.end - self.start
        } else {
            0
        }
    }

    pub fn line(&self) -> (r: usize)
        ensures
            r == self.line,
    {
        self.line
    }

    pub fn column(&self) -> (r: usize)
        ensures
            r == self.column,
    {
        self.column
    }

    /// The scanner's message for an error token.
    pub fn error(&self) -> (r: Option<&'static str>)
        ensures
            r == (match self.scan_error {
                Some(e) => Some(e.spec_message()),
                None => None,
            }),
    {
        match self.scan_error {
            Some(e) => Some(e.message()),
            None => None,
        }
    }
}

} // verus!
