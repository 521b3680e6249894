//! The scanner: turns source text into tokens, one call of `scan_token` at a time.
pub mod token;

use vstd::prelude::*;
use crate::assembler::scanner::token::{ScanError, Token, TokenType, spec_keyword};
use crate::text::{
    chars_of, is_alpha, is_digit, lower, spec_is_alpha, spec_is_digit, spec_lower,
    spec_lower_seq,
};

verus! {

/// Where the scanner stands: the start of the token being scanned, the next
/// character to read, and the current line and column.
pub struct ScanState {
    pub start: int,
    pub current: int,
    pub line: int,
    pub column: int,
}

/// Skips blanks, newlines and `;` comments from `i`, counting lines and columns.
/// `comment` is true inside a comment, which runs up to the end of its line.
pub open spec fn skip_ws(src: Seq<char>, i: int, line: int, col: int, comment: bool) -> (int, int, int)
    decreases src.len() - i,
{
    if i < 0 || i >= src.len() {
        (i, line, col)
    } else if comment {
        if src[i] == '\n' {
            skip_ws(src, i + 1, line + 1, 1, false)
        } else {
            skip_ws(src, i + 1, line, col + 1, true)
        }
    } else if src[i] == ' ' || src[i] == '\r' || src[i] == '\t' {
        skip_ws(src, i + 1, line, col + 1, false)
    } else if src[i] == '\n' {
        skip_ws(src, i + 1, line + 1, 1, false)
    } else if src[i] == ';' {
        skip_ws(src, i + 1, line, col + 1, true)
    } else {
        (i, line, col)
    }
}

/// The end of the run of identifier characters that starts at `i`.
pub open spec fn ident_end(src: Seq<char>, i: int) -> int
    decreases src.len() - i,
{
    if 0 <= i < src.len() && (spec_is_alpha(src[i]) || spec_is_digit(src[i])) {
        ident_end(src, i + 1)
    } else {
        i
    }
}

/// The end of the run of decimal digits that starts at `i`.
pub open spec fn digits_end(src: Seq<char>, i: int) -> int
    decreases src.len() - i,
{
    if 0 <= i < src.len() && spec_is_digit(src[i]) {
        digits_end(src, i + 1)
    } else {
        i
    }
}

/// Scans the body of a string literal from `i` up to its closing quote (or the end of
/// the source), counting lines and columns. A quote after a backslash is part of the
/// string.
pub open spec fn string_end(src: Seq<char>, i: int, line: int, col: int) -> (int, int, int)
    decreases src.len() - i,
{
    if i < 0 || i >= src.len() || src[i] == '"' {
        (i, line, col)
    } else if src[i] == '\\' && i + 1 < src.len() && src[i + 1] == '"' {
        string_end(src, i + 2, line, col + 2)
    } else if src[i] == '\n' {
        string_end(src, i + 1, line + 1, 1)
    } else {
        string_end(src, i + 1, line, col + 1)
    }
}

pub open spec fn mk_token(t: TokenType, start: int, end: int, line: int, col: int, e: Option<ScanError>) -> Token {
    Token {
        token_type: t,
        start: start as usize,
        end: end as usize,
        line: line as usize,
        column: col as usize,
        scan_error: e,
    }
}

pub open spec fn mk_state(start: int, current: int, line: int, col: int) -> ScanState {
    ScanState { start, current, line, column: col }
}

/// An identifier, keyword or label whose first character is at `start`.
pub open spec fn scan_identifier(src: Seq<char>, start: int, line: int, col: int) -> (Token, ScanState) {
    let end = ident_end(src, start + 1);
    let col2 = col + (end - start);
    if src[end - 1] == ':' {
        // A label: the run of identifier characters ends with its colon.
        (mk_token(TokenType::Label, start, end, line, col2, None), mk_state(start, end, line, col2))
    } else {
        let t = match spec_keyword(spec_lower_seq(src.subrange(start, end))) {
            Some(k) => k,
            None => TokenType::Identifier,
        };
        (mk_token(t, start, end, line, col2, None), mk_state(start, end, line, col2))
    }
}

/// A number whose first digit is at `start`: digits, then optionally `.` and digits.
pub open spec fn scan_number(src: Seq<char>, start: int, line: int, col: int) -> (Token, ScanState) {
    let e1 = digits_end(src, start + 1);
    let end = if e1 + 1 < src.len() && src[e1] == '.' && spec_is_digit(src[e1 + 1]) {
        digits_end(src, e1 + 1)
    } else {
        e1
    };
    let col2 = col + (end - start);
    (mk_token(TokenType::Number, start, end, line, col2, None), mk_state(start, end, line, col2))
}

/// A string literal whose opening quote is at `start`.
pub open spec fn scan_string(src: Seq<char>, start: int, line: int, col: int) -> (Token, ScanState) {
    let (e, l2, c2) = string_end(src, start + 1, line, col + 1);
    if e >= src.len() {
        (
            mk_token(TokenType::Error, start, e, l2, c2, Some(ScanError::UnterminatedString)),
            mk_state(start, e, l2, c2),
        )
    } else {
        (mk_token(TokenType::String, start, e + 1, l2, c2 + 1, None), mk_state(start, e + 1, l2, c2 + 1))
    }
}

/// The next token of `src` from state `st`, and the state after it.
#[verifier::opaque]
pub open spec fn scan(src: Seq<char>, st: ScanState) -> (Token, ScanState) {
    let (c, l, col) = skip_ws(src, st.current, st.line, st.column, false);
    if c >= src.len() {
        (mk_token(TokenType::Eof, c, c, l, col, None), mk_state(c, c, l, col))
    } else {
        let ch = src[c];
        if spec_is_alpha(ch) {
            scan_identifier(src, c, l, col)
        } else if spec_is_digit(ch) {
            scan_number(src, c, l, col)
        } else if ch == ',' {
            (mk_token(TokenType::Comma, c, c + 1, l, col + 1, None), mk_state(c, c + 1, l, col + 1))
        } else if ch == '"' {
            scan_string(src, c, l, col)
        } else {
            (
                mk_token(TokenType::Error, c, c + 1, l, col + 1, Some(ScanError::UnexpectedCharacter)),
                mk_state(c, c + 1, l, col + 1),
            )
        }
    }
}

/// The state in which the scanner starts.
pub open spec fn initial_state() -> ScanState {
    mk_state(0, 0, 1, 0)
}

/// The state after `n` tokens of `src` have been scanned.
pub open spec fn state_after(src: Seq<char>, n: nat) -> ScanState
    decreases n,
{
    if n == 0 {
        initial_state()
    } else {
        scan(src, state_after(src, (n - 1) as nat)).1
    }
}

/// The `n`-th token of `src`, counting from zero. After the end of the source every
/// token is `Eof`.
pub open spec fn nth_token(src: Seq<char>, n: nat) -> Token {
    scan(src, state_after(src, n)).0
}

/// The states that a well-formed scanner can stand in.
pub open spec fn state_ok(src: Seq<char>, st: ScanState) -> bool {
    &&& src.len() < usize::MAX
    &&& 0 <= st.start <= st.current <= src.len()
    &&& 1 <= st.line <= st.current + 1
    &&& 0 <= st.column <= st.current
}

proof fn lemma_skip_ws(src: Seq<char>, i: int, line: int, col: int, comment: bool)
    requires
        0 <= i <= src.len(),
        1 <= line <= i + 1,
        0 <= col <= i,
    ensures
        ({
            let (j, l, c) = skip_ws(src, i, line, col, comment);
            &&& i <= j <= src.len()
            &&& line <= l <= j + 1
            &&& 0 <= c <= j
            &&& (j < src.len() ==> !comment || j > i)
        }),
    decreases src.len() - i,
{
    if i < src.len() {
        if comment {
            if src[i] == '\n' {
                lemma_skip_ws(src, i + 1, line + 1, 1, false);
            } else {
                lemma_skip_ws(src, i + 1, line, col + 1, true);
            }
        } else if src[i] == ' ' || src[i] == '\r' || src[i] == '\t' {
            lemma_skip_ws(src, i + 1, line, col + 1, false);
        } else if src[i] == '\n' {
            lemma_skip_ws(src, i + 1, line + 1, 1, false);
        } else if src[i] == ';' {
            lemma_skip_ws(src, i + 1, line, col + 1, true);
        }
    }
}

proof fn lemma_ident_end(src: Seq<char>, i: int)
    requires
        0 <= i <= src.len(),
    ensures
        i <= ident_end(src, i) <= src.len(),
        forall|k: int| i <= k < ident_end(src, i) ==> spec_is_alpha(#[trigger] src[k]) || spec_is_digit(src[k]),
    decreases src.len() - i,
{
    if i < src.len() && (spec_is_alpha(src[i]) || spec_is_digit(src[i])) {
        lemma_ident_end(src, i + 1);
    }
}

proof fn lemma_digits_end(src: Seq<char>, i: int)
    requires
        0 <= i <= src.len(),
    ensures
        i <= digits_end(src, i) <= src.len(),
        forall|k: int| i <= k < digits_end(src, i) ==> spec_is_digit(#[trigger] src[k]),
    decreases src.len() - i,
{
    if i < src.len() && spec_is_digit(src[i]) {
        lemma_digits_end(src, i + 1);
    }
}

proof fn lemma_string_end(src: Seq<char>, i: int, line: int, col: int)
    requires
        0 <= i <= src.len(),
        1 <= line <= i + 1,
        0 <= col <= i,
    ensures
        ({
            let (j, l, c) = string_end(src, i, line, col);
            &&& i <= j <= src.len()
            &&& line <= l <= j + 1
            &&& 0 <= c <= j
            &&& (j < src.len() ==> src[j] == '"')
        }),
    decreases src.len() - i,
{
    if i < src.len() && src[i] != '"' {
        if src[i] == '\\' && i + 1 < src.len() && src[i + 1] == '"' {
            lemma_string_end(src, i + 2, line, col + 2);
        } else if src[i] == '\n' {
            lemma_string_end(src, i + 1, line + 1, 1);
        } else {
            lemma_string_end(src, i + 1, line, col + 1);
        }
    }
}

/// Scanning moves forward: it stays within the source, makes progress unless it
/// reports the end, and the token's range lies between the old and the new position.
pub proof fn lemma_scan(src: Seq<char>, st: ScanState)
    requires
        state_ok(src, st),
    ensures
        ({
            let (tok, st2) = scan(src, st);
            &&& state_ok(src, st2)
            &&& st.current <= st2.current
            &&& st.current <= tok.start <= tok.end <= st2.current
            &&& tok.end <= src.len()
            &&& (tok.token_type == TokenType::Eof <==> st2.current == src.len() && tok.start == src.len())
            &&& (tok.token_type == TokenType::Eof ==> st2.current == st.current || st.current < src.len())
            &&& (tok.token_type != TokenType::Eof ==> st.current < st2.current)
            &&& (tok.token_type == TokenType::String ==> tok.end - tok.start >= 2 && src[tok.start as int] == '"' && src[tok.end - 1] == '"')
            &&& (tok.token_type == TokenType::Label ==> tok.end > tok.start && src[tok.end - 1] == ':')
            &&& (tok.token_type == TokenType::Identifier ==> tok.end > tok.start)
        }),
{
    reveal(scan);
    lemma_skip_ws(src, st.current, st.line, st.column, false);
    let (c, l, col) = skip_ws(src, st.current, st.line, st.column, false);
    if c < src.len() {
        let ch = src[c];
        if spec_is_alpha(ch) {
            lemma_ident_end(src, c + 1);
        } else if spec_is_digit(ch) {
            lemma_digits_end(src, c + 1);
            let e1 = digits_end(src, c + 1);
            if e1 + 1 < src.len() && src[e1] == '.' && spec_is_digit(src[e1 + 1]) {
                lemma_digits_end(src, e1 + 1);
            }
        } else if ch == '"' {
            lemma_string_end(src, c + 1, l, col + 1);
        }
    }
}

/// Every state the scanner reaches from the start is well formed.
pub proof fn lemma_state_after(src: Seq<char>, n: nat)
    requires
        src.len() < usize::MAX,
    ensures
        state_ok(src, state_after(src, n)),
    decreases n,
{
    if n > 0 {
        lemma_state_after(src, (n - 1) as nat);
        lemma_scan(src, state_after(src, (n - 1) as nat));
    }
}

pub struct Scanner {
    source: Vec<char>,
    start: usize,
    current: usize,
    line: usize,
    column: usize,
}

impl Scanner {
    /// The characters being scanned.
    pub closed spec fn src(&self) -> Seq<char> {
        self.source@
    }

    pub closed spec fn state(&self) -> ScanState {
        mk_state(self.start as int, self.current as int, self.line as int, self.column as int)
    }

    pub closed spec fn wf(&self) -> bool {
        &&& state_ok(self.source@, self.state())
        &&& self.source@.len() < usize::MAX
    }

    pub fn new(source: &str) -> (r: Self)
        requires
            source@.len() < usize::MAX,
        ensures
            r.wf(),
            r.src() == source@,
            r.state() == initial_state(),
    {
        Scanner { source: chars_of(source), current: 0, start: 0, line: 1, column: 0 }
    }

    fn is_at_end(&self) -> (r: bool)
        requires
            self.wf(),
        ensures
            r == (self.current >= self.source@.len()),
    {
        self.current >= self.source.len()
    }

    fn advance(&mut self) -> (c: char)
        requires
            old(self).wf(),
            old(self).current < old(self).source@.len(),
        ensures
            c == old(self).source@[old(self).current as int],
            final(self).source == old(self).source,
            final(self).start == old(self).start,
            final(self).line == old(self).line,
            final(self).current == old(self).current + 1,
            final(self).column == old(self).column + 1,
    {
        self.current = self.current + 1;
        self.column = self.column + 1;
        self.source[self.current - 1]
    }

    fn peek(&self) -> (c: char)
        requires
            self.wf(),
            self.current < self.source@.len(),
        ensures
            c == self.source@[self.current as int],
    {
        self.source[self.current]
    }

    fn peek_next(&self) -> (c: char)
        requires
            self.wf(),
            self.current + 1 < self.source@.len(),
        ensures
            c == self.source@[self.current + 1],
    {
        self.source[self.current + 1]
    }

    fn make_token(&self, token_type: TokenType) -> (t: Token)
        ensures
            t == mk_token(token_type, self.start as int, self.current as int, self.line as int, self.column as int, None),
    {
        Token::new(token_type, self.start, self.current, self.line, self.column, None)
    }

    fn make_error(&self, error: ScanError) -> (t: Token)
        ensures
            t == mk_token(TokenType::Error, self.start as int, self.current as int, self.line as int, self.column as int, Some(error)),
    {
        Token::new(TokenType::Error, self.start, self.current, self.line, self.column, Some(error))
    }

    fn skip_whitespace(&mut self)
        requires
            old(self).wf(),
        ensures
            final(self).wf(),
            final(self).source == old(self).source,
            final(self).start == old(self).start,
            (final(self).current as int, final(self).line as int, final(self).column as int)
                == skip_ws(old(self).source@, old(self).current as int, old(self).line as int, old(self).column as int, false),
    {
        let ghost src = self.source@;
        let ghost target = skip_ws(self.source@, self.current as int, self.line as int, self.column as int, false);
        while !self.is_at_end()
            invariant
                self.wf(),
                self.source == old(self).source,
                src == self.source@,
                self.start == old(self).start,
                target == skip_ws(self.source@, self.current as int, self.line as int, self.column as int, false),
                target == skip_ws(old(self).source@, old(self).current as int, old(self).line as int, old(self).column as int, false),
            decreases self.source@.len() - self.current,
        {
            let c = self.peek();
            if c == ' ' || c == '\r' || c == '\t' {
                self.advance();
            } else if c == '\n' {
                self.advance();
                self.line = self.line + 1;
                self.column = 1;
            } else if c == ';' {
                let ghost c0 = self.current;
                self.advance();
                while !self.is_at_end() && self.peek() != '\n'
                    invariant
                        self.wf(),
                        self.source == old(self).source,
                        self.start == old(self).start,
                        target == skip_ws(self.source@, self.current as int, self.line as int, self.column as int, true),
                        target == skip_ws(old(self).source@, old(self).current as int, old(self).line as int, old(self).column as int, false),
                        self.current > c0,
                    decreases self.source@.len() - self.current,
                {
                    self.advance();
                }
            } else {
                return;
            }
        }
    }

    fn label(&mut self) -> (t: Token)
        requires
            old(self).wf(),
        ensures
            final(self).wf(),
            final(self).source == old(self).source,
            final(self).start == old(self).start,
            final(self).line == old(self).line,
            final(self).current == old(self).current,
            final(self).column == old(self).column,
            t == mk_token(TokenType::Label, old(self).start as int, old(self).current as int, old(self).line as int, old(self).column as int, None),
    {
        self.make_token(TokenType::Label)
    }

    fn identifier(&mut self) -> (t: Token)
        requires
            old(self).wf(),
            old(self).start + 1 == old(self).current,
            spec_is_alpha(old(self).source@[old(self).start as int]),
        ensures
            final(self).wf(),
            final(self).source == old(self).source,
            (t, final(self).state()) == scan_identifier(old(self).source@, old(self).start as int, old(self).line as int, old(self).column as int - 1),
    {
        let ghost src = self.source@;
        proof {
            lemma_ident_end(src, self.current as int);
        }
        while !self.is_at_end() && (is_alpha(self.peek()) || is_digit(self.peek()))
            invariant
                self.wf(),
                self.source == old(self).source,
                src == self.source@,
                self.start == old(self).start,
                self.line == old(self).line,
                old(self).current <= self.current <= ident_end(src, old(self).current as int),
                ident_end(src, self.current as int) == ident_end(src, old(self).current as int),
                self.column == old(self).column + (self.current - old(self).current),
            decreases self.source@.len() - self.current,
        {
            proof {
                lemma_ident_end(src, self.current as int + 1);
            }
            self.advance();
        }
        let end = self.current;
        if self.source[end - 1] == ':' {
            return self.label();
        }
        let mut lowered: Vec<char> = Vec::new();
        let mut i: usize = self.start;
        while i < end
            invariant
                self.wf(),
                self.start <= i <= end,
                end == self.current,
                self.source@ == src,
                lowered@ == spec_lower_seq(src.subrange(self.start as int, i as int)),
            decreases end - i,
        {
            let c = lower(self.source[i]);
            lowered.push(c);
            i = i + 1;
            assert(lowered@ =~= spec_lower_seq(src.subrange(self.start as int, i as int)));
        }
        match TokenType::from_keyword(lowered.as_slice()) {
            Ok(token_type) => self.make_token(token_type),
            Err(_) => self.make_token(TokenType::Identifier),
        }
    }

    fn number(&mut self) -> (t: Token)
        requires
            old(self).wf(),
            old(self).start + 1 == old(self).current,
            spec_is_digit(old(self).source@[old(self).start as int]),
        ensures
            final(self).wf(),
            final(self).source == old(self).source,
            (t, final(self).state()) == scan_number(old(self).source@, old(self).start as int, old(self).line as int, old(self).column as int - 1),
    {
        let ghost src = self.source@;
        proof {
            lemma_digits_end(src, self.current as int);
        }
        while !self.is_at_end() && is_digit(self.peek())
            invariant
                self.wf(),
                self.source == old(self).source,
                src == self.source@,
                self.start == old(self).start,
                self.line == old(self).line,
                old(self).current <= self.current <= digits_end(src, old(self).current as int),
                digits_end(src, self.current as int) == digits_end(src, old(self).current as int),
                self.column == old(self).column + (self.current - old(self).current),
            decreases self.source@.len() - self.current,
        {
            proof {
                lemma_digits_end(src, self.current as int + 1);
            }
            self.advance();
        }
        let ghost e1 = self.current as int;
        // Look for a fractional part.
        if self.current + 1 < self.source.len() && self.peek() == '.' && is_digit(self.peek_next()) {
            // Consume the decimal point.
            self.advance();
            proof {
                lemma_digits_end(src, self.current as int);
            }
            while !self.is_at_end() && is_digit(self.peek())
                invariant
                    self.wf(),
                    self.source == old(self).source,
                    src == self.source@,
                    self.start == old(self).start,
                    self.line == old(self).line,
                    e1 + 1 <= self.current <= digits_end(src, e1 + 1),
                    digits_end(src, self.current as int) == digits_end(src, e1 + 1),
                    self.column == old(self).column + (self.current - old(self).current),
                decreases self.source@.len() - self.current,
            {
                proof {
                    lemma_digits_end(src, self.current as int + 1);
                }
                self.advance();
            }
        }
        self.make_token(TokenType::Number)
    }

    fn string(&mut self) -> (t: Token)
        requires
            old(self).wf(),
            old(self).start + 1 == old(self).current,
            old(self).source@[old(self).start as int] == '"',
        ensures
            final(self).wf(),
            final(self).source == old(self).source,
            (t, final(self).state()) == scan_string(old(self).source@, old(self).start as int, old(self).line as int, old(self).column as int - 1),
    {
        let ghost src = self.source@;
        let ghost target = string_end(src, self.current as int, self.line as int, self.column as int);
        while !self.is_at_end() && self.peek() != '"'
            invariant
                self.wf(),
                self.source == old(self).source,
                src == self.source@,
                self.start == old(self).start,
                target == string_end(src, self.current as int, self.line as int, self.column as int),
            decreases self.source@.len() - self.current,
        {
            let c = self.advance();
            if c == '\n' {
                self.line = self.line + 1;
                self.column = 1;
            } else if c == '\\' && !self.is_at_end() && self.peek() == '"' {
                self.advance();
            }
        }
        if self.is_at_end() {
            return self.make_error(ScanError::UnterminatedString);
        }
        // Consume the closing quote.
        self.advance();
        self.make_token(TokenType::String)
    }

    /// Scans the next token. Once the source is used up, every call gives `Eof`.
    pub fn scan_token(&mut self) -> (t: Token)
        requires
            old(self).wf(),
        ensures
            final(self).wf(),
            final(self).src() == old(self).src(),
            (t, final(self).state()) == scan(old(self).src(), old(self).state()),
    {
        reveal(scan);
        self.skip_whitespace();
        self.start = self.current;
        if self.is_at_end() {
            return self.make_token(TokenType::Eof);
        }
        let c = self.advance();
        if is_alpha(c) {
            return self.identifier();
        }
        if is_digit(c) {
            return self.number();
        }
        if c == ',' {
            self.make_token(TokenType::Comma)
        } else if c == '"' {
            self.string()
        } else {
            self.make_error(ScanError::UnexpectedCharacter)
        }
    }
}

/// Skipping blanks never moves backwards.
proof fn lemma_skip_ws_forward(src: Seq<char>, i: int, line: int, col: int, comment: bool)
    requires
        0 <= i,
    ensures
        skip_ws(src, i, line, col, comment).0 >= i,
        i <= src.len() ==> skip_ws(src, i, line, col, comment).0 <= src.len(),
    decreases src.len() - i,
{
    if i < src.len() {
        if comment {
            if src[i] == '\n' {
                lemma_skip_ws_forward(src, i + 1, line + 1, 1, false);
            } else {
                lemma_skip_ws_forward(src, i + 1, line, col + 1, true);
            }
        } else if src[i] == ' ' || src[i] == '\r' || src[i] == '\t' {
            lemma_skip_ws_forward(src, i + 1, line, col + 1, false);
        } else if src[i] == '\n' {
            lemma_skip_ws_forward(src, i + 1, line + 1, 1, false);
        } else if src[i] == ';' {
            lemma_skip_ws_forward(src, i + 1, line, col + 1, true);
        }
    }
}

/// A horizontal tab separates tokens just as a blank does: skipping blanks passes over
/// it, one column on, and scanning from a tab gives exactly what scanning from the
/// character after it gives. No token starts at a tab.
pub proof fn lemma_tab_is_blank(src: Seq<char>, st: ScanState)
    requires
        src.len() < usize::MAX,
        0 <= st.current < src.len(),
        src[st.current] == '\t',
    ensures
        skip_ws(src, st.current, st.line, st.column, false).0 > st.current,
        skip_ws(src, st.current, st.line, st.column, false)
            == skip_ws(src, st.current + 1, st.line, st.column + 1, false),
        skip_ws(src, st.current, st.line, st.column, false).0 >= src.len()
            || src[skip_ws(src, st.current, st.line, st.column, false).0] != '\t',
        scan(src, st) == scan(src, ScanState { current: st.current + 1, column: st.column + 1, ..st }),
        scan(src, st).0.start != st.current,
{
    reveal(scan);
    lemma_skip_ws_forward(src, st.current + 1, st.line, st.column + 1, false);
    lemma_skip_ws_stops(src, st.current, st.line, st.column);
}

/// Skipping blanks, without a comment open, stops at the end or at a character that is
/// not a blank, a tab, a carriage return, a newline or the start of a comment.
proof fn lemma_skip_ws_stops(src: Seq<char>, i: int, line: int, col: int)
    requires
        0 <= i,
    ensures
        ({
            let j = skip_ws(src, i, line, col, false).0;
            j >= src.len() || (src[j] != ' ' && src[j] != '\t' && src[j] != '\r' && src[j] != '\n' && src[j] != ';')
        }),
    decreases src.len() - i, 1int,
{
    if i < src.len() {
        if src[i] == ' ' || src[i] == '\r' || src[i] == '\t' {
            lemma_skip_ws_stops(src, i + 1, line, col + 1);
        } else if src[i] == '\n' {
            lemma_skip_ws_stops(src, i + 1, line + 1, 1);
        } else if src[i] == ';' {
            lemma_skip_comment_stops(src, i + 1, line, col + 1);
        }
    }
}

proof fn lemma_skip_comment_stops(src: Seq<char>, i: int, line: int, col: int)
    requires
        0 <= i,
    ensures
        ({
            let j = skip_ws(src, i, line, col, true).0;
            j >= src.len() || (src[j] != ' ' && src[j] != '\t' && src[j] != '\r' && src[j] != '\n' && src[j] != ';')
        }),
    decreases src.len() - i, 0int,
{
    if i < src.len() {
        if src[i] == '\n' {
            lemma_skip_ws_stops(src, i + 1, line + 1, 1);
        } else {
            lemma_skip_comment_stops(src, i + 1, line, col + 1);
        }
    }
}

} // verus!
