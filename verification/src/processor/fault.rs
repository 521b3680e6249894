//! Why the processor stops on a program.
use vstd::prelude::*;
use crate::text::{chars_of, decimal, spec_decimal, string_from_chars};

verus! {

#[derive(Debug, Clone, Copy, PartialEq, Eq, Structural)]
pub enum Fault {
    /// The byte code's length is not a multiple of four.
    InvalidBytecodeLength(usize),
    /// The byte code is shorter than its two-word header.
    MissingHeader,
    /// A read past the end of memory.
    AddressOutOfBounds(usize),
    /// A register number outside 1..=32.
    InvalidRegister(u32),
    /// A word that names no operation.
    InvalidOpcode(u32),
    /// A string word that does not hold a byte.
    InvalidStringByte(u32),
    /// A string that runs to the end of memory without its zero word.
    UnterminatedString,
    /// String bytes that are not UTF-8.
    InvalidUtf8,
    /// Decoding before any instruction was fetched.
    NoInstructionLoaded,
    /// The register does not hold text.
    ExpectedText(u32),
    /// The register does not hold a number.
    ExpectedNumber(u32),
}

/// The digit of `d` (below 16) in upper-case hexadecimal.
pub open spec fn spec_hex_digit(d: nat) -> char {
    if d < 10 {
        (('0' as u32) + d) as char
    } else {
        (('A' as u32) + (d - 10)) as char
    }
}

/// The last `n` hexadecimal digits of `w`, most significant first, as `{:0n$X}` writes them.
pub open spec fn spec_hex(w: nat, n: nat) -> Seq<char>
    decreases n,
{
    if n == 0 {
        Seq::empty()
    } else {
        spec_hex(w / 16, (n - 1) as nat).push(spec_hex_digit(w % 16))
    }
}

fn hex8(w: u32) -> (r: Vec<char>)
    ensures
        r@ == spec_hex(w as nat, 8),
{
    let mut reversed: Vec<char> = Vec::new();
    let mut m: u32 = w;
    let mut k: usize = 0;
    let ghost mut done: Seq<char> = Seq::empty();
    while k < 8
        invariant
            k <= 8,
            spec_hex(w as nat, 8) == spec_hex(m as nat, (8 - k) as nat) + done,
            reversed@ == done.reverse(),
        decreases 8 - k,
    {
        let d = m % 16;
        let c = if d < 10 {
            ((('0' as u32) + d) as u8) as char
        } else {
            ((('A' as u32) + (d - 10)) as u8) as char
        };
        assert(c == spec_hex_digit((m % 16) as nat));
        proof {
            assert(spec_hex(m as nat, (8 - k) as nat) == spec_hex((m / 16) as nat, (8 - k - 1) as nat).push(c));
            assert(spec_hex((m / 16) as nat, (8 - k - 1) as nat) + (seq![c] + done)
                =~= spec_hex((m / 16) as nat, (8 - k - 1) as nat).push(c) + done);
            done = seq![c] + done;
        }
        reversed.push(c);
        assert(reversed@ =~= done.reverse());
        m = m / 16;
        k = k + 1;
    }
    assert(spec_hex(m as nat, 0) + done =~= done);
    let mut r: Vec<char> = Vec::new();
    let mut i: usize = reversed.len();
    while i > 0
        invariant
            i <= reversed@.len(),
            reversed@ == done.reverse(),
            r@ == done.take(reversed@.len() - i),
        decreases i,
    {
        i = i - 1;
        r.push(reversed[i]);
        assert(r@ =~= done.take(reversed@.len() - i));
    }
    assert(done.take(reversed@.len() as int) =~= done);
    r
}

/// What a fault says, in words.
pub open spec fn spec_fault_message(f: Fault) -> Seq<char> {
    match f {
        Fault::InvalidBytecodeLength(n) => "Invalid bytecode length: "@ + spec_decimal(n as nat)
            + ". Bytecode must be a multiple of 4 bytes."@,
        Fault::MissingHeader => "Missing header pointer"@,
        Fault::AddressOutOfBounds(a) => "Address out of bounds: "@ + spec_decimal(a as nat),
        Fault::InvalidRegister(n) => "Invalid register number: "@ + spec_decimal(n as nat)
            + ". Valid register numbers are 1-32."@,
        Fault::InvalidOpcode(w) => "Failed to decode opcode from byte code. Error: Byte value does not correspond to any known opcode.. Word: 0x"@
            + spec_hex(w as nat, 8),
        Fault::InvalidStringByte(_) => "Failed to convert word to byte"@,
        Fault::UnterminatedString => "Failed to read string: reached end of data segment without null terminator."@,
        Fault::InvalidUtf8 => "Failed to decode string bytes"@,
        Fault::NoInstructionLoaded => "Failed to decode instruction: no instruction loaded."@,
        Fault::ExpectedText(n) => "Register r"@ + spec_decimal(n as nat) + " does not contain text, expected text."@,
        Fault::ExpectedNumber(n) => "Register r"@ + spec_decimal(n as nat) + " does not contain a number, expected number."@,
    }
}

/// `before`, then `middle`, then `after`.
fn framed(before: &str, middle: Vec<char>, after: &str) -> (r: Vec<char>)
    ensures
        r@ == before@ + middle@ + after@,
{
    let mut r = chars_of(before);
    let mut m = middle;
    let mut a = chars_of(after);
    r.append(&mut m);
    r.append(&mut a);
    r
}

impl Fault {
    /// What the fault says, in words.
    pub fn message(&self) -> (r: String)
        ensures
            r@ == spec_fault_message(*self),
    {
        let chars = match *self {
            Fault::InvalidBytecodeLength(n) => framed("Invalid bytecode length: ", decimal(n as u64), ". Bytecode must be a multiple of 4 bytes."),
            Fault::MissingHeader => chars_of("Missing header pointer"),
            Fault::AddressOutOfBounds(a) => framed("Address out of bounds: ", decimal(a as u64), ""),
            Fault::InvalidRegister(n) => framed("Invalid register number: ", decimal(n as u64), ". Valid register numbers are 1-32."),
            Fault::InvalidOpcode(w) => framed("Failed to decode opcode from byte code. Error: Byte value does not correspond to any known opcode.. Word: 0x", hex8(w), ""),
            Fault::InvalidStringByte(_) => chars_of("Failed to convert word to byte"),
            Fault::UnterminatedString => chars_of("Failed to read string: reached end of data segment without null terminator."),
            Fault::InvalidUtf8 => chars_of("Failed to decode string bytes"),
            Fault::NoInstructionLoaded => chars_of("Failed to decode instruction: no instruction loaded."),
            Fault::ExpectedText(n) => framed("Register r", decimal(n as u64), " does not contain text, expected text."),
            Fault::ExpectedNumber(n) => framed("Register r", decimal(n as u64), " does not contain a number, expected number."),
        };
        proof {
            reveal_strlit("");
        }
        string_from_chars(chars.as_slice())
    }
}

} // verus!
