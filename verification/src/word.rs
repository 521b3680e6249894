//! Big-endian 32-bit words, the unit of the byte code.
use vstd::prelude::*;

verus! {

/// The four bytes of `w`, most significant first.
pub open spec fn spec_to_be_bytes(w: u32) -> Seq<u8> {
    seq![(w / 0x100_0000) as u8, ((w / 0x1_0000) % 0x100) as u8, ((w / 0x100) % 0x100) as u8, (w % 0x100) as u8]
}

/// The word whose big-endian bytes are `b`.
pub open spec fn spec_from_be_bytes(b: Seq<u8>) -> u32
    recommends
        b.len() == 4,
{
    (b[0] as int * 0x100_0000 + b[1] as int * 0x1_0000 + b[2] as int * 0x100 + b[3] as int) as u32
}

pub fn to_be_bytes(w: u32) -> (r: [u8; 4])
    ensures
        r@ == spec_to_be_bytes(w),
{
    [(w / 0x100_0000) as u8, ((w / 0x1_0000) % 0x100) as u8, ((w / 0x100) % 0x100) as u8, (w % 0x100) as u8]
}

pub fn from_be_bytes(b: [u8; 4]) -> (r: u32)
    ensures
        r == spec_from_be_bytes(b@),
{
    proof {
        assert(b[0] as int * 0x100_0000 + b[1] as int * 0x1_0000 + b[2] as int * 0x100 + b[3] as int <= u32::MAX) by (nonlinear_arith)
            requires b[0] <= 255, b[1] <= 255, b[2] <= 255, b[3] <= 255;
    }
    (b[0] as u32) * 0x100_0000 + (b[1] as u32) * 0x1_0000 + (b[2] as u32) * 0x100 + (b[3] as u32)
}

/// Reading back the bytes of a word gives the word.
pub proof fn lemma_be_round_trip(w: u32)
    ensures
        spec_from_be_bytes(spec_to_be_bytes(w)) == w,
        spec_to_be_bytes(w).len() == 4,
{
    let b = spec_to_be_bytes(w);
    assert(b[0] as int * 0x100_0000 + b[1] as int * 0x1_0000 + b[2] as int * 0x100 + b[3] as int == w) by (nonlinear_arith)
        requires
            b[0] == w / 0x100_0000,
            b[1] == (w / 0x1_0000) % 0x100,
            b[2] == (w / 0x100) % 0x100,
            b[3] == w % 0x100,
            0 <= w <= u32::MAX;
}

/// The bytes of the word read from four bytes are those bytes.
pub proof fn lemma_be_round_trip_bytes(b: Seq<u8>)
    requires
        b.len() == 4,
    ensures
        spec_to_be_bytes(spec_from_be_bytes(b)) == b,
{
    let w = b[0] as int * 0x100_0000 + b[1] as int * 0x1_0000 + b[2] as int * 0x100 + b[3] as int;
    assert(w <= u32::MAX && w / 0x100_0000 == b[0] && (w / 0x1_0000) % 0x100 == b[1]
        && (w / 0x100) % 0x100 == b[2] && w % 0x100 == b[3]) by (nonlinear_arith)
        requires
            w == b[0] as int * 0x100_0000 + b[1] as int * 0x1_0000 + b[2] as int * 0x100 + b[3] as int,
            0 <= b[0] <= 255, 0 <= b[1] <= 255, 0 <= b[2] <= 255, 0 <= b[3] <= 255;
    assert(spec_to_be_bytes(spec_from_be_bytes(b)) =~= b);
}

/// The bytes of a sequence of words, each big-endian, one after another.
pub open spec fn spec_words_to_bytes(words: Seq<u32>) -> Seq<u8>
    decreases words.len(),
{
    if words.len() == 0 {
        Seq::empty()
    } else {
        spec_words_to_bytes(words.drop_last()) + spec_to_be_bytes(words.last())
    }
}

pub proof fn lemma_words_to_bytes_len(words: Seq<u32>)
    ensures
        spec_words_to_bytes(words).len() == 4 * words.len(),
    decreases words.len(),
{
    if words.len() > 0 {
        lemma_words_to_bytes_len(words.drop_last());
    }
}

/// Word `i` of a byte sequence whose length is a multiple of four.
pub open spec fn spec_word_at(bytes: Seq<u8>, i: int) -> u32 {
    spec_from_be_bytes(bytes.subrange(4 * i, 4 * i + 4))
}

/// The bytes at word position `k` of the encoding are the bytes of word `k`, and reading
/// them back gives that word.
pub proof fn lemma_words_to_bytes_at(words: Seq<u32>, k: int)
    requires
        0 <= k < words.len(),
    ensures
        spec_words_to_bytes(words).subrange(4 * k, 4 * k + 4) == spec_to_be_bytes(words[k]),
        spec_word_at(spec_words_to_bytes(words), k) == words[k],
    decreases words.len(),
{
    let prefix = words.drop_last();
    lemma_words_to_bytes_len(prefix);
    lemma_be_round_trip(words[k]);
    lemma_be_round_trip(words.last());
    if k < words.len() - 1 {
        lemma_words_to_bytes_at(prefix, k);
        assert(spec_words_to_bytes(words).subrange(4 * k, 4 * k + 4)
            =~= spec_words_to_bytes(prefix).subrange(4 * k, 4 * k + 4));
    } else {
        assert(spec_words_to_bytes(words).subrange(4 * k, 4 * k + 4) =~= spec_to_be_bytes(words.last()));
    }
}

pub fn words_to_bytes(words: &Vec<u32>) -> (r: Vec<u8>)
    ensures
        r@ == spec_words_to_bytes(words@),
{
    let mut r: Vec<u8> = Vec::new();
    let mut i: usize = 0;
    while i < words.len()
        invariant
            i <= words@.len(),
            r@ == spec_words_to_bytes(words@.take(i as int)),
        decreases words@.len() - i,
    {
        let b = to_be_bytes(words[i]);
        let ghost r0 = r@;
        r.push(b[0]);
        r.push(b[1]);
        r.push(b[2]);
        r.push(b[3]);
        assert(words@.take(i + 1).drop_last() =~= words@.take(i as int));
        assert(r@ =~= r0 + spec_to_be_bytes(words@[i as int]));
        i = i + 1;
    }
    assert(words@.take(i as int) =~= words@);
    r
}

} // verus!
