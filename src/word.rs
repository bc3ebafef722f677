use vstd::prelude::*;

verus! {

/// A 32-bit word of the key schedule.
pub type Word = u32;

/// Byte `j` of `w` in big-endian order: byte 0 is the most significant.
pub open spec fn word_byte(w: Word, j: int) -> u8 {
    if j == 0 {
        (w / 0x1000000) as u8
    } else if j == 1 {
        (w / 0x10000 % 0x100) as u8
    } else if j == 2 {
        (w / 0x100 % 0x100) as u8
    } else {
        (w % 0x100) as u8
    }
}

/// The word whose big-endian bytes are `b0`, `b1`, `b2`, `b3`.
pub open spec fn bytes_word(b0: u8, b1: u8, b2: u8, b3: u8) -> Word {
    (b0 * 0x1000000 + b1 * 0x10000 + b2 * 0x100 + b3) as Word
}

/// Splitting a word into bytes and joining them back are inverse to each other.
pub proof fn lemma_word_bytes(w: Word, b0: u8, b1: u8, b2: u8, b3: u8)
    ensures
        bytes_word(word_byte(w, 0), word_byte(w, 1), word_byte(w, 2), word_byte(w, 3)) == w,
        word_byte(bytes_word(b0, b1, b2, b3), 0) == b0,
        word_byte(bytes_word(b0, b1, b2, b3), 1) == b1,
        word_byte(bytes_word(b0, b1, b2, b3), 2) == b2,
        word_byte(bytes_word(b0, b1, b2, b3), 3) == b3,
{
    assert(((w / 0x1000000) as u8) * 0x1000000 + ((w / 0x10000 % 0x100) as u8) * 0x10000 + ((w
        / 0x100 % 0x100) as u8) * 0x100 + ((w % 0x100) as u8) == w) by (bit_vector);
    let v: u32 = bytes_word(b0, b1, b2, b3);
    assert(v == b0 * 0x1000000 + b1 * 0x10000 + b2 * 0x100 + b3) by (nonlinear_arith)
        requires
            v == (b0 * 0x1000000 + b1 * 0x10000 + b2 * 0x100 + b3) as u32,
            b0 < 256,
            b1 < 256,
            b2 < 256,
            b3 < 256,
    ;
    assert((v / 0x1000000) as u8 == b0 && (v / 0x10000 % 0x100) as u8 == b1 && (v / 0x100
        % 0x100) as u8 == b2 && (v % 0x100) as u8 == b3) by (bit_vector)
        requires
            v == b0 * 0x1000000 + b1 * 0x10000 + b2 * 0x100 + b3,
    ;
}

/// The four big-endian bytes of `w`.
pub fn word_to_bytes(w: Word) -> (r: [u8; 4])
    ensures
        forall|j: int| 0 <= j < 4 ==> r[j] == word_byte(w, j),
{
    [(w / 0x1000000) as u8, (w / 0x10000 % 0x100) as u8, (w / 0x100 % 0x100) as u8, (w % 0x100) as u8]
}

/// The word whose big-endian bytes are `b`.
pub fn word_from_bytes(b: [u8; 4]) -> (r: Word)
    ensures
        r == bytes_word(b[0], b[1], b[2], b[3]),
{
    proof {
        lemma_word_bytes(0, b[0], b[1], b[2], b[3]);
    }
    let r: u64 = b[0] as u64 * 0x1000000 + b[1] as u64 * 0x10000 + b[2] as u64 * 0x100 + b[3] as u64;
    assert(r < 0x100000000) by (nonlinear_arith)
        requires
            r == b[0] * 0x1000000 + b[1] * 0x10000 + b[2] * 0x100 + b[3],
            b[0] < 256,
            b[1] < 256,
            b[2] < 256,
            b[3] < 256,
    ;
    r as Word
}

} // verus!
