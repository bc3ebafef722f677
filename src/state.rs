use vstd::prelude::*;

use crate::constants::{INV_S_BOX, S_BOX};
use crate::gf::{
    galois_mul, inv_mix_row, lemma_inv_mix_row_of_mix_row, lemma_inv_mix_row_xor, lemma_xor_u8,
    mix_row,
};
use crate::matrix::{cell, Matrix};
use crate::word::{bytes_word, lemma_word_bytes, word_byte, word_to_bytes, Word};

verus! {

/// The 16 bytes of four words, one word per column, each word big-endian from row 0 down.
pub open spec fn words_state(words: Seq<Word>) -> Seq<u8> {
    Seq::new(16, |i: int| word_byte(words[i / 4], i % 4))
}

/// Every byte replaced through `table`.
pub open spec fn substitute(s: Seq<u8>, table: Seq<u8>) -> Seq<u8> {
    Seq::new(16, |i: int| table[s[i] as int])
}

/// SubBytes: every byte replaced through the S-box.
pub open spec fn sub_bytes_spec(s: Seq<u8>) -> Seq<u8> {
    substitute(s, S_BOX@)
}

/// InvSubBytes: every byte replaced through the inverse S-box.
pub open spec fn inv_sub_bytes_spec(s: Seq<u8>) -> Seq<u8> {
    substitute(s, INV_S_BOX@)
}

/// ShiftRows: row r rotated left by r positions.
pub open spec fn shift_rows_spec(s: Seq<u8>) -> Seq<u8> {
    Seq::new(16, |i: int| s[cell(i % 4, (i / 4 + i % 4) % 4)])
}

/// InvShiftRows: row r rotated right by r positions.
pub open spec fn inv_shift_rows_spec(s: Seq<u8>) -> Seq<u8> {
    Seq::new(16, |i: int| s[cell(i % 4, (i / 4 + 4 - i % 4) % 4)])
}

/// MixColumns: each column multiplied by the circulant matrix with first row {2, 3, 1, 1}.
pub open spec fn mix_columns_spec(s: Seq<u8>) -> Seq<u8> {
    Seq::new(
        16,
        |i: int|
            {
                let c = i - i % 4;
                let r = i % 4;
                mix_row(s[c + r], s[c + (r + 1) % 4], s[c + (r + 2) % 4], s[c + (r + 3) % 4])
            },
    )
}

/// InvMixColumns: each column multiplied by the circulant matrix with first row {14, 11, 13, 9}.
pub open spec fn inv_mix_columns_spec(s: Seq<u8>) -> Seq<u8> {
    Seq::new(
        16,
        |i: int|
            {
                let c = i - i % 4;
                let r = i % 4;
                inv_mix_row(s[c + r], s[c + (r + 1) % 4], s[c + (r + 2) % 4], s[c + (r + 3) % 4])
            },
    )
}

/// AddRoundKey: column c combined by exclusive or with the bytes of word c of the round key.
pub open spec fn add_round_key_spec(s: Seq<u8>, round_key: Seq<Word>) -> Seq<u8> {
    Seq::new(16, |i: int| s[i] ^ word_byte(round_key[i / 4], i % 4))
}

/// The inverse S-box undoes the S-box.
pub proof fn lemma_s_box_inverse(x: u8)
    ensures
        INV_S_BOX[S_BOX[x as int] as int] == x,
{
}

/// Byte-wise exclusive or of two states.
pub open spec fn xor_states(a: Seq<u8>, b: Seq<u8>) -> Seq<u8> {
    Seq::new(16, |i: int| a[i] ^ b[i])
}

/// The four words whose big-endian bytes are the columns of `s`.
pub open spec fn columns_words(s: Seq<u8>) -> Seq<Word> {
    Seq::new(4, |c: int| bytes_word(s[4 * c], s[4 * c + 1], s[4 * c + 2], s[4 * c + 3]))
}

/// Reading the columns of a state as words and loading them back gives the same state.
pub proof fn lemma_words_state_columns(s: Seq<u8>)
    requires
        s.len() == 16,
    ensures
        words_state(columns_words(s)) == s,
{
    assert forall|i: int| 0 <= i < 16 implies #[trigger] words_state(columns_words(s))[i] == s[i] by {
        let c = i / 4;
        lemma_word_bytes(0, s[4 * c], s[4 * c + 1], s[4 * c + 2], s[4 * c + 3]);
        assert(i == 4 * c + i % 4);
    }
    assert(words_state(columns_words(s)) =~= s);
}

/// AddRoundKey is exclusive or with the state loaded from the round key.
pub proof fn lemma_add_round_key_xor(s: Seq<u8>, k: Seq<Word>)
    ensures
        add_round_key_spec(s, k) == xor_states(s, words_state(k)),
{
    assert(add_round_key_spec(s, k) =~= xor_states(s, words_state(k)));
}

/// Adding the same round key twice gives back the state.
pub proof fn lemma_add_round_key_twice(s: Seq<u8>, k: Seq<Word>)
    requires
        s.len() == 16,
    ensures
        add_round_key_spec(add_round_key_spec(s, k), k) == s,
{
    lemma_xor_u8();
    assert forall|i: int| 0 <= i < 16 implies #[trigger] add_round_key_spec(
        add_round_key_spec(s, k),
        k,
    )[i] == s[i] by {
        let b = word_byte(k[i / 4], i % 4);
        assert((s[i] ^ b) ^ b == s[i] ^ (b ^ b));
    }
    assert(add_round_key_spec(add_round_key_spec(s, k), k) =~= s);
}

/// InvSubBytes undoes SubBytes.
pub proof fn lemma_inv_sub_bytes(s: Seq<u8>)
    requires
        s.len() == 16,
    ensures
        inv_sub_bytes_spec(sub_bytes_spec(s)) == s,
{
    assert forall|i: int| 0 <= i < 16 implies #[trigger] inv_sub_bytes_spec(sub_bytes_spec(s))[i]
        == s[i] by {
        lemma_s_box_inverse(s[i]);
    }
    assert(inv_sub_bytes_spec(sub_bytes_spec(s)) =~= s);
}

/// InvShiftRows undoes ShiftRows.
pub proof fn lemma_inv_shift_rows(s: Seq<u8>)
    requires
        s.len() == 16,
    ensures
        inv_shift_rows_spec(shift_rows_spec(s)) == s,
{
    assert forall|i: int| 0 <= i < 16 implies #[trigger] inv_shift_rows_spec(shift_rows_spec(s))[i]
        == s[i] by {
        assert(i == 0 || i == 1 || i == 2 || i == 3 || i == 4 || i == 5 || i == 6 || i == 7 || i
            == 8 || i == 9 || i == 10 || i == 11 || i == 12 || i == 13 || i == 14 || i == 15);
    }
    assert(inv_shift_rows_spec(shift_rows_spec(s)) =~= s);
}

/// A byte-wise substitution commutes with ShiftRows.
pub proof fn lemma_substitute_shift_rows(s: Seq<u8>, table: Seq<u8>)
    requires
        s.len() == 16,
    ensures
        substitute(shift_rows_spec(s), table) == shift_rows_spec(substitute(s, table)),
{
    assert forall|i: int| 0 <= i < 16 implies #[trigger] substitute(shift_rows_spec(s), table)[i]
        == shift_rows_spec(substitute(s, table))[i] by {
        assert(0 <= cell(i % 4, (i / 4 + i % 4) % 4) < 16);
    }
    assert(substitute(shift_rows_spec(s), table) =~= shift_rows_spec(substitute(s, table)));
}

/// InvMixColumns undoes MixColumns.
pub proof fn lemma_inv_mix_columns(s: Seq<u8>)
    requires
        s.len() == 16,
    ensures
        inv_mix_columns_spec(mix_columns_spec(s)) == s,
{
    let m = mix_columns_spec(s);
    assert forall|i: int| 0 <= i < 16 implies #[trigger] inv_mix_columns_spec(m)[i] == s[i] by {
        let c = i - i % 4;
        let (a0, a1, a2, a3) = (s[c], s[c + 1], s[c + 2], s[c + 3]);
        assert(m[c] == mix_row(a0, a1, a2, a3));
        assert(m[c + 1] == mix_row(a1, a2, a3, a0));
        assert(m[c + 2] == mix_row(a2, a3, a0, a1));
        assert(m[c + 3] == mix_row(a3, a0, a1, a2));
        if i % 4 == 0 {
            lemma_inv_mix_row_of_mix_row(a0, a1, a2, a3);
        } else if i % 4 == 1 {
            lemma_inv_mix_row_of_mix_row(a1, a2, a3, a0);
        } else if i % 4 == 2 {
            lemma_inv_mix_row_of_mix_row(a2, a3, a0, a1);
        } else {
            lemma_inv_mix_row_of_mix_row(a3, a0, a1, a2);
        }
    }
    assert(inv_mix_columns_spec(m) =~= s);
}

/// InvMixColumns distributes over exclusive or.
pub proof fn lemma_inv_mix_columns_xor(a: Seq<u8>, b: Seq<u8>)
    requires
        a.len() == 16,
        b.len() == 16,
    ensures
        inv_mix_columns_spec(xor_states(a, b)) == xor_states(
            inv_mix_columns_spec(a),
            inv_mix_columns_spec(b),
        ),
{
    let x = xor_states(a, b);
    assert forall|i: int| 0 <= i < 16 implies #[trigger] inv_mix_columns_spec(x)[i]
        == xor_states(inv_mix_columns_spec(a), inv_mix_columns_spec(b))[i] by {
        let c = i - i % 4;
        let r = i % 4;
        let (j0, j1, j2, j3) = (c + r, c + (r + 1) % 4, c + (r + 2) % 4, c + (r + 3) % 4);
        assert(0 <= j0 < 16 && 0 <= j1 < 16 && 0 <= j2 < 16 && 0 <= j3 < 16);
        lemma_inv_mix_row_xor(a[j0], a[j1], a[j2], a[j3], b[j0], b[j1], b[j2], b[j3]);
    }
    assert(inv_mix_columns_spec(x) =~= xor_states(inv_mix_columns_spec(a), inv_mix_columns_spec(b)));
}

/// The cipher state: a 4x4 grid of bytes, column-major.
pub struct State {
    pub data: Matrix,
}

impl View for State {
    type V = Seq<u8>;

    open spec fn view(&self) -> Seq<u8> {
        self.data@
    }
}

impl State {
    /// A state of zeros.
    pub fn new() -> (r: Self)
        ensures
            r@ == Seq::new(16, |i: int| 0u8),
    {
        State { data: Matrix::new() }
    }

    pub fn new_from_matrix(data: Matrix) -> (r: Self)
        ensures
            r@ == data@,
    {
        State { data }
    }

    /// A state from its rows: `data[r][c]` is the byte at row `r`, column `c`.
    pub fn new_from_data(data: [[u8; 4]; 4]) -> (r: Self)
        ensures
            r@.len() == 16,
            forall|row: int, col: int|
                0 <= row < 4 && 0 <= col < 4 ==> r@[cell(row, col)] == data[row][col],
    {
        let matrix = Matrix::new_from_data(data);
        Self::new_from_matrix(matrix)
    }

    /// Loads a block: bytes 4c..4c+4 become column c.
    pub fn new_from_data_in(data_in: &[u8; 16]) -> (r: Self)
        ensures
            r@ == data_in@,
    {
        let mut state = State::new();
        let mut i: usize = 0;
        while i < 4
            invariant
                i <= 4,
                state@.len() == 16,
                forall|k: int| 0 <= k < 4 * i ==> state@[k] == data_in@[k],
            decreases 4 - i,
        {
            let col = [data_in[4 * i], data_in[4 * i + 1], data_in[4 * i + 2], data_in[4 * i + 3]];
            state.data.set_col(i, col);
            i += 1;
        }
        assert(state@ =~= data_in@);
        state
    }

    /// Loads four words: the big-endian bytes of word c become column c.
    pub fn new_from_words(words: &[Word; 4]) -> (r: Self)
        ensures
            r@ == words_state(words@),
    {
        let mut state = Self::new();
        let mut i: usize = 0;
        while i < 4
            invariant
                i <= 4,
                state@.len() == 16,
                forall|k: int| 0 <= k < 4 * i ==> state@[k] == words_state(words@)[k],
            decreases 4 - i,
        {
            let col = word_to_bytes(words[i]);
            state.data.set_col(i, col);
            i += 1;
        }
        assert(state@ =~= words_state(words@));
        state
    }

    /// Stores the state as a block: column c becomes bytes 4c..4c+4.
    pub fn set_data_out(self, data_out: &mut [u8; 16])
        ensures
            final(data_out)@ == self@,
    {
        let mut i: usize = 0;
        proof {
            self.data.lemma_len();
        }
        while i < 4
            invariant
                i <= 4,
                self@.len() == 16,
                forall|k: int| 0 <= k < 4 * i ==> data_out@[k] == self@[k],
            decreases 4 - i,
        {
            let col = self.data.get_col(i);
            data_out[4 * i] = col[0];
            data_out[4 * i + 1] = col[1];
            data_out[4 * i + 2] = col[2];
            data_out[4 * i + 3] = col[3];
            i += 1;
        }
        assert(data_out@ =~= self@);
    }

    pub fn sub_bytes(&mut self)
        ensures
            final(self)@ == sub_bytes_spec(old(self)@),
    {
        self.apply_substitution(&S_BOX);
    }

    pub fn inv_sub_bytes(&mut self)
        ensures
            final(self)@ == inv_sub_bytes_spec(old(self)@),
    {
        self.apply_substitution(&INV_S_BOX);
    }

    fn apply_substitution(&mut self, sub_box: &[u8; 256])
        ensures
            final(self)@ == substitute(old(self)@, sub_box@),
    {
        proof {
            self.data.lemma_len();
        }
        let mut row: usize = 0;
        while row < self.data.get_rows_amount()
            invariant
                row <= 4,
                self@.len() == 16,
                forall|i: int|
                    0 <= i < 16 ==> #[trigger] self@[i] == if i % 4 < row {
                        sub_box@[old(self)@[i] as int]
                    } else {
                        old(self)@[i]
                    },
            decreases 4 - row,
        {
            let mut col: usize = 0;
            while col < self.data.get_cols_amount()
                invariant
                    row < 4,
                    col <= 4,
                    self@.len() == 16,
                    forall|i: int|
                        0 <= i < 16 ==> #[trigger] self@[i] == if i % 4 < row || (i % 4 == row
                            && i / 4 < col) {
                            sub_box@[old(self)@[i] as int]
                        } else {
                            old(self)@[i]
                        },
                decreases 4 - col,
            {
                let value = self.data.get(row, col);
                self.data.set(row, col, sub_box[value as usize]);
                col += 1;
            }
            row += 1;
        }
        assert(self@ =~= substitute(old(self)@, sub_box@));
    }

    pub fn shift_rows(&mut self)
        ensures
            final(self)@ == shift_rows_spec(old(self)@),
    {
        proof {
            self.data.lemma_len();
        }
        let mut i: usize = 1;
        while i < self.data.get_rows_amount()
            invariant
                1 <= i <= 4,
                self@.len() == 16,
                forall|k: int|
                    0 <= k < 16 ==> #[trigger] self@[k] == if k % 4 < i {
                        shift_rows_spec(old(self)@)[k]
                    } else {
                        old(self)@[k]
                    },
            decreases 4 - i,
        {
            self.data.shift_row_left(i, i);
            i += 1;
        }
        assert(self@ =~= shift_rows_spec(old(self)@));
    }

    pub fn inv_shift_rows(&mut self)
        ensures
            final(self)@ == inv_shift_rows_spec(old(self)@),
    {
        proof {
            self.data.lemma_len();
        }
        let mut i: usize = 1;
        while i < self.data.get_rows_amount()
            invariant
                1 <= i <= 4,
                self@.len() == 16,
                forall|k: int|
                    0 <= k < 16 ==> #[trigger] self@[k] == if k % 4 < i {
                        inv_shift_rows_spec(old(self)@)[k]
                    } else {
                        old(self)@[k]
                    },
            decreases 4 - i,
        {
            self.data.shift_row_right(i, i);
            i += 1;
        }
        assert(self@ =~= inv_shift_rows_spec(old(self)@));
    }

    /// XORs column c with the big-endian bytes of `round_key[c]`.
    pub fn add_round_key(&mut self, round_key: &[Word; 4])
        ensures
            final(self)@ == add_round_key_spec(old(self)@, round_key@),
    {
        proof {
            self.data.lemma_len();
        }
        let mut i: usize = 0;
        while i < 4
            invariant
                i <= 4,
                self@.len() == 16,
                forall|k: int|
                    0 <= k < 16 ==> #[trigger] self@[k] == if k / 4 < i {
                        add_round_key_spec(old(self)@, round_key@)[k]
                    } else {
                        old(self)@[k]
                    },
            decreases 4 - i,
        {
            let col = self.data.get_col(i);
            let word_bytes = word_to_bytes(round_key[i]);
            let new_col = [
                col[0] ^ word_bytes[0],
                col[1] ^ word_bytes[1],
                col[2] ^ word_bytes[2],
                col[3] ^ word_bytes[3],
            ];
            self.data.set_col(i, new_col);
            i += 1;
        }
        assert(self@ =~= add_round_key_spec(old(self)@, round_key@));
    }

    pub fn mix_columns(&mut self)
        ensures
            final(self)@ == mix_columns_spec(old(self)@),
    {
        proof {
            self.data.lemma_len();
        }
        let mut i: usize = 0;
        while i < 4
            invariant
                i <= 4,
                self@.len() == 16,
                forall|k: int|
                    0 <= k < 16 ==> #[trigger] self@[k] == if k / 4 < i {
                        mix_columns_spec(old(self)@)[k]
                    } else {
                        old(self)@[k]
                    },
            decreases 4 - i,
        {
            let mut col = self.data.get_col(i);
            Self::mix_column(&mut col);
            self.data.set_col(i, col);
            i += 1;
        }
        assert(self@ =~= mix_columns_spec(old(self)@));
    }

    pub fn inv_mix_columns(&mut self)
        ensures
            final(self)@ == inv_mix_columns_spec(old(self)@),
    {
        proof {
            self.data.lemma_len();
        }
        let mut i: usize = 0;
        while i < 4
            invariant
                i <= 4,
                self@.len() == 16,
                forall|k: int|
                    0 <= k < 16 ==> #[trigger] self@[k] == if k / 4 < i {
                        inv_mix_columns_spec(old(self)@)[k]
                    } else {
                        old(self)@[k]
                    },
            decreases 4 - i,
        {
            let mut col = self.data.get_col(i);
            Self::inv_mix_column(&mut col);
            self.data.set_col(i, col);
            i += 1;
        }
        assert(self@ =~= inv_mix_columns_spec(old(self)@));
    }

    /// Multiplies one column by the MixColumns matrix.
    fn mix_column(col: &mut [u8; 4])
        ensures
            forall|r: int|
                0 <= r < 4 ==> #[trigger] final(col)[r] == mix_row(
                    old(col)[r],
                    old(col)[(r + 1) % 4],
                    old(col)[(r + 2) % 4],
                    old(col)[(r + 3) % 4],
                ),
    {
        let a = col[0];
        let b = col[1];
        let c = col[2];
        let d = col[3];
        col[0] = galois_mul(a, 2) ^ galois_mul(b, 3) ^ c ^ d;
        col[1] = galois_mul(b, 2) ^ galois_mul(c, 3) ^ d ^ a;
        col[2] = galois_mul(c, 2) ^ galois_mul(d, 3) ^ a ^ b;
        col[3] = galois_mul(d, 2) ^ galois_mul(a, 3) ^ b ^ c;
    }

    /// Multiplies one column by the InvMixColumns matrix.
    fn inv_mix_column(col: &mut [u8; 4])
        ensures
            forall|r: int|
                0 <= r < 4 ==> #[trigger] final(col)[r] == inv_mix_row(
                    old(col)[r],
                    old(col)[(r + 1) % 4],
                    old(col)[(r + 2) % 4],
                    old(col)[(r + 3) % 4],
                ),
    {
        let a = col[0];
        let b = col[1];
        let c = col[2];
        let d = col[3];
        col[0] = galois_mul(a, 14) ^ galois_mul(b, 11) ^ galois_mul(c, 13) ^ galois_mul(d, 9);
        col[1] = galois_mul(b, 14) ^ galois_mul(c, 11) ^ galois_mul(d, 13) ^ galois_mul(a, 9);
        col[2] = galois_mul(c, 14) ^ galois_mul(d, 11) ^ galois_mul(a, 13) ^ galois_mul(b, 9);
        col[3] = galois_mul(d, 14) ^ galois_mul(a, 11) ^ galois_mul(b, 13) ^ galois_mul(c, 9);
    }
}

} // verus!
