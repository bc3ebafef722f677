use vstd::prelude::*;

use crate::constants::{R_CON, S_BOX};
use crate::state::{columns_words, inv_mix_columns_spec, words_state, State};
use crate::word::{bytes_word, word_byte, word_from_bytes, Word};

verus! {

/// Number of 32-bit words in the cipher key.
pub const N_K: usize = 4;

/// Number of columns of the state.
pub const N_B: usize = 4;

/// Number of rounds.
pub const N_R: usize = 10;

/// Number of words in an expanded key: one round key of `N_B` words per round, plus one.
pub const SCHEDULE_LEN: usize = 44;

/// RotWord: the bytes [a0, a1, a2, a3] of `w` become [a1, a2, a3, a0].
pub open spec fn rot_word_spec(w: Word) -> Word {
    bytes_word(word_byte(w, 1), word_byte(w, 2), word_byte(w, 3), word_byte(w, 0))
}

/// SubWord: the S-box applied to each of the four bytes of `w`.
pub open spec fn sub_word_spec(w: Word) -> Word {
    bytes_word(
        S_BOX[word_byte(w, 0) as int],
        S_BOX[word_byte(w, 1) as int],
        S_BOX[word_byte(w, 2) as int],
        S_BOX[word_byte(w, 3) as int],
    )
}

/// Word `i` of the expansion of the 16-byte cipher key `key`.
pub open spec fn expanded_word(key: Seq<u8>, i: nat) -> Word
    decreases i,
{
    if i < 4 {
        let j = 4 * i as int;
        bytes_word(key[j], key[j + 1], key[j + 2], key[j + 3])
    } else {
        let prev = expanded_word(key, (i - 1) as nat);
        let temp = if i % 4 == 0 {
            sub_word_spec(rot_word_spec(prev)) ^ R_CON[i / 4 - 1]
        } else {
            prev
        };
        expanded_word(key, (i - 4) as nat) ^ temp
    }
}

/// The 44-word forward key schedule of `key`.
pub open spec fn key_expansion(key: Seq<u8>) -> Seq<Word> {
    Seq::new(44, |i: int| expanded_word(key, i as nat))
}

/// InvMixColumns applied to four words taken as the columns of a state.
pub open spec fn inv_mix_words(words: Seq<Word>) -> Seq<Word> {
    columns_words(inv_mix_columns_spec(words_state(words)))
}

/// The key schedule of the equivalent inverse cipher: the forward schedule with InvMixColumns
/// applied to the round keys of rounds 1 to 9.
#[verifier::opaque]
pub open spec fn inv_key_expansion(key: Seq<u8>) -> Seq<Word> {
    let w = key_expansion(key);
    Seq::new(
        44,
        |i: int|
            if 4 <= i < 40 {
                inv_mix_words(w.subrange(i - i % 4, i - i % 4 + 4))[i % 4]
            } else {
                w[i]
            },
    )
}

/// The four words of round `round` in the schedule `ks`.
pub open spec fn round_key(ks: Seq<Word>, round: int) -> Seq<Word> {
    ks.subrange(4 * round, 4 * round + 4)
}

/// `iks` is the schedule of the equivalent inverse cipher for the forward schedule `ks`.
pub open spec fn is_inverse_schedule(iks: Seq<Word>, ks: Seq<Word>) -> bool {
    &&& ks.len() == 44
    &&& iks.len() == 44
    &&& round_key(iks, 0) == round_key(ks, 0)
    &&& round_key(iks, 10) == round_key(ks, 10)
    &&& forall|r: int| 1 <= r <= 9 ==> #[trigger] round_key(iks, r) == inv_mix_words(round_key(ks, r))
}

/// The inverse key expansion keeps rounds 0 and 10 and passes rounds 1 to 9 through InvMixColumns.
pub proof fn lemma_inverse_schedule(key: Seq<u8>)
    ensures
        is_inverse_schedule(inv_key_expansion(key), key_expansion(key)),
{
    reveal(inv_key_expansion);
    let w = key_expansion(key);
    let iw = inv_key_expansion(key);
    assert forall|r: int| 0 <= r <= 10 implies #[trigger] round_key(iw, r) == if 1 <= r <= 9 {
        inv_mix_words(round_key(w, r))
    } else {
        round_key(w, r)
    } by {
        assert forall|j: int| 0 <= j < 4 implies round_key(iw, r)[j] == (if 1 <= r <= 9 {
            inv_mix_words(round_key(w, r))
        } else {
            round_key(w, r)
        })[j] by {
            let k = 4 * r + j;
            assert(k % 4 == j && k - k % 4 == 4 * r);
            assert(w.subrange(k - k % 4, k - k % 4 + 4) == round_key(w, r));
        }
        assert(round_key(iw, r) =~= if 1 <= r <= 9 {
            inv_mix_words(round_key(w, r))
        } else {
            round_key(w, r)
        });
    }
    assert(round_key(iw, 0) == round_key(w, 0));
    assert(round_key(iw, 10) == round_key(w, 10));
}

/// An expanded key: the forward schedule, or the schedule of the equivalent inverse cipher.
pub struct AESKey {
    pub data: [Word; 44],
}

impl AESKey {
    /// The forward key schedule of `cipher_key`.
    pub fn new_direct(cipher_key: [u8; 16]) -> (r: Self)
        ensures
            r.data@ == key_expansion(cipher_key@),
    {
        let mut data = [0u32; 44];
        Self::expand_key(cipher_key, &mut data);
        Self { data }
    }

    /// The key schedule of the equivalent inverse cipher for `cipher_key`.
    pub fn new_inverse(cipher_key: [u8; 16]) -> (r: Self)
        ensures
            r.data@ == inv_key_expansion(cipher_key@),
    {
        let mut data = [0u32; 44];
        Self::inv_expand_key(cipher_key, &mut data);
        Self { data }
    }

    fn expand_key(cipher_key: [u8; 16], data: &mut [Word; 44])
        ensures
            final(data)@ == key_expansion(cipher_key@),
    {
        let mut i: usize = 0;
        while i < N_K
            invariant
                i <= N_K,
                forall|k: int| 0 <= k < i ==> data@[k] == expanded_word(cipher_key@, k as nat),
            decreases N_K - i,
        {
            data[i] = word_from_bytes(
                [cipher_key[4 * i], cipher_key[4 * i + 1], cipher_key[4 * i + 2], cipher_key[4 * i + 3]],
            );
            i += 1;
        }
        while i < SCHEDULE_LEN
            invariant
                N_K <= i <= SCHEDULE_LEN,
                forall|k: int| 0 <= k < i ==> data@[k] == expanded_word(cipher_key@, k as nat),
            decreases SCHEDULE_LEN - i,
        {
            let mut temp: Word = data[i - 1];
            if i % N_K == 0 {
                temp = Self::sub_word(Self::rot_word(temp)) ^ R_CON[i / N_K - 1];
            }
            data[i] = data[i - N_K] ^ temp;
            i += 1;
        }
        assert(data@ =~= key_expansion(cipher_key@));
    }

    fn inv_expand_key(cipher_key: [u8; 16], dw: &mut [Word; 44])
        ensures
            final(dw)@ == inv_key_expansion(cipher_key@),
    {
        Self::expand_key(cipher_key, dw);
        let ghost w = key_expansion(cipher_key@);
        let ghost iw = inv_key_expansion(cipher_key@);
        proof {
            lemma_inverse_schedule(cipher_key@);
        }
        let mut round: usize = 1;
        while round < N_R
            invariant
                1 <= round <= N_R,
                w == key_expansion(cipher_key@),
                iw == inv_key_expansion(cipher_key@),
                is_inverse_schedule(iw, w),
                forall|k: int|
                    0 <= k < 44 ==> #[trigger] dw@[k] == if 4 <= k < 4 * round {
                        iw[k]
                    } else {
                        w[k]
                    },
            decreases N_R - round,
        {
            let b = round * N_B;
            let words = [dw[b], dw[b + 1], dw[b + 2], dw[b + 3]];
            assert(words@ =~= round_key(w, round as int));
            let new_words = Self::inv_mix_columns_words(&words);
            assert(new_words@ == round_key(iw, round as int));
            dw[b] = new_words[0];
            dw[b + 1] = new_words[1];
            dw[b + 2] = new_words[2];
            dw[b + 3] = new_words[3];
            round += 1;
        }
        proof {
            assert(round_key(iw, 0) == round_key(w, 0));
            assert(round_key(iw, 10) == round_key(w, 10));
            assert forall|k: int| 0 <= k < 44 implies dw@[k] == iw[k] by {
                if k < 4 {
                    assert(iw[k] == round_key(iw, 0)[k]);
                } else if k >= 40 {
                    assert(iw[k] == round_key(iw, 10)[k - 40]);
                }
            }
        }
        assert(dw@ =~= iw);
    }

    /// The four words of round `round`.
    pub fn round_key(&self, round: usize) -> (r: [Word; 4])
        requires
            round <= N_R,
        ensures
            r@ == self.data@.subrange(4 * round, 4 * round + 4),
    {
        let b = round * N_B;
        let r = [self.data[b], self.data[b + 1], self.data[b + 2], self.data[b + 3]];
        assert(r@ =~= self.data@.subrange(4 * round, 4 * round + 4));
        r
    }

    /// SubWord: applies the S-box to each of the four bytes of `word`.
    pub fn sub_word(word: Word) -> (r: Word)
        ensures
            r == sub_word_spec(word),
    {
        let b0 = Self::apply_s_box(Self::get_byte_from_word(word, 3));
        let b1 = Self::apply_s_box(Self::get_byte_from_word(word, 2));
        let b2 = Self::apply_s_box(Self::get_byte_from_word(word, 1));
        let b3 = Self::apply_s_box(Self::get_byte_from_word(word, 0));
        word_from_bytes([b0, b1, b2, b3])
    }

    /// RotWord: the word [a0, a1, a2, a3] becomes [a1, a2, a3, a0].
    pub fn rot_word(word: Word) -> (r: Word)
        ensures
            r == rot_word_spec(word),
    {
        assert((word << 8) | (word >> 24) == ((((word / 0x10000 % 0x100) as u8) * 0x1000000 + ((
        word / 0x100 % 0x100) as u8) * 0x10000 + ((word % 0x100) as u8) * 0x100 + ((word
            / 0x1000000) as u8)) as u32)) by (bit_vector);
        word << 8 | word >> 24
    }

    /// InvMixColumns applied to four words taken as the columns of a state.
    #[verifier::rlimit(40)]
    pub fn inv_mix_columns_words(words: &[Word; 4]) -> (r: [Word; 4])
        ensures
            r@ == inv_mix_words(words@),
    {
        let mut state = State::new_from_words(words);
        state.inv_mix_columns();
        let cols = state.data.get_cols();
        proof {
            state.data.lemma_len();
        }
        let r = [
            word_from_bytes(cols[0]),
            word_from_bytes(cols[1]),
            word_from_bytes(cols[2]),
            word_from_bytes(cols[3]),
        ];
        let ghost s = inv_mix_columns_spec(words_state(words@));
        assert forall|c: int| 0 <= c < 4 implies r@[c] == inv_mix_words(words@)[c] by {
            assert(cols@[c][0] == s[4 * c]);
            assert(cols@[c][1] == s[4 * c + 1]);
            assert(cols@[c][2] == s[4 * c + 2]);
            assert(cols@[c][3] == s[4 * c + 3]);
        }
        assert(r@ =~= inv_mix_words(words@));
        r
    }

    /// The byte of `word` at position `pos`, counted from the least significant byte.
    pub fn get_byte_from_word(word: Word, pos: usize) -> (r: u8)
        requires
            pos < 4,
        ensures
            r == word_byte(word, 3 - pos),
    {
        let divisor: u32 = if pos == 0 {
            1
        } else if pos == 1 {
            0x100
        } else if pos == 2 {
            0x10000
        } else {
            0x1000000
        };
        (word / divisor % 0x100) as u8
    }

    /// The S-box entry for `value`.
    pub fn apply_s_box(value: u8) -> (r: u8)
        ensures
            r == S_BOX[value as int],
    {
        S_BOX[value as usize]
    }
}

} // verus!
