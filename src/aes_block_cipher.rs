use vstd::prelude::*;

use crate::aes_key::{
    inv_key_expansion, inv_mix_words, is_inverse_schedule, key_expansion, lemma_inverse_schedule,
    round_key, AESKey, N_R,
};
use crate::constants::INV_S_BOX;
use crate::state::{
    add_round_key_spec, inv_mix_columns_spec, inv_shift_rows_spec, inv_sub_bytes_spec,
    lemma_add_round_key_twice, lemma_add_round_key_xor, lemma_inv_mix_columns,
    lemma_inv_mix_columns_xor, lemma_inv_shift_rows, lemma_inv_sub_bytes,
    lemma_substitute_shift_rows, lemma_words_state_columns, mix_columns_spec, shift_rows_spec,
    sub_bytes_spec, words_state, State,
};
use crate::word::{lemma_word_bytes, word_byte, Word};

verus! {

/// The state after the initial AddRoundKey and forward rounds 1 to `n` (at most 9).
pub open spec fn cipher_rounds(ks: Seq<Word>, s: Seq<u8>, n: nat) -> Seq<u8>
    decreases n,
{
    if n == 0 {
        add_round_key_spec(s, round_key(ks, 0))
    } else {
        add_round_key_spec(
            mix_columns_spec(shift_rows_spec(sub_bytes_spec(cipher_rounds(ks, s, (n - 1) as nat)))),
            round_key(ks, n as int),
        )
    }
}

/// The forward cipher on the state `s` with the schedule `ks`.
pub open spec fn cipher_spec(ks: Seq<Word>, s: Seq<u8>) -> Seq<u8> {
    add_round_key_spec(shift_rows_spec(sub_bytes_spec(cipher_rounds(ks, s, 9))), round_key(ks, 10))
}

/// The state after the initial AddRoundKey of round 10 and inverse rounds 9 down to `n`.
pub open spec fn inv_cipher_rounds(iks: Seq<Word>, s: Seq<u8>, n: nat) -> Seq<u8>
    decreases 10 - n,
{
    if n >= 10 {
        add_round_key_spec(s, round_key(iks, 10))
    } else {
        add_round_key_spec(
            inv_mix_columns_spec(
                inv_shift_rows_spec(inv_sub_bytes_spec(inv_cipher_rounds(iks, s, n + 1))),
            ),
            round_key(iks, n as int),
        )
    }
}

/// The equivalent inverse cipher on the state `s` with the inverse schedule `iks`.
pub open spec fn inv_cipher_spec(iks: Seq<Word>, s: Seq<u8>) -> Seq<u8> {
    add_round_key_spec(
        inv_shift_rows_spec(inv_sub_bytes_spec(inv_cipher_rounds(iks, s, 1))),
        round_key(iks, 0),
    )
}

/// AES-128 encryption of the 16-byte `block` under the 16-byte `key`.
#[verifier::opaque]
pub open spec fn encrypt_block_spec(key: Seq<u8>, block: Seq<u8>) -> Seq<u8> {
    cipher_spec(key_expansion(key), block)
}

/// AES-128 decryption of the 16-byte `block` under the 16-byte `key`.
#[verifier::opaque]
pub open spec fn decrypt_block_spec(key: Seq<u8>, block: Seq<u8>) -> Seq<u8> {
    inv_cipher_spec(inv_key_expansion(key), block)
}

/// One inverse round undoes one forward round: after inverse rounds 10 down to `n`, the state is
/// that of the forward cipher after SubBytes and ShiftRows of round `n`.
proof fn lemma_inv_cipher_rounds(ks: Seq<Word>, iks: Seq<Word>, s: Seq<u8>, n: nat)
    requires
        s.len() == 16,
        1 <= n <= 10,
        is_inverse_schedule(iks, ks),
    ensures
        inv_cipher_rounds(iks, cipher_spec(ks, s), n) == shift_rows_spec(
            sub_bytes_spec(cipher_rounds(ks, s, (n - 1) as nat)),
        ),
    decreases 10 - n,
{
    if n == 10 {
        lemma_add_round_key_twice(
            shift_rows_spec(sub_bytes_spec(cipher_rounds(ks, s, 9))),
            round_key(ks, 10),
        );
    } else {
        lemma_inv_cipher_rounds(ks, iks, s, n + 1);
        let e = cipher_rounds(ks, s, n);
        lemma_substitute_shift_rows(sub_bytes_spec(e), INV_S_BOX@);
        lemma_inv_sub_bytes(e);
        lemma_inv_shift_rows(e);
        assert(inv_shift_rows_spec(inv_sub_bytes_spec(shift_rows_spec(sub_bytes_spec(e)))) == e);
        let y = shift_rows_spec(sub_bytes_spec(cipher_rounds(ks, s, (n - 1) as nat)));
        let k = round_key(ks, n as int);
        let ik = round_key(iks, n as int);
        assert(ik == inv_mix_words(k));
        lemma_add_round_key_xor(mix_columns_spec(y), k);
        lemma_inv_mix_columns_xor(mix_columns_spec(y), words_state(k));
        lemma_inv_mix_columns(y);
        lemma_words_state_columns(inv_mix_columns_spec(words_state(k)));
        lemma_add_round_key_xor(y, ik);
        assert(inv_mix_columns_spec(e) == add_round_key_spec(y, ik));
        lemma_add_round_key_twice(y, ik);
    }
}

/// The equivalent inverse cipher undoes the forward cipher.
pub proof fn lemma_inv_cipher_cipher(ks: Seq<Word>, iks: Seq<Word>, s: Seq<u8>)
    requires
        s.len() == 16,
        is_inverse_schedule(iks, ks),
    ensures
        inv_cipher_spec(iks, cipher_spec(ks, s)) == s,
{
    lemma_inv_cipher_rounds(ks, iks, s, 1);
    let e = cipher_rounds(ks, s, 0);
    lemma_substitute_shift_rows(sub_bytes_spec(e), INV_S_BOX@);
    lemma_inv_sub_bytes(e);
    lemma_inv_shift_rows(e);
    lemma_add_round_key_twice(s, round_key(ks, 0));
}

/// Encryption and decryption give 16-byte blocks.
pub proof fn lemma_block_len(key: Seq<u8>, block: Seq<u8>)
    ensures
        encrypt_block_spec(key, block).len() == 16,
        decrypt_block_spec(key, block).len() == 16,
{
    reveal(encrypt_block_spec);
    reveal(decrypt_block_spec);
}

/// Decrypting the encryption of a block under the same key gives back the block.
pub proof fn lemma_decrypt_encrypt_block(key: Seq<u8>, block: Seq<u8>)
    requires
        key.len() == 16,
        block.len() == 16,
    ensures
        decrypt_block_spec(key, encrypt_block_spec(key, block)) == block,
{
    reveal(encrypt_block_spec);
    reveal(decrypt_block_spec);
    lemma_inverse_schedule(key);
    lemma_inv_cipher_cipher(key_expansion(key), inv_key_expansion(key), block);
}

/// The `n` big-endian bytes of the low `8 * n` bits of `k`.
pub open spec fn be_bytes(k: nat, n: nat) -> Seq<u8>
    decreases n,
{
    if n == 0 {
        Seq::empty()
    } else {
        be_bytes(k / 256, (n - 1) as nat).push((k % 256) as u8)
    }
}

/// Encrypts and decrypts single 16-byte blocks with AES-128.
pub struct AESBlockCipher {
    expanded_key: AESKey,
    inv_expanded_key: AESKey,
}

impl View for AESBlockCipher {
    type V = Seq<u8>;

    /// The cipher key: the bytes of the first four words of the schedule.
    closed spec fn view(&self) -> Seq<u8> {
        Seq::new(16, |i: int| word_byte(self.expanded_key.data@[i / 4], i % 4))
    }
}

impl AESBlockCipher {
    /// Both schedules are those of the cipher key.
    pub closed spec fn wf(&self) -> bool {
        &&& self.expanded_key.data@ == key_expansion(self@)
        &&& self.inv_expanded_key.data@ == inv_key_expansion(self@)
    }

    /// A cipher for the 16-byte key `cipher_key`.
    pub fn new(cipher_key: [u8; 16]) -> (r: Self)
        ensures
            r.wf(),
            r@ == cipher_key@,
    {
        let expanded_key = AESKey::new_direct(cipher_key);
        let inv_expanded_key = AESKey::new_inverse(cipher_key);
        let r = Self { expanded_key, inv_expanded_key };
        let ghost k = cipher_key@;
        assert forall|i: int| 0 <= i < 16 implies #[trigger] r@[i] == k[i] by {
            let c = i / 4;
            reveal_with_fuel(crate::aes_key::expanded_word, 1);
            lemma_word_bytes(0, k[4 * c], k[4 * c + 1], k[4 * c + 2], k[4 * c + 3]);
            assert(i == 4 * c + i % 4);
        }
        assert(r@ =~= k);
        r
    }

    /// A cipher whose key is the big-endian bytes of `cipher_key`.
    pub fn new_u128(cipher_key: u128) -> (r: Self)
        ensures
            r.wf(),
            r@ == be_bytes(cipher_key as nat, 16),
    {
        let mut bytes = [0u8; 16];
        let mut rest: u128 = cipher_key;
        let mut i: usize = 0;
        while i < 16
            invariant
                i <= 16,
                be_bytes(cipher_key as nat, 16) == be_bytes(rest as nat, (16 - i) as nat)
                    + bytes@.subrange(16 - i, 16),
            decreases 16 - i,
        {
            let ghost m = (16 - i) as nat;
            let ghost before = bytes@.subrange(16 - i, 16);
            assert(be_bytes(rest as nat, m) == be_bytes(rest as nat / 256, (m - 1) as nat).push(
                (rest as nat % 256) as u8,
            ));
            bytes[15 - i] = (rest % 256) as u8;
            assert(bytes@.subrange(15 - i, 16) =~= seq![(rest % 256) as u8] + before);
            rest = rest / 256;
            i += 1;
        }
        assert(bytes@.subrange(0, 16) =~= bytes@);
        Self::new(bytes)
    }

    /// Encrypts one block.
    pub fn cipher_block(&self, data_in: &[u8; 16]) -> (r: [u8; 16])
        requires
            self.wf(),
        ensures
            r@ == encrypt_block_spec(self@, data_in@),
    {
        let ghost ks = self.expanded_key.data@;
        let mut data_out = [0u8; 16];
        let mut state = State::new_from_data_in(data_in);
        state.add_round_key(&self.expanded_key.round_key(0));
        let mut round: usize = 1;
        while round < N_R
            invariant
                1 <= round <= N_R,
                ks == self.expanded_key.data@,
                state@ == cipher_rounds(ks, data_in@, (round - 1) as nat),
            decreases N_R - round,
        {
            state.sub_bytes();
            state.shift_rows();
            state.mix_columns();
            state.add_round_key(&self.expanded_key.round_key(round));
            round += 1;
        }
        state.sub_bytes();
        state.shift_rows();
        state.add_round_key(&self.expanded_key.round_key(N_R));
        state.set_data_out(&mut data_out);
        proof {
            reveal(encrypt_block_spec);
        }
        data_out
    }

    /// Decrypts one block with the equivalent inverse cipher.
    pub fn inv_cipher_block(&self, data_in: &[u8; 16]) -> (r: [u8; 16])
        requires
            self.wf(),
        ensures
            r@ == decrypt_block_spec(self@, data_in@),
    {
        let ghost iks = self.inv_expanded_key.data@;
        let mut data_out = [0u8; 16];
        let mut state = State::new_from_data_in(data_in);
        state.add_round_key(&self.inv_expanded_key.round_key(N_R));
        let mut round: usize = N_R - 1;
        while round >= 1
            invariant
                0 <= round < N_R,
                iks == self.inv_expanded_key.data@,
                state@ == inv_cipher_rounds(iks, data_in@, (round + 1) as nat),
            decreases round,
        {
            state.inv_sub_bytes();
            state.inv_shift_rows();
            state.inv_mix_columns();
            state.add_round_key(&self.inv_expanded_key.round_key(round));
            round -= 1;
        }
        state.inv_sub_bytes();
        state.inv_shift_rows();
        state.add_round_key(&self.inv_expanded_key.round_key(0));
        state.set_data_out(&mut data_out);
        proof {
            reveal(decrypt_block_spec);
        }
        data_out
    }
}

} // verus!
