use vstd::prelude::*;

use rayon::iter::{IntoParallelRefIterator, ParallelIterator};

use crate::aes_block_cipher::{
    be_bytes, decrypt_block_spec, encrypt_block_spec, lemma_block_len, lemma_decrypt_encrypt_block,
    AESBlockCipher,
};
use crate::chunk_reader::{chunks_for, filled_chunk, ChunkReader};
use crate::chunk_writer::{
    chunks_bytes, concat_chunks, lemma_unpadded_len, strip_padding, ChunkWriter,
};

verus! {

/// Number of blocks read, transformed and written per batch.
pub const BUFFER_SIZE: usize = 8192;

/// rayon's pool of worker threads, carried as an opaque value.
#[verifier::external_type_specification]
#[verifier::external_body]
pub struct ExThreadPool(rayon::ThreadPool);

/// Block `k` of the stream `s`: its bytes 16k..16k+16, with zeros past the end of `s`.
pub open spec fn padded_block(s: Seq<u8>, k: int) -> Seq<u8> {
    Seq::new(16, |j: int| if 16 * k + j < s.len() { s[16 * k + j] } else { 0u8 })
}

/// Block `k` of the stream `c`: its bytes 16k..16k+16.
pub open spec fn stream_block(c: Seq<u8>, k: int) -> Seq<u8> {
    c.subrange(16 * k, 16 * k + 16)
}

/// The encryption of the stream `s`: each block of `s`, the last one zero-padded to 16 bytes,
/// encrypted on its own, in order.
pub open spec fn encrypt_stream(key: Seq<u8>, s: Seq<u8>) -> Seq<u8> {
    Seq::new(
        16 * chunks_for(s.len(), 16),
        |i: int| encrypt_block_spec(key, padded_block(s, i / 16))[i % 16],
    )
}

/// The decryptions of the first `n` blocks of `c`, in order.
pub open spec fn decrypt_blocks(key: Seq<u8>, c: Seq<u8>, n: nat) -> Seq<u8> {
    Seq::new(16 * n, |i: int| decrypt_block_spec(key, stream_block(c, i / 16))[i % 16])
}

/// The decryption of the stream `c`, whose length is a multiple of 16: each block decrypted on
/// its own, in order, and the last one cut at its first zero byte.
pub open spec fn decrypt_stream(key: Seq<u8>, c: Seq<u8>) -> Seq<u8> {
    let n = c.len() / 16;
    if n == 0 {
        Seq::empty()
    } else {
        decrypt_blocks(key, c, (n - 1) as nat) + strip_padding(
            decrypt_block_spec(key, stream_block(c, n - 1)),
        )
    }
}

/// The bytes of `chunks` one after the other: chunk `i / 16`, byte `i % 16`.
pub proof fn lemma_concat_chunks(chunks: Seq<[u8; 16]>)
    ensures
        concat_chunks(chunks).len() == 16 * chunks.len(),
        forall|i: int|
            0 <= i < 16 * chunks.len() ==> #[trigger] concat_chunks(chunks)[i] == chunks[i / 16]@[i
                % 16],
    decreases chunks.len(),
{
    if chunks.len() > 0 {
        lemma_concat_chunks(chunks.drop_last());
    }
}

/// No byte of the final block of `s` (from the last multiple of 16 below its length) is zero.
pub open spec fn last_block_has_no_zero(s: Seq<u8>) -> bool {
    forall|i: int| 16 * ((s.len() - 1) / 16) <= i < s.len() ==> #[trigger] s[i] != 0
}

/// Decrypting the encryption of a stream gives back the stream, provided its final block holds
/// no zero byte: the padding is removed by cutting that block at its first zero byte.
pub proof fn lemma_stream_round_trip(key: Seq<u8>, s: Seq<u8>)
    requires
        key.len() == 16,
        last_block_has_no_zero(s),
    ensures
        decrypt_stream(key, encrypt_stream(key, s)) == s,
{
    let c = encrypt_stream(key, s);
    let m = chunks_for(s.len(), 16);
    assert(c.len() / 16 == m && c.len() % 16 == 0);
    assert forall|k: int| 0 <= k < m implies #[trigger] decrypt_block_spec(key, stream_block(c, k))
        == padded_block(s, k) by {
        lemma_block_len(key, padded_block(s, k));
        assert(stream_block(c, k) =~= encrypt_block_spec(key, padded_block(s, k))) by {
            assert forall|j: int| 0 <= j < 16 implies stream_block(c, k)[j] == encrypt_block_spec(
                key,
                padded_block(s, k),
            )[j] by {
                assert((16 * k + j) / 16 == k && (16 * k + j) % 16 == j);
            }
        }
        lemma_decrypt_encrypt_block(key, padded_block(s, k));
    }
    if m > 0 {
        let q = 16 * (m - 1);
        assert(q < s.len() && s.len() <= q + 16);
        assert(decrypt_blocks(key, c, (m - 1) as nat) =~= s.take(q)) by {
            assert forall|i: int| 0 <= i < q implies decrypt_blocks(key, c, (m - 1) as nat)[i]
                == s[i] by {
                assert(0 <= i / 16 < m);
                assert(16 * (i / 16) + i % 16 == i);
            }
        }
        let last = padded_block(s, m - 1);
        assert(16 * ((s.len() - 1) / 16) == q);
        lemma_unpadded_len(last, s.len() - q);
        assert(strip_padding(last) =~= s.subrange(q, s.len() as int));
        assert(decrypt_stream(key, c) =~= s);
    } else {
        assert(s.len() == 0);
        assert(decrypt_stream(key, c) =~= s);
    }
}

/// Block `k` of the result of a stream transform of `s`: the encryption of its zero-padded
/// block `k`, or the decryption of its block `k`.
pub open spec fn out_block(key: Seq<u8>, s: Seq<u8>, k: int, decrypt: bool) -> Seq<u8> {
    if decrypt {
        decrypt_block_spec(key, stream_block(s, k))
    } else {
        encrypt_block_spec(key, padded_block(s, k))
    }
}

/// `out` holds `start` followed by the first `blocks` blocks of the transform of `s`.
pub open spec fn holds_blocks(
    out: Seq<u8>,
    start: Seq<u8>,
    key: Seq<u8>,
    s: Seq<u8>,
    blocks: nat,
    decrypt: bool,
) -> bool {
    &&& out.len() == start.len() + 16 * blocks
    &&& out.subrange(0, start.len() as int) == start
    &&& forall|i: int|
        0 <= i < 16 * blocks ==> #[trigger] out[start.len() + i] == out_block(
            key,
            s,
            i / 16,
            decrypt,
        )[i % 16]
}

/// A chunk read at a block boundary of `s`: the zero-padded block of `s` there when padding is
/// on, and the block itself when it is full.
proof fn lemma_read_chunk(s: Seq<u8>, pos: int, k: int, old: Seq<u8>, pad: bool)
    requires
        0 <= pos <= s.len(),
        pos % 16 == 0,
        0 <= 16 * k < s.len() - pos,
        pad || 16 * k + 16 <= s.len() - pos,
    ensures
        filled_chunk(old, s.subrange(pos, s.len() as int).subrange(16 * k, s.len() - pos), 16, pad)
            == if pad {
            padded_block(s, pos / 16 + k)
        } else {
            stream_block(s, pos / 16 + k)
        },
{
    let c = filled_chunk(
        old,
        s.subrange(pos, s.len() as int).subrange(16 * k, s.len() - pos),
        16,
        pad,
    );
    if pad {
        assert(c =~= padded_block(s, pos / 16 + k));
    } else {
        assert(c =~= stream_block(s, pos / 16 + k));
    }
}

/// Appending the next transformed blocks extends what `holds_blocks` states.
proof fn lemma_holds_blocks_append(
    before: Seq<u8>,
    start: Seq<u8>,
    key: Seq<u8>,
    s: Seq<u8>,
    blocks: nat,
    next: Seq<[u8; 16]>,
    decrypt: bool,
)
    requires
        holds_blocks(before, start, key, s, blocks, decrypt),
        forall|k: int|
            0 <= k < next.len() ==> #[trigger] next[k]@ == out_block(key, s, blocks + k, decrypt),
    ensures
        holds_blocks(before + concat_chunks(next), start, key, s, blocks + next.len(), decrypt),
{
    lemma_concat_chunks(next);
    let after = before + concat_chunks(next);
    assert(after.subrange(0, start.len() as int) =~= before.subrange(0, start.len() as int));
    assert forall|i: int| 0 <= i < 16 * (blocks + next.len()) implies #[trigger] after[start.len()
        + i] == out_block(key, s, i / 16, decrypt)[i % 16] by {
        if i >= 16 * blocks {
            let j = i - 16 * blocks;
            assert(after[start.len() + i] == concat_chunks(next)[j]);
            assert(i / 16 == blocks + j / 16 && i % 16 == j % 16);
        }
    }
}

/// What `holds_blocks` states, as one sequence.
proof fn lemma_holds_blocks_seq(
    out: Seq<u8>,
    start: Seq<u8>,
    key: Seq<u8>,
    s: Seq<u8>,
    blocks: nat,
    decrypt: bool,
)
    requires
        holds_blocks(out, start, key, s, blocks, decrypt),
    ensures
        out == start + Seq::new(16 * blocks, |i: int| out_block(key, s, i / 16, decrypt)[i % 16]),
{
    let e = Seq::new(16 * blocks, |i: int| out_block(key, s, i / 16, decrypt)[i % 16]);
    assert forall|i: int| 0 <= i < out.len() implies #[trigger] out[i] == (start + e)[i] by {
        if i < start.len() {
            assert(out[i] == out.subrange(0, start.len() as int)[i]);
        } else {
            assert(out[start.len() + (i - start.len())] == e[i - start.len()]);
        }
    }
    assert(out =~= start + e);
}

/// Writing the decryptions of the last blocks of a stream of whole blocks, the final one cut at
/// its first zero byte, completes its decryption.
proof fn lemma_decrypt_last_batch(
    before: Seq<u8>,
    start: Seq<u8>,
    key: Seq<u8>,
    s: Seq<u8>,
    blocks: nat,
    d: Seq<[u8; 16]>,
)
    requires
        holds_blocks(before, start, key, s, blocks, true),
        s.len() % 16 == 0,
        d.len() > 0,
        blocks + d.len() == s.len() / 16,
        forall|k: int| 0 <= k < d.len() ==> #[trigger] d[k]@ == out_block(key, s, blocks + k, true),
    ensures
        before + chunks_bytes(d, true) == start + decrypt_stream(key, s),
{
    let m = s.len() / 16;
    let x = concat_chunks(d.drop_last());
    let y = strip_padding(d.last()@);
    let db = decrypt_blocks(key, s, (m - 1) as nat);
    lemma_holds_blocks_append(before, start, key, s, blocks, d.drop_last(), true);
    lemma_holds_blocks_seq(before + x, start, key, s, (m - 1) as nat, true);
    assert(Seq::new(16 * ((m - 1) as nat), |i: int| out_block(key, s, i / 16, true)[i % 16])
        =~= db);
    assert(before + x == start + db);
    assert(d.last()@ == decrypt_block_spec(key, stream_block(s, m - 1)));
    assert(chunks_bytes(d, true) == x + y);
    assert(decrypt_stream(key, s) == db + y);
    assert(before + (x + y) =~= (before + x) + y);
    assert(start + (db + y) =~= (start + db) + y);
}

/// Relies on rayon's `ThreadPoolBuilder::new`, `num_threads` and `build`: a pool of `n_threads`
/// workers (0 leaves the number to rayon), or the reason it could not be built.
#[verifier::external_body]
fn create_thread_pool(n_threads: usize) -> (r: Result<rayon::ThreadPool, String>) {
    rayon::ThreadPoolBuilder::new().num_threads(n_threads).build().map_err(
        |e| format!("Error while creating thread pool: {}", e),
    )
}

/// Relies on rayon's `ThreadPool::install`, which runs the closure on the pool and returns its
/// result, and on collecting `par_iter().map(..)` over a slice into a `Vec`: the iterator has a
/// known length, so `Vec::par_extend` puts the image of element i at index i.
#[verifier::external_body]
fn par_cipher_blocks(
    pool: &rayon::ThreadPool,
    cipher: &AESBlockCipher,
    chunks: &[[u8; 16]],
    n: usize,
) -> (r: Vec<[u8; 16]>)
    requires
        cipher.wf(),
        n <= chunks@.len(),
    ensures
        r@.len() == n,
        forall|i: int| 0 <= i < n ==> #[trigger] r@[i]@ == encrypt_block_spec(cipher@, chunks@[i]@),
{
    pool.install(|| chunks[..n].par_iter().map(|block| cipher.cipher_block(block)).collect())
}

/// Relies on rayon's `ThreadPool::install`, which runs the closure on the pool and returns its
/// result, and on collecting `par_iter().map(..)` over a slice into a `Vec`: the iterator has a
/// known length, so `Vec::par_extend` puts the image of element i at index i.
#[verifier::external_body]
fn par_inv_cipher_blocks(
    pool: &rayon::ThreadPool,
    cipher: &AESBlockCipher,
    chunks: &[[u8; 16]],
    n: usize,
) -> (r: Vec<[u8; 16]>)
    requires
        cipher.wf(),
        n <= chunks@.len(),
    ensures
        r@.len() == n,
        forall|i: int| 0 <= i < n ==> #[trigger] r@[i]@ == decrypt_block_spec(cipher@, chunks@[i]@),
{
    pool.install(|| chunks[..n].par_iter().map(|block| cipher.inv_cipher_block(block)).collect())
}

/// Encrypts and decrypts byte streams block by block, transforming each batch of blocks on a
/// pool of worker threads.
pub struct AESCipher {
    block_cipher: AESBlockCipher,
    thread_pool: rayon::ThreadPool,
    buffer: Vec<[u8; 16]>,
}

impl View for AESCipher {
    type V = Seq<u8>;

    /// The cipher key.
    closed spec fn view(&self) -> Seq<u8> {
        self.block_cipher@
    }
}

impl AESCipher {
    pub closed spec fn wf(&self) -> bool {
        &&& self.block_cipher.wf()
        &&& self.buffer@.len() == BUFFER_SIZE
    }

    /// A cipher for the key whose big-endian bytes are `cipher_key`, with a pool of `n_threads`
    /// workers; fails when the pool cannot be built.
    pub fn new(cipher_key: u128, n_threads: usize) -> (r: Result<Self, String>)
        ensures
            r matches Ok(c) ==> c.wf() && c@ == be_bytes(cipher_key as nat, 16),
    {
        let block_cipher = AESBlockCipher::new_u128(cipher_key);
        match create_thread_pool(n_threads) {
            Ok(thread_pool) => {
                let buffer = vec![[0u8; 16]; BUFFER_SIZE];
                Ok(Self { block_cipher, thread_pool, buffer })
            },
            Err(e) => Err(e),
        }
    }

    /// Encrypts one block.
    pub fn cipher_block(&self, data_in: &[u8; 16]) -> (r: [u8; 16])
        requires
            self.wf(),
        ensures
            r@ == encrypt_block_spec(self@, data_in@),
    {
        self.block_cipher.cipher_block(data_in)
    }

    /// Decrypts one block.
    pub fn inv_cipher_block(&self, data_in: &[u8; 16]) -> (r: [u8; 16])
        requires
            self.wf(),
        ensures
            r@ == decrypt_block_spec(self@, data_in@),
    {
        self.block_cipher.inv_cipher_block(data_in)
    }

    /// Encrypts the first `n` blocks of `chunks` on the pool, keeping their order.
    pub fn cipher_blocks(&self, chunks: &[[u8; 16]], n: usize) -> (r: Vec<[u8; 16]>)
        requires
            self.wf(),
            n <= chunks@.len(),
        ensures
            r@.len() == n,
            forall|i: int| 0 <= i < n ==> #[trigger] r@[i]@ == encrypt_block_spec(self@, chunks@[i]@),
    {
        par_cipher_blocks(&self.thread_pool, &self.block_cipher, chunks, n)
    }

    /// Decrypts the first `n` blocks of `chunks` on the pool, keeping their order.
    pub fn decipher_blocks(&self, chunks: &[[u8; 16]], n: usize) -> (r: Vec<[u8; 16]>)
        requires
            self.wf(),
            n <= chunks@.len(),
        ensures
            r@.len() == n,
            forall|i: int| 0 <= i < n ==> #[trigger] r@[i]@ == decrypt_block_spec(self@, chunks@[i]@),
    {
        par_inv_cipher_blocks(&self.thread_pool, &self.block_cipher, chunks, n)
    }

    /// Encrypts the stream `input` and appends the result to `output`: the last block is
    /// zero-padded to 16 bytes.
    pub fn cipher(&mut self, input: Vec<u8>, output: &mut Vec<u8>)
        requires
            old(self).wf(),
        ensures
            final(self).wf(),
            final(self)@ == old(self)@,
            final(output)@ == old(output)@ + encrypt_stream(old(self)@, input@),
    {
        let ghost key = self@;
        let ghost s = input@;
        let ghost start = output@;
        let mut chunk_reader = ChunkReader::new(input, 16, true);
        let mut out: Vec<u8> = Vec::new();
        std::mem::swap(&mut out, output);
        let mut chunk_writer = ChunkWriter::new(out, false);
        let ghost mut blocks: nat = 0;
        assert(chunk_writer.written().subrange(0, start.len() as int) =~= start);
        loop
            invariant
                self.wf(),
                self@ == key,
                chunk_reader.wf(),
                chunk_reader.source() == s,
                chunk_reader.size() == 16,
                chunk_reader.padded(),
                !chunk_writer.removes_padding(),
                blocks == chunks_for(chunk_reader.position(), 16),
                chunk_reader.position() % 16 == 0 || chunk_reader.position() == s.len(),
                holds_blocks(chunk_writer.written(), start, key, s, blocks, false),
            ensures
                self.wf(),
                self@ == key,
                blocks == chunks_for(s.len(), 16),
                holds_blocks(chunk_writer.written(), start, key, s, blocks, false),
            decreases s.len() - chunk_reader.position(),
        {
            let ghost pos = chunk_reader.position() as int;
            let ghost rem = chunk_reader.remaining();
            proof {
                chunk_reader.lemma_wf();
            }
            let ghost old_buf = self.buffer@;
            let chunks_filled = chunk_reader.read_chunks(BUFFER_SIZE, self.buffer.as_mut_slice());
            if chunks_filled == 0 {
                assert(rem.len() == 0) by (nonlinear_arith)
                    requires
                        chunks_for(rem.len(), 16) == 0,
                ;
                assert(chunk_reader.position() == pos);
                break;
            }
            proof {
                assert(rem.len() > 0) by (nonlinear_arith)
                    requires
                        chunks_for(rem.len(), 16) >= 1,
                ;
                assert(pos % 16 == 0);
                assert forall|k: int| 0 <= k < chunks_filled implies #[trigger] self.buffer@[k]@
                    == padded_block(s, blocks + k) by {
                    assert(16 * k < rem.len()) by (nonlinear_arith)
                        requires
                            0 <= k < chunks_filled,
                            chunks_filled <= chunks_for(rem.len(), 16),
                    ;
                    lemma_read_chunk(s, pos, k, old_buf[k]@, true);
                    assert(pos / 16 == blocks);
                }
            }
            let ciphered_chunks = self.cipher_blocks(self.buffer.as_slice(), chunks_filled);
            let ghost before = chunk_writer.written();
            chunk_writer.write_chunks(ciphered_chunks.as_slice(), false);
            proof {
                lemma_holds_blocks_append(before, start, key, s, blocks, ciphered_chunks@, false);
                blocks = (blocks + chunks_filled) as nat;
                assert(blocks == chunks_for(chunk_reader.position(), 16)) by (nonlinear_arith)
                    requires
                        blocks == (pos / 16) + chunks_filled,
                        pos % 16 == 0,
                        chunk_reader.position() == pos + if rem.len() < chunks_filled * 16 {
                            rem.len() as int
                        } else {
                            chunks_filled * 16
                        },
                        chunks_filled <= chunks_for(rem.len(), 16),
                        chunks_filled >= 1,
                ;
            }
        }
        let ghost written = chunk_writer.written();
        let mut out = chunk_writer.into_output();
        std::mem::swap(&mut out, output);
        assert(output@ == written);
        proof {
            lemma_holds_blocks_seq(output@, start, key, s, blocks, false);
            assert(output@ =~= start + encrypt_stream(key, s));
        }
    }

    /// Decrypts the stream `input` and appends the result to `output`; the final block of the
    /// stream is cut at its first zero byte. The result is stated for streams made of whole blocks.
    pub fn decipher(&mut self, input: Vec<u8>, output: &mut Vec<u8>)
        requires
            old(self).wf(),
        ensures
            final(self).wf(),
            final(self)@ == old(self)@,
            input@.len() % 16 == 0 ==> final(output)@ == old(output)@ + decrypt_stream(
                old(self)@,
                input@,
            ),
    {
        let ghost key = self@;
        let ghost s = input@;
        let ghost start = output@;
        let ghost whole = s.len() % 16 == 0;
        let mut chunk_reader = ChunkReader::new(input, 16, false);
        let mut out: Vec<u8> = Vec::new();
        std::mem::swap(&mut out, output);
        let mut chunk_writer = ChunkWriter::new(out, true);
        let ghost mut blocks: nat = 0;
        let ghost mut done = false;
        assert(chunk_writer.written().subrange(0, start.len() as int) =~= start);
        loop
            invariant
                self.wf(),
                self@ == key,
                chunk_reader.wf(),
                chunk_reader.source() == s,
                chunk_reader.size() == 16,
                !chunk_reader.padded(),
                chunk_writer.removes_padding(),
                whole == (s.len() % 16 == 0),
                whole ==> chunk_reader.position() == 16 * blocks,
                whole && !done ==> holds_blocks(chunk_writer.written(), start, key, s, blocks, true),
                whole && !done && chunk_reader.position() == s.len() ==> blocks == 0,
                whole && done ==> chunk_reader.position() == s.len() && blocks > 0
                    && chunk_writer.written() == start + decrypt_stream(key, s),
            ensures
                self.wf(),
                self@ == key,
                whole ==> chunk_writer.written() == start + decrypt_stream(key, s),
            decreases s.len() - chunk_reader.position(),
        {
            let ghost pos = chunk_reader.position() as int;
            let ghost rem = chunk_reader.remaining();
            let ghost old_buf = self.buffer@;
            proof {
                chunk_reader.lemma_wf();
            }
            let chunks_filled = chunk_reader.read_chunks(BUFFER_SIZE, self.buffer.as_mut_slice());
            if chunks_filled == 0 {
                assert(rem.len() == 0) by (nonlinear_arith)
                    requires
                        chunks_for(rem.len(), 16) == 0,
                ;
                proof {
                    if whole && !done {
                        lemma_holds_blocks_seq(chunk_writer.written(), start, key, s, blocks, true);
                        assert(blocks == 0);
                        assert(chunk_writer.written() =~= start + decrypt_stream(key, s));
                    }
                }
                break;
            }
            proof {
                assert(rem.len() > 0) by (nonlinear_arith)
                    requires
                        chunks_for(rem.len(), 16) >= 1,
                ;
                if whole {
                    assert(!done);
                    assert(rem.len() % 16 == 0);
                    assert forall|k: int| 0 <= k < chunks_filled implies #[trigger] self.buffer@[k]@
                        == stream_block(s, blocks + k) by {
                        assert(16 * k + 16 <= rem.len()) by (nonlinear_arith)
                            requires
                                0 <= k < chunks_filled,
                                chunks_filled <= chunks_for(rem.len(), 16),
                                rem.len() % 16 == 0,
                        ;
                        lemma_read_chunk(s, pos, k, old_buf[k]@, false);
                    }
                }
            }
            let deciphered_chunks = self.decipher_blocks(self.buffer.as_slice(), chunks_filled);
            let last = chunk_reader.is_exhausted();
            let ghost before = chunk_writer.written();
            chunk_writer.write_chunks(deciphered_chunks.as_slice(), last);
            proof {
                let d = deciphered_chunks@;
                let n = chunks_filled as int;
                if whole {
                    assert(chunk_reader.position() == pos + 16 * n) by (nonlinear_arith)
                        requires
                            chunk_reader.position() == pos + if rem.len() < n * 16 {
                                rem.len() as int
                            } else {
                                n * 16
                            },
                            n <= chunks_for(rem.len(), 16),
                            rem.len() % 16 == 0,
                    ;
                    if last {
                        lemma_decrypt_last_batch(before, start, key, s, blocks, d);
                        done = true;
                    } else {
                        lemma_holds_blocks_append(before, start, key, s, blocks, d, true);
                    }
                }
                blocks = (blocks + chunks_filled) as nat;
            }
        }
        let ghost written = chunk_writer.written();
        let mut out = chunk_writer.into_output();
        std::mem::swap(&mut out, output);
        assert(output@ == written);
    }
}

} // verus!
