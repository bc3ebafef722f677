use vstd::math::min;
use vstd::prelude::*;

verus! {

/// The bytes of a chunk slot after a fill: the first `min(size, data.len())` bytes come from
/// `data`; when `data` runs out before `size` bytes and `pad` is set, the rest of the first
/// `size` bytes are zero; every other byte keeps its value in `old`.
pub open spec fn filled_chunk(old: Seq<u8>, data: Seq<u8>, size: nat, pad: bool) -> Seq<u8> {
    let n = if data.len() < size { data.len() } else { size };
    Seq::new(
        16,
        |j: int|
            if j < n {
                data[j]
            } else if pad && n < size && j < size {
                0u8
            } else {
                old[j]
            },
    )
}

/// Number of chunks of `size` bytes that `len` bytes fill, the last one possibly short.
pub open spec fn chunks_for(len: nat, size: nat) -> nat
    recommends
        size > 0,
{
    ((len + size - 1) / size as int) as nat
}

/// Reads an in-memory byte source in fixed-size chunks, optionally zero-padding the last one.
pub struct ChunkReader {
    input: Vec<u8>,
    pos: usize,
    chunk_size: usize,
    with_padding: bool,
}

impl ChunkReader {
    /// All the bytes of the source.
    pub closed spec fn source(&self) -> Seq<u8> {
        self.input@
    }

    /// How many bytes of the source have been read.
    pub closed spec fn position(&self) -> nat {
        self.pos as nat
    }

    /// The number of bytes in a chunk.
    pub closed spec fn size(&self) -> nat {
        self.chunk_size as nat
    }

    /// Whether a short last chunk is completed with zeros.
    pub closed spec fn padded(&self) -> bool {
        self.with_padding
    }

    pub closed spec fn wf(&self) -> bool {
        &&& 1 <= self.chunk_size <= 16
        &&& self.pos <= self.input@.len()
    }

    pub proof fn lemma_wf(&self)
        requires
            self.wf(),
        ensures
            self.position() <= self.source().len(),
            1 <= self.size() <= 16,
    {
    }

    /// The bytes not read yet.
    pub open spec fn remaining(&self) -> Seq<u8> {
        self.source().subrange(self.position() as int, self.source().len() as int)
    }

    /// A reader at the start of `input`, handing out chunks of `chunk_size` bytes.
    pub fn new(input: Vec<u8>, chunk_size: usize, with_padding: bool) -> (r: Self)
        requires
            1 <= chunk_size <= 16,
        ensures
            r.wf(),
            r.source() == input@,
            r.position() == 0,
            r.size() == chunk_size,
            r.padded() == with_padding,
    {
        ChunkReader { input, pos: 0, chunk_size, with_padding }
    }

    /// Whether every byte of the source has been read.
    pub fn is_exhausted(&self) -> (r: bool)
        requires
            self.wf(),
        ensures
            r == (self.remaining().len() == 0),
    {
        self.pos == self.input.len()
    }

    /// Fills at most `chunks_amount` slots of `buffer`, one chunk each, and returns how many were
    /// filled. It stops early at the end of the source: after a short chunk, or on finding nothing
    /// left for the next slot, which is then still padded (so cleared) when padding is on.
    pub fn read_chunks(&mut self, chunks_amount: usize, buffer: &mut [[u8; 16]]) -> (r: usize)
        requires
            old(self).wf(),
            chunks_amount <= old(buffer)@.len(),
        ensures
            final(self).wf(),
            final(self).source() == old(self).source(),
            final(self).size() == old(self).size(),
            final(self).padded() == old(self).padded(),
            r == min(chunks_amount as int, chunks_for(old(self).remaining().len(), old(self).size()) as int),
            final(self).position() == old(self).position() + min(
                old(self).remaining().len() as int,
                r * old(self).size(),
            ),
            final(buffer)@.len() == old(buffer)@.len(),
            forall|k: int|
                0 <= k < old(buffer)@.len() ==> #[trigger] final(buffer)@[k]@ == if k < r || (k == r
                    && r < chunks_amount && r * old(self).size() == old(self).remaining().len()) {
                    filled_chunk(
                        old(buffer)@[k]@,
                        old(self).remaining().subrange(
                            k * old(self).size(),
                            old(self).remaining().len() as int,
                        ),
                        old(self).size(),
                        old(self).padded(),
                    )
                } else {
                    old(buffer)@[k]@
                },
    {
        let ghost rem = old(self).remaining();
        let ghost cs = self.chunk_size as int;
        let ghost start = self.pos as int;
        let mut chunks_filled: usize = 0;
        while chunks_filled < chunks_amount
            invariant
                self.wf(),
                self.input@ == old(self).input@,
                self.chunk_size == old(self).chunk_size,
                self.with_padding == old(self).with_padding,
                rem == old(self).remaining(),
                cs == self.chunk_size,
                start == old(self).pos,
                chunks_amount <= buffer@.len(),
                buffer@.len() == old(buffer)@.len(),
                chunks_filled <= chunks_amount,
                chunks_filled * cs <= rem.len(),
                self.pos == start + chunks_filled * cs,
                forall|k: int|
                    0 <= k < buffer@.len() ==> #[trigger] buffer@[k]@ == if k < chunks_filled {
                        filled_chunk(
                            old(buffer)@[k]@,
                            rem.subrange(k * cs, rem.len() as int),
                            cs as nat,
                            self.with_padding,
                        )
                    } else {
                        old(buffer)@[k]@
                    },
            decreases chunks_amount - chunks_filled,
        {
            let ghost k = chunks_filled as int;
            assert(self.remaining() =~= rem.subrange(k * cs, rem.len() as int));
            let mut chunk = buffer[chunks_filled];
            let n = self.fill_chunk(&mut chunk);
            buffer[chunks_filled] = chunk;
            if n == 0 {
                assert(k * cs == rem.len());
                assert(chunks_for(rem.len(), cs as nat) == k) by (nonlinear_arith)
                    requires
                        k * cs == rem.len(),
                        cs >= 1,
                ;
                return chunks_filled;
            }
            chunks_filled += 1;
            assert(chunks_filled * cs == k * cs + cs) by (nonlinear_arith)
                requires
                    chunks_filled == k + 1,
            ;
            if n < self.chunk_size {
                assert(chunks_for(rem.len(), cs as nat) == k + 1) by (nonlinear_arith)
                    requires
                        rem.len() == k * cs + n,
                        0 < n < cs,
                ;
                return chunks_filled;
            }
        }
        assert(chunks_for(rem.len(), cs as nat) >= chunks_amount) by (nonlinear_arith)
            requires
                chunks_amount * cs <= rem.len(),
                cs >= 1,
        ;
        chunks_filled
    }

    /// Copies the next chunk of the source into `buffer` and returns how many bytes it had.
    fn fill_chunk(&mut self, buffer: &mut [u8; 16]) -> (n: usize)
        requires
            old(self).wf(),
        ensures
            final(self).wf(),
            final(self).input@ == old(self).input@,
            final(self).chunk_size == old(self).chunk_size,
            final(self).with_padding == old(self).with_padding,
            n == min(old(self).size() as int, old(self).remaining().len() as int),
            final(self).pos == old(self).pos + n,
            final(buffer)@ == filled_chunk(
                old(buffer)@,
                old(self).remaining(),
                old(self).size(),
                old(self).padded(),
            ),
    {
        let mut bytes_read: usize = 0;
        while bytes_read < self.chunk_size && self.pos < self.input.len()
            invariant
                self.wf(),
                self.input@ == old(self).input@,
                self.chunk_size == old(self).chunk_size,
                self.with_padding == old(self).with_padding,
                bytes_read <= self.chunk_size,
                self.pos == old(self).pos + bytes_read,
                forall|j: int|
                    0 <= j < 16 ==> #[trigger] buffer@[j] == if j < bytes_read {
                        old(self).remaining()[j]
                    } else {
                        old(buffer)@[j]
                    },
            decreases self.chunk_size - bytes_read,
        {
            buffer[bytes_read] = self.input[self.pos];
            self.pos += 1;
            bytes_read += 1;
        }
        if bytes_read < self.chunk_size && self.with_padding {
            self.apply_null_padding(bytes_read, buffer);
        }
        assert(buffer@ =~= filled_chunk(
            old(buffer)@,
            old(self).remaining(),
            old(self).size(),
            old(self).padded(),
        ));
        bytes_read
    }

    /// Sets bytes `from` up to the chunk size to zero.
    fn apply_null_padding(&self, from: usize, buffer: &mut [u8; 16])
        requires
            self.wf(),
            from <= self.chunk_size,
        ensures
            forall|j: int|
                0 <= j < 16 ==> #[trigger] final(buffer)@[j] == if from <= j < self.chunk_size {
                    0u8
                } else {
                    old(buffer)@[j]
                },
    {
        let mut i: usize = from;
        while i < self.chunk_size
            invariant
                self.wf(),
                from <= i <= self.chunk_size,
                forall|j: int|
                    0 <= j < 16 ==> #[trigger] buffer@[j] == if from <= j < i {
                        0u8
                    } else {
                        old(buffer)@[j]
                    },
            decreases self.chunk_size - i,
        {
            buffer[i] = 0;
            i += 1;
        }
    }
}

} // verus!
