use vstd::prelude::*;

verus! {

/// Number of leading non-zero bytes of `b`: the index of its first zero byte, or its length.
pub open spec fn unpadded_len(b: Seq<u8>) -> nat
    decreases b.len(),
{
    if b.len() == 0 || b[0] == 0 {
        0
    } else {
        1 + unpadded_len(b.subrange(1, b.len() as int))
    }
}

/// `b` cut at its first zero byte.
pub open spec fn strip_padding(b: Seq<u8>) -> Seq<u8> {
    b.take(unpadded_len(b) as int)
}

/// The bytes of `chunks` one after the other.
pub open spec fn concat_chunks(chunks: Seq<[u8; 16]>) -> Seq<u8>
    decreases chunks.len(),
{
    if chunks.len() == 0 {
        Seq::empty()
    } else {
        concat_chunks(chunks.drop_last()) + chunks.last()@
    }
}

/// The bytes of `chunks` one after the other, the last chunk cut at its first zero byte when
/// `strip_last` is set.
pub open spec fn chunks_bytes(chunks: Seq<[u8; 16]>, strip_last: bool) -> Seq<u8> {
    if strip_last && chunks.len() > 0 {
        concat_chunks(chunks.drop_last()) + strip_padding(chunks.last()@)
    } else {
        concat_chunks(chunks)
    }
}

/// `p` is the index of the first zero byte of `b`, or its length when it has none.
pub proof fn lemma_unpadded_len(b: Seq<u8>, p: int)
    requires
        0 <= p <= b.len(),
        forall|j: int| 0 <= j < p ==> b[j] != 0,
        p == b.len() || b[p] == 0,
    ensures
        unpadded_len(b) == p,
    decreases p,
{
    if p > 0 {
        let t = b.subrange(1, b.len() as int);
        lemma_unpadded_len(t, p - 1);
    }
}

/// Writes 16-byte chunks to an in-memory sink, optionally cutting the final chunk of the stream
/// at its first zero byte.
pub struct ChunkWriter {
    output: Vec<u8>,
    remove_padding: bool,
}

impl ChunkWriter {
    /// The bytes written so far, after what the sink held at the start.
    pub closed spec fn written(&self) -> Seq<u8> {
        self.output@
    }

    /// Whether the final chunk is cut at its first zero byte.
    pub closed spec fn removes_padding(&self) -> bool {
        self.remove_padding
    }

    /// A writer that appends to `output`.
    pub fn new(output: Vec<u8>, remove_padding: bool) -> (r: Self)
        ensures
            r.written() == output@,
            r.removes_padding() == remove_padding,
    {
        ChunkWriter { output, remove_padding }
    }

    /// The sink, with all that was written to it.
    pub fn into_output(self) -> (r: Vec<u8>)
        ensures
            r@ == self.written(),
    {
        self.output
    }

    /// Writes `chunks` in order. When `last` is set they end the stream, and if this writer
    /// removes padding, the final one is cut at its first zero byte.
    pub fn write_chunks(&mut self, chunks: &[[u8; 16]], last: bool)
        ensures
            final(self).removes_padding() == old(self).removes_padding(),
            final(self).written() == old(self).written() + chunks_bytes(
                chunks@,
                last && old(self).removes_padding(),
            ),
    {
        let mut i: usize = 0;
        let n = chunks.len();
        while i < n
            invariant
                n == chunks@.len(),
                i <= n,
                self.remove_padding == old(self).remove_padding,
                self.written() == old(self).written() + concat_chunks(chunks@.take(i as int)),
                (last && self.remove_padding && n > 0) ==> i < n,
            decreases n - i,
        {
            let strip = last && i + 1 == n;
            if strip && self.remove_padding {
                proof {
                    assert(chunks@.take(i as int) =~= chunks@.drop_last());
                }
                self.write_chunk(&chunks[i], true);
                assert(self.written() =~= old(self).written() + chunks_bytes(chunks@, true));
                return;
            }
            self.write_chunk(&chunks[i], false);
            proof {
                assert(chunks@.take(i + 1) =~= chunks@.take(i as int).push(chunks@[i as int]));
                assert(chunks@.take(i + 1).drop_last() =~= chunks@.take(i as int));
            }
            i += 1;
        }
        assert(chunks@.take(n as int) =~= chunks@);
        proof {
            if last && self.remove_padding {
                assert(n == 0);
            }
        }
    }

    /// Writes one chunk, cut at its first zero byte when `strip` is set.
    fn write_chunk(&mut self, chunk: &[u8; 16], strip: bool)
        ensures
            final(self).remove_padding == old(self).remove_padding,
            final(self).written() == old(self).written() + if strip {
                strip_padding(chunk@)
            } else {
                chunk@
            },
    {
        if strip {
            self.write_chunk_without_padding(chunk);
        } else {
            self.write_bytes(chunk, 16);
        }
    }

    /// Writes the bytes of `chunk` that come before its first zero byte.
    fn write_chunk_without_padding(&mut self, chunk: &[u8; 16])
        ensures
            final(self).remove_padding == old(self).remove_padding,
            final(self).written() == old(self).written() + strip_padding(chunk@),
    {
        let mut padding_pos: usize = 0;
        while padding_pos < 16 && chunk[padding_pos] != 0
            invariant
                padding_pos <= 16,
                forall|j: int| 0 <= j < padding_pos ==> chunk@[j] != 0,
            decreases 16 - padding_pos,
        {
            padding_pos += 1;
        }
        proof {
            lemma_unpadded_len(chunk@, padding_pos as int);
        }
        self.write_bytes(chunk, padding_pos);
    }

    /// Appends the first `len` bytes of `chunk` to the sink.
    fn write_bytes(&mut self, chunk: &[u8; 16], len: usize)
        requires
            len <= 16,
        ensures
            final(self).remove_padding == old(self).remove_padding,
            final(self).written() == old(self).written() + chunk@.take(len as int),
    {
        let mut i: usize = 0;
        while i < len
            invariant
                len <= 16,
                i <= len,
                self.remove_padding == old(self).remove_padding,
                self.written() == old(self).written() + chunk@.take(i as int),
            decreases len - i,
        {
            self.output.push(chunk[i]);
            assert(chunk@.take(i + 1) =~= chunk@.take(i as int).push(chunk@[i as int]));
            i += 1;
        }
        assert(chunk@.take(16) =~= chunk@);
    }
}

} // verus!
