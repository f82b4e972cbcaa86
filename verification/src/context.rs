//! The streaming accumulator: bytes are pushed in over any number of
//! calls, complete chunks are hashed as soon as they fill, and a final
//! digest is drawn once at the end.

use vstd::prelude::*;
use vstd::arithmetic::div_mod::lemma_div_multiples_vanish_fancy;

use crate::digest::Digest;
use crate::hashing::{
    chunk_at, chunk_count_of, combined_up_to, digest_bytes_of, lemma_combined_up_to_stable,
    md5_of_bytes,
};

verus! {

/// The default chunk size: 8 MiB, the usual multipart-upload part size.
pub const DEFAULT_CHUNK_SIZE: usize = 8388608;

/// Appends every byte of `src` to `dst`.
fn push_all(dst: &mut Vec<u8>, src: &[u8])
    ensures
        final(dst)@ == old(dst)@ + src@,
{
    let n = src.len();
    let mut i: usize = 0;
    while i < n
        invariant
            i <= n,
            n == src@.len(),
            dst@ == old(dst)@ + src@.subrange(0, i as int),
        decreases n - i,
    {
        let b = src[i];
        dst.push(b);
        proof {
            assert(old(dst)@ + src@.subrange(0, i as int) + seq![src@[i as int]] =~= old(
                dst,
            )@ + src@.subrange(0, i + 1));
        }
        i = i + 1;
    }
    proof {
        assert(src@.subrange(0, n as int) =~= src@);
    }
}

/// The streaming digest accumulator. It holds the bytes of the chunk
/// now filling and the concatenated hashes of the chunks already
/// completed; `consume` feeds bytes in, `finalize` draws the digest.
pub struct Context {
    combined_hashes: Vec<u8>,
    current_chunk: Vec<u8>,
    chunk_size: usize,
    chunk_count: usize,
    total_bytes: u64,
    seen: Ghost<Seq<u8>>,
}

impl Context {
    /// Every byte consumed so far, in order.
    pub closed spec fn bytes_seen(&self) -> Seq<u8> {
        self.seen@
    }

    /// The chunk size this accumulator was built with.
    pub closed spec fn spec_chunk_size(&self) -> nat {
        self.chunk_size as nat
    }

    /// The accumulator's invariant: the chunk now filling is exactly the
    /// tail of the input past the completed chunks, it is strictly
    /// shorter than a chunk, and the stored hash bytes are the combined
    /// hashes of the completed chunks.
    pub closed spec fn wf(&self) -> bool {
        &&& self.chunk_size > 0
        &&& self.chunk_count * self.chunk_size + self.current_chunk@.len() == self.seen@.len()
        &&& self.current_chunk@.len() < self.chunk_size
        &&& self.current_chunk@ == self.seen@.subrange(
            (self.chunk_count * self.chunk_size) as int,
            self.seen@.len() as int,
        )
        &&& self.combined_hashes@ == combined_up_to(
            self.seen@,
            self.chunk_size as nat,
            self.chunk_count as nat,
        )
        &&& self.combined_hashes@.len() == self.chunk_count * 16
        &&& self.total_bytes == self.seen@.len()
    }

    /// A fresh accumulator with the default 8 MiB chunk size.
    pub fn new() -> (r: Context)
        ensures
            r.wf(),
            r.spec_chunk_size() == DEFAULT_CHUNK_SIZE,
            r.bytes_seen() == Seq::<u8>::empty(),
    {
        Context::with_chunk_size(DEFAULT_CHUNK_SIZE)
    }

    /// A fresh accumulator with the given chunk size, which must be
    /// positive: a zero chunk size has no meaningful chunking.
    pub fn with_chunk_size(chunk_size: usize) -> (r: Context)
        requires
            chunk_size > 0,
        ensures
            r.wf(),
            r.spec_chunk_size() == chunk_size as nat,
            r.bytes_seen() == Seq::<u8>::empty(),
    {
        let r = Context {
            combined_hashes: Vec::new(),
            current_chunk: Vec::with_capacity(chunk_size),
            chunk_size,
            chunk_count: 0,
            total_bytes: 0,
            seen: Ghost(Seq::empty()),
        };
        proof {
            assert(r.chunk_count * r.chunk_size == 0);
            assert(r.current_chunk@ =~= r.seen@.subrange(0, 0));
            assert(r.combined_hashes@ =~= Seq::<u8>::empty());
            assert(r.wf());
        }
        r
    }

    /// A fresh accumulator with the given chunk size, or nothing when
    /// the chunk size is zero: the validated form of construction.
    pub fn try_with_chunk_size(chunk_size: usize) -> (r: Option<Context>)
        ensures
            match r {
                Some(ctx) => {
                    &&& chunk_size > 0
                    &&& ctx.wf()
                    &&& ctx.spec_chunk_size() == chunk_size as nat
                    &&& ctx.bytes_seen() == Seq::<u8>::empty()
                },
                None => chunk_size == 0,
            },
    {
        if chunk_size == 0 {
            None
        } else {
            Some(Context::with_chunk_size(chunk_size))
        }
    }

    /// A fresh accumulator with the given chunk size, pre-sizing the
    /// hash-list buffer for an input of about `total_size` bytes. The
    /// hint only reserves memory; it changes nothing about the digest.
    pub fn with_capacity(chunk_size: usize, total_size: u64) -> (r: Context)
        requires
            chunk_size > 0,
        ensures
            r.wf(),
            r.spec_chunk_size() == chunk_size as nat,
            r.bytes_seen() == Seq::<u8>::empty(),
    {
        let cs = chunk_size as u64;
        let whole_chunks = total_size / cs;
        let estimated_chunks: u64 = if total_size % cs != 0 && whole_chunks < u64::MAX {
            whole_chunks + 1
        } else {
            whole_chunks
        };
        // Capped so that sixteen hash bytes per estimated chunk stays
        // within a machine word on any platform; past the cap the hint
        // is simply dropped.
        let hint: usize = if estimated_chunks <= 134217728 {
            (estimated_chunks as usize) * 16
        } else {
            0
        };
        let r = Context {
            combined_hashes: Vec::with_capacity(hint),
            current_chunk: Vec::with_capacity(chunk_size),
            chunk_size,
            chunk_count: 0,
            total_bytes: 0,
            seen: Ghost(Seq::empty()),
        };
        proof {
            assert(r.chunk_count * r.chunk_size == 0) by (nonlinear_arith)
                requires
                    r.chunk_count == 0,
            ;
            assert(r.current_chunk@ =~= r.seen@.subrange(0, 0));
            assert(r.combined_hashes@ =~= Seq::<u8>::empty());
            assert(r.wf());
        }
        r
    }

    /// Feeds `data` into the accumulator. Only the total byte sequence
    /// matters: slicing the input over many calls in any way leaves the
    /// accumulator in the same abstract state.
    pub fn consume(&mut self, data: &[u8])
        requires
            old(self).wf(),
            old(self).bytes_seen().len() + data@.len() <= u64::MAX,
        ensures
            final(self).wf(),
            final(self).bytes_seen() == old(self).bytes_seen() + data@,
            final(self).spec_chunk_size() == old(self).spec_chunk_size(),
    {
        let ghost c = self.chunk_size as nat;
        let len = data.len();
        let mut i: usize = 0;
        while i < len
            invariant
                i <= len,
                len == data@.len(),
                self.chunk_size == old(self).chunk_size,
                self.chunk_size > 0,
                c == self.chunk_size as nat,
                self.seen@ == old(self).seen@ + data@.subrange(0, i as int),
                old(self).seen@.len() + data@.len() <= u64::MAX,
                self.chunk_count * self.chunk_size + self.current_chunk@.len()
                    == self.seen@.len(),
                self.current_chunk@.len() < self.chunk_size,
                self.current_chunk@ == self.seen@.subrange(
                    (self.chunk_count * self.chunk_size) as int,
                    self.seen@.len() as int,
                ),
                self.combined_hashes@ == combined_up_to(
                    self.seen@,
                    self.chunk_size as nat,
                    self.chunk_count as nat,
                ),
                self.combined_hashes@.len() == self.chunk_count * 16,
                self.total_bytes == old(self).total_bytes,
            decreases len - i,
        {
            let ghost pre = *self;
            let space_left = self.chunk_size - self.current_chunk.len();
            let remaining = len - i;
            let to_take = if remaining < space_left {
                remaining
            } else {
                space_left
            };
            let piece = vstd::slice::slice_subrange(data, i, i + to_take);
            push_all(&mut self.current_chunk, piece);
            self.seen = Ghost(self.seen@ + piece@);
            proof {
                let base = (pre.chunk_count * pre.chunk_size) as int;
                assert(self.current_chunk@ =~= self.seen@.subrange(
                    base,
                    self.seen@.len() as int,
                ));
                assert(pre.seen@ =~= self.seen@.subrange(0, pre.seen@.len() as int));
                lemma_combined_up_to_stable(pre.seen@, self.seen@, c, pre.chunk_count as nat);
                assert(old(self).seen@ + data@.subrange(0, (i + to_take) as int) =~= self.seen@);
            }
            if self.current_chunk.len() == self.chunk_size {
                let ghost n0 = self.chunk_count as nat;
                proof {
                    assert(n0 * c + c == (n0 + 1) * c) by (nonlinear_arith);
                    assert(chunk_at(self.seen@, c, n0) =~= self.current_chunk@);
                }
                let h = md5_of_bytes(self.current_chunk.as_slice());
                let hs = vstd::array::array_as_slice(&h);
                push_all(&mut self.combined_hashes, hs);
                self.current_chunk.clear();
                let cl = self.combined_hashes.len();
                proof {
                    assert(self.combined_hashes@ == combined_up_to(self.seen@, c, n0 + 1));
                    assert(cl == n0 * 16 + 16);
                }
                self.chunk_count = self.chunk_count + 1;
                proof {
                    assert(self.current_chunk@ =~= self.seen@.subrange(
                        self.seen@.len() as int,
                        self.seen@.len() as int,
                    ));
                }
            }
            i = i + to_take;
        }
        proof {
            assert(old(self).seen@ + data@.subrange(0, len as int) =~= old(self).seen@ + data@);
        }
        self.total_bytes = self.total_bytes + (len as u64);
    }

    /// Completes the final partial chunk, if any (an entirely empty
    /// input still counts as one empty chunk), hashes the combined
    /// chunk hashes, and returns the digest. Consumes the accumulator.
    pub fn finalize(self) -> (r: Digest)
        requires
            self.wf(),
        ensures
            r.spec_hash() == digest_bytes_of(self.bytes_seen(), self.spec_chunk_size()),
            r.spec_parts() == chunk_count_of(self.bytes_seen().len(), self.spec_chunk_size()),
            r.spec_parts() >= 1,
    {
        let ghost c = self.chunk_size as nat;
        let ghost seen = self.seen@;
        let mut s = self;
        if s.current_chunk.len() > 0 || s.chunk_count == 0 {
            let ghost n0 = s.chunk_count as nat;
            let ghost rem = s.current_chunk@.len();
            proof {
                assert((n0 + 1) * c == n0 * c + c) by (nonlinear_arith);
                assert(chunk_at(seen, c, n0) =~= s.current_chunk@);
                if seen.len() == 0 {
                    assert(n0 * c == 0);
                    assert(n0 == 0) by (nonlinear_arith)
                        requires
                            n0 * c == 0,
                            c > 0,
                    ;
                    assert(chunk_count_of(seen.len(), c) == n0 + 1);
                } else {
                    if rem == 0 {
                        assert(n0 == 0 && n0 * c == 0) by (nonlinear_arith)
                            requires
                                n0 == 0,
                        ;
                        assert(seen.len() == 0);
                    }
                    assert(rem >= 1);
                    assert(seen.len() + c - 1 == c * (n0 + 1) + (rem - 1)) by (nonlinear_arith)
                        requires
                            n0 * c + rem == seen.len(),
                    ;
                    lemma_div_multiples_vanish_fancy(n0 as int + 1, rem as int - 1, c as int);
                    assert(chunk_count_of(seen.len(), c) == n0 + 1);
                }
            }
            let h = md5_of_bytes(s.current_chunk.as_slice());
            let hs = vstd::array::array_as_slice(&h);
            push_all(&mut s.combined_hashes, hs);
            let cl = s.combined_hashes.len();
            proof {
                assert(s.combined_hashes@ == combined_up_to(seen, c, n0 + 1));
                assert(cl == n0 * 16 + 16);
            }
            s.chunk_count = s.chunk_count + 1;
        } else {
            proof {
                let n0 = s.chunk_count as nat;
                assert(seen.len() == n0 * c);
                assert(seen.len() > 0) by (nonlinear_arith)
                    requires
                        n0 >= 1,
                        c >= 1,
                        seen.len() == n0 * c,
                ;
                assert(seen.len() + c - 1 == c * n0 + (c - 1)) by (nonlinear_arith)
                    requires
                        seen.len() == n0 * c,
                ;
                lemma_div_multiples_vanish_fancy(n0 as int, c as int - 1, c as int);
                assert(chunk_count_of(seen.len(), c) == n0);
            }
        }
        let fh = md5_of_bytes(s.combined_hashes.as_slice());
        Digest::from_parts(fh, s.chunk_count)
    }

    /// The number of bytes consumed so far.
    pub fn total_bytes(&self) -> (r: u64)
        requires
            self.wf(),
        ensures
            r as nat == self.bytes_seen().len(),
    {
        self.total_bytes
    }
}

impl Default for Context {
    /// The same accumulator as `new`: default chunk size, nothing seen.
    fn default() -> (r: Context)
        ensures
            r.wf(),
            r.spec_chunk_size() == DEFAULT_CHUNK_SIZE,
            r.bytes_seen() == Seq::<u8>::empty(),
    {
        Context::new()
    }
}

/// The bytes an accumulator has seen after consuming each of `pieces`
/// in order with one `consume` call apiece, having started with `start`
/// already seen: this is what `consume`'s contract yields call by call.
pub open spec fn seen_after_pieces(start: Seq<u8>, pieces: Seq<Seq<u8>>) -> Seq<u8>
    decreases pieces.len(),
{
    if pieces.len() == 0 {
        start
    } else {
        seen_after_pieces(start + pieces.first(), pieces.drop_first())
    }
}

/// Chunking invariance: however an input is sliced into a sequence of
/// `consume` calls, the accumulator ends up having seen exactly the
/// concatenation of the slices. Since `finalize`'s result is a function
/// of the seen bytes and the chunk size alone, the digest depends only
/// on the concatenated input, never on the slicing.
pub proof fn lemma_chunking_invariance(start: Seq<u8>, pieces: Seq<Seq<u8>>)
    ensures
        seen_after_pieces(start, pieces) == start + pieces.flatten(),
    decreases pieces.len(),
{
    if pieces.len() == 0 {
        assert(start + pieces.flatten() =~= start);
    } else {
        lemma_chunking_invariance(start + pieces.first(), pieces.drop_first());
        assert((start + pieces.first()) + pieces.drop_first().flatten() =~= start
            + pieces.flatten());
    }
}

/// Computes the digest of `data` with the default 8 MiB chunk size.
pub fn compute(data: &[u8]) -> (r: Digest)
    ensures
        r.spec_hash() == digest_bytes_of(data@, DEFAULT_CHUNK_SIZE as nat),
        r.spec_parts() == chunk_count_of(data@.len(), DEFAULT_CHUNK_SIZE as nat),
{
    // Reading the length shows that it fits a machine word, which
    // bounds the total consumed against `consume`'s size limit.
    let _len = data.len();
    let mut ctx = Context::new();
    ctx.consume(data);
    ctx.finalize()
}

/// Computes the digest of `data` with the given chunk size in bytes,
/// which must be positive.
pub fn compute_with_chunk_size(data: &[u8], chunk_size: usize) -> (r: Digest)
    requires
        chunk_size > 0,
    ensures
        r.spec_hash() == digest_bytes_of(data@, chunk_size as nat),
        r.spec_parts() == chunk_count_of(data@.len(), chunk_size as nat),
{
    // As in `compute`: the length of a slice fits a machine word.
    let _len = data.len();
    let mut ctx = Context::with_chunk_size(chunk_size);
    ctx.consume(data);
    ctx.finalize()
}

} // verus!

