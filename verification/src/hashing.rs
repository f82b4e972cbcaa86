//! The chunked hashing model: how an input byte sequence is cut into
//! chunks, and what the combined hash sequence of those chunks is.

use vstd::prelude::*;

verus! {

/// The 16-byte MD5 digest of a byte sequence. The digest itself is left
/// unspecified; the accumulator's contracts are stated in terms of it.
pub uninterp spec fn spec_md5(bytes: Seq<u8>) -> Seq<u8>;

/// Relies on md5::compute: the 16-byte MD5 digest of the input bytes,
/// a function of those bytes alone.
#[verifier::external_body]
pub(crate) fn md5_of_bytes(data: &[u8]) -> (r: [u8; 16])
    ensures
        r@ == spec_md5(data@),
{
    md5::compute(data).0
}

/// How many chunks an input of length `len` is cut into when the chunk
/// size is `c`: the rounded-up quotient, except that an empty input still
/// counts as one (empty) chunk.
pub open spec fn chunk_count_of(len: nat, c: nat) -> nat
    recommends
        c > 0,
{
    if len == 0 {
        1
    } else {
        ((len + c - 1) / (c as int)) as nat
    }
}

/// The `i`-th chunk of `input` under chunk size `c`: the bytes from
/// `i * c` up to `(i + 1) * c`, cut short at the end of the input.
pub open spec fn chunk_at(input: Seq<u8>, c: nat, i: nat) -> Seq<u8>
    recommends
        c > 0,
        i * c <= input.len(),
{
    if (i + 1) * c <= input.len() {
        input.subrange((i * c) as int, ((i + 1) * c) as int)
    } else {
        input.subrange((i * c) as int, input.len() as int)
    }
}

/// The concatenation of the hashes of the first `n` chunks of `input`.
pub open spec fn combined_up_to(input: Seq<u8>, c: nat, n: nat) -> Seq<u8>
    decreases n,
{
    if n == 0 {
        Seq::empty()
    } else {
        combined_up_to(input, c, (n - 1) as nat) + spec_md5(chunk_at(input, c, (n - 1) as nat))
    }
}

/// The full combined hash sequence of `input`: the hashes of all of its
/// chunks, in input order.
pub open spec fn combined_hashes_of(input: Seq<u8>, c: nat) -> Seq<u8> {
    combined_up_to(input, c, chunk_count_of(input.len(), c))
}

/// The final digest bytes of `input` under chunk size `c`: the hash of
/// the combined hash sequence.
pub open spec fn digest_bytes_of(input: Seq<u8>, c: nat) -> Seq<u8> {
    spec_md5(combined_hashes_of(input, c))
}

/// Boundary exactness: an input whose length is exactly `k` chunks is
/// cut into exactly `k` chunks, with no trailing empty chunk.
pub proof fn lemma_boundary_exact(k: nat, c: nat)
    requires
        c > 0,
        k >= 1,
    ensures
        chunk_count_of(k * c, c) == k,
{
    assert(k * c > 0) by (nonlinear_arith)
        requires
            k >= 1,
            c > 0,
    ;
    assert(k * c + c - 1 == c * k + (c - 1)) by (nonlinear_arith);
    vstd::arithmetic::div_mod::lemma_div_multiples_vanish_fancy(k as int, c as int - 1, c as int);
}

/// The chunk count is the least number of chunks that covers the
/// input, and never less than one: the rounded-up quotient of the
/// length by the chunk size, except that an empty input counts as one
/// chunk.
pub proof fn lemma_chunk_count_bounds(len: nat, c: nat)
    requires
        c > 0,
    ensures
        chunk_count_of(len, c) >= 1,
        chunk_count_of(len, c) * c + c > len,
        len > 0 ==> chunk_count_of(len, c) * c >= len,
{
    let q = ((len + c - 1) / (c as int)) as nat;
    if len > 0 {
        vstd::arithmetic::div_mod::lemma_fundamental_div_mod(len as int + c - 1, c as int);
        let r = (len + c - 1) % (c as int);
        assert(0 <= r < c) by {
            vstd::arithmetic::div_mod::lemma_mod_bound(len as int + c - 1, c as int);
        }
        assert(len + c - 1 == c * q + r);
        assert(q * c == c * q) by (nonlinear_arith);
        assert(q >= 1) by (nonlinear_arith)
            requires
                len + c - 1 == c * q + r,
                len >= 1,
                0 <= r < c,
                q >= 0,
        ;
    } else {
        assert(1 * c + c > 0) by (nonlinear_arith)
            requires
                c > 0,
        ;
    }
}

/// The first `n` chunks of a sequence are unchanged when the sequence is
/// extended: the combined hash of those chunks only reads bytes below
/// `n * c`, which both sequences share.
pub(crate) proof fn lemma_combined_up_to_stable(s1: Seq<u8>, s2: Seq<u8>, c: nat, n: nat)
    requires
        c > 0,
        n * c <= s1.len(),
        s1.len() <= s2.len(),
        s1 == s2.subrange(0, s1.len() as int),
    ensures
        combined_up_to(s1, c, n) == combined_up_to(s2, c, n),
    decreases n,
{
    if n > 0 {
        let m = (n - 1) as nat;
        assert(m * c + c == n * c && (m + 1) * c == n * c) by (nonlinear_arith)
            requires
                m + 1 == n,
        ;
        lemma_combined_up_to_stable(s1, s2, c, m);
        assert(chunk_at(s1, c, m) =~= chunk_at(s2, c, m));
    }
}

} // verus!
