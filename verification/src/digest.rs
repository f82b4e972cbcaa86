//! The digest value: the 16-byte combined hash together with the number
//! of chunks that went into it.

use vstd::prelude::*;
use vstd::string::StrSliceExecFns;
use vstd::string::StringExecFns;

use crate::format::{
    dec_chars, dec_val, etag_chars_lower, etag_chars_upper, hex_chars_lower, hex_digit_lower,
    hex_val, lemma_dec_chars_digits, lemma_dec_chars_first, lemma_dec_chars_prefix,
    lemma_etag_parts, lemma_hex_chars_lower_index, push_decimal, push_hex_lower, push_hex_upper,
};

verus! {

broadcast use vstd::array::group_array_axioms;

/// An immutable digest value: a fixed 16-byte hash and the count of
/// chunks that were hashed. Equality compares both fields.
#[derive(Clone, Copy, Eq, Hash, Debug)]
pub struct Digest {
    hash: [u8; 16],
    parts: usize,
}

impl Digest {
    /// The 16 hash bytes, as a sequence.
    pub closed spec fn spec_hash(&self) -> Seq<u8> {
        self.hash@
    }

    /// The chunk count.
    pub closed spec fn spec_parts(&self) -> nat {
        self.parts as nat
    }

    pub(crate) fn from_parts(hash: [u8; 16], parts: usize) -> (r: Digest)
        ensures
            r.spec_hash() == hash@,
            r.spec_parts() == parts as nat,
    {
        Digest { hash, parts }
    }

    /// The raw 16-byte hash, without the chunk count.
    pub fn hash(&self) -> (r: &[u8; 16])
        ensures
            r@ == self.spec_hash(),
    {
        &self.hash
    }

    /// The number of chunks that were hashed.
    pub fn parts(&self) -> (r: usize)
        ensures
            r as nat == self.spec_parts(),
    {
        self.parts
    }

    /// The canonical lowercase text form: 32 lowercase hex characters,
    /// a dash, and the decimal chunk count.
    pub fn to_lower_hex(&self) -> (r: String)
        ensures
            r@ == etag_chars_lower(self.spec_hash(), self.spec_parts()),
    {
        let mut out = String::new();
        push_hex_lower(&mut out, self.hash.as_slice());
        out.append("-");
        push_decimal(&mut out, self.parts as u64);
        proof {
            reveal_strlit("-");
            assert("-"@ =~= seq!['-']);
            assert(out@ =~= etag_chars_lower(self.spec_hash(), self.spec_parts()));
        }
        out
    }

    /// Parses the canonical lowercase text form back into a digest.
    /// It succeeds exactly on the strings that `to_lower_hex` can
    /// produce; with the injectivity of that form, parsing a formatted
    /// digest recovers the original digest exactly.
    pub fn parse_lower_hex(s: &str) -> (r: Option<Digest>)
        ensures
            match r {
                Some(d) => d.spec_hash().len() == 16 && s@ == etag_chars_lower(
                    d.spec_hash(),
                    d.spec_parts(),
                ),
                None => forall|h: Seq<u8>, p: nat|
                    !(h.len() == 16 && p <= usize::MAX && s@ == #[trigger] etag_chars_lower(h, p)),
            },
    {
        let n = s.unicode_len();
        if n < 34 {
            proof {
                assert forall|h: Seq<u8>, p: nat|
                    !(h.len() == 16 && p <= usize::MAX && s@ == #[trigger] etag_chars_lower(
                        h,
                        p,
                    )) by {
                    if h.len() == 16 && s@ == etag_chars_lower(h, p) {
                        lemma_etag_parts(h, p);
                    }
                }
            }
            return None;
        }
        let mut hash: [u8; 16] = [0;16];
        let mut i: usize = 0;
        while i < 16
            invariant
                i <= 16,
                n == s@.len(),
                n >= 34,
                hex_chars_lower(hash@.subrange(0, i as int)) =~= s@.subrange(0, 2 * i),
            decreases 16 - i,
        {
            let c1 = s.get_char(2 * i);
            let c2 = s.get_char(2 * i + 1);
            let hv = match hex_val(c1) {
                Some(v) => v,
                None => {
                    proof {
                        assert forall|h: Seq<u8>, p: nat|
                            !(h.len() == 16 && p <= usize::MAX && s@
                                == #[trigger] etag_chars_lower(h, p)) by {
                            if h.len() == 16 && s@ == etag_chars_lower(h, p) {
                                lemma_etag_parts(h, p);
                                lemma_hex_chars_lower_index(h, i as int);
                                assert(s@[2 * i] == s@.subrange(0, 32)[2 * i]);
                                assert(hex_digit_lower((h[i as int] / 16) as nat) == c1);
                            }
                        }
                    }
                    return None;
                },
            };
            let lv = match hex_val(c2) {
                Some(v) => v,
                None => {
                    proof {
                        assert forall|h: Seq<u8>, p: nat|
                            !(h.len() == 16 && p <= usize::MAX && s@
                                == #[trigger] etag_chars_lower(h, p)) by {
                            if h.len() == 16 && s@ == etag_chars_lower(h, p) {
                                lemma_etag_parts(h, p);
                                lemma_hex_chars_lower_index(h, i as int);
                                assert(s@[2 * i + 1] == s@.subrange(0, 32)[2 * i + 1]);
                                assert(hex_digit_lower((h[i as int] % 16) as nat) == c2);
                            }
                        }
                    }
                    return None;
                },
            };
            let ghost pre_hash = hash@;
            let byte = hv * 16 + lv;
            hash[i] = byte;
            proof {
                assert(hash@.subrange(0, i as int) =~= pre_hash.subrange(0, i as int));
                let post = hash@.subrange(0, i + 1);
                assert(post.drop_last() =~= hash@.subrange(0, i as int));
                assert(post.last() == byte);
                assert(byte / 16 == hv && byte % 16 == lv);
                assert(hex_chars_lower(post) =~= hex_chars_lower(hash@.subrange(0, i as int))
                    + seq![hex_digit_lower(hv as nat), hex_digit_lower(lv as nat)]);
                assert(s@.subrange(0, 2 * (i + 1)) =~= s@.subrange(0, 2 * i) + seq![
                    s@[2 * i],
                    s@[2 * i + 1],
                ]);
                assert(hex_chars_lower(post) =~= s@.subrange(0, 2 * (i + 1)));
            }
            i = i + 1;
        }
        proof {
            assert(hash@.subrange(0, 16) =~= hash@);
        }
        let dash = s.get_char(32);
        if dash != '-' {
            proof {
                assert forall|h: Seq<u8>, p: nat|
                    !(h.len() == 16 && p <= usize::MAX && s@ == #[trigger] etag_chars_lower(
                        h,
                        p,
                    )) by {
                    if h.len() == 16 && s@ == etag_chars_lower(h, p) {
                        lemma_etag_parts(h, p);
                    }
                }
            }
            return None;
        }
        if n > 34 {
            let c0 = s.get_char(33);
            if c0 == '0' {
                proof {
                    assert forall|h: Seq<u8>, p: nat|
                        !(h.len() == 16 && p <= usize::MAX && s@ == #[trigger] etag_chars_lower(
                            h,
                            p,
                        )) by {
                        if h.len() == 16 && s@ == etag_chars_lower(h, p) {
                            lemma_etag_parts(h, p);
                            assert(s@[33] == s@.subrange(33, n as int)[0]);
                            assert(dec_chars(p)[0] == '0');
                            if p > 0 {
                                lemma_dec_chars_first(p);
                            } else {
                                assert(dec_chars(0) =~= seq!['0']);
                                assert(n == 34);
                            }
                        }
                    }
                }
                return None;
            }
        }
        let mut v: u128 = 0;
        let mut j: usize = 33;
        while j < n
            invariant
                33 <= j <= n,
                n == s@.len(),
                n >= 34,
                hex_chars_lower(hash@) =~= s@.subrange(0, 32),
                s@[32] == '-',
                n > 34 ==> s@[33] != '0',
                j > 33 ==> v <= usize::MAX as u128 && dec_chars(v as nat) =~= s@.subrange(
                    33,
                    j as int,
                ),
                j == 33 ==> v == 0,
                v == 0 ==> j <= 34,
            decreases n - j,
        {
            let c = s.get_char(j);
            let d = match dec_val(c) {
                Some(d) => d,
                None => {
                    proof {
                        assert forall|h: Seq<u8>, p: nat|
                            !(h.len() == 16 && p <= usize::MAX && s@
                                == #[trigger] etag_chars_lower(h, p)) by {
                            if h.len() == 16 && s@ == etag_chars_lower(h, p) {
                                lemma_etag_parts(h, p);
                                assert(s@[j as int] == s@.subrange(33, n as int)[j - 33]);
                                lemma_dec_chars_digits(p, j - 33);
                            }
                        }
                    }
                    return None;
                },
            };
            let v2 = v * 10 + (d as u128);
            proof {
                if j == 33 {
                    assert(v2 == d);
                    assert(dec_chars(v2 as nat) =~= seq![hex_digit_lower(d as nat)]);
                    assert(s@.subrange(33, 34) =~= seq![s@[33]]);
                    assert(dec_chars(v2 as nat) =~= s@.subrange(33, j + 1));
                } else {
                    if v == 0 {
                        assert(j == 34 && j < n);
                        assert(dec_chars(v as nat) =~= s@.subrange(33, 34));
                        assert(dec_chars(0nat)[0] == '0');
                        assert(s@.subrange(33, 34)[0] == s@[33]);
                        assert(s@[33] == '0');
                        assert(false);
                    }
                    assert(v2 >= 10);
                    assert(v2 as nat / 10 == v as nat && v2 as nat % 10 == d as nat);
                    assert(dec_chars(v2 as nat) =~= dec_chars(v as nat) + seq![
                        hex_digit_lower(d as nat),
                    ]);
                    assert(s@.subrange(33, j + 1) =~= s@.subrange(33, j as int) + seq![
                        s@[j as int],
                    ]);
                    assert(dec_chars(v2 as nat) =~= s@.subrange(33, j + 1));
                }
            }
            if v2 > (usize::MAX as u128) {
                proof {
                    assert forall|h: Seq<u8>, p: nat|
                        !(h.len() == 16 && p <= usize::MAX && s@ == #[trigger] etag_chars_lower(
                            h,
                            p,
                        )) by {
                        if h.len() == 16 && p <= usize::MAX && s@ == etag_chars_lower(h, p) {
                            lemma_etag_parts(h, p);
                            assert(dec_chars(p) =~= s@.subrange(33, n as int));
                            assert(dec_chars(v2 as nat).len() == j + 1 - 33);
                            assert(dec_chars(v2 as nat) =~= dec_chars(p).subrange(
                                0,
                                dec_chars(v2 as nat).len() as int,
                            ));
                            lemma_dec_chars_prefix(v2 as nat, p);
                        }
                    }
                }
                return None;
            }
            v = v2;
            j = j + 1;
        }
        let parts_count = v as usize;
        let d = Digest { hash, parts: parts_count };
        proof {
            lemma_etag_parts(hash@, parts_count as nat);
            let e = etag_chars_lower(hash@, parts_count as nat);
            assert(e.len() == n);
            assert forall|k: int| 0 <= k < n implies s@[k] == e[k] by {
                if k < 32 {
                    assert(s@[k] == s@.subrange(0, 32)[k]);
                    assert(e[k] == e.subrange(0, 32)[k]);
                } else if k > 32 {
                    assert(s@[k] == s@.subrange(33, n as int)[k - 33]);
                    assert(e[k] == e.subrange(33, n as int)[k - 33]);
                }
            }
            assert(s@ =~= e);
        }
        Some(d)
    }

    /// The uppercase variant of the canonical text form.
    pub fn to_upper_hex(&self) -> (r: String)
        ensures
            r@ == etag_chars_upper(self.spec_hash(), self.spec_parts()),
    {
        let mut out = String::new();
        push_hex_upper(&mut out, self.hash.as_slice());
        out.append("-");
        push_decimal(&mut out, self.parts as u64);
        proof {
            reveal_strlit("-");
            assert("-"@ =~= seq!['-']);
            assert(out@ =~= etag_chars_upper(self.spec_hash(), self.spec_parts()));
        }
        out
    }
}

impl PartialEq for Digest {
    fn eq(&self, other: &Digest) -> (r: bool) {
        let mut i: usize = 0;
        while i < 16
            invariant
                i <= 16,
                forall|j: int| 0 <= j < i ==> self.hash@[j] == other.hash@[j],
            decreases 16 - i,
        {
            if self.hash[i] != other.hash[i] {
                return false;
            }
            i = i + 1;
        }
        proof {
            assert(self.hash@ =~= other.hash@);
        }
        self.parts == other.parts
    }
}

impl vstd::std_specs::cmp::PartialEqSpecImpl for Digest {
    open spec fn obeys_eq_spec() -> bool {
        true
    }

    open spec fn eq_spec(&self, other: &Digest) -> bool {
        self.spec_hash() == other.spec_hash() && self.spec_parts() == other.spec_parts()
    }
}

} // verus!

