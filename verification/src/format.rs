//! The canonical text form of a digest: the hash bytes in hex, a dash,
//! and the decimal chunk count, together with the facts about that form
//! that the formatter and the parser share.

use vstd::prelude::*;
use vstd::string::StrSliceExecFns;
use vstd::string::StringExecFns;

verus! {

/// The lowercase hex digit character for `v`.
pub open spec fn hex_digit_lower(v: nat) -> char
    recommends
        v < 16,
{
    if v == 0 {
        '0'
    } else if v == 1 {
        '1'
    } else if v == 2 {
        '2'
    } else if v == 3 {
        '3'
    } else if v == 4 {
        '4'
    } else if v == 5 {
        '5'
    } else if v == 6 {
        '6'
    } else if v == 7 {
        '7'
    } else if v == 8 {
        '8'
    } else if v == 9 {
        '9'
    } else if v == 10 {
        'a'
    } else if v == 11 {
        'b'
    } else if v == 12 {
        'c'
    } else if v == 13 {
        'd'
    } else if v == 14 {
        'e'
    } else {
        'f'
    }
}

/// The uppercase hex digit character for `v`.
pub open spec fn hex_digit_upper(v: nat) -> char
    recommends
        v < 16,
{
    if v < 10 {
        hex_digit_lower(v)
    } else if v == 10 {
        'A'
    } else if v == 11 {
        'B'
    } else if v == 12 {
        'C'
    } else if v == 13 {
        'D'
    } else if v == 14 {
        'E'
    } else {
        'F'
    }
}

/// Whether `c` is a decimal digit character.
pub open spec fn is_dec_digit(c: char) -> bool {
    ||| c == '0'
    ||| c == '1'
    ||| c == '2'
    ||| c == '3'
    ||| c == '4'
    ||| c == '5'
    ||| c == '6'
    ||| c == '7'
    ||| c == '8'
    ||| c == '9'
}

/// Two lowercase hex digits per byte, high nibble first.
pub open spec fn hex_chars_lower(bytes: Seq<u8>) -> Seq<char>
    decreases bytes.len(),
{
    if bytes.len() == 0 {
        Seq::empty()
    } else {
        hex_chars_lower(bytes.drop_last()) + seq![
            hex_digit_lower((bytes.last() / 16) as nat),
            hex_digit_lower((bytes.last() % 16) as nat),
        ]
    }
}

/// Two uppercase hex digits per byte, high nibble first.
pub open spec fn hex_chars_upper(bytes: Seq<u8>) -> Seq<char>
    decreases bytes.len(),
{
    if bytes.len() == 0 {
        Seq::empty()
    } else {
        hex_chars_upper(bytes.drop_last()) + seq![
            hex_digit_upper((bytes.last() / 16) as nat),
            hex_digit_upper((bytes.last() % 16) as nat),
        ]
    }
}

/// The decimal digit characters of `n`, most significant first, with no
/// leading zeros.
pub open spec fn dec_chars(n: nat) -> Seq<char>
    decreases n,
{
    if n < 10 {
        seq![hex_digit_lower(n)]
    } else {
        dec_chars(n / 10) + seq![hex_digit_lower(n % 10)]
    }
}

/// The canonical lowercase text form of a digest: the hash bytes in
/// hex, then a dash, then the chunk count in decimal.
pub open spec fn etag_chars_lower(hash: Seq<u8>, parts: nat) -> Seq<char> {
    hex_chars_lower(hash) + seq!['-'] + dec_chars(parts)
}

/// The uppercase variant of the canonical text form.
pub open spec fn etag_chars_upper(hash: Seq<u8>, parts: nat) -> Seq<char> {
    hex_chars_upper(hash) + seq!['-'] + dec_chars(parts)
}

/// The single-character string for the lowercase hex digit `v`.
fn hex_digit_str_lower(v: u8) -> (r: &'static str)
    requires
        v < 16,
    ensures
        r@ =~= seq![hex_digit_lower(v as nat)],
{
    proof {
        reveal_strlit("0");
        reveal_strlit("1");
        reveal_strlit("2");
        reveal_strlit("3");
        reveal_strlit("4");
        reveal_strlit("5");
        reveal_strlit("6");
        reveal_strlit("7");
        reveal_strlit("8");
        reveal_strlit("9");
        reveal_strlit("a");
        reveal_strlit("b");
        reveal_strlit("c");
        reveal_strlit("d");
        reveal_strlit("e");
        reveal_strlit("f");
    }
    match v {
        0 => "0",
        1 => "1",
        2 => "2",
        3 => "3",
        4 => "4",
        5 => "5",
        6 => "6",
        7 => "7",
        8 => "8",
        9 => "9",
        10 => "a",
        11 => "b",
        12 => "c",
        13 => "d",
        14 => "e",
        _ => "f",
    }
}

/// The single-character string for the uppercase hex digit `v`.
fn hex_digit_str_upper(v: u8) -> (r: &'static str)
    requires
        v < 16,
    ensures
        r@ =~= seq![hex_digit_upper(v as nat)],
{
    proof {
        reveal_strlit("A");
        reveal_strlit("B");
        reveal_strlit("C");
        reveal_strlit("D");
        reveal_strlit("E");
        reveal_strlit("F");
    }
    if v < 10 {
        hex_digit_str_lower(v)
    } else {
        match v {
            10 => "A",
            11 => "B",
            12 => "C",
            13 => "D",
            14 => "E",
            _ => "F",
        }
    }
}

/// The hex value of `c` as a lowercase hex digit, if it is one.
pub(crate) fn hex_val(c: char) -> (r: Option<u8>)
    ensures
        match r {
            Some(v) => v < 16 && hex_digit_lower(v as nat) == c,
            None => forall|v: nat| v < 16 ==> hex_digit_lower(v) != c,
        },
{
    match c {
        '0' => Some(0),
        '1' => Some(1),
        '2' => Some(2),
        '3' => Some(3),
        '4' => Some(4),
        '5' => Some(5),
        '6' => Some(6),
        '7' => Some(7),
        '8' => Some(8),
        '9' => Some(9),
        'a' => Some(10),
        'b' => Some(11),
        'c' => Some(12),
        'd' => Some(13),
        'e' => Some(14),
        'f' => Some(15),
        _ => None,
    }
}

/// The value of `c` as a decimal digit, if it is one.
pub(crate) fn dec_val(c: char) -> (r: Option<u8>)
    ensures
        match r {
            Some(v) => v < 10 && hex_digit_lower(v as nat) == c && is_dec_digit(c),
            None => !is_dec_digit(c),
        },
{
    match c {
        '0' => Some(0),
        '1' => Some(1),
        '2' => Some(2),
        '3' => Some(3),
        '4' => Some(4),
        '5' => Some(5),
        '6' => Some(6),
        '7' => Some(7),
        '8' => Some(8),
        '9' => Some(9),
        _ => None,
    }
}

/// Appends the lowercase hex form of `bytes` to `out`.
pub(crate) fn push_hex_lower(out: &mut String, bytes: &[u8])
    ensures
        final(out)@ == old(out)@ + hex_chars_lower(bytes@),
{
    let n = bytes.len();
    let mut i: usize = 0;
    while i < n
        invariant
            i <= n,
            n == bytes@.len(),
            out@ == old(out)@ + hex_chars_lower(bytes@.subrange(0, i as int)),
        decreases n - i,
    {
        let b = bytes[i];
        out.append(hex_digit_str_lower(b / 16));
        out.append(hex_digit_str_lower(b % 16));
        proof {
            let pre = bytes@.subrange(0, i as int);
            let post = bytes@.subrange(0, i + 1);
            assert(post.drop_last() =~= pre);
            assert(post.last() == bytes@[i as int]);
            assert(old(out)@ + hex_chars_lower(pre) + seq![
                hex_digit_lower((b / 16) as nat),
            ] + seq![hex_digit_lower((b % 16) as nat)] =~= old(out)@ + hex_chars_lower(post));
        }
        i = i + 1;
    }
    proof {
        assert(bytes@.subrange(0, n as int) =~= bytes@);
    }
}

/// Appends the uppercase hex form of `bytes` to `out`.
pub(crate) fn push_hex_upper(out: &mut String, bytes: &[u8])
    ensures
        final(out)@ == old(out)@ + hex_chars_upper(bytes@),
{
    let n = bytes.len();
    let mut i: usize = 0;
    while i < n
        invariant
            i <= n,
            n == bytes@.len(),
            out@ == old(out)@ + hex_chars_upper(bytes@.subrange(0, i as int)),
        decreases n - i,
    {
        let b = bytes[i];
        out.append(hex_digit_str_upper(b / 16));
        out.append(hex_digit_str_upper(b % 16));
        proof {
            let pre = bytes@.subrange(0, i as int);
            let post = bytes@.subrange(0, i + 1);
            assert(post.drop_last() =~= pre);
            assert(post.last() == bytes@[i as int]);
            assert(old(out)@ + hex_chars_upper(pre) + seq![
                hex_digit_upper((b / 16) as nat),
            ] + seq![hex_digit_upper((b % 16) as nat)] =~= old(out)@ + hex_chars_upper(post));
        }
        i = i + 1;
    }
    proof {
        assert(bytes@.subrange(0, n as int) =~= bytes@);
    }
}

/// Appends the decimal form of `n` to `out`.
pub(crate) fn push_decimal(out: &mut String, n: u64)
    ensures
        final(out)@ == old(out)@ + dec_chars(n as nat),
    decreases n,
{
    if n < 10 {
        out.append(hex_digit_str_lower(n as u8));
        proof {
            assert(old(out)@ + seq![hex_digit_lower(n as nat)] =~= old(out)@ + dec_chars(
                n as nat,
            ));
        }
    } else {
        push_decimal(out, n / 10);
        out.append(hex_digit_str_lower((n % 10) as u8));
        proof {
            assert(old(out)@ + dec_chars((n / 10) as nat) + seq![
                hex_digit_lower((n % 10) as nat),
            ] =~= old(out)@ + dec_chars(n as nat));
        }
    }
}

/// The hex form of a byte sequence is two characters per byte.
pub proof fn lemma_hex_chars_lower_len(bytes: Seq<u8>)
    ensures
        hex_chars_lower(bytes).len() == 2 * bytes.len(),
    decreases bytes.len(),
{
    if bytes.len() > 0 {
        lemma_hex_chars_lower_len(bytes.drop_last());
    }
}

/// The characters at positions `2k` and `2k + 1` of the hex form are
/// the two hex digits of the `k`-th byte.
pub(crate) proof fn lemma_hex_chars_lower_index(bytes: Seq<u8>, k: int)
    requires
        0 <= k < bytes.len(),
    ensures
        hex_chars_lower(bytes).len() == 2 * bytes.len(),
        hex_chars_lower(bytes)[2 * k] == hex_digit_lower((bytes[k] / 16) as nat),
        hex_chars_lower(bytes)[2 * k + 1] == hex_digit_lower((bytes[k] % 16) as nat),
    decreases bytes.len(),
{
    lemma_hex_chars_lower_len(bytes);
    lemma_hex_chars_lower_len(bytes.drop_last());
    if k < bytes.len() - 1 {
        lemma_hex_chars_lower_index(bytes.drop_last(), k);
    }
}

/// Distinct hex digit values have distinct lowercase characters.
pub(crate) proof fn lemma_hex_digit_lower_inj(a: nat, b: nat)
    requires
        a < 16,
        b < 16,
        hex_digit_lower(a) == hex_digit_lower(b),
    ensures
        a == b,
{
}

/// Byte sequences of equal length with the same lowercase hex form are
/// equal.
pub proof fn lemma_hex_chars_lower_injective(b1: Seq<u8>, b2: Seq<u8>)
    requires
        b1.len() == b2.len(),
        hex_chars_lower(b1) == hex_chars_lower(b2),
    ensures
        b1 == b2,
{
    assert forall|k: int| 0 <= k < b1.len() implies b1[k] == b2[k] by {
        lemma_hex_chars_lower_index(b1, k);
        lemma_hex_chars_lower_index(b2, k);
        lemma_hex_digit_lower_inj((b1[k] / 16) as nat, (b2[k] / 16) as nat);
        lemma_hex_digit_lower_inj((b1[k] % 16) as nat, (b2[k] % 16) as nat);
    };
    assert(b1 =~= b2);
}

/// The decimal form has at least one character.
pub proof fn lemma_dec_chars_len(n: nat)
    ensures
        dec_chars(n).len() >= 1,
{
}

/// The decimal form of a positive number does not start with a zero.
pub(crate) proof fn lemma_dec_chars_first(n: nat)
    requires
        n > 0,
    ensures
        dec_chars(n)[0] != '0',
    decreases n,
{
    if n >= 10 {
        lemma_dec_chars_first(n / 10);
        lemma_dec_chars_len(n / 10);
    }
}

/// Every character of a decimal form is a decimal digit.
pub(crate) proof fn lemma_dec_chars_digits(n: nat, k: int)
    requires
        0 <= k < dec_chars(n).len(),
    ensures
        is_dec_digit(dec_chars(n)[k]),
    decreases n,
{
    if n >= 10 {
        lemma_dec_chars_len(n / 10);
        if k < dec_chars(n / 10).len() {
            lemma_dec_chars_digits(n / 10, k);
        }
    }
}

/// Equal decimal forms come from equal numbers.
pub proof fn lemma_dec_chars_injective(a: nat, b: nat)
    requires
        dec_chars(a) == dec_chars(b),
    ensures
        a == b,
    decreases a + b,
{
    lemma_dec_chars_len(a);
    lemma_dec_chars_len(b);
    if a < 10 && b < 10 {
        assert(seq![hex_digit_lower(a)][0] == hex_digit_lower(a));
        assert(seq![hex_digit_lower(b)][0] == hex_digit_lower(b));
        assert(dec_chars(a)[0] == dec_chars(b)[0]);
        lemma_hex_digit_lower_inj(a, b);
    } else if a < 10 && b >= 10 {
        lemma_dec_chars_len(b / 10);
        assert(dec_chars(b).len() >= 2);
    } else if a >= 10 && b < 10 {
        lemma_dec_chars_len(a / 10);
        assert(dec_chars(a).len() >= 2);
    } else {
        assert(dec_chars(a).drop_last() =~= dec_chars(a / 10));
        assert(dec_chars(b).drop_last() =~= dec_chars(b / 10));
        lemma_dec_chars_injective(a / 10, b / 10);
        assert(dec_chars(a).last() == hex_digit_lower(a % 10));
        assert(dec_chars(b).last() == hex_digit_lower(b % 10));
        assert(dec_chars(a).last() == dec_chars(b).last());
        lemma_hex_digit_lower_inj(a % 10, b % 10);
    }
}

/// A decimal form that is a prefix of another comes from a number that
/// is no larger.
pub(crate) proof fn lemma_dec_chars_prefix(a: nat, b: nat)
    requires
        dec_chars(a).len() <= dec_chars(b).len(),
        dec_chars(a) == dec_chars(b).subrange(0, dec_chars(a).len() as int),
    ensures
        a <= b,
    decreases b,
{
    lemma_dec_chars_len(a);
    lemma_dec_chars_len(b);
    if dec_chars(a).len() == dec_chars(b).len() {
        assert(dec_chars(a) =~= dec_chars(b));
        lemma_dec_chars_injective(a, b);
    } else {
        if b < 10 {
            assert(dec_chars(a).len() < 1);
        } else {
            lemma_dec_chars_len(b / 10);
            assert(dec_chars(a) =~= dec_chars(b / 10).subrange(0, dec_chars(a).len() as int));
            lemma_dec_chars_prefix(a, b / 10);
        }
    }
}

/// How the canonical lowercase form decomposes: 32 hex characters,
/// then the dash, then the decimal chunk count.
pub(crate) proof fn lemma_etag_parts(h: Seq<u8>, p: nat)
    requires
        h.len() == 16,
    ensures
        etag_chars_lower(h, p).len() == 33 + dec_chars(p).len(),
        dec_chars(p).len() >= 1,
        etag_chars_lower(h, p).subrange(0, 32) == hex_chars_lower(h),
        etag_chars_lower(h, p)[32] == '-',
        etag_chars_lower(h, p).subrange(33, etag_chars_lower(h, p).len() as int) == dec_chars(p),
{
    lemma_hex_chars_lower_len(h);
    lemma_dec_chars_len(p);
    let s = etag_chars_lower(h, p);
    assert(s.subrange(0, 32) =~= hex_chars_lower(h));
    assert((hex_chars_lower(h) + seq!['-'])[32] == seq!['-'][0]);
    assert(s[32] == (hex_chars_lower(h) + seq!['-'])[32]);
    assert(s.subrange(33, s.len() as int) =~= dec_chars(p));
}

/// The canonical lowercase text form determines the digest: two equal
/// forms over equally long hashes name the same hash bytes and the same
/// chunk count.
pub proof fn lemma_etag_chars_lower_injective(h1: Seq<u8>, p1: nat, h2: Seq<u8>, p2: nat)
    requires
        h1.len() == h2.len(),
        etag_chars_lower(h1, p1) == etag_chars_lower(h2, p2),
    ensures
        h1 == h2,
        p1 == p2,
{
    lemma_hex_chars_lower_len(h1);
    lemma_hex_chars_lower_len(h2);
    lemma_dec_chars_len(p1);
    lemma_dec_chars_len(p2);
    let hl = 2 * h1.len() as int;
    let s = etag_chars_lower(h1, p1);
    assert(hex_chars_lower(h1) =~= s.subrange(0, hl));
    assert(hex_chars_lower(h2) =~= s.subrange(0, hl));
    lemma_hex_chars_lower_injective(h1, h2);
    assert(dec_chars(p1) =~= s.subrange(hl + 1, s.len() as int));
    assert(dec_chars(p2) =~= s.subrange(hl + 1, s.len() as int));
    lemma_dec_chars_injective(p1, p2);
}

} // verus!
