//! Byte keys and the 64-bit hash used for ring positions and shuffle seeds.

use vstd::prelude::*;
use vstd::string::StringExecFns;

verus! {

/// One FNV-1a round: xor in the byte, then multiply by the 64-bit FNV prime
/// modulo 2^64.
pub open spec fn fnv_step(h: u64, b: u8) -> u64 {
    (((h ^ (b as u64)) as int * 0x100000001b3) % 0x1_0000_0000_0000_0000) as u64
}

/// FNV-1a rounds over `bytes`, from hash `h`.
pub open spec fn fnv_from(h: u64, bytes: Seq<u8>) -> u64
    decreases bytes.len(),
{
    if bytes.len() == 0 {
        h
    } else {
        fnv_from(fnv_step(h, bytes[0]), bytes.drop_first())
    }
}

/// FNV-1a, 64 bit, from the standard offset basis.
pub open spec fn fnv1a64(bytes: Seq<u8>) -> u64 {
    fnv_from(0xcbf29ce484222325, bytes)
}

/// Relies on fnv::FnvHasher: `default` starts from 0xcbf29ce484222325,
/// `write` does one FNV-1a round per byte, `finish` returns the state.
#[verifier::external_body]
pub(crate) fn fnv_hash(bytes: &[u8]) -> (r: u64)
    ensures
        r == fnv1a64(bytes@),
{
    let mut hasher = fnv::FnvHasher::default();
    std::hash::Hasher::write(&mut hasher, bytes);
    std::hash::Hasher::finish(&hasher)
}

/// ASCII decimal digits of `n`, most significant first, without leading zeros.
pub open spec fn decimal(n: nat) -> Seq<u8>
    decreases n,
{
    if n < 10 {
        seq![(48 + n) as u8]
    } else {
        decimal(n / 10) + seq![(48 + n % 10) as u8]
    }
}

/// The UTF-8 bytes of a string.
pub open spec fn utf8(s: Seq<char>) -> Seq<u8> {
    vstd::utf8::encode_utf8(s)
}

/// `name || ":" || decimal(i)`, the key of one virtual node or of one shard.
pub open spec fn joined_key(name: Seq<u8>, i: nat) -> Seq<u8> {
    name + seq![58u8] + decimal(i)
}

/// Appends the decimal digits of `n`.
pub fn push_decimal(out: &mut Vec<u8>, n: u64)
    ensures
        final(out)@ == old(out)@ + decimal(n as nat),
    decreases n,
{
    if n >= 10 {
        push_decimal(out, n / 10);
    }
    let d: u64 = n % 10;
    out.push((48 + d) as u8);
    proof {
        assert(final(out)@ =~= old(out)@ + decimal(n as nat));
    }
}

/// Copies a byte slice into a new vector.
pub fn bytes_of(s: &str) -> (r: Vec<u8>)
    ensures
        r@ == utf8(s@),
{
    let b = s.as_bytes();
    let mut r: Vec<u8> = Vec::new();
    let mut i: usize = 0;
    while i < b.len()
        invariant
            i <= b@.len(),
            r@ == b@.subrange(0, i as int),
        decreases b@.len() - i,
    {
        r.push(b[i]);
        i = i + 1;
        assert(r@ =~= b@.subrange(0, i as int));
    }
    assert(r@ =~= b@);
    r
}

/// Builds `name || ":" || decimal(i)` as bytes.
pub fn join_key(name: &str, i: u64) -> (r: Vec<u8>)
    ensures
        r@ == joined_key(utf8(name@), i as nat),
{
    let mut r = bytes_of(name);
    r.push(58u8);
    push_decimal(&mut r, i);
    r
}

/// Byte-wise lexicographic order (the order of `str` and `String`).
pub open spec fn lex_less(a: Seq<u8>, b: Seq<u8>) -> bool {
    exists|i: int|
        0 <= i <= a.len() && i <= b.len() && a.subrange(0, i) == b.subrange(0, i) && (
        (i < a.len() && i < b.len() && a[i] < b[i]) || (i == a.len() && i < b.len()))
}

/// Compares two strings by their bytes.
pub fn str_less(x: &str, y: &str) -> (r: bool)
    ensures
        r == lex_less(utf8(x@), utf8(y@)),
{
    let a = x.as_bytes();
    let b = y.as_bytes();
    let mut i: usize = 0;
    while i < a.len() && i < b.len() && a[i] == b[i]
        invariant
            i <= a@.len(),
            i <= b@.len(),
            a@.subrange(0, i as int) == b@.subrange(0, i as int),
        decreases a@.len() - i,
    {
        assert(a@.subrange(0, i + 1) =~= a@.subrange(0, i as int).push(a@[i as int]));
        assert(b@.subrange(0, i + 1) =~= b@.subrange(0, i as int).push(b@[i as int]));
        i = i + 1;
    }
    let r = if i < a.len() && i < b.len() {
        a[i] < b[i]
    } else {
        i == a.len() && i < b.len()
    };
    proof {
        let ii = i as int;
        if r {
            assert(lex_less(a@, b@));
        } else {
            assert forall|j: int|
                0 <= j <= a@.len() && j <= b@.len() && a@.subrange(0, j) == b@.subrange(0, j)
                implies !((j < a@.len() && j < b@.len() && a@[j] < b@[j]) || (j == a@.len()
                && j < b@.len())) by {
                if j < ii {
                    assert(a@.subrange(0, ii)[j] == b@.subrange(0, ii)[j]);
                } else if j > ii {
                    assert(a@.subrange(0, j)[ii] == b@.subrange(0, j)[ii]);
                }
            }
        }
    }
    r
}

} // verus!

verus! {

/// The `n` low-order bytes of `v`, least significant first.
pub open spec fn le_bytes(v: nat, n: nat) -> Seq<u8>
    decreases n,
{
    if n == 0 {
        Seq::empty()
    } else {
        seq![(v % 256) as u8] + le_bytes(v / 256, (n - 1) as nat)
    }
}

/// Appends the `n` low-order bytes of `v`, least significant first.
pub fn push_le(out: &mut Vec<u8>, v: u64, n: usize)
    ensures
        final(out)@ == old(out)@ + le_bytes(v as nat, n as nat),
    decreases n,
{
    if n > 0 {
        out.push((v % 256) as u8);
        push_le(out, v / 256, n - 1);
        proof {
            assert(final(out)@ =~= old(out)@ + le_bytes(v as nat, n as nat));
        }
    } else {
        assert(final(out)@ =~= old(out)@ + le_bytes(v as nat, n as nat));
    }
}

} // verus!

verus! {

/// Distinct strings have distinct UTF-8 bytes.
pub proof fn lemma_utf8_injective(a: Seq<char>, b: Seq<char>)
    requires
        a != b,
    ensures
        utf8(a) != utf8(b),
{
    vstd::utf8::encode_utf8_decode_utf8(a);
    vstd::utf8::encode_utf8_decode_utf8(b);
}

proof fn lemma_prefix_or_difference(a: Seq<u8>, b: Seq<u8>, n: int)
    requires
        0 <= n <= a.len(),
        n <= b.len(),
    ensures
        a.subrange(0, n) == b.subrange(0, n) || exists|i: int|
            0 <= i < n && a.subrange(0, i) == b.subrange(0, i) && a[i] != b[i],
    decreases n,
{
    if n > 0 {
        lemma_prefix_or_difference(a, b, n - 1);
        if a.subrange(0, n - 1) == b.subrange(0, n - 1) {
            if a[n - 1] == b[n - 1] {
                assert(a.subrange(0, n) =~= a.subrange(0, n - 1).push(a[n - 1]));
                assert(b.subrange(0, n) =~= b.subrange(0, n - 1).push(b[n - 1]));
            }
        }
    } else {
        assert(a.subrange(0, 0) =~= b.subrange(0, 0));
    }
}

/// Byte order is total: of two distinct sequences one is below the other.
pub proof fn lemma_lex_total(a: Seq<u8>, b: Seq<u8>)
    requires
        a != b,
    ensures
        lex_less(a, b) || lex_less(b, a),
{
    let m = if a.len() < b.len() {
        a.len() as int
    } else {
        b.len() as int
    };
    lemma_prefix_or_difference(a, b, m);
    if a.subrange(0, m) == b.subrange(0, m) {
        if a.len() == b.len() {
            assert(a =~= a.subrange(0, m));
            assert(b =~= b.subrange(0, m));
        } else if a.len() < b.len() {
            assert(lex_less(a, b));
        } else {
            assert(lex_less(b, a));
        }
    } else {
        let i = choose|i: int| 0 <= i < m && a.subrange(0, i) == b.subrange(0, i) && a[i] != b[i];
        if a[i] < b[i] {
            assert(lex_less(a, b));
        } else {
            assert(lex_less(b, a));
        }
    }
}

} // verus!

verus! {

/// The character of a decimal digit.
pub open spec fn digit_char(d: nat) -> char {
    if d == 0 { '0' } else if d == 1 { '1' } else if d == 2 { '2' } else if d == 3 { '3' }
    else if d == 4 { '4' } else if d == 5 { '5' } else if d == 6 { '6' } else if d == 7 { '7' }
    else if d == 8 { '8' } else { '9' }
}

/// Decimal digits of `n` as characters, most significant first.
pub open spec fn decimal_chars(n: nat) -> Seq<char>
    decreases n,
{
    if n < 10 {
        seq![digit_char(n)]
    } else {
        decimal_chars(n / 10) + seq![digit_char(n % 10)]
    }
}

fn digit_str(d: u64) -> (r: &'static str)
    requires
        d < 10,
    ensures
        r@ == seq![digit_char(d as nat)],
{
    proof {
        reveal_strlit("0"); reveal_strlit("1"); reveal_strlit("2"); reveal_strlit("3");
        reveal_strlit("4"); reveal_strlit("5"); reveal_strlit("6"); reveal_strlit("7");
        reveal_strlit("8"); reveal_strlit("9");
    }
    if d == 0 { "0" } else if d == 1 { "1" } else if d == 2 { "2" } else if d == 3 { "3" }
    else if d == 4 { "4" } else if d == 5 { "5" } else if d == 6 { "6" } else if d == 7 { "7" }
    else if d == 8 { "8" } else { "9" }
}

/// Appends the decimal digits of `n` to a string.
pub fn append_decimal(s: &mut String, n: u64)
    ensures
        final(s)@ == old(s)@ + decimal_chars(n as nat),
    decreases n,
{
    if n >= 10 {
        append_decimal(s, n / 10);
    }
    s.append(digit_str(n % 10));
    proof {
        assert(final(s)@ =~= old(s)@ + decimal_chars(n as nat));
    }
}

} // verus!
