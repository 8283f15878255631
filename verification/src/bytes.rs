//! Byte strings: lexicographic order, little-endian `u64` fields and UTF-8 text.
use vstd::prelude::*;
use vstd::utf8::{decode_utf8, encode_utf8, valid_utf8};

verus! {

/// Lexicographic "less than" on byte strings (a proper prefix is smaller).
pub open spec fn bytes_lt(a: Seq<u8>, b: Seq<u8>) -> bool
    decreases a.len(),
{
    if a.len() == 0 {
        b.len() > 0
    } else if b.len() == 0 {
        false
    } else if a[0] != b[0] {
        a[0] < b[0]
    } else {
        bytes_lt(a.drop_first(), b.drop_first())
    }
}

pub proof fn lemma_bytes_lt_irreflexive(a: Seq<u8>)
    ensures
        !bytes_lt(a, a),
    decreases a.len(),
{
    if a.len() > 0 {
        lemma_bytes_lt_irreflexive(a.drop_first());
    }
}

pub proof fn lemma_bytes_lt_total(a: Seq<u8>, b: Seq<u8>)
    ensures
        a != b ==> bytes_lt(a, b) || bytes_lt(b, a),
        !(bytes_lt(a, b) && bytes_lt(b, a)),
    decreases a.len(),
{
    if a.len() > 0 && b.len() > 0 && a[0] == b[0] {
        lemma_bytes_lt_total(a.drop_first(), b.drop_first());
        if a != b {
            if a.drop_first() == b.drop_first() {
                assert(a =~= seq![a[0]] + a.drop_first());
                assert(b =~= seq![b[0]] + b.drop_first());
            }
        }
    }
    if a.len() == 0 && b.len() == 0 {
        assert(a =~= b);
    }
}

pub proof fn lemma_bytes_lt_transitive(a: Seq<u8>, b: Seq<u8>, c: Seq<u8>)
    requires
        bytes_lt(a, b),
        bytes_lt(b, c),
    ensures
        bytes_lt(a, c),
    decreases a.len(),
{
    if a.len() > 0 && b.len() > 0 && c.len() > 0 && a[0] == b[0] && b[0] == c[0] {
        lemma_bytes_lt_transitive(a.drop_first(), b.drop_first(), c.drop_first());
    }
}

/// Lexicographic comparison of two byte strings.
pub fn bytes_less(a: &[u8], b: &[u8]) -> (r: bool)
    ensures
        r == bytes_lt(a@, b@),
{
    let mut i: usize = 0;
    assert(a@.skip(0) =~= a@ && b@.skip(0) =~= b@);
    while i < a.len() && i < b.len() && a[i] == b[i]
        invariant
            0 <= i <= a@.len(),
            i <= b@.len(),
            bytes_lt(a@, b@) == bytes_lt(a@.skip(i as int), b@.skip(i as int)),
        decreases a@.len() - i,
    {
        proof {
            assert(a@.skip(i as int).drop_first() =~= a@.skip(i + 1));
            assert(b@.skip(i as int).drop_first() =~= b@.skip(i + 1));
        }
        i = i + 1;
    }
    if i == a.len() {
        i < b.len()
    } else if i == b.len() {
        false
    } else {
        a[i] < b[i]
    }
}

/// Little-endian encoding of a `u64`.
pub open spec fn le8(n: u64) -> Seq<u8> {
    seq![
        (n & 0xff) as u8,
        ((n >> 8u64) & 0xff) as u8,
        ((n >> 16u64) & 0xff) as u8,
        ((n >> 24u64) & 0xff) as u8,
        ((n >> 32u64) & 0xff) as u8,
        ((n >> 40u64) & 0xff) as u8,
        ((n >> 48u64) & 0xff) as u8,
        ((n >> 56u64) & 0xff) as u8,
    ]
}

/// Append the little-endian bytes of `n`.
pub fn push_le8(out: &mut Vec<u8>, n: u64)
    ensures
        final(out)@ == old(out)@ + le8(n),
{
    out.push((n & 0xff) as u8);
    out.push(((n >> 8u64) & 0xff) as u8);
    out.push(((n >> 16u64) & 0xff) as u8);
    out.push(((n >> 24u64) & 0xff) as u8);
    out.push(((n >> 32u64) & 0xff) as u8);
    out.push(((n >> 40u64) & 0xff) as u8);
    out.push(((n >> 48u64) & 0xff) as u8);
    out.push(((n >> 56u64) & 0xff) as u8);
    assert(final(out)@ =~= old(out)@ + le8(n));
}

/// Read a little-endian `u64` at `off`.
pub fn read_le8(b: &[u8], off: usize) -> (n: u64)
    requires
        off + 8 <= b@.len(),
    ensures
        le8(n) == b@.subrange(off as int, off + 8),
{
    let b0 = b[off] as u64;
    let b1 = b[off + 1] as u64;
    let b2 = b[off + 2] as u64;
    let b3 = b[off + 3] as u64;
    let b4 = b[off + 4] as u64;
    let b5 = b[off + 5] as u64;
    let b6 = b[off + 6] as u64;
    let b7 = b[off + 7] as u64;
    let n: u64 = b0 | (b1 << 8u64) | (b2 << 16u64) | (b3 << 24u64) | (b4 << 32u64) | (b5 << 40u64) | (b6 << 48u64) | (b7 << 56u64);
    assert(
        (n & 0xff) == b0 && ((n >> 8u64) & 0xff) == b1 && ((n >> 16u64) & 0xff) == b2 && ((n >> 24u64) & 0xff) == b3
    ) by (bit_vector)
        requires
            b0 < 256 && b1 < 256 && b2 < 256 && b3 < 256 && b4 < 256 && b5 < 256 && b6 < 256 && b7 < 256,
            n == b0 | (b1 << 8u64) | (b2 << 16u64) | (b3 << 24u64) | (b4 << 32u64) | (b5 << 40u64) | (b6 << 48u64) | (b7 << 56u64),
    ;
    assert(
        ((n >> 32u64) & 0xff) == b4 && ((n >> 40u64) & 0xff) == b5 && ((n >> 48u64) & 0xff) == b6 && ((n >> 56u64) & 0xff) == b7
    ) by (bit_vector)
        requires
            b0 < 256 && b1 < 256 && b2 < 256 && b3 < 256 && b4 < 256 && b5 < 256 && b6 < 256 && b7 < 256,
            n == b0 | (b1 << 8u64) | (b2 << 16u64) | (b3 << 24u64) | (b4 << 32u64) | (b5 << 40u64) | (b6 << 48u64) | (b7 << 56u64),
    ;
    assert(le8(n) =~= b@.subrange(off as int, off + 8));
    n
}

/// The little-endian encoding determines the number.
pub proof fn lemma_le8_injective(a: u64, b: u64)
    requires
        le8(a) == le8(b),
    ensures
        a == b,
{
    assert(le8(a)[0] == le8(b)[0] && le8(a)[1] == le8(b)[1] && le8(a)[2] == le8(b)[2] && le8(a)[3] == le8(b)[3]);
    assert(le8(a)[4] == le8(b)[4] && le8(a)[5] == le8(b)[5] && le8(a)[6] == le8(b)[6] && le8(a)[7] == le8(b)[7]);
    let a0 = a & 0xff;
    let b0 = b & 0xff;
    assert((a & 0xff) < 256 && (b & 0xff) < 256) by (bit_vector);
    assert(((a >> 8u64) & 0xff) < 256 && ((b >> 8u64) & 0xff) < 256) by (bit_vector);
    assert(((a >> 16u64) & 0xff) < 256 && ((b >> 16u64) & 0xff) < 256) by (bit_vector);
    assert(((a >> 24u64) & 0xff) < 256 && ((b >> 24u64) & 0xff) < 256) by (bit_vector);
    assert(((a >> 32u64) & 0xff) < 256 && ((b >> 32u64) & 0xff) < 256) by (bit_vector);
    assert(((a >> 40u64) & 0xff) < 256 && ((b >> 40u64) & 0xff) < 256) by (bit_vector);
    assert(((a >> 48u64) & 0xff) < 256 && ((b >> 48u64) & 0xff) < 256) by (bit_vector);
    assert(((a >> 56u64) & 0xff) < 256 && ((b >> 56u64) & 0xff) < 256) by (bit_vector);
    assert(a == b) by (bit_vector)
        requires
            (a & 0xff) == (b & 0xff),
            ((a >> 8u64) & 0xff) == ((b >> 8u64) & 0xff),
            ((a >> 16u64) & 0xff) == ((b >> 16u64) & 0xff),
            ((a >> 24u64) & 0xff) == ((b >> 24u64) & 0xff),
            ((a >> 32u64) & 0xff) == ((b >> 32u64) & 0xff),
            ((a >> 40u64) & 0xff) == ((b >> 40u64) & 0xff),
            ((a >> 48u64) & 0xff) == ((b >> 48u64) & 0xff),
            ((a >> 56u64) & 0xff) == ((b >> 56u64) & 0xff),
    ;
}

/// UTF-8 bytes of a string.
pub fn string_bytes(s: &String) -> (b: Vec<u8>)
    ensures
        b@ == encode_utf8(s@),
{
    let bs = s.as_str().as_bytes();
    let mut v: Vec<u8> = Vec::new();
    let mut i: usize = 0;
    while i < bs.len()
        invariant
            0 <= i <= bs@.len(),
            v@ == bs@.subrange(0, i as int),
        decreases bs@.len() - i,
    {
        v.push(bs[i]);
        i = i + 1;
    }
    assert(v@ =~= bs@);
    v
}

/// Decode UTF-8 bytes into a `String` (std's `str::from_utf8`): `None` exactly when
/// the bytes are not valid UTF-8.
#[verifier::external_body]
pub(crate) fn utf8_to_string(b: &[u8]) -> (r: Option<String>)
    ensures
        r.is_some() == valid_utf8(b@),
        r.is_some() ==> r.unwrap()@ == decode_utf8(b@),
{
    match std::str::from_utf8(b) {
        Ok(s) => Some(s.to_owned()),
        Err(_) => None,
    }
}

} // verus!
