//! Reference key/value state machine: an in-memory string map with a
//! self-describing snapshot format.
use vstd::prelude::*;
use vstd::utf8::{decode_utf8, encode_utf8, encode_utf8_decode_utf8, encode_utf8_valid_utf8, valid_utf8};

use crate::bytes::{
    bytes_less, bytes_lt, le8, lemma_bytes_lt_irreflexive, lemma_bytes_lt_total, lemma_bytes_lt_transitive,
    push_le8, read_le8, string_bytes, utf8_to_string,
};
use crate::ids::LogIndex;
use crate::keyed::{has_key, keys_distinct, lemma_seq_map_index, lemma_seq_map_insert, lemma_seq_map_len, lemma_seq_map_remove, lemma_seq_map_update, seq_map};

verus! {

/// Write side of the reference KV machine.
#[derive(Debug, Clone, PartialEq, Eq)]
pub enum KvCommand {
    /// Insert or overwrite a key.
    Put { key: String, value: String },
    /// Remove a key.
    Delete { key: String },
}

/// Read side of the reference KV machine.
#[derive(Debug, Clone, PartialEq, Eq)]
pub enum KvQuery {
    /// Look up a key.
    Get { key: String },
    /// Number of keys stored.
    Len,
}

/// Responses from apply/query on the reference KV machine.
#[derive(Debug, Clone, PartialEq, Eq)]
pub enum KvResponse {
    /// A successful write, with the prior value if any.
    Put { previous: Option<String> },
    /// Result of a delete.
    Deleted { existed: bool },
    /// Result of a get (missing keys are `None`).
    Value(Option<String>),
    /// Key count.
    Len(u64),
}

/// Errors from the reference KV machine (only a malformed snapshot fails).
#[derive(Debug, Clone, Copy, PartialEq, Eq, Structural)]
pub struct KvError;

impl KvError {
    /// The error's display text.
    pub fn message(&self) -> (s: String)
        ensures
            s@ == "kv error"@,
    {
        String::from_str("kv error")
    }
}

/// Keys are ordered by their UTF-8 bytes (the order of `str`).
pub open spec fn key_lt(a: Seq<char>, b: Seq<char>) -> bool {
    bytes_lt(encode_utf8(a), encode_utf8(b))
}

/// Entries are strictly increasing by key.
pub open spec fn kv_sorted(s: Seq<(Seq<char>, Seq<char>)>) -> bool {
    forall|i: int, j: int| 0 <= i < j < s.len() ==> key_lt(#[trigger] s[i].0, #[trigger] s[j].0)
}

pub open spec fn is_kv_pos(s: Seq<(Seq<char>, Seq<char>)>, k: Seq<char>, i: int) -> bool {
    0 <= i <= s.len() && (forall|j: int| 0 <= j < i ==> key_lt(s[j].0, k)) && (forall|j: int|
        i <= j < s.len() ==> !key_lt(s[j].0, k))
}

/// Position of key `k` in sorted entries (where it is, or where it would go).
pub open spec fn kv_pos(s: Seq<(Seq<char>, Seq<char>)>, k: Seq<char>) -> int {
    choose|i: int| #[trigger] is_kv_pos(s, k, i)
}

/// Entries after setting `k` to `v`.
pub open spec fn kv_set(s: Seq<(Seq<char>, Seq<char>)>, k: Seq<char>, v: Seq<char>) -> Seq<(Seq<char>, Seq<char>)> {
    let p = kv_pos(s, k);
    if p < s.len() && s[p].0 == k { s.update(p, (k, v)) } else { s.insert(p, (k, v)) }
}

/// Entries after removing `k`.
pub open spec fn kv_remove(s: Seq<(Seq<char>, Seq<char>)>, k: Seq<char>) -> Seq<(Seq<char>, Seq<char>)> {
    let p = kv_pos(s, k);
    if p < s.len() && s[p].0 == k { s.remove(p) } else { s }
}

pub open spec fn opt_string_view(o: Option<String>) -> Option<Seq<char>> {
    match o {
        Some(s) => Some(s@),
        None => None,
    }
}

/// The value of `k` in map `m`, if any.
pub open spec fn map_get(m: Map<Seq<char>, Seq<char>>, k: Seq<char>) -> Option<Seq<char>> {
    if m.contains_key(k) { Some(m[k]) } else { None }
}

pub proof fn lemma_sorted_distinct(s: Seq<(Seq<char>, Seq<char>)>)
    requires
        kv_sorted(s),
    ensures
        keys_distinct(s),
{
    assert forall|i: int, j: int| 0 <= i < s.len() && 0 <= j < s.len() && i != j implies s[i].0 != s[j].0 by {
        if i < j {
            assert(key_lt(s[i].0, s[j].0));
        } else {
            assert(key_lt(s[j].0, s[i].0));
        }
        lemma_bytes_lt_irreflexive(encode_utf8(s[i].0));
    }
}

pub proof fn lemma_kv_pos(s: Seq<(Seq<char>, Seq<char>)>, k: Seq<char>, i: int)
    requires
        kv_sorted(s),
        is_kv_pos(s, k, i),
    ensures
        kv_pos(s, k) == i,
{
    let p = kv_pos(s, k);
    assert(is_kv_pos(s, k, p));
    if p < i {
        assert(key_lt(s[p].0, k));
    }
    if p > i {
        assert(key_lt(s[i].0, k));
    }
}

/// Distinct keys have distinct UTF-8 encodings.
pub proof fn lemma_encode_injective(a: Seq<char>, b: Seq<char>)
    requires
        encode_utf8(a) == encode_utf8(b),
    ensures
        a == b,
{
    encode_utf8_decode_utf8(a);
    encode_utf8_decode_utf8(b);
}

/// `a` sorts before the key whose UTF-8 bytes are `kb`.
fn key_before(a: &String, kb: &Vec<u8>) -> (r: bool)
    ensures
        r == bytes_lt(encode_utf8(a@), kb@),
{
    let ab = string_bytes(a);
    bytes_less(ab.as_slice(), kb.as_slice())
}


// ---------------------------------------------------------------------------
// Snapshot format: count, then for every entry its key and value, each a
// little-endian u64 byte length followed by the UTF-8 bytes.
// ---------------------------------------------------------------------------

/// Encoding of one string.
pub open spec fn enc_str(s: Seq<char>) -> Seq<u8> {
    le8(encode_utf8(s).len() as u64) + encode_utf8(s)
}

/// Encoding of a sequence of entries.
pub open spec fn enc_pairs(t: Seq<(Seq<char>, Seq<char>)>) -> Seq<u8>
    decreases t.len(),
{
    if t.len() == 0 {
        Seq::empty()
    } else {
        enc_str(t[0].0) + enc_str(t[0].1) + enc_pairs(t.drop_first())
    }
}

/// Snapshot bytes of a store with entries `t`.
pub open spec fn kv_encode(t: Seq<(Seq<char>, Seq<char>)>) -> Seq<u8> {
    le8(t.len() as u64) + enc_pairs(t)
}

/// The number whose little-endian encoding is the 8 bytes `b`.
pub open spec fn u64_of(b: Seq<u8>) -> u64 {
    choose|n: u64| le8(n) == b
}

/// Parse one string at `off`.
pub open spec fn parse_str(b: Seq<u8>, off: int) -> Option<(Seq<char>, int)> {
    if 0 <= off && off + 8 <= b.len() {
        let n = u64_of(b.subrange(off, off + 8));
        if off + 8 + n <= b.len() && valid_utf8(b.subrange(off + 8, off + 8 + n)) {
            Some((decode_utf8(b.subrange(off + 8, off + 8 + n)), off + 8 + n))
        } else {
            None
        }
    } else {
        None
    }
}

/// Parse `c` entries at `off`.
pub open spec fn parse_pairs(b: Seq<u8>, off: int, c: nat) -> Option<(Seq<(Seq<char>, Seq<char>)>, int)>
    decreases c,
{
    if c == 0 {
        Some((Seq::empty(), off))
    } else {
        match parse_str(b, off) {
            None => None,
            Some((k, o1)) => match parse_str(b, o1) {
                None => None,
                Some((v, o2)) => match parse_pairs(b, o2, (c - 1) as nat) {
                    None => None,
                    Some((rest, o3)) => Some((seq![(k, v)] + rest, o3)),
                },
            },
        }
    }
}

/// The entries a snapshot holds, or `None` when the bytes are not a snapshot.
pub open spec fn kv_decode(b: Seq<u8>) -> Option<Seq<(Seq<char>, Seq<char>)>> {
    if b.len() >= 8 {
        match parse_pairs(b, 8, u64_of(b.subrange(0, 8)) as nat) {
            Some((t, end)) => if end == b.len() { Some(t) } else { None },
            None => None,
        }
    } else {
        None
    }
}

/// The store obtained by setting the entries of `t` in order, starting empty.
pub open spec fn kv_build(t: Seq<(Seq<char>, Seq<char>)>) -> Seq<(Seq<char>, Seq<char>)>
    decreases t.len(),
{
    if t.len() == 0 {
        Seq::empty()
    } else {
        kv_set(kv_build(t.drop_last()), t.last().0, t.last().1)
    }
}

pub open spec fn prepend_parsed(
    parsed: Seq<(Seq<char>, Seq<char>)>,
    r: Option<(Seq<(Seq<char>, Seq<char>)>, int)>,
) -> Option<(Seq<(Seq<char>, Seq<char>)>, int)> {
    match r {
        None => None,
        Some((rest, e)) => Some((parsed + rest, e)),
    }
}

pub proof fn lemma_enc_pairs_snoc(t: Seq<(Seq<char>, Seq<char>)>, p: (Seq<char>, Seq<char>))
    ensures
        enc_pairs(t.push(p)) == enc_pairs(t) + enc_str(p.0) + enc_str(p.1),
    decreases t.len(),
{
    if t.len() == 0 {
        let e = Seq::<(Seq<char>, Seq<char>)>::empty();
        assert(t.push(p).drop_first() =~= e);
        assert(t.push(p)[0] == p);
        assert(enc_pairs(e) == Seq::<u8>::empty());
        assert(enc_pairs(t.push(p)) == enc_str(p.0) + enc_str(p.1) + enc_pairs(e));
        assert(enc_pairs(t.push(p)) =~= enc_str(p.0) + enc_str(p.1));
        assert(enc_pairs(t) =~= Seq::<u8>::empty());
        assert(enc_pairs(t) + enc_str(p.0) + enc_str(p.1) =~= enc_str(p.0) + enc_str(p.1));
    } else {
        assert(t.push(p).drop_first() =~= t.drop_first().push(p));
        lemma_enc_pairs_snoc(t.drop_first(), p);
        assert(t.push(p)[0] == t[0]);
        assert(enc_pairs(t.push(p)) =~= enc_pairs(t) + enc_str(p.0) + enc_str(p.1));
    }
}

pub proof fn lemma_parse_str_enc(b: Seq<u8>, off: int, s: Seq<char>)
    requires
        0 <= off,
        encode_utf8(s).len() <= u64::MAX,
        off + enc_str(s).len() <= b.len(),
        b.subrange(off, off + enc_str(s).len()) == enc_str(s),
    ensures
        parse_str(b, off) == Some((s, off + enc_str(s).len())),
{
    let e = encode_utf8(s);
    let l = e.len() as u64;
    assert(b.subrange(off, off + 8) =~= le8(l)) by {
        assert forall|i: int| 0 <= i < 8 implies b.subrange(off, off + 8)[i] == le8(l)[i] by {
            assert(b.subrange(off, off + enc_str(s).len())[i] == enc_str(s)[i]);
        }
    }
    let n = u64_of(b.subrange(off, off + 8));
    assert(le8(n) == le8(l));
    crate::bytes::lemma_le8_injective(n, l);
    assert(b.subrange(off + 8, off + 8 + n) =~= e) by {
        assert forall|i: int| 0 <= i < e.len() implies b.subrange(off + 8, off + 8 + n)[i] == e[i] by {
            assert(b.subrange(off, off + enc_str(s).len())[8 + i] == enc_str(s)[8 + i]);
        }
    }
    encode_utf8_valid_utf8(s);
    encode_utf8_decode_utf8(s);
}

/// Every key and value of `t` encodes to fewer than 2^64 bytes.
pub open spec fn lengths_fit(t: Seq<(Seq<char>, Seq<char>)>) -> bool {
    forall|i: int| 0 <= i < t.len() ==> encode_utf8(#[trigger] t[i].0).len() <= u64::MAX && encode_utf8(t[i].1).len() <= u64::MAX
}

pub proof fn lemma_parse_pairs_enc(b: Seq<u8>, off: int, t: Seq<(Seq<char>, Seq<char>)>)
    requires
        0 <= off,
        lengths_fit(t),
        off + enc_pairs(t).len() <= b.len(),
        b.subrange(off, off + enc_pairs(t).len()) == enc_pairs(t),
    ensures
        parse_pairs(b, off, t.len()) == Some((t, off + enc_pairs(t).len())),
    decreases t.len(),
{
    if t.len() == 0 {
        assert(t =~= Seq::<(Seq<char>, Seq<char>)>::empty());
    } else {
        let a = enc_str(t[0].0);
        let v = enc_str(t[0].1);
        let r = enc_pairs(t.drop_first());
        assert(enc_pairs(t) == a + v + r);
        assert(lengths_fit(t.drop_first())) by {
            assert forall|i: int| 0 <= i < t.drop_first().len() implies encode_utf8(#[trigger] t.drop_first()[i].0).len() <= u64::MAX && encode_utf8(t.drop_first()[i].1).len() <= u64::MAX by {
                assert(t.drop_first()[i] == t[i + 1]);
            }
        }
        assert(encode_utf8(t[0].0).len() <= u64::MAX && encode_utf8(t[0].1).len() <= u64::MAX);
        assert(b.subrange(off, off + a.len()) =~= a) by {
            assert forall|i: int| 0 <= i < a.len() implies b.subrange(off, off + a.len())[i] == a[i] by {
                assert(b.subrange(off, off + enc_pairs(t).len())[i] == (a + v + r)[i]);
            }
        }
        lemma_parse_str_enc(b, off, t[0].0);
        let o1 = off + a.len();
        assert(b.subrange(o1, o1 + v.len()) =~= v) by {
            assert forall|i: int| 0 <= i < v.len() implies b.subrange(o1, o1 + v.len())[i] == v[i] by {
                assert(b.subrange(off, off + enc_pairs(t).len())[a.len() + i] == (a + v + r)[a.len() + i]);
            }
        }
        lemma_parse_str_enc(b, o1, t[0].1);
        let o2 = o1 + v.len();
        assert(b.subrange(o2, o2 + r.len()) =~= r) by {
            assert forall|i: int| 0 <= i < r.len() implies b.subrange(o2, o2 + r.len())[i] == r[i] by {
                assert(b.subrange(off, off + enc_pairs(t).len())[a.len() + v.len() + i] == (a + v + r)[a.len() + v.len() + i]);
            }
        }
        lemma_parse_pairs_enc(b, o2, t.drop_first());
        assert(seq![(t[0].0, t[0].1)] + t.drop_first() =~= t);
    }
}

pub proof fn lemma_build_sorted(t: Seq<(Seq<char>, Seq<char>)>)
    requires
        kv_sorted(t),
    ensures
        kv_build(t) == t,
    decreases t.len(),
{
    if t.len() > 0 {
        let u = t.drop_last();
        assert(kv_sorted(u));
        lemma_build_sorted(u);
        let k = t.last().0;
        assert(is_kv_pos(u, k, u.len() as int)) by {
            assert forall|j: int| 0 <= j < u.len() implies key_lt(u[j].0, k) by {
                assert(key_lt(t[j].0, t[t.len() - 1].0));
            }
        }
        lemma_kv_pos(u, k, u.len() as int);
        assert(u.insert(u.len() as int, t.last()) =~= t);
    }
}

/// A read after a write: once `apply` has put `v` under `k`, a `Get` of `k`
/// answers `v`; once it has deleted `k`, a `Get` of `k` answers nothing; and
/// neither write changes what a `Get` of any other key answers.
pub proof fn law_read_after_write(m: Map<Seq<char>, Seq<char>>, k: Seq<char>, v: Seq<char>, other: Seq<char>)
    requires
        other != k,
    ensures
        map_get(m.insert(k, v), k) == Some(v),
        map_get(m.remove(k), k) == None::<Seq<char>>,
        map_get(m.insert(k, v), other) == map_get(m, other),
        map_get(m.remove(k), other) == map_get(m, other),
{
}

/// Snapshot then decode gives back the entries (when lengths fit the format).
pub proof fn law_kv_snapshot_round_trip(t: Seq<(Seq<char>, Seq<char>)>)
    requires
        kv_sorted(t),
        lengths_fit(t),
        t.len() <= u64::MAX,
    ensures
        kv_decode(kv_encode(t)) == Some(t),
        kv_build(t) == t,
{
    let b = kv_encode(t);
    assert(b.subrange(0, 8) =~= le8(t.len() as u64));
    let c = u64_of(b.subrange(0, 8));
    crate::bytes::lemma_le8_injective(c, t.len() as u64);
    assert(b.subrange(8, 8 + enc_pairs(t).len() as int) =~= enc_pairs(t));
    lemma_parse_pairs_enc(b, 8, t);
    lemma_build_sorted(t);
}


/// Append `b` to `out`.
fn append_bytes(out: &mut Vec<u8>, b: &[u8])
    ensures
        final(out)@ == old(out)@ + b@,
{
    let mut i: usize = 0;
    let ghost start = out@;
    while i < b.len()
        invariant
            0 <= i <= b@.len(),
            out@ == start + b@.subrange(0, i as int),
        decreases b@.len() - i,
    {
        out.push(b[i]);
        i = i + 1;
        assert(out@ =~= start + b@.subrange(0, i as int));
    }
    assert(b@.subrange(0, b@.len() as int) =~= b@);
}

/// Append the encoding of one string.
fn push_str(out: &mut Vec<u8>, s: &String)
    ensures
        final(out)@ == old(out)@ + enc_str(s@),
        encode_utf8(s@).len() <= u64::MAX,
{
    let bs = string_bytes(s);
    push_le8(out, bs.len() as u64);
    append_bytes(out, bs.as_slice());
    assert(final(out)@ =~= old(out)@ + enc_str(s@));
}

/// Parse one string at `off`.
fn parse_string(b: &[u8], off: usize) -> (r: Option<(String, usize)>)
    ensures
        match r {
            Some((s, o)) => parse_str(b@, off as int) == Some((s@, o as int)),
            None => parse_str(b@, off as int) is None,
        },
{
    if off > b.len() || b.len() - off < 8 {
        return None;
    }
    let n = read_le8(b, off);
    proof {
        let m = u64_of(b@.subrange(off as int, off + 8));
        assert(le8(m) == b@.subrange(off as int, off + 8));
        crate::bytes::lemma_le8_injective(m, n);
    }
    let start = off + 8;
    if n > (b.len() - start) as u64 {
        return None;
    }
    let end = start + n as usize;
    let piece = vstd::slice::slice_subrange(b, start, end);
    match utf8_to_string(piece) {
        Some(s) => Some((s, end)),
        None => None,
    }
}

/// In-memory key/value store wired into Raft as a user state machine.
#[derive(Debug, Clone, PartialEq, Eq)]
pub struct Kv {
    entries: Vec<(String, String)>,
}

/// Shorter alias used in docs and tests.
pub type KvMachine = Kv;

impl View for Kv {
    type V = Seq<(Seq<char>, Seq<char>)>;

    closed spec fn view(&self) -> Seq<(Seq<char>, Seq<char>)> {
        self.entries@.map_values(|e: (String, String)| (e.0@, e.1@))
    }
}

impl Kv {
    /// The stored map.
    pub open spec fn map(&self) -> Map<Seq<char>, Seq<char>> {
        seq_map(self@)
    }

    /// Entries are kept sorted by key.
    pub open spec fn wf(&self) -> bool {
        kv_sorted(self@)
    }

    /// Empty store.
    pub fn new() -> (kv: Self)
        ensures
            kv.wf(),
            kv@ == Seq::<(Seq<char>, Seq<char>)>::empty(),
            kv.map() == Map::<Seq<char>, Seq<char>>::empty(),
    {
        let kv = Kv { entries: Vec::new() };
        assert(kv@ =~= Seq::<(Seq<char>, Seq<char>)>::empty());
        assert(seq_map(kv@) =~= Map::<Seq<char>, Seq<char>>::empty());
        kv
    }

    /// Position of `key` among the entries and whether it is stored there.
    fn locate(&self, key: &String) -> (r: (usize, bool))
        requires
            self.wf(),
        ensures
            r.0 as int == kv_pos(self@, key@),
            is_kv_pos(self@, key@, r.0 as int),
            r.0 <= self@.len(),
            r.1 == (r.0 < self@.len() && self@[r.0 as int].0 == key@),
            r.1 == self.map().contains_key(key@),
    {
        let kb = string_bytes(key);
        let mut i: usize = 0;
        while i < self.entries.len() && key_before(&self.entries[i].0, &kb)
            invariant
                self.wf(),
                kb@ == encode_utf8(key@),
                0 <= i <= self.entries@.len(),
                forall|j: int| 0 <= j < i ==> key_lt(self@[j].0, key@),
            decreases self.entries@.len() - i,
        {
            i = i + 1;
        }
        let ghost s = self@;
        proof {
            assert forall|j: int| i <= j < s.len() implies !key_lt(s[j].0, key@) by {
                if j > i {
                    assert(key_lt(s[i as int].0, s[j].0));
                    if key_lt(s[j].0, key@) {
                        lemma_bytes_lt_transitive(encode_utf8(s[i as int].0), encode_utf8(s[j].0), encode_utf8(key@));
                    }
                }
            }
            lemma_kv_pos(s, key@, i as int);
            lemma_sorted_distinct(s);
        }
        let found = i < self.entries.len() && self.entries[i].0 == *key;
        proof {
            if found {
                lemma_seq_map_index(s, i as int);
            } else {
                assert forall|j: int| 0 <= j < s.len() implies s[j].0 != key@ by {
                    if j < i {
                        lemma_bytes_lt_irreflexive(encode_utf8(key@));
                    } else if j > i {
                        assert(key_lt(s[i as int].0, s[j].0));
                        if s[j].0 == key@ {
                            assert(!key_lt(s[i as int].0, key@));
                            lemma_bytes_lt_total(encode_utf8(s[i as int].0), encode_utf8(key@));
                            if encode_utf8(s[i as int].0) == encode_utf8(key@) {
                                lemma_encode_injective(s[i as int].0, key@);
                            }
                        }
                    }
                }
            }
        }
        (i, found)
    }

    /// Set `key` to `value`; returns the previous value.
    pub fn set(&mut self, key: String, value: String) -> (previous: Option<String>)
        requires
            old(self).wf(),
        ensures
            final(self).wf(),
            final(self)@ == kv_set(old(self)@, key@, value@),
            final(self).map() == old(self).map().insert(key@, value@),
            opt_string_view(previous) == map_get(old(self).map(), key@),
    {
        let (p, found) = self.locate(&key);
        let ghost s = self@;
        let ghost kb = encode_utf8(key@);
        proof {
            lemma_sorted_distinct(s);
        }
        if found {
            let (_k, prev) = self.entries.remove(p);
            self.entries.insert(p, (key, value));
            proof {
                assert(self@ =~= s.update(p as int, (key@, value@)));
                lemma_seq_map_update(s, p as int, value@);
                lemma_seq_map_index(s, p as int);
            }
            Some(prev)
        } else {
            self.entries.insert(p, (key, value));
            proof {
                assert(self@ =~= s.insert(p as int, (key@, value@)));
                assert(!has_key(s, key@)) by {
                    if has_key(s, key@) {
                        let j = choose|j: int| 0 <= j < s.len() && s[j].0 == key@;
                        lemma_seq_map_index(s, j);
                    }
                }
                lemma_seq_map_insert(s, p as int, key@, value@);
                let t = self@;
                assert forall|a: int, b: int| 0 <= a < b < t.len() implies key_lt(#[trigger] t[a].0, #[trigger] t[b].0) by {
                    if b < p {
                        assert(t[a] == s[a] && t[b] == s[b]);
                    } else if b == p {
                        assert(t[a] == s[a]);
                    } else if a == p {
                        assert(t[b] == s[b - 1]);
                        let q = p as int;
                        assert(!key_lt(s[q].0, key@));
                        lemma_bytes_lt_total(encode_utf8(s[q].0), kb);
                        if encode_utf8(s[q].0) == kb {
                            lemma_encode_injective(s[q].0, key@);
                        }
                        if b - 1 > q {
                            lemma_bytes_lt_transitive(kb, encode_utf8(s[q].0), encode_utf8(s[b - 1].0));
                        }
                    } else if a < p {
                        assert(t[a] == s[a] && t[b] == s[b - 1]);
                        if b - 1 != a {
                        }
                    } else {
                        assert(t[a] == s[a - 1] && t[b] == s[b - 1]);
                    }
                }
            }
            None
        }
    }

    /// Remove `key`; returns whether it was stored.
    pub fn delete(&mut self, key: &String) -> (existed: bool)
        requires
            old(self).wf(),
        ensures
            final(self).wf(),
            final(self)@ == kv_remove(old(self)@, key@),
            final(self).map() == old(self).map().remove(key@),
            existed == old(self).map().contains_key(key@),
    {
        let (p, found) = self.locate(key);
        let ghost s = self@;
        proof {
            lemma_sorted_distinct(s);
        }
        if found {
            self.entries.remove(p);
            proof {
                assert(self@ =~= s.remove(p as int));
                lemma_seq_map_remove(s, p as int);
                let t = self@;
                assert forall|a: int, b: int| 0 <= a < b < t.len() implies key_lt(#[trigger] t[a].0, #[trigger] t[b].0) by {
                    let a2 = if a < p { a } else { a + 1 };
                    let b2 = if b < p { b } else { b + 1 };
                    assert(t[a] == s[a2] && t[b] == s[b2]);
                }
            }
        } else {
            proof {
                assert(seq_map(s).remove(key@) =~= seq_map(s));
            }
        }
        found
    }

    /// The value stored for `key`.
    pub fn get(&self, key: &String) -> (r: Option<String>)
        requires
            self.wf(),
        ensures
            opt_string_view(r) == map_get(self.map(), key@),
    {
        let (p, found) = self.locate(key);
        if found {
            proof {
                lemma_sorted_distinct(self@);
                lemma_seq_map_index(self@, p as int);
            }
            Some(self.entries[p].1.clone())
        } else {
            None
        }
    }

    /// Number of stored keys.
    pub fn len(&self) -> (n: usize)
        requires
            self.wf(),
        ensures
            n as nat == self.map().dom().len(),
            n as nat == self@.len(),
    {
        proof {
            lemma_sorted_distinct(self@);
            lemma_seq_map_len(self@);
        }
        self.entries.len()
    }

    /// Apply a replicated write.
    pub fn apply(&mut self, index: LogIndex, command: &KvCommand) -> (r: Result<KvResponse, KvError>)
        requires
            old(self).wf(),
        ensures
            final(self).wf(),
            match command {
                KvCommand::Put { key, value } => {
                    &&& final(self).map() == old(self).map().insert(key@, value@)
                    &&& r matches Ok(KvResponse::Put { previous }) && opt_string_view(previous) == map_get(old(self).map(), key@)
                },
                KvCommand::Delete { key } => {
                    &&& final(self).map() == old(self).map().remove(key@)
                    &&& r == Ok::<KvResponse, KvError>(KvResponse::Deleted { existed: old(self).map().contains_key(key@) })
                },
            },
    {
        match command {
            KvCommand::Put { key, value } => {
                let previous = self.set(key.clone(), value.clone());
                Ok(KvResponse::Put { previous })
            },
            KvCommand::Delete { key } => {
                let existed = self.delete(key);
                Ok(KvResponse::Deleted { existed })
            },
        }
    }


    /// Snapshot bytes: the entry count, then every key and value in key order,
    /// each as a little-endian `u64` byte length followed by its UTF-8 bytes.
    pub fn snapshot(&self) -> (r: Result<Vec<u8>, KvError>)
        requires
            self.wf(),
        ensures
            r matches Ok(bytes) && bytes@ == kv_encode(self@),
            lengths_fit(self@),
    {
        let mut out: Vec<u8> = Vec::new();
        let n = self.entries.len();
        push_le8(&mut out, n as u64);
        let mut i: usize = 0;
        while i < n
            invariant
                n == self@.len(),
                0 <= i <= n,
                out@ == le8(n as u64) + enc_pairs(self@.subrange(0, i as int)),
                forall|j: int| 0 <= j < i ==> encode_utf8(#[trigger] self@[j].0).len() <= u64::MAX && encode_utf8(self@[j].1).len() <= u64::MAX,
            decreases n - i,
        {
            let ghost before = out@;
            push_str(&mut out, &self.entries[i].0);
            push_str(&mut out, &self.entries[i].1);
            proof {
                let t = self@;
                assert(t[i as int] == (self.entries@[i as int].0@, self.entries@[i as int].1@));
                assert(encode_utf8(t[i as int].0).len() <= u64::MAX);
                assert(encode_utf8(t[i as int].1).len() <= u64::MAX);
                assert(t.subrange(0, i as int).push(t[i as int]) =~= t.subrange(0, i + 1));
                lemma_enc_pairs_snoc(t.subrange(0, i as int), t[i as int]);
            }
            i = i + 1;
            assert(out@ =~= le8(n as u64) + enc_pairs(self@.subrange(0, i as int)));
            assert forall|j: int| 0 <= j < i implies encode_utf8(#[trigger] self@[j].0).len() <= u64::MAX && encode_utf8(self@[j].1).len() <= u64::MAX by {
                if j == i - 1 {
                    assert(self@[j] == (self.entries@[j].0@, self.entries@[j].1@));
                }
            }
        }
        assert(self@.subrange(0, n as int) =~= self@);
        Ok(out)
    }

    /// Replace the store with the one a snapshot holds. Fails, leaving the store
    /// unchanged, when the bytes are not a snapshot; entries whose key repeats an
    /// earlier one overwrite it.
    pub fn restore(&mut self, snapshot: &[u8]) -> (r: Result<(), KvError>)
        requires
            old(self).wf(),
        ensures
            final(self).wf(),
            r is Ok <==> kv_decode(snapshot@) is Some,
            r is Ok ==> final(self)@ == kv_build(kv_decode(snapshot@).unwrap()),
            r is Err ==> *final(self) == *old(self),
    {
        let ghost b = snapshot@;
        if snapshot.len() < 8 {
            return Err(KvError);
        }
        let count = read_le8(snapshot, 0);
        proof {
            let m = u64_of(b.subrange(0, 8));
            assert(le8(m) == b.subrange(0, 8));
            crate::bytes::lemma_le8_injective(m, count);
        }
        let mut fresh = Kv::new();
        let mut off: usize = 8;
        let mut i: u64 = 0;
        let ghost mut parsed: Seq<(Seq<char>, Seq<char>)> = Seq::empty();
        assert(parsed + Seq::<(Seq<char>, Seq<char>)>::empty() =~= parsed);
        while i < count
            invariant
                b == snapshot@,
                b.len() >= 8,
                self.wf(),
                count == u64_of(b.subrange(0, 8)),
                i <= count,
                fresh.wf(),
                fresh@ == kv_build(parsed),
                parse_pairs(b, 8, count as nat) == prepend_parsed(parsed, parse_pairs(b, off as int, (count - i) as nat)),
            decreases count - i,
        {
            let (k, o1) = match parse_string(snapshot, off) {
                Some(x) => x,
                None => {
                    return Err(KvError);
                },
            };
            let (v, o2) = match parse_string(snapshot, o1) {
                Some(x) => x,
                None => {
                    return Err(KvError);
                },
            };
            let ghost prev = parsed;
            let ghost kv_pair = (k@, v@);
            proof {
                parsed = parsed.push(kv_pair);
                let rest = parse_pairs(b, o2 as int, (count - i - 1) as nat);
                match rest {
                    Some((rs, e)) => {
                        assert(prev + (seq![kv_pair] + rs) =~= parsed + rs);
                    },
                    None => {},
                }
                assert(parsed.drop_last() =~= prev);
            }
            fresh.set(k, v);
            off = o2;
            i = i + 1;
        }
        if off != snapshot.len() {
            return Err(KvError);
        }
        proof {
            assert(parsed + Seq::<(Seq<char>, Seq<char>)>::empty() =~= parsed);
        }
        *self = fresh;
        Ok(())
    }

    /// Answer a read.
    pub fn query(&self, query: &KvQuery) -> (r: Result<KvResponse, KvError>)
        requires
            self.wf(),
        ensures
            match query {
                KvQuery::Get { key } => r matches Ok(KvResponse::Value(v)) && opt_string_view(v) == map_get(self.map(), key@),
                KvQuery::Len => r == Ok::<KvResponse, KvError>(KvResponse::Len(self.map().dom().len() as u64)),
            },
    {
        match query {
            KvQuery::Get { key } => Ok(KvResponse::Value(self.get(key))),
            KvQuery::Len => {
                let n = self.len();
                Ok(KvResponse::Len(n as u64))
            },
        }
    }
}

impl Default for Kv {
    fn default() -> (kv: Self)
        ensures
            kv.wf(),
            kv.map() == Map::<Seq<char>, Seq<char>>::empty(),
    {
        Kv::new()
    }
}

} // verus!
