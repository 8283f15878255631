//! Federation of job-queue shards: stable key hashing, shard routing, and the
//! global ids that carry a shard index in their top byte.
use vstd::prelude::*;
use vstd::string::StringExecFns;

verus! {

/// Bits below the shard index in a global id.
pub const SHARD_SHIFT: u64 = 56;

/// Mask of the local part of a global id.
pub const LOCAL_MASK: u64 = 0x00ff_ffff_ffff_ffff;

/// FNV-1a offset basis.
pub const FNV_OFFSET: u64 = 0xcbf2_9ce4_8422_2325;

/// FNV-1a prime.
pub const FNV_PRIME: u64 = 0x0100_0000_01b3;

/// FNV-1a (64-bit) of `key`, folding bytes from the first.
pub open spec fn fnv1a(key: Seq<u8>) -> u64
    decreases key.len(),
{
    if key.len() == 0 {
        FNV_OFFSET
    } else {
        fnv_step(fnv1a(key.drop_last()), key.last())
    }
}

/// One FNV-1a round: xor the byte in, multiply by the prime modulo 2^64.
pub open spec fn fnv_step(h: u64, b: u8) -> u64 {
    vstd::wrapping::u64_specs::wrapping_mul(h ^ (b as u64), FNV_PRIME)
}

/// Stable 64-bit FNV-1a hash of a routing key (same on every node and run).
pub fn stable_hash(key: &[u8]) -> (h: u64)
    ensures
        h == fnv1a(key@),
{
    let mut h: u64 = FNV_OFFSET;
    let mut i: usize = 0;
    while i < key.len()
        invariant
            0 <= i <= key@.len(),
            h == fnv1a(key@.subrange(0, i as int)),
        decreases key@.len() - i,
    {
        proof {
            let next = key@.subrange(0, i + 1);
            assert(next.drop_last() =~= key@.subrange(0, i as int));
            assert(next.last() == key@[i as int]);
        }
        let x: u64 = h ^ (key[i] as u64);
        h = x.wrapping_mul(FNV_PRIME);
        i = i + 1;
    }
    proof {
        assert(key@.subrange(0, key@.len() as int) =~= key@);
    }
    h
}

/// Global id of `local` on `shard`: the shard index above bit 56, the low 56
/// bits of `local` below.
pub open spec fn encode_spec(shard: u64, local: u64) -> u64 {
    (shard << SHARD_SHIFT) | (local & LOCAL_MASK)
}

fn encode_id(shard: usize, local: u64) -> (id: u64)
    ensures
        id == encode_spec(shard as u64, local),
{
    ((shard as u64) << SHARD_SHIFT) | (local & LOCAL_MASK)
}

fn decode_id(id: u64) -> (r: (usize, u64))
    ensures
        r.0 as u64 == id >> SHARD_SHIFT,
        r.1 == id & LOCAL_MASK,
{
    let s = id >> SHARD_SHIFT;
    assert(s < 256) by (bit_vector)
        requires
            s == id >> 56u64,
    ;
    (s as usize, id & LOCAL_MASK)
}

/// Split a global sharded job/lease id into `(shard_index, local_id)`.
pub fn decode_global_id(id: u64) -> (r: (usize, u64))
    ensures
        r.0 as u64 == id >> SHARD_SHIFT,
        r.0 < 256,
        r.1 == id & LOCAL_MASK,
{
    let r = decode_id(id);
    assert((id >> 56u64) < 256) by (bit_vector);
    r
}

/// Combine shard index and local id into the global wire id.
pub fn encode_global_id(shard: usize, local: u64) -> (id: u64)
    ensures
        id == encode_spec(shard as u64, local),
{
    encode_id(shard, local)
}

/// Decoding an encoded id gives back the shard (below 256) and the local id
/// (below 2^56).
pub proof fn law_decode_encode(shard: u64, local: u64)
    requires
        shard < 256,
        local <= LOCAL_MASK,
    ensures
        encode_spec(shard, local) >> SHARD_SHIFT == shard,
        encode_spec(shard, local) & LOCAL_MASK == local,
{
    assert(((shard << 56u64) | (local & 0x00ff_ffff_ffff_ffffu64)) >> 56u64 == shard) by (bit_vector)
        requires
            shard < 256,
    ;
    assert(((shard << 56u64) | (local & 0x00ff_ffff_ffff_ffffu64)) & 0x00ff_ffff_ffff_ffffu64 == local) by (bit_vector)
        requires
            local <= 0x00ff_ffff_ffff_ffffu64,
    ;
}

/// Every id is the encoding of its own decoding.
pub proof fn law_encode_decode(id: u64)
    ensures
        encode_spec(id >> SHARD_SHIFT, id & LOCAL_MASK) == id,
{
    assert((((id >> 56u64) << 56u64) | ((id & 0x00ff_ffff_ffff_ffffu64) & 0x00ff_ffff_ffff_ffffu64)) == id) by (bit_vector);
}

/// Shard that serves a job: the hash of its shard key (or of its payload when
/// it has none) modulo the shard count.
pub open spec fn shard_of(payload: Seq<u8>, shard_key: Option<Seq<u8>>, shards: usize) -> int {
    let key = match shard_key {
        Some(k) => k,
        None => payload,
    };
    let h = fnv1a(key);
    let hu: int = if h > usize::MAX { usize::MAX as int } else { h as int };
    hu % (shards as int)
}

/// Route a job to one of `shards` shards.
pub fn pick_shard(payload: &[u8], shard_key: Option<&[u8]>, shards: usize) -> (s: usize)
    requires
        shards > 0,
    ensures
        s as int == shard_of(payload@, match shard_key {
            Some(k) => Some(k@),
            None => None,
        }, shards),
        s < shards,
{
    let key = match shard_key {
        Some(k) => k,
        None => payload,
    };
    let h = stable_hash(key);
    let hu: usize = if h > usize::MAX as u64 { usize::MAX } else { h as usize };
    hu % shards
}

/// A routed shard is a valid index.
pub proof fn lemma_shard_of_bound(payload: Seq<u8>, shard_key: Option<Seq<u8>>, shards: usize)
    requires
        shards > 0,
    ensures
        0 <= shard_of(payload, shard_key, shards) < shards,
{
}

/// Wire stream name of one shard: `{base}~{shard}`.
pub fn shard_stream_name(base: &str, shard: usize) -> (name: String)
    ensures
        name@ == base@ + seq!['~'] + crate::schedule::decimal(shard as nat),
{
    let mut name = String::from_str(base);
    name.append("~");
    proof {
        reveal_strlit("~");
    }
    let d = crate::schedule::decimal_text(shard);
    name.append(d.as_str());
    name
}

} // verus!
