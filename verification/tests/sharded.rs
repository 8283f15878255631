use crafty::sharded::{decode_global_id, encode_global_id, pick_shard, shard_stream_name, stable_hash};

#[test]
fn fnv1a_known_vectors() {
    assert_eq!(stable_hash(b""), 0xcbf2_9ce4_8422_2325);
    assert_eq!(stable_hash(b"a"), 0xaf63_dc4c_8601_ec8c);
    assert_eq!(stable_hash(b"foobar"), 0x8594_4171_f739_67e8);
}

#[test]
fn global_ids_round_trip() {
    let id = encode_global_id(3, 42);
    assert_eq!(id, (3u64 << 56) | 42);
    assert_eq!(decode_global_id(id), (3, 42));
    // local ids keep only their low 56 bits
    assert_eq!(decode_global_id(encode_global_id(1, u64::MAX)), (1, (1u64 << 56) - 1));
    assert_eq!(encode_global_id(decode_global_id(u64::MAX).0, decode_global_id(u64::MAX).1), u64::MAX);
}

#[test]
fn routing_prefers_shard_key_and_is_stable() {
    let a = pick_shard(b"payload-1", Some(b"tenant-1"), 4);
    let b = pick_shard(b"payload-2", Some(b"tenant-1"), 4);
    assert_eq!(a, b);
    assert_eq!(a, (stable_hash(b"tenant-1") % 4) as usize);
    assert_eq!(pick_shard(b"p", None, 4), (stable_hash(b"p") % 4) as usize);
    assert_eq!(pick_shard(b"p", None, 1), 0);
}

#[test]
fn shard_stream_names() {
    assert_eq!(shard_stream_name("jobs", 0), "jobs~0");
    assert_eq!(shard_stream_name("jobs", 17), "jobs~17");
}
