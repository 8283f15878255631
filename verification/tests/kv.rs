use crafty::ids::LogIndex;
use crafty::kv::{Kv, KvCommand, KvQuery, KvResponse};

#[test]
fn set_get_and_snapshot_round_trip() {
    let mut kv = Kv::default();
    assert_eq!(
        kv.apply(
            LogIndex(1),
            &KvCommand::Put {
                key: "a".into(),
                value: "1".into(),
            },
        )
        .unwrap(),
        KvResponse::Put { previous: None }
    );
    assert_eq!(
        kv.query(&KvQuery::Get { key: "a".into() }).unwrap(),
        KvResponse::Value(Some("1".into()))
    );

    let snap = kv.snapshot().unwrap();
    let mut restored = Kv::default();
    restored.restore(&snap).unwrap();
    assert_eq!(restored, kv);
}

#[test]
fn overwrite_returns_previous_and_delete_reports_existence() {
    let mut kv = Kv::new();
    kv.apply(LogIndex(1), &KvCommand::Put { key: "b".into(), value: "2".into() }).unwrap();
    let r = kv.apply(LogIndex(2), &KvCommand::Put { key: "b".into(), value: "3".into() }).unwrap();
    assert_eq!(r, KvResponse::Put { previous: Some("2".into()) });
    assert_eq!(kv.query(&KvQuery::Len).unwrap(), KvResponse::Len(1));
    let d = kv.apply(LogIndex(3), &KvCommand::Delete { key: "b".into() }).unwrap();
    assert_eq!(d, KvResponse::Deleted { existed: true });
    let d2 = kv.apply(LogIndex(4), &KvCommand::Delete { key: "b".into() }).unwrap();
    assert_eq!(d2, KvResponse::Deleted { existed: false });
    assert_eq!(kv.query(&KvQuery::Get { key: "b".into() }).unwrap(), KvResponse::Value(None));
}

#[test]
fn snapshot_layout_is_count_then_length_prefixed_strings() {
    let mut kv = Kv::new();
    kv.set("zk".to_string(), "v".to_string());
    kv.set("a".to_string(), "xy".to_string());
    let snap = kv.snapshot().unwrap();
    let mut expected: Vec<u8> = vec![2, 0, 0, 0, 0, 0, 0, 0];
    expected.extend_from_slice(&[1, 0, 0, 0, 0, 0, 0, 0, b'a']);
    expected.extend_from_slice(&[2, 0, 0, 0, 0, 0, 0, 0, b'x', b'y']);
    expected.extend_from_slice(&[2, 0, 0, 0, 0, 0, 0, 0, b'z', b'k']);
    expected.extend_from_slice(&[1, 0, 0, 0, 0, 0, 0, 0, b'v']);
    assert_eq!(snap, expected);
}

#[test]
fn restore_rejects_malformed_bytes_and_keeps_state() {
    let mut kv = Kv::new();
    kv.set("k".to_string(), "v".to_string());
    let before = kv.clone();
    assert!(kv.restore(&[1, 2, 3]).is_err());
    assert_eq!(kv, before);
    // count says one entry but nothing follows
    assert!(kv.restore(&[1, 0, 0, 0, 0, 0, 0, 0]).is_err());
    // trailing byte after a complete empty snapshot
    assert!(kv.restore(&[0, 0, 0, 0, 0, 0, 0, 0, 9]).is_err());
    // invalid UTF-8 key
    assert!(kv
        .restore(&[1, 0, 0, 0, 0, 0, 0, 0, 1, 0, 0, 0, 0, 0, 0, 0, 0xff, 0, 0, 0, 0, 0, 0, 0, 0])
        .is_err());
    assert_eq!(kv, before);
    assert!(kv.restore(&[0, 0, 0, 0, 0, 0, 0, 0]).is_ok());
    assert_eq!(kv.len(), 0);
}

#[test]
fn writes_leave_other_keys_unchanged() {
    let mut kv = Kv::new();
    kv.apply(LogIndex(1), &KvCommand::Put { key: "x".into(), value: "1".into() }).unwrap();
    kv.apply(LogIndex(2), &KvCommand::Put { key: "y".into(), value: "2".into() }).unwrap();
    kv.apply(LogIndex(3), &KvCommand::Delete { key: "x".into() }).unwrap();
    assert_eq!(kv.query(&KvQuery::Get { key: "x".into() }).unwrap(), KvResponse::Value(None));
    assert_eq!(kv.query(&KvQuery::Get { key: "y".into() }).unwrap(), KvResponse::Value(Some("2".into())));
}

#[test]
fn kv_error_message() {
    assert_eq!(crafty::kv::KvError.message(), "kv error");
}
