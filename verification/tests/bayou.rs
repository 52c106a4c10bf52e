use aerogramme_core::bayou::checkpoint::{
    checkpoint_key, checkpoint_prefix, checkpoints_to_drop, list_checkpoints, should_try_checkpoint, watch_decision,
    CHECKPOINT_INTERVAL_MS, CHECKPOINT_RETRY_MS,
};
use aerogramme_core::bayou::history::{BayouState, History};
use aerogramme_core::bayou::sort::sort_by_ts;
use aerogramme_core::bayou::sync::{collect_ops, CheckpointChoice, RowValue, SyncError};
use aerogramme_core::bayou::timestamp::{now_msec, ts_less, Timestamp};
use aerogramme_core::collections::flags::Flags;
use aerogramme_core::collections::uidindex::{UidIndex, UidIndexOp};

fn ts(msec: u64, rand: u64) -> Timestamp {
    Timestamp { msec, rand }
}

fn ident(b: u8) -> (u64, u64, u64) {
    let w = u64::from_be_bytes([b; 8]);
    (w, w, w)
}

fn add_op(state: &UidIndex, b: u8) -> UidIndexOp {
    state.op_mail_add(ident(b), Flags::from_vec(vec!["\\Seen".to_string()]))
}

#[test]
fn timestamp_text_roundtrip() {
    let t = ts(1, 255);
    let s = t.to_string();
    assert_eq!(s, "000000000000000100000000000000ff");
    assert_eq!(Timestamp::from_str(&s), Ok(t));
    assert_eq!(Timestamp::from_str("000000000000000100000000000000FF"), Ok(t));
    let big = ts(u64::MAX, 0x0123456789abcdef);
    assert_eq!(Timestamp::from_str(&big.to_string()), Ok(big));
}

#[test]
fn timestamp_from_str_errors() {
    assert_eq!(Timestamp::from_str("zz"), Err("invalid hex"));
    assert_eq!(Timestamp::from_str("abc"), Err("invalid hex"));
    assert_eq!(Timestamp::from_str("00ff"), Err("bad length"));
    assert_eq!(Timestamp::from_str(""), Err("bad length"));
}

#[test]
fn timestamp_after_is_later() {
    let t = ts(10, 7);
    assert_eq!(Timestamp::after_at(&t, 5, 3), ts(11, 3));
    assert_eq!(Timestamp::after_at(&t, 20, 3), ts(20, 3));
    let later = Timestamp::after(&t);
    assert!(ts_less(&t, &later));
    assert!(ts_less(&Timestamp::zero(), &ts(0, 1)));
    assert!(!ts_less(&ts(2, 0), &ts(1, 9)));
}

#[test]
fn timestamp_text_order_is_timestamp_order() {
    let a = ts(5, 9);
    let b = ts(6, 0);
    assert!(ts_less(&a, &b));
    assert!(a.to_string() < b.to_string());
}

#[test]
fn sort_orders_by_timestamp() {
    let v = vec![(ts(3, 0), "c"), (ts(1, 5), "a"), (ts(2, 0), "b"), (ts(1, 2), "z")];
    let sorted = sort_by_ts(v);
    let keys: Vec<(u64, u64)> = sorted.iter().map(|(t, _)| (t.msec, t.rand)).collect();
    assert_eq!(keys, vec![(1, 2), (1, 5), (2, 0), (3, 0)]);
    assert_eq!(sorted[0].1, "z");
}

#[test]
fn collect_ops_sorts_and_skips_tombstones() {
    let rows = vec![
        (ts(2, 0).to_string(), vec![RowValue::Value(20u32)]),
        (ts(1, 0).to_string(), vec![RowValue::Value(10u32)]),
        (ts(3, 0).to_string(), vec![RowValue::Tombstone]),
    ];
    let ops = collect_ops(rows).unwrap();
    assert_eq!(ops, vec![(ts(1, 0), 10), (ts(2, 0), 20)]);
}

#[test]
fn collect_ops_errors() {
    let bad_key = vec![(String::from("not-a-timestamp"), vec![RowValue::Value(1u32)])];
    assert!(matches!(collect_ops(bad_key), Err(SyncError::InvalidTimestamp(k)) if k == "not-a-timestamp"));
    let two = vec![(ts(1, 0).to_string(), vec![RowValue::Value(1u32), RowValue::Value(2u32)])];
    assert!(matches!(collect_ops(two), Err(SyncError::BadValueCount(2))));
    let none: Vec<(String, Vec<RowValue<u32>>)> = vec![(ts(1, 0).to_string(), vec![])];
    assert!(matches!(collect_ops(none), Err(SyncError::BadValueCount(0))));
    let garbled = vec![(ts(1, 0).to_string(), vec![RowValue::<u32>::Undecodable])];
    assert!(matches!(collect_ops(garbled), Err(SyncError::Undecodable)));
    // The first bad row decides the error.
    let mixed = vec![
        (ts(1, 0).to_string(), vec![RowValue::<u32>::Undecodable]),
        (String::from("zz"), vec![RowValue::Value(1u32)]),
    ];
    assert!(matches!(collect_ops(mixed), Err(SyncError::Undecodable)));
}

#[test]
fn history_push_and_current_state() {
    let mut h: History<UidIndex> = History::new();
    assert_eq!(h.current_timestamp(), Timestamp::zero());
    assert_eq!(h.current_state().table_len(), 0);
    let op = add_op(h.current_state(), 1);
    h.push_op(ts(10, 0), op);
    let op = add_op(h.current_state(), 2);
    h.push_op(ts(11, 0), op);
    assert_eq!(h.current_timestamp(), ts(11, 0));
    assert_eq!(h.current_state().table_len(), 2);
    assert_eq!(h.ops.len(), 2);
    // Only the last entry keeps its state.
    assert!(h.ops[0].2.is_none());
    assert!(h.ops[1].2.is_some());
}

#[test]
fn replay_applies_new_operations() {
    let mut h: History<UidIndex> = History::new();
    let s0 = UidIndex::default();
    let op1 = add_op(&s0, 1);
    let s1 = s0.apply(&op1);
    let op2 = add_op(&s1, 2);
    let state = h.replay(vec![(ts(1, 0), op1), (ts(2, 0), op2)]).unwrap();
    assert_eq!(state.table_len(), 2);
    assert_eq!(state.uidnext(), 3);
    assert_eq!(h.ops.len(), 2);
    assert_eq!(h.current_state().table_len(), 2);
}

#[test]
fn replay_of_known_operations_changes_nothing() {
    let mut h: History<UidIndex> = History::new();
    let op = add_op(h.current_state(), 1);
    h.push_op(ts(1, 0), op);
    let stored = vec![(ts(1, 0), add_op(&UidIndex::default(), 1))];
    let state = h.replay(stored).unwrap();
    assert_eq!(state.table_len(), 1);
    assert_eq!(h.ops.len(), 1);
}

#[test]
fn replay_errors() {
    let mut h: History<UidIndex> = History::new();
    let op = add_op(h.current_state(), 1);
    h.push_op(ts(1, 0), op);
    assert!(matches!(h.replay(vec![]), Err(SyncError::OpsDisappeared)));
    assert_eq!(h.ops.len(), 1);

    let mut h2: History<UidIndex> = History::new();
    h2.checkpoint.0 = ts(5, 0);
    let wrong_first = vec![(ts(6, 0), add_op(&UidIndex::default(), 1))];
    assert!(matches!(h2.replay(wrong_first), Err(SyncError::CheckpointMismatch)));
}

#[test]
fn replay_inserts_a_concurrent_operation_in_order() {
    // A remote operation stamped between two local ones is replayed in
    // timestamp order.
    let mut h: History<UidIndex> = History::new();
    let s0 = UidIndex::default();
    let op_a = add_op(&s0, 1);
    h.push_op(ts(1, 0), op_a);
    let op_c = add_op(h.current_state(), 3);
    h.push_op(ts(3, 0), op_c);
    let stored = vec![
        (ts(1, 0), add_op(&s0, 1)),
        (ts(2, 0), add_op(&s0, 2)),
        (ts(3, 0), add_op(&s0, 3)),
    ];
    let state = h.replay(stored).unwrap();
    assert_eq!(state.table_len(), 3);
    assert_eq!(h.ops.len(), 3);
    assert_eq!(h.ops[1].0, ts(2, 0));
}

#[test]
fn choose_and_adopt_checkpoint() {
    let mut h: History<UidIndex> = History::new();
    assert!(matches!(h.choose_checkpoint(&vec![]), CheckpointChoice::Absent));
    let listed = vec![(ts(1, 0), "p/checkpoint/a".to_string()), (ts(2, 0), "p/checkpoint/b".to_string())];
    match h.choose_checkpoint(&listed) {
        CheckpointChoice::Fetch(t, key) => {
            assert_eq!(t, ts(2, 0));
            assert_eq!(key, "p/checkpoint/b");
        }
        other => panic!("unexpected {:?}", other),
    }
    let op = add_op(h.current_state(), 1);
    h.push_op(ts(1, 0), op);
    let op = add_op(h.current_state(), 2);
    h.push_op(ts(3, 0), op);
    let loaded = UidIndex::default().apply(&add_op(&UidIndex::default(), 1));
    h.adopt_checkpoint(ts(2, 0), Some(loaded)).unwrap();
    assert_eq!(h.checkpoint.0, ts(2, 0));
    // The entry stamped before the checkpoint is dropped.
    assert_eq!(h.ops.len(), 1);
    assert_eq!(h.ops[0].0, ts(3, 0));
    assert!(matches!(h.choose_checkpoint(&listed), CheckpointChoice::Current(t) if t == ts(2, 0)));
    // An older checkpoint is refused.
    assert!(matches!(h.adopt_checkpoint(ts(1, 0), None), Err(SyncError::CheckpointAhead)));
    assert_eq!(h.checkpoint.0, ts(2, 0));
}

#[test]
fn checkpoint_plan_needs_old_and_enough_operations() {
    let mut h: History<UidIndex> = History::new();
    for i in 0..20u8 {
        let op = add_op(h.current_state(), i + 1);
        h.push_op(ts(1000 + i as u64, 0), op);
    }
    let now = 1000 + 19 + CHECKPOINT_INTERVAL_MS;
    assert_eq!(h.checkpoint_index(now), Some(19));
    assert_eq!(h.plan_checkpoint(now, &vec![]), Some((19, ts(1019, 0))));
    // Too early for most of them: only the first ten are old enough.
    let early = 1009 + CHECKPOINT_INTERVAL_MS;
    assert_eq!(h.checkpoint_index(early), Some(9));
    assert_eq!(h.plan_checkpoint(early, &vec![]), None);
    // Nothing is old enough.
    assert_eq!(h.checkpoint_index(1000), None);
    // A recent stored checkpoint forbids another.
    let recent = vec![(ts(500, 0), "k".to_string())];
    assert_eq!(h.plan_checkpoint(now, &recent), None);
    let old = vec![(ts(0, 0), "k".to_string())];
    assert_eq!(h.plan_checkpoint(1019 + CHECKPOINT_INTERVAL_MS, &old), None);
    let state = h.state_at(19).unwrap();
    assert_eq!(state.table_len(), 19);
}

#[test]
fn checkpoints_to_drop_keeps_the_newest() {
    let listed = |n: u64| (0..n).map(|i| (ts(i, 0), format!("k{}", i))).collect::<Vec<_>>();
    assert!(checkpoints_to_drop(&listed(0)).is_none());
    assert!(checkpoints_to_drop(&listed(2)).is_none());
    let (keys, t) = checkpoints_to_drop(&listed(3)).unwrap();
    assert_eq!(keys, vec!["k0".to_string()]);
    assert_eq!(t, ts(1, 0));
    let (keys, t) = checkpoints_to_drop(&listed(5)).unwrap();
    assert_eq!(keys, vec!["k0".to_string(), "k1".to_string(), "k2".to_string()]);
    assert_eq!(t, ts(3, 0));
}

#[test]
fn checkpoint_retry_delay() {
    assert!(should_try_checkpoint(None, 0));
    assert!(!should_try_checkpoint(Some(100), 100 + CHECKPOINT_RETRY_MS - 1));
    assert!(should_try_checkpoint(Some(100), 100 + CHECKPOINT_RETRY_MS));
    assert!(!should_try_checkpoint(Some(100), 50));
    assert_eq!(CHECKPOINT_RETRY_MS, CHECKPOINT_INTERVAL_MS / 5);
}

#[test]
fn checkpoint_keys_and_listing() {
    assert_eq!(checkpoint_prefix("mail/uidindex"), "mail/uidindex/checkpoint/");
    let k1 = checkpoint_key("log", &ts(2, 0));
    assert_eq!(k1, "log/checkpoint/00000000000000020000000000000000");
    let k0 = checkpoint_key("log", &ts(1, 1));
    let keys = vec![k1.clone(), "log/checkpoint/garbage".to_string(), "other/x".to_string(), k0.clone()];
    let listed = list_checkpoints("log/checkpoint/", keys);
    assert_eq!(listed, vec![(ts(1, 1), k0), (ts(2, 0), k1)]);
}

#[test]
fn watcher_ignores_deletions_before_the_checkpoint() {
    let cps = vec![(ts(5, 0), "00000000000000050000000000000000".to_string())];
    let old = vec!["00000000000000010000000000000000".to_string()];
    assert_eq!(watch_decision(&old, &cps), (Some(cps[0].1.clone()), false));
    let new = vec!["00000000000000010000000000000000".to_string(), "00000000000000090000000000000000".to_string()];
    assert_eq!(watch_decision(&new, &cps), (Some(cps[0].1.clone()), true));
    assert_eq!(watch_decision(&old, &vec![]), (None, true));
}

#[test]
fn the_clock_reads_after_the_epoch() {
    // 2020-01-01T00:00:00Z in milliseconds.
    assert!(now_msec() > 1_577_836_800_000);
}

#[test]
fn timestamp_texts_sort_as_timestamps() {
    let a = Timestamp { msec: 1, rand: u64::MAX };
    let b = Timestamp { msec: 2, rand: 0 };
    let c = Timestamp { msec: 2, rand: 0x10 };
    assert!(ts_less(&a, &b) && a.to_string() < b.to_string());
    assert!(ts_less(&b, &c) && b.to_string() < c.to_string());
    assert!(!ts_less(&c, &a) && !(c.to_string() < a.to_string()));
}
