use avatar_relay::SuccessHistory;

#[test]
fn record_is_idempotent() {
    let mut h = SuccessHistory::new();
    h.record("a".to_string());
    h.record("b".to_string());
    h.record("a".to_string());
    assert_eq!(h.snapshot(), vec!["a".to_string(), "b".to_string()]);
    assert!(h.contains(&"b".to_string()));
    assert!(!h.contains(&"c".to_string()));
}

#[test]
fn history_evicts_oldest_beyond_capacity() {
    let mut h = SuccessHistory::new();
    for i in 0..1001 {
        h.record(format!("id{}", i));
    }
    let snap = h.snapshot();
    assert_eq!(h.len(), 1000);
    assert_eq!(snap.len(), 1000);
    assert!(!snap.contains(&"id0".to_string()));
    for (k, id) in snap.iter().enumerate() {
        assert_eq!(*id, format!("id{}", k + 1));
    }
}

#[test]
fn history_at_capacity_keeps_all() {
    let mut h = SuccessHistory::new();
    for i in 0..1000 {
        h.record(format!("id{}", i));
    }
    assert_eq!(h.len(), 1000);
    assert_eq!(h.snapshot()[0], "id0");
    h.record("id500".to_string());
    assert_eq!(h.len(), 1000);
    assert_eq!(h.snapshot()[0], "id0");
}
