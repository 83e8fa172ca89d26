use avatar_relay::processor::{relay_succeeded, relay_url, MAX_CONCURRENT, USER_AGENT};
use avatar_relay::AvatarProcessor;

fn ids(n: usize) -> Vec<String> {
    (0..n).map(|i| format!("avtr_{:08x}-0000-1111-2222-333344445555", i)).collect()
}

#[test]
fn enqueue_skips_duplicates() {
    let mut p = AvatarProcessor::new();
    assert!(p.process_avatar("a".to_string()));
    assert!(!p.process_avatar("b".to_string()));
    assert!(!p.process_avatar("a".to_string()));
    assert_eq!(p.pending_ids(), vec!["a".to_string(), "b".to_string()]);
}

#[test]
fn only_first_enqueue_starts_a_drain_loop() {
    let mut p = AvatarProcessor::new();
    assert!(!p.is_processing());
    let starts = ids(5).into_iter().filter(|id| p.process_avatar(id.clone())).count();
    assert_eq!(starts, 1);
    assert!(p.is_processing());
}

#[test]
fn seven_ids_drain_in_batches_of_three_three_one() {
    assert_eq!(MAX_CONCURRENT, 3);
    let all = ids(7);
    let mut p = AvatarProcessor::new();
    let mut starts = 0;
    for id in &all {
        if p.process_avatar(id.clone()) {
            starts += 1;
        }
    }
    assert_eq!(starts, 1);
    let mut sizes = Vec::new();
    let mut seen = Vec::new();
    while let Some(batch) = p.next_batch() {
        assert!(batch.len() <= MAX_CONCURRENT);
        sizes.push(batch.len());
        seen.extend(batch);
    }
    assert_eq!(sizes, vec![3, 3, 1]);
    assert_eq!(seen, all);
    assert!(!p.is_processing());
    assert!(p.pending_ids().is_empty());
}

#[test]
fn id_enqueued_during_drain_joins_same_loop() {
    let mut p = AvatarProcessor::new();
    assert!(p.process_avatar("a".to_string()));
    assert_eq!(p.next_batch(), Some(vec!["a".to_string()]));
    assert!(!p.process_avatar("b".to_string()));
    assert_eq!(p.next_batch(), Some(vec!["b".to_string()]));
    assert_eq!(p.next_batch(), None);
    assert!(!p.is_processing());
    assert!(p.process_avatar("c".to_string()));
}

#[test]
fn next_batch_on_idle_processor_is_none() {
    let mut p = AvatarProcessor::new();
    assert_eq!(p.next_batch(), None);
    assert!(!p.is_processing());
}

#[test]
fn relay_outcomes() {
    assert!(relay_succeeded(Some(200)));
    assert!(relay_succeeded(Some(204)));
    assert!(relay_succeeded(Some(299)));
    assert!(!relay_succeeded(Some(199)));
    assert!(!relay_succeeded(Some(300)));
    assert!(!relay_succeeded(Some(404)));
    assert!(!relay_succeeded(Some(500)));
    assert!(!relay_succeeded(None));
}

#[test]
fn failed_relay_is_not_recorded() {
    let mut p = AvatarProcessor::new();
    assert!(!p.record_relay("a".to_string(), Some(500)));
    assert!(!p.record_relay("b".to_string(), None));
    assert!(p.record_relay("c".to_string(), Some(200)));
    assert!(p.record_relay("c".to_string(), Some(201)));
    assert_eq!(p.get_successful_posts(), vec!["c".to_string()]);
}

#[test]
fn relay_request_shape() {
    assert_eq!(
        relay_url("avtr_1A2B3C4D-0000-1111-2222-333344445555"),
        "https://paw-api.amelia.fun/update?avatarId=avtr_1A2B3C4D-0000-1111-2222-333344445555"
    );
    assert_eq!(USER_AGENT, "PAW-APP/0.0.1");
}

#[test]
fn ingested_file_reaches_history_after_success() {
    let id = "avtr_1A2B3C4D-0000-1111-2222-333344445555";
    let content = format!("...{}...", id);
    let mut p = AvatarProcessor::new();
    assert!(p.ingest_content(content.as_bytes()));
    assert_eq!(p.pending_ids(), vec![id.to_string()]);
    let batch = p.next_batch().unwrap();
    assert_eq!(batch, vec![id.to_string()]);
    for attempt in batch {
        assert_eq!(relay_url(&attempt), format!("https://paw-api.amelia.fun/update?avatarId={}", id));
        assert!(p.record_relay(attempt, Some(200)));
    }
    assert_eq!(p.next_batch(), None);
    assert_eq!(p.get_successful_posts(), vec![id.to_string()]);
}

#[test]
fn ingesting_content_without_identifier_changes_nothing() {
    let mut p = AvatarProcessor::new();
    assert!(!p.ingest_content(b"no identifier \xff\xfe"));
    assert!(p.pending_ids().is_empty());
    assert!(!p.is_processing());
}
