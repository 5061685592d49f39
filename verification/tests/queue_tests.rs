use pulse_agent::queue::{PulseQueue, PulseQueueConfig, PushMessage, enqueue_then_acknowledge};

fn msg(token: &str) -> PushMessage {
    PushMessage {
        token: token.to_string(),
        pulse_id: None,
        latency: Some("1.000".to_string()),
        start_time: None,
        end_time: None,
        custom1: None,
        custom2: None,
        custom3: None,
    }
}

fn small_config(max_queue_size: usize) -> PulseQueueConfig {
    PulseQueueConfig { max_queue_size, max_retries: 3, retry_delay_ms: 0 }
}

#[test]
fn cached_config_defaults() {
    let c = PulseQueueConfig::cached();
    assert_eq!(c.max_queue_size, 10_000);
    assert_eq!(c.max_retries, 300);
    assert_eq!(c.retry_delay_ms, 1000);
}

#[test]
fn enqueue_assigns_a_36_char_pulse_id() {
    let mut q = PulseQueue::new(PulseQueueConfig::cached());
    let id = q.enqueue(msg("T"));
    assert_eq!(id.chars().count(), 36);
    assert_eq!(q.pending_count(), 1);
}

#[test]
fn enqueue_at_capacity_keeps_size_at_capacity() {
    // capacity minus one, then one enqueue: no eviction
    let mut q = PulseQueue::new(small_config(2));
    let first = q.enqueue(msg("a"));
    assert_eq!(q.pending_count(), 1);
    let _second = q.enqueue(msg("b"));
    assert_eq!(q.pending_count(), 2);
    // the next enqueue evicts the oldest exactly once
    let _third = q.enqueue(msg("c"));
    assert_eq!(q.pending_count(), 2);
    // the evicted pulse is the oldest one
    assert!(!q.acknowledge(first.as_str()));
}

#[test]
fn acknowledged_pulse_is_never_sent_again() {
    let mut q = PulseQueue::new(small_config(10));
    let id1 = q.enqueue(msg("a"));
    let id2 = q.enqueue(msg("b"));
    assert!(q.acknowledge(id1.as_str()));
    // every future send skips the acknowledged id
    let sent = q.next_to_send().expect("one pulse should remain");
    assert_eq!(sent.pulse_id.as_deref(), Some(id2.as_str()));
    let batch = q.next_batch_to_send(10, 0);
    for m in &batch {
        assert_ne!(m.pulse_id.as_deref(), Some(id1.as_str()));
    }
    assert!(!q.acknowledge(id1.as_str()));
}

#[test]
fn enqueue_then_pushed_ack_leaves_queue_empty() {
    let mut q = PulseQueue::new(PulseQueueConfig::cached());
    assert!(enqueue_then_acknowledge(&mut q, msg("T")));
    assert_eq!(q.pending_count(), 0);
    assert!(q.next_to_send().is_none());
}

#[test]
fn next_to_send_counts_attempts_and_drops_after_max_retries() {
    let mut q = PulseQueue::new(small_config(10));
    let id = q.enqueue(msg("a"));
    for _ in 0..3 {
        let sent = q.next_to_send().expect("still within retries");
        assert_eq!(sent.pulse_id.as_deref(), Some(id.as_str()));
    }
    // the pulse has exhausted its retries: dropped, queue drained
    assert!(q.next_to_send().is_none());
    assert_eq!(q.pending_count(), 0);
}

#[test]
fn batch_respects_retry_delay() {
    let mut q = PulseQueue::new(PulseQueueConfig {
        max_queue_size: 10,
        max_retries: 5,
        retry_delay_ms: 1000,
    });
    let id = q.enqueue(msg("a"));
    let first = q.next_batch_to_send(10, 10_000);
    assert_eq!(first.len(), 1);
    assert_eq!(first[0].pulse_id.as_deref(), Some(id.as_str()));
    // not yet due again
    let second = q.next_batch_to_send(10, 10_500);
    assert_eq!(second.len(), 0);
    // due after the delay
    let third = q.next_batch_to_send(10, 11_000);
    assert_eq!(third.len(), 1);
}

#[test]
fn next_to_send_takes_the_frontmost_pulse() {
    let mut q = PulseQueue::new(small_config(10));
    let first = q.enqueue(msg("a"));
    let second = q.enqueue(msg("b"));
    let sent = q.next_to_send().expect("two pulses are queued");
    assert_eq!(sent.pulse_id.as_deref(), Some(first.as_str()));
    let sent2 = q.next_to_send().expect("one pulse left in front");
    assert_eq!(sent2.pulse_id.as_deref(), Some(second.as_str()));
    // the first id rotated to the back, so it comes round again
    let sent3 = q.next_to_send().expect("rotation keeps both");
    assert_eq!(sent3.pulse_id.as_deref(), Some(first.as_str()));
}

#[test]
fn batch_takes_every_due_pulse_in_enqueue_order() {
    let mut q = PulseQueue::new(small_config(10));
    let ids = vec![q.enqueue(msg("a")), q.enqueue(msg("b")), q.enqueue(msg("c"))];
    let batch = q.next_batch_to_send(10, 0);
    let sent: Vec<_> = batch.iter().map(|m| m.pulse_id.clone().unwrap()).collect();
    assert_eq!(sent, ids);
}

#[test]
fn batch_caps_its_size() {
    let mut q = PulseQueue::new(small_config(10));
    for _ in 0..5 {
        q.enqueue(msg("x"));
    }
    let batch = q.next_batch_to_send(2, 0);
    assert_eq!(batch.len(), 2);
}

#[test]
fn prune_expired_removes_spent_pulses() {
    let mut q = PulseQueue::new(small_config(10));
    let id1 = q.enqueue(msg("a"));
    let _id2 = q.enqueue(msg("b"));
    // wear the first pulse out without touching the second
    for _ in 0..3 {
        let b = q.next_batch_to_send(10, u64::MAX);
        assert!(!b.is_empty());
    }
    q.prune_expired();
    assert!(!q.acknowledge(id1.as_str()));
    assert_eq!(q.pending_count(), 0);
}
