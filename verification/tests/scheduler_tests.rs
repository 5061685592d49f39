use pulse_agent::config::{Config, Monitor};
use pulse_agent::scheduler::{DispatchOutcome, Scheduler, stable_jitter_ms};

fn monitor(name: &str, token: Option<&str>, interval: u64) -> Monitor {
    Monitor {
        enabled: true,
        interval,
        name: name.to_string(),
        token: token.map(|t| t.to_string()),
        heartbeat: None,
        debug: None,
        http: None,
        ws: None,
        tcp: None,
        udp: None,
        icmp: None,
        smtp: None,
        imap: None,
        mysql: None,
        mssql: None,
        postgresql: None,
        redis: None,
        minecraft_java: None,
        minecraft_bedrock: None,
        snmp: None,
    }
}

fn config_of(monitors: Vec<Monitor>) -> Config {
    Config { monitors, max_concurrent_checks: None }
}

#[test]
fn jitter_is_deterministic_and_bounded() {
    let a = stable_jitter_ms("primary API", 500);
    let b = stable_jitter_ms("primary API", 500);
    assert_eq!(a, b);
    assert!(a <= 500);
    assert_eq!(stable_jitter_ms("anything", 0), 0);
    assert_eq!(stable_jitter_ms("anything else", 0), 0);
}

#[test]
fn rebuild_schedules_every_enabled_monitor_within_the_jitter_bound() {
    let mut s = Scheduler::new(500);
    let now = 1_000_000;
    let mut monitors = Vec::new();
    for i in 0..8 {
        monitors.push(monitor(&format!("m{}", i), None, 30));
    }
    s.rebuild(config_of(monitors), now);
    assert_eq!(s.entries.len(), 8);
    assert_eq!(s.heap.len(), 8);
    for item in &s.heap {
        assert!(item.when >= now && item.when <= now + 500);
    }
    // one pending firing per key
    for i in 0..s.heap.len() {
        for j in (i + 1)..s.heap.len() {
            assert_ne!(s.heap[i].key, s.heap[j].key);
        }
    }
}

#[test]
fn reconfiguration_replaces_the_monitor_set_atomically() {
    let mut s = Scheduler::new(500);
    let mut first = Vec::new();
    for i in 0..10 {
        first.push(monitor(&format!("m{}", i), None, 30));
    }
    s.rebuild(config_of(first), 1_000);
    assert_eq!(s.entries.len(), 10);
    // five originals survive, three fresh ones arrive
    let mut second = Vec::new();
    for i in 0..5 {
        second.push(monitor(&format!("m{}", i), None, 30));
    }
    for i in 0..3 {
        second.push(monitor(&format!("n{}", i), None, 60));
    }
    let now = 2_000;
    s.rebuild(config_of(second), now);
    assert_eq!(s.entries.len(), 8);
    assert_eq!(s.heap.len(), 8);
    for item in &s.heap {
        assert!(item.when >= now && item.when <= now + 500);
    }
    for i in 0..5 {
        assert!(s.get_monitor(&format!("m{}", i)).is_some());
    }
    for i in 0..3 {
        assert!(s.get_monitor(&format!("n{}", i)).is_some());
    }
    assert!(s.get_monitor(&"m7".to_string()).is_none());
}

#[test]
fn empty_update_idles_and_a_later_one_resumes() {
    let mut s = Scheduler::new(500);
    s.rebuild(config_of(vec![monitor("m", None, 30)]), 1_000);
    assert_eq!(s.entries.len(), 1);
    s.rebuild(config_of(Vec::new()), 2_000);
    assert_eq!(s.entries.len(), 0);
    assert_eq!(s.heap.len(), 0);
    assert!(matches!(s.dispatch_one(3_000, true), DispatchOutcome::Idle));
    s.rebuild(config_of(vec![monitor("m", None, 30)]), 4_000);
    assert_eq!(s.entries.len(), 1);
    assert_eq!(s.heap.len(), 1);
}

#[test]
fn firing_reschedules_on_the_interval_grid_without_jitter() {
    // jitter bound zero: every firing lands on whole multiples of the interval
    let mut s = Scheduler::new(0);
    s.rebuild(config_of(vec![monitor("m", Some("tok"), 30)]), 10_000);
    assert_eq!(s.heap[0].when, 10_000);
    match s.dispatch_one(10_000, true) {
        DispatchOutcome::Fire(key) => assert_eq!(key, "tok"),
        _ => panic!("the monitor was due"),
    }
    // rescheduled from the present: now + interval, independent of how long
    // the probe itself will take
    assert_eq!(s.heap.len(), 1);
    assert_eq!(s.heap[0].when, 10_000 + 30 * 1000);
    assert!(matches!(s.dispatch_one(10_001, true), DispatchOutcome::NotDue));
}

#[test]
fn without_a_permit_the_firing_is_deferred_briefly() {
    let mut s = Scheduler::new(0);
    s.rebuild(config_of(vec![monitor("m", None, 30)]), 5_000);
    match s.dispatch_one(5_000, false) {
        DispatchOutcome::Deferred => {},
        _ => panic!("no permit means deferral"),
    }
    assert_eq!(s.heap.len(), 1);
    assert_eq!(s.heap[0].when, 5_050);
}

#[test]
fn scheduling_key_prefers_the_token() {
    let m = monitor("name", Some("tok"), 30);
    assert_eq!(pulse_agent::config::scheduling_key(&m), "tok");
    let m2 = monitor("name", None, 30);
    assert_eq!(pulse_agent::config::scheduling_key(&m2), "name");
}
