use retry_dispatch::dispatch::Dispatch;
use retry_dispatch::gate::Gate;
use retry_dispatch::handler::{backoff_secs, Handler, Phase, MAX_ATTEMPT_COUNT};

/// What a scripted run observed.
struct Outcome {
    results: Vec<String>,
    retries: Vec<(usize, u32, u64)>,
    max_in_flight: usize,
}

fn payload_for(id: usize) -> String {
    format!("Response for request {}", id)
}

/// Drives a batch round by round: every pending request asks for admission,
/// then every admitted call resolves (failing where `fails` says so), then
/// every backoff elapses.
fn drive(n: usize, capacity: usize, fails: &dyn Fn(usize, u32) -> bool) -> Outcome {
    let mut d = Dispatch::new(n, capacity);
    let mut retries = Vec::new();
    let mut max_in_flight = 0;
    let mut rounds = 0;
    loop {
        if let Some(results) = d.results() {
            return Outcome { results, retries, max_in_flight };
        }
        rounds += 1;
        assert!(rounds < 1000);
        let mut admitted = Vec::new();
        for id in 1..=n {
            if d.try_admit(id) {
                admitted.push(id);
            }
            assert!(d.in_flight() <= capacity);
            max_in_flight = max_in_flight.max(d.in_flight());
        }
        for &id in &admitted {
            let attempts = d.attempt_count(id).unwrap();
            if fails(id, attempts) {
                let secs = d.fail(id).unwrap();
                retries.push((id, d.attempt_count(id).unwrap(), secs));
            } else {
                assert!(d.complete(id, payload_for(id)));
            }
        }
        for id in 1..=n {
            d.resume(id);
        }
    }
}

#[test]
fn single_request_succeeds_without_retry() {
    let out = drive(1, 1, &|_, _| false);
    assert_eq!(out.results, vec![payload_for(1)]);
    assert!(out.retries.is_empty());
}

#[test]
fn one_retry_keeps_request_order() {
    let out = drive(3, 1, &|id, attempts| id == 2 && attempts == 0);
    assert_eq!(out.results, vec![payload_for(1), payload_for(2), payload_for(3)]);
    assert_eq!(out.retries, vec![(2, 1, 2)]);
    assert_eq!(out.max_in_flight, 1);
}

#[test]
fn twenty_requests_through_five_slots() {
    let out = drive(20, 5, &|id, attempts| id % 3 == 0 && attempts < 2);
    assert_eq!(out.results.len(), 20);
    for (i, r) in out.results.iter().enumerate() {
        assert_eq!(*r, payload_for(i + 1));
    }
    assert_eq!(out.max_in_flight, 5);
}

#[test]
fn results_follow_request_order_not_completion_order() {
    let mut d = Dispatch::new(3, 3);
    for id in 1..=3 {
        assert!(d.try_admit(id));
    }
    assert!(d.complete(3, "c".to_string()));
    assert!(d.results().is_none());
    assert!(d.complete(1, "a".to_string()));
    assert!(d.complete(2, "b".to_string()));
    assert_eq!(d.results().unwrap(), vec!["a".to_string(), "b".to_string(), "c".to_string()]);
}

#[test]
fn consecutive_failures_double_the_backoff() {
    let mut d = Dispatch::new(1, 1);
    let mut seen = Vec::new();
    for _ in 0..6 {
        assert!(d.try_admit(1));
        seen.push(d.fail(1).unwrap());
        assert_eq!(d.in_flight(), 0);
        assert!(d.resume(1));
    }
    assert_eq!(seen, vec![2, 4, 8, 16, 32, 64]);
    assert_eq!(d.attempt_count(1), Some(6));
    assert!(d.try_admit(1));
    assert!(d.complete(1, "done".to_string()));
    assert_eq!(d.results(), Some(vec!["done".to_string()]));
}

#[test]
fn gate_waits_when_full() {
    let mut d = Dispatch::new(3, 2);
    assert!(d.try_admit(1));
    assert!(d.try_admit(2));
    assert!(!d.try_admit(3));
    assert_eq!(d.phase(3), Some(Phase::Pending));
    assert_eq!(d.in_flight(), 2);
    assert_eq!(d.fail(2), Some(2));
    assert!(d.try_admit(3));
    assert_eq!(d.phase(2), Some(Phase::BackingOff));
    assert!(!d.try_admit(2));
}

#[test]
fn events_that_do_not_apply_change_nothing() {
    let mut d = Dispatch::new(2, 1);
    assert!(!d.try_admit(0));
    assert!(!d.try_admit(3));
    assert!(!d.complete(1, "x".to_string()));
    assert_eq!(d.fail(1), None);
    assert!(!d.resume(1));
    assert_eq!(d.phase(1), Some(Phase::Pending));
    assert_eq!(d.phase(3), None);
    assert_eq!(d.attempt_count(0), None);
    assert!(d.try_admit(1));
    assert!(!d.try_admit(1));
    assert!(d.complete(1, "x".to_string()));
    assert!(!d.complete(1, "y".to_string()));
    assert_eq!(d.in_flight(), 0);
    assert_eq!(d.total_requests(), 2);
    assert_eq!(d.capacity(), 1);
}

#[test]
fn gate_counts_admissions() {
    let mut g = Gate::new(2);
    assert_eq!(g.capacity(), 2);
    assert!(g.try_acquire());
    assert!(g.try_acquire());
    assert!(!g.try_acquire());
    assert_eq!(g.held(), 2);
    g.release();
    assert_eq!(g.held(), 1);
    assert!(g.try_acquire());
}

#[test]
fn backoff_is_a_power_of_two() {
    assert_eq!(backoff_secs(0), 1);
    assert_eq!(backoff_secs(1), 2);
    assert_eq!(backoff_secs(6), 64);
    assert_eq!(backoff_secs(MAX_ATTEMPT_COUNT), 1u64 << 63);
}

#[test]
fn handler_stops_where_backoff_overflows() {
    let mut h = Handler::new(7);
    assert_eq!(h.request_id(), 7);
    for n in 1..=MAX_ATTEMPT_COUNT {
        assert!(h.begin_attempt());
        assert_eq!(h.fail(), Some(1u64 << n));
        assert!(h.resume());
    }
    assert!(h.begin_attempt());
    assert_eq!(h.fail(), None);
    assert_eq!(h.phase(), Phase::Attempting);
    assert_eq!(h.attempt_count(), MAX_ATTEMPT_COUNT);
    assert!(h.succeed("late".to_string()));
    assert_eq!(h.payload(), Some("late".to_string()));
}
