use ztunnel::circuit_breaker::{CircuitBreaker, CircuitBreakerConfig, CircuitState, Dispatch};

fn config() -> CircuitBreakerConfig {
    CircuitBreakerConfig { max_queue_size: 2, open_timeout: 30_000, max_request_age: 60_000, failure_threshold: 3 }
}

fn is_pass(d: Dispatch, want: &[u8]) -> bool {
    matches!(d, Dispatch::Pass(ref data) if data == want)
}

#[test]
fn default_limits() {
    let c = CircuitBreakerConfig::default();
    assert_eq!(c.max_queue_size, 50);
    assert_eq!(c.open_timeout, 30_000);
    assert_eq!(c.max_request_age, 60_000);
    assert_eq!(c.failure_threshold, 3);
}

#[test]
fn a_new_breaker_is_closed_and_lets_frames_pass() {
    let mut b = CircuitBreaker::new(config(), 1_000);
    assert_eq!(b.state(), CircuitState::Closed);
    assert_eq!(b.queue_size(), 0);
    assert_eq!(b.consecutive_failures(), 0);
    assert!(is_pass(b.try_send(vec![1, 2, 3], 1_001), &[1, 2, 3]));
    assert_eq!(b.state(), CircuitState::Closed);
}

#[test]
fn failures_in_a_row_open_the_breaker() {
    let mut b = CircuitBreaker::new(config(), 0);
    b.record_failure(1);
    b.record_failure(2);
    assert_eq!(b.state(), CircuitState::Closed);
    assert_eq!(b.consecutive_failures(), 2);
    b.record_failure(3);
    assert_eq!(b.state(), CircuitState::Open);
    assert_eq!(b.consecutive_failures(), 3);
}

#[test]
fn a_success_starts_the_count_anew() {
    let mut b = CircuitBreaker::new(config(), 0);
    b.record_failure(1);
    b.record_failure(2);
    b.record_success(3);
    assert_eq!(b.consecutive_failures(), 0);
    b.record_failure(4);
    b.record_failure(5);
    assert_eq!(b.state(), CircuitState::Closed);
    b.record_failure(6);
    assert_eq!(b.state(), CircuitState::Open);
}

#[test]
fn an_open_breaker_queues_and_then_drops() {
    let mut b = CircuitBreaker::new(config(), 0);
    for t in 1..=3 {
        b.record_failure(t);
    }
    assert!(matches!(b.try_send(vec![4], 10), Dispatch::Queued));
    assert!(matches!(b.try_send(vec![5], 11), Dispatch::Queued));
    assert_eq!(b.queue_size(), 2);
    assert!(matches!(b.try_send(vec![6], 12), Dispatch::Dropped));
    assert_eq!(b.queue_size(), 2);
    assert_eq!(b.state(), CircuitState::Open);
}

#[test]
fn the_probe_passes_when_the_open_time_is_over() {
    let mut b = CircuitBreaker::new(config(), 0);
    for _ in 0..3 {
        b.record_failure(100);
    }
    assert!(matches!(b.try_send(vec![1], 100 + 29_999), Dispatch::Queued));
    assert!(is_pass(b.try_send(vec![2], 100 + 30_000), &[2]));
    assert_eq!(b.state(), CircuitState::HalfOpen);
    assert!(is_pass(b.try_send(vec![3], 100 + 30_001), &[3]));
    b.record_success(100 + 30_002);
    assert_eq!(b.state(), CircuitState::Closed);
    assert_eq!(b.consecutive_failures(), 0);
    assert_eq!(b.queue_size(), 1);
}

#[test]
fn a_failure_of_the_probe_opens_the_breaker_again() {
    let mut b = CircuitBreaker::new(config(), 0);
    for _ in 0..3 {
        b.record_failure(0);
    }
    assert!(is_pass(b.try_send(vec![1], 30_000), &[1]));
    assert_eq!(b.state(), CircuitState::HalfOpen);
    b.record_failure(30_001);
    assert_eq!(b.state(), CircuitState::Open);
    assert!(matches!(b.try_send(vec![2], 30_002), Dispatch::Queued));
    assert!(is_pass(b.try_send(vec![3], 60_001), &[3]));
}

#[test]
fn a_clock_that_reads_earlier_counts_as_no_time() {
    let mut b = CircuitBreaker::new(config(), 50_000);
    for _ in 0..3 {
        b.record_failure(50_000);
    }
    assert!(matches!(b.try_send(vec![1], 10), Dispatch::Queued));
}

#[test]
fn a_drain_hands_out_the_young_frames_in_order() {
    let mut b = CircuitBreaker::new(
        CircuitBreakerConfig { max_queue_size: 10, open_timeout: 1_000_000, max_request_age: 60_000, failure_threshold: 1 },
        0,
    );
    b.record_failure(0);
    assert!(matches!(b.try_send(vec![1], 1_000), Dispatch::Queued));
    assert!(matches!(b.try_send(vec![2], 40_001), Dispatch::Queued));
    assert!(matches!(b.try_send(vec![3], 40_002), Dispatch::Queued));
    assert!(matches!(b.try_send(vec![4], 99_000), Dispatch::Queued));
    let frames = b.drain_queue(100_000);
    assert_eq!(frames, vec![vec![2u8], vec![3], vec![4]]);
    assert_eq!(b.queue_size(), 0);
    assert_eq!(b.state(), CircuitState::Closed);
    assert_eq!(b.consecutive_failures(), 0);
    assert_eq!(b.drain_queue(100_001), Vec::<Vec<u8>>::new());
}

#[test]
fn a_frame_of_exactly_the_largest_age_is_handed_out() {
    let mut b = CircuitBreaker::new(
        CircuitBreakerConfig { max_queue_size: 10, open_timeout: 1_000_000, max_request_age: 60_000, failure_threshold: 1 },
        0,
    );
    b.record_failure(0);
    assert!(matches!(b.try_send(vec![0], 39_999), Dispatch::Queued));
    assert!(matches!(b.try_send(vec![1], 40_000), Dispatch::Queued));
    assert!(matches!(b.try_send(vec![2], 40_001), Dispatch::Queued));
    assert_eq!(b.drain_queue(100_000), vec![vec![1u8], vec![2u8]]);
}

#[test]
fn only_frames_older_than_the_largest_age_are_removed() {
    let mut b = CircuitBreaker::new(CircuitBreakerConfig { failure_threshold: 1, ..CircuitBreakerConfig::default() }, 0);
    b.record_failure(0);
    assert!(matches!(b.try_send(vec![9], 999), Dispatch::Queued));
    assert!(matches!(b.try_send(vec![7], 1_000), Dispatch::Queued));
    assert_eq!(b.drain_queue(61_000), vec![vec![7u8]]);
}

#[test]
fn a_threshold_of_zero_opens_at_the_first_failure() {
    let mut b = CircuitBreaker::new(
        CircuitBreakerConfig { max_queue_size: 0, open_timeout: 10, max_request_age: 10, failure_threshold: 0 },
        0,
    );
    assert_eq!(b.state(), CircuitState::Closed);
    b.record_failure(1);
    assert_eq!(b.state(), CircuitState::Open);
    assert!(matches!(b.try_send(vec![1], 2), Dispatch::Dropped));
    assert_eq!(b.config().max_queue_size, 0);
}
