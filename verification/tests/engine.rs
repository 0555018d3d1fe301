use rup::aggregate::RttSequence;
use rup::generator::Generator;
use rup::probe::RttSample;
use rup::stats::{InFlightQueue, StatsEngine};

#[test]
fn response_matches_oldest_exactly() {
    let mut q = InFlightQueue::new();
    assert!(q.push_request(0, 100));
    assert!(q.push_request(1, 200));
    assert!(q.push_request(2, 300));
    let out = q.match_response(0, 150);
    assert_eq!(out.sample.unwrap(), RttSample { index: 0, rtt: 50 });
    assert!(out.dropped.is_empty());
    assert_eq!(q.len(), 2);
}

#[test]
fn reordered_response_drops_older_heads() {
    let mut q = InFlightQueue::new();
    assert!(q.push_request(0, 100));
    assert!(q.push_request(1, 200));
    assert!(q.push_request(2, 300));
    let out = q.match_response(2, 400);
    assert_eq!(out.sample.unwrap(), RttSample { index: 2, rtt: 100 });
    assert_eq!(out.dropped, vec![0, 1]);
    assert_eq!(q.len(), 0);
}

#[test]
fn stale_response_leaves_queue_untouched() {
    let mut q = InFlightQueue::new();
    assert!(q.push_request(1, 100));
    assert!(q.push_request(2, 200));
    let out = q.match_response(0, 500);
    assert!(out.sample.is_none());
    assert!(out.dropped.is_empty());
    assert_eq!(q.len(), 2);
    let out = q.match_response(1, 600);
    assert_eq!(out.sample.unwrap(), RttSample { index: 1, rtt: 500 });
}

#[test]
fn response_with_unsent_index_between_entries() {
    let mut q = InFlightQueue::new();
    assert!(q.push_request(1, 100));
    assert!(q.push_request(3, 300));
    let out = q.match_response(2, 400);
    assert!(out.sample.is_none());
    assert_eq!(out.dropped, vec![1]);
    assert_eq!(q.len(), 1);
}

#[test]
fn clock_going_backwards_yields_zero_rtt() {
    let mut q = InFlightQueue::new();
    assert!(q.push_request(0, 1000));
    let out = q.match_response(0, 900);
    assert_eq!(out.sample.unwrap(), RttSample { index: 0, rtt: 0 });
}

#[test]
fn out_of_order_request_refused() {
    let mut q = InFlightQueue::new();
    assert!(q.push_request(5, 100));
    assert!(!q.push_request(5, 200));
    assert!(!q.push_request(4, 300));
    assert_eq!(q.len(), 1);
}

#[test]
fn timeout_evicts_prefix_exactly_once() {
    let mut q = InFlightQueue::new();
    assert!(q.push_request(0, 100));
    assert!(q.push_request(1, 200));
    assert!(q.push_request(2, 300));
    assert!(q.push_request(3, 400));
    let evicted = q.evict_upto(1);
    assert_eq!(evicted, vec![0, 1]);
    assert_eq!(q.len(), 2);
    let again = q.evict_upto(1);
    assert!(again.is_empty());
    assert_eq!(q.len(), 2);
}

#[test]
fn interval_mode_emits_no_pulses() {
    let mut engine = StatsEngine::new(false);
    assert!(engine.on_request(0, 100));
    let r = engine.on_response(0, 150);
    assert_eq!(r.outcome.sample.unwrap(), RttSample { index: 0, rtt: 50 });
    assert_eq!(r.pulses, 0);
    assert!(engine.on_request(1, 200));
    let t = engine.on_timeout(1);
    assert_eq!(t.evicted, vec![1]);
    assert_eq!(t.pulses, 0);
}

#[test]
fn adaptive_mode_pulses_per_settled_request() {
    let mut engine = StatsEngine::new(true);
    assert!(engine.on_request(0, 100));
    assert!(engine.on_request(1, 200));
    assert!(engine.on_request(2, 300));
    let r = engine.on_response(0, 150);
    assert_eq!(r.pulses, 1);
    let t = engine.on_timeout(2);
    assert_eq!(t.evicted, vec![1, 2]);
    assert_eq!(t.pulses, 2);
}

#[test]
fn generator_respects_ping_number() {
    let mut g = Generator::new(Some(2));
    assert!(!g.finished());
    let e0 = g.next_request(10);
    assert_eq!(e0.index, 0);
    assert_eq!(e0.timestamp, 10);
    assert!(!g.finished());
    let e1 = g.next_request(20);
    assert_eq!(e1.index, 1);
    assert!(g.finished());
}

#[test]
fn generator_without_limit_never_finishes() {
    let mut g = Generator::new(None);
    for i in 0..100u64 {
        assert!(!g.finished());
        assert_eq!(g.next_request(i).index, i);
    }
    assert!(!g.finished());
}

#[test]
fn mean_and_std_deviation_exact() {
    let mut s = RttSequence::new();
    for v in [2u64, 4, 4, 4, 5, 5, 7, 9] {
        s.add(v);
    }
    assert_eq!(s.len(), 8);
    assert_eq!(s.mean(), 5);
    assert_eq!(s.std_deviation(), 2);
}

#[test]
fn std_deviation_rounds_down() {
    let mut s = RttSequence::new();
    s.add(0);
    s.add(3);
    // mean rounds to 1; squared deviations 1 and 4 give variance 5 / 2 = 2
    assert_eq!(s.mean(), 1);
    assert_eq!(s.std_deviation(), 1);
}

#[test]
fn summary_of_empty_sequence_is_none() {
    let s = RttSequence::new();
    assert!(s.summary().is_none());
}

#[test]
fn summary_reports_extrema_mean_and_deviation() {
    let mut s = RttSequence::new();
    for v in [30u64, 10, 20] {
        s.add(v);
    }
    let sm = s.summary().unwrap();
    assert_eq!(sm.min, 10);
    assert_eq!(sm.max, 30);
    assert_eq!(sm.mean, 20);
    // squared deviations 100, 100, 0 give variance 200 / 3 = 66
    assert_eq!(sm.std_dev, Some(8));
}

#[test]
fn single_sample_summary() {
    let mut s = RttSequence::new();
    s.add(77);
    let sm = s.summary().unwrap();
    assert_eq!(sm.min, 77);
    assert_eq!(sm.max, 77);
    assert_eq!(sm.mean, 77);
    assert_eq!(sm.std_dev, Some(0));
}
