use relentless::aggregate::{
    Aggregate, CountAggregator, DurationAggregator, EvaluateAggregator, LatencyAggregator, PassAggregate,
    PassAggregator, ResponseAggregator,
};
use relentless::destinations::Destinations;
use relentless::metrics::{MeasuredResponse, Metrics};

const MILLI: u64 = 1_000_000;

#[test]
fn count_aggregate() {
    let mut agg = CountAggregator::new();
    for _ in 0..1000 {
        agg.add(&());
    }
    assert_eq!(agg.aggregate(&()), 1000);
}

#[test]
fn passed_aggregate() {
    let mut agg = PassAggregator::new();
    for i in 0..1000 {
        agg.add(&(i % 2 == 0));
    }
    let PassAggregate { pass, count } = agg.aggregate(&());
    assert_eq!((pass, count), (500, 1000));
    assert_eq!(pass as f64 / count as f64, 0.5);
}

#[test]
fn duration_aggregate() {
    let mut agg = DurationAggregator::new(Some(0));
    for i in 0..1000 {
        agg.add(&(i * MILLI));
    }
    assert_eq!(agg.aggregate(&()), 999 * MILLI);
}

#[test]
fn duration_aggregate_merge_covers_both_spans() {
    let mut a = DurationAggregator::new(None);
    a.add(&(5 * MILLI));
    a.add(&(7 * MILLI));
    let mut b = DurationAggregator::new(None);
    b.add(&(2 * MILLI));
    b.add(&(3 * MILLI));
    a.merge(&b);
    assert_eq!(a.aggregate(&()), 5 * MILLI);
}

/// The value at quantile `q` of the latencies, in microseconds.
fn quantile(agg: &LatencyAggregator, q: f64) -> u64 {
    agg.histogram().hist.value_at_quantile(q)
}

#[test]
fn latency_aggregate() {
    let mut agg = LatencyAggregator::new();
    for i in 1..1000u64 {
        agg.add(&(i * MILLI));
    }
    let tolerance = 1000;
    let l = agg.aggregate(&());
    assert!(l.min.abs_diff(1000) < tolerance);
    assert!(l.mean.abs_diff(500_000) < tolerance);
    for (q, p) in [0.5, 0.9, 0.99].iter().zip([500_000u64, 900_000, 990_000]) {
        assert!(quantile(&agg, *q).abs_diff(p) < tolerance);
    }
    assert!(l.max.abs_diff(1_000_000) < tolerance);
    assert_eq!(agg.len(), 999);
}

#[test]
fn merge_latency_aggregate() {
    let mut agg1 = LatencyAggregator::new();
    for i in 1..500u64 {
        agg1.add(&(i * MILLI));
    }
    let mut agg2 = LatencyAggregator::new();
    for i in 500..1000u64 {
        agg2.add(&(i * MILLI));
    }
    let tolerance = 1000;
    let l1 = agg1.aggregate(&());
    assert!(l1.min.abs_diff(1000) < tolerance);
    assert!(l1.mean.abs_diff(250_000) < tolerance);
    for (q, p) in [0.5, 0.9, 0.99].iter().zip([250_000u64, 450_000, 495_000]) {
        assert!(quantile(&agg1, *q).abs_diff(p) < tolerance);
    }
    assert!(l1.max.abs_diff(500_000) < tolerance);

    let l2 = agg2.aggregate(&());
    assert!(l2.min.abs_diff(500_000) < tolerance);
    assert!(l2.mean.abs_diff(750_000) < tolerance);
    for (q, p) in [0.5, 0.9, 0.99].iter().zip([750_000u64, 950_000, 995_000]) {
        assert!(quantile(&agg2, *q).abs_diff(p) < tolerance);
    }
    assert!(l2.max.abs_diff(1_000_000) < tolerance);

    agg1.merge(&agg2);
    assert_eq!(agg1.len(), 999);
    let l = agg1.aggregate(&());
    assert!(l.min.abs_diff(1000) < tolerance);
    assert!(l.mean.abs_diff(500_000) < tolerance);
    for (q, p) in [0.5, 0.9, 0.99].iter().zip([500_000u64, 900_000, 990_000]) {
        assert!(quantile(&agg1, *q).abs_diff(p) < tolerance);
    }
    assert!(l.max.abs_diff(1_000_000) < tolerance);
}

#[test]
fn latency_min_and_mean_to_three_significant_digits() {
    let mut agg = LatencyAggregator::new();
    agg.add(&1_000_000);
    agg.add(&2_000_000);
    assert_eq!(agg.min(), 1000);
    assert_eq!(agg.mean(), 1500);
    let mut agg = LatencyAggregator::new();
    agg.add(&5_001_000);
    assert_eq!(agg.min(), 5000);
    assert_eq!(agg.mean(), 5002);
    assert_eq!(agg.max(), 5003);
    let empty = LatencyAggregator::new();
    assert_eq!((empty.min(), empty.mean()), (0, 0));
}

#[test]
fn response_aggregate_counts_and_span() {
    let mut agg = ResponseAggregator::new(Some(0));
    for i in 0..10u64 {
        let m = Metrics { bytes: 0, timestamp: i * MILLI, duration: (0, i * MILLI) };
        agg.add(&m);
    }
    let r = agg.aggregate(&());
    assert_eq!(r.req, 10);
    assert_eq!(r.duration, Some(9 * MILLI));
    assert_eq!(r.latency.max.abs_diff(9000) < 100, true);
}

#[test]
fn evaluate_aggregate() {
    let names: Destinations<()> = Destinations::new();
    let mut agg = EvaluateAggregator::new(&names, Some(0));
    for i in 0..1000u64 {
        let mut d: Destinations<Option<Metrics>> = Destinations::new();
        let ma = MeasuredResponse::new((), i * MILLI, (0, i * MILLI));
        let mb = MeasuredResponse::new((), i * MILLI, (0, i * MILLI));
        d.insert("a".to_string(), Some(ma.metrics().clone()));
        d.insert("b".to_string(), Some(mb.metrics().clone()));
        agg.add(&(i % 2 == 0, d));
    }
    let e = agg.aggregate(&());
    assert_eq!(e.pass, PassAggregate { pass: 500, count: 1000 });
    assert_eq!(e.response.req, 2000);
    assert_eq!(e.response.duration, Some(999 * MILLI));
    let tolerance = 1000;
    let l = &e.response.latency;
    assert!(l.min.abs_diff(0) < tolerance);
    assert!(l.mean.abs_diff(500_000) < tolerance);
    let merged = agg.responses_merged();
    for (q, p) in [0.5, 0.9, 0.99].iter().zip([500_000u64, 900_000, 990_000]) {
        assert!(quantile(merged.latency(), *q).abs_diff(p) < tolerance);
    }
    assert!(l.max.abs_diff(1_000_000) < tolerance);
}

#[test]
fn evaluate_aggregate_merge_adds_per_destination() {
    let names: Destinations<()> = Destinations::new();
    let mut a = EvaluateAggregator::new(&names, None);
    let mut b = EvaluateAggregator::new(&names, None);
    let mut d: Destinations<Option<Metrics>> = Destinations::new();
    d.insert("x".to_string(), Some(Metrics { bytes: 0, timestamp: 0, duration: (0, MILLI) }));
    a.add(&(true, d));
    let mut d: Destinations<Option<Metrics>> = Destinations::new();
    d.insert("x".to_string(), Some(Metrics { bytes: 0, timestamp: MILLI, duration: (0, MILLI) }));
    d.insert("y".to_string(), None);
    b.add(&(false, d));
    a.merge(&b);
    let e = a.aggregate(&());
    assert_eq!(e.pass, PassAggregate { pass: 1, count: 2 });
    assert_eq!(e.response.req, 2);
}

#[test]
fn aggregator_checks_before_gathering() {
    let mut names: Destinations<()> = Destinations::new();
    names.insert("actual".to_string(), ());
    let mut agg = EvaluateAggregator::new(&names, Some(0));
    let mut metrics = Destinations::new();
    metrics.insert("actual".to_string(), Some(Metrics { bytes: 0, timestamp: 10, duration: (0, 2_000) }));
    let add = (true, metrics);
    assert!(agg.can_add(&add));
    agg.add(&add);
    let other = agg.clone();
    assert!(agg.can_merge(&other));
    agg.merge(&other);
    assert!(agg.can_aggregate());
    let e = agg.aggregate(&());
    assert_eq!((e.pass.pass, e.pass.count, e.response.req), (2, 2, 2));
}
