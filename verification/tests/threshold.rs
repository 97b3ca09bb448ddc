use relentless::aggregate::PassAggregate;
use relentless::messages::Messages;
use relentless::threshold::{Classification, Classify, Micros};

#[test]
fn pass_rate_classification() {
    assert_eq!(PassAggregate { pass: 10, count: 10 }.classify(), Classification::Good);
    assert_eq!(PassAggregate { pass: 0, count: 0 }.classify(), Classification::Good);
    assert_eq!(PassAggregate { pass: 9, count: 10 }.classify(), Classification::Allow);
    assert_eq!(PassAggregate { pass: 8, count: 10 }.classify(), Classification::Warn);
    assert_eq!(PassAggregate { pass: 6, count: 10 }.classify(), Classification::Warn);
    assert_eq!(PassAggregate { pass: 5, count: 10 }.classify(), Classification::Bad);
}

#[test]
fn latency_classification() {
    assert_eq!(Micros(200_000).classify(), Classification::Good);
    assert_eq!(Micros(200_001).classify(), Classification::Allow);
    assert_eq!(Micros(1_000_001).classify(), Classification::Warn);
    assert_eq!(Micros(3_000_001).classify(), Classification::Bad);
    let c = Micros(5).classified();
    assert_eq!(c.class(), Classification::Good);
    assert_eq!(*c.value(), Micros(5));
}

#[test]
fn messages_classification() {
    let m: Messages<String> = Messages::new();
    assert_eq!(m.classify(), Classification::Good);
    let m = Messages::from(vec!["x".to_string()]);
    assert_eq!(m.classify(), Classification::Warn);
}
