use relentless::command::{parse_key_value, parse_uris, InterfaceError, Relentless, ReportFormat, WorkerKind};
use relentless::destinations::Destinations;

fn cmd() -> Relentless {
    Relentless {
        file: vec![],
        destination: vec![],
        strict: false,
        ng_only: false,
        no_color: false,
        report_format: ReportFormat::default(),
        output_record: None,
        sequential: vec![],
        measure: None,
        rps: None,
    }
}

#[test]
fn test_parse_measure() {
    let c = cmd();
    assert_eq!(c.measure_set(), vec![WorkerKind::Configs]);
    let c = Relentless { measure: Some(vec![]), ..cmd() };
    assert_eq!(c.measure_set(), vec![]);
    let c = Relentless { measure: Some(vec![WorkerKind::Testcases, WorkerKind::Repeats]), ..cmd() };
    assert_eq!(c.measure_set(), vec![WorkerKind::Repeats, WorkerKind::Testcases]);
    assert!(c.is_measure(WorkerKind::Repeats));
    assert!(!c.is_measure(WorkerKind::Configs));
}

#[test]
fn sequential_set_is_sorted_and_deduplicated() {
    let c = Relentless {
        sequential: vec![WorkerKind::Configs, WorkerKind::Repeats, WorkerKind::Configs],
        ..cmd()
    };
    assert_eq!(c.sequential_set(), vec![WorkerKind::Repeats, WorkerKind::Configs]);
    assert!(c.is_sequential(WorkerKind::Configs));
    assert!(!c.is_sequential(WorkerKind::Testcases));
}

#[test]
fn test_parse_key_value_err() {
    assert_eq!(parse_key_value("key-value"), Err(InterfaceError::KeyValueFormat("key-value".to_string())));
}

#[test]
fn parse_key_value_splits_at_first_equal() {
    assert_eq!(parse_key_value("actual=http://localhost:3000"), Ok(("actual".to_string(), "http://localhost:3000".to_string())));
    assert_eq!(parse_key_value("a=b=c"), Ok(("a".to_string(), "b=c".to_string())));
    assert_eq!(parse_key_value("=x"), Ok(("".to_string(), "x".to_string())));
}

#[test]
fn destinations_from_options() {
    let c = Relentless {
        destination: vec![
            ("actual".to_string(), "http://localhost:3000".to_string()),
            ("expect".to_string(), "http://localhost:3001".to_string()),
            ("actual".to_string(), "http://localhost:3002".to_string()),
        ],
        ..cmd()
    };
    let d = c.destinations().unwrap();
    assert_eq!(d.len(), 2);
    assert_eq!(d.get("actual").unwrap(), "http://localhost:3002/");
    let c = Relentless { destination: vec![("bad".to_string(), "http://[::1".to_string())], ..cmd() };
    assert_eq!(c.destinations().unwrap_err(), InterfaceError::InvalidUri("http://[::1".to_string()));
}

#[test]
fn config_destinations_are_parsed_uris() {
    let mut d = Destinations::new();
    d.insert("actual".to_string(), "http://localhost:3000".to_string());
    d.insert("expect".to_string(), "http://localhost:3001/api".to_string());
    let parsed = parse_uris(&d).unwrap();
    assert_eq!(parsed.get("actual").map(String::as_str), Some("http://localhost:3000/"));
    assert_eq!(parsed.get("expect").map(String::as_str), Some("http://localhost:3001/api"));

    let mut bad = Destinations::new();
    bad.insert("actual".to_string(), "http://localhost:3000".to_string());
    bad.insert("expect".to_string(), "http://[::1".to_string());
    match parse_uris(&bad) {
        Err(e) => assert_eq!(e, InterfaceError::InvalidUri("http://[::1".to_string())),
        Ok(_) => panic!("`http://[::1` is no URI"),
    }
}
