use relentless::config::EvaluateTo;
use relentless::destinations::Destinations;
use relentless::evaluate::{
    compare_all, is_match, Acceptable, Evaluate, HeaderMap, HttpBody, HttpEvaluateError, HttpHeaders, HttpResponse,
    HttpStatus, JsonEvaluateError, JsonEvaluator, PlaintextEvaluateError, PlaintextEvaluator,
};
use relentless::messages::Messages;
use relentless::metrics::{RequestError, RequestResult};

fn one<T>(name: &str, v: T) -> Destinations<T> {
    let mut d = Destinations::new();
    d.insert(name.to_string(), v);
    d
}

fn headers(pairs: &[(&str, &str)]) -> HeaderMap {
    let mut h = HeaderMap::new();
    for (k, v) in pairs {
        h.append(k.to_string(), v.as_bytes().to_vec());
    }
    h
}

fn parts(status: u16, body: &str) -> (u16, HeaderMap, Vec<u8>) {
    (status, HeaderMap::new(), body.as_bytes().to_vec())
}

#[test]
fn test_default_assault_evaluate() {
    let evaluator = HttpResponse::default();
    let mut msg = Messages::new();
    assert!(evaluator.accept(&one("test", parts(200, "")), &mut msg));
    assert!(msg.is_empty());

    let mut msg = Messages::new();
    assert!(!evaluator.accept(&one("test", parts(503, "")), &mut msg));
    assert!(matches!(msg.as_slice(), [HttpEvaluateError::UnacceptableStatus]));
}

#[test]
fn compare_destinations_status_and_body() {
    let evaluator = HttpResponse::default();
    let mut d = Destinations::new();
    d.insert("actual".to_string(), parts(503, "same"));
    d.insert("expect".to_string(), parts(503, "same"));
    let mut msg = Messages::new();
    assert!(evaluator.accept(&d, &mut msg));

    let mut d = Destinations::new();
    d.insert("actual".to_string(), parts(200, "one"));
    d.insert("expect".to_string(), parts(200, "two"));
    let mut msg = Messages::new();
    assert!(!evaluator.accept(&d, &mut msg));
    assert!(msg.is_empty());
}

#[test]
fn expected_status_for_each_destination() {
    let mut codes = Destinations::new();
    codes.insert("a".to_string(), 200u16);
    codes.insert("b".to_string(), 404u16);
    let status = HttpStatus::Expect(EvaluateTo::Destinations(codes));
    let mut got = Destinations::new();
    got.insert("b".to_string(), 404u16);
    got.insert("a".to_string(), 200u16);
    let mut msg = Messages::new();
    assert!(status.accept(&got, &mut msg));
    let status = HttpStatus::Expect(EvaluateTo::All(201));
    assert!(!status.accept(&got, &mut msg));
    assert_eq!(msg.len(), 1);
}

#[test]
fn header_maps_compare_by_fields() {
    let a = headers(&[("x", "1"), ("y", "2"), ("x", "3")]);
    let b = headers(&[("y", "2"), ("x", "1"), ("x", "3")]);
    let c = headers(&[("x", "3"), ("x", "1"), ("y", "2")]);
    assert!(a.equal(&b));
    assert!(!a.equal(&c));
    let mut d = Destinations::new();
    d.insert("a".to_string(), a);
    d.insert("b".to_string(), b);
    let mut msg = Messages::new();
    assert!(HttpHeaders::AnyOrEqual.accept(&d, &mut msg));
    d.insert("c".to_string(), c);
    assert!(!compare_all(&d));
    assert!(!HttpHeaders::AnyOrEqual.accept(&d, &mut msg));
    assert!(matches!(msg.as_slice(), [HttpEvaluateError::UnacceptableHeaderMap]));
}

#[test]
fn header_map_extend_replaces_fields() {
    let mut a = headers(&[("content-type", "text/plain"), ("x", "1")]);
    a.extend(headers(&[("content-type", "application/json")]));
    assert!(a.equal(&headers(&[("x", "1"), ("content-type", "application/json")])));
}

#[test]
fn plaintext_regex() {
    assert_eq!(is_match("^h.*d$", "hello world"), Ok(()));
    assert_eq!(
        is_match("^x", "hello"),
        Err(PlaintextEvaluateError::FailToMatch("^x".to_string(), "hello".to_string()))
    );
    assert!(matches!(is_match("(", "hello"), Err(PlaintextEvaluateError::FailToCompileRegex(_))));

    let p = PlaintextEvaluator { regex: Some(EvaluateTo::All("^ok".to_string())) };
    let mut d = Destinations::new();
    d.insert("a".to_string(), b"ok fine".to_vec());
    d.insert("b".to_string(), b"not ok".to_vec());
    let mut msg = Messages::new();
    assert!(!p.accept(&d, &mut msg));
    assert_eq!(msg.as_slice(), &[PlaintextEvaluateError::FailToMatch("^ok".to_string(), "not ok".to_string())]);
}

#[test]
fn plaintext_body_messages_are_wrapped() {
    let body = HttpBody::Plaintext(PlaintextEvaluator { regex: Some(EvaluateTo::All("world".to_string())) });
    let mut msg = Messages::new();
    assert!(!body.accept(&one("a", b"hello".to_vec()), &mut msg));
    assert_eq!(
        msg.as_slice(),
        &[HttpEvaluateError::PlaintextEvaluateError(PlaintextEvaluateError::FailToMatch(
            "world".to_string(),
            "hello".to_string()
        ))]
    );
    let mut msg = Messages::new();
    assert!(body.accept(&one("a", b"hello world".to_vec()), &mut msg));
    assert!(msg.is_empty());
}

#[test]
fn json_diff_ignored_and_reported() {
    let j = JsonEvaluator { ignore: vec!["/datetime".to_string()], patch: None, patch_fail: None };
    let mut d = Destinations::new();
    d.insert("actual".to_string(), br#"{"a":1,"datetime":"x","b":[1,2]}"#.to_vec());
    d.insert("expect".to_string(), br#"{"a":1,"datetime":"y","b":[1,2]}"#.to_vec());
    let mut msg = Messages::new();
    assert!(j.accept_json(&d, &mut msg));
    assert!(msg.is_empty());

    let j = JsonEvaluator { ignore: vec![], patch: None, patch_fail: None };
    let mut msg = Messages::new();
    assert!(!j.accept_json(&d, &mut msg));
    assert_eq!(msg.as_slice(), &[JsonEvaluateError::Diff("/datetime".to_string())]);
}

#[test]
fn json_that_does_not_parse_fails() {
    let j = JsonEvaluator { ignore: vec![], patch: None, patch_fail: None };
    let mut msg = Messages::new();
    assert!(!j.accept_json(&one("a", b"{not json".to_vec()), &mut msg));
    assert!(matches!(msg.as_slice(), [JsonEvaluateError::FailToParseJson(_)]));
}

#[test]
fn json_patch_is_applied_before_comparing() {
    let patch: json_patch::Patch =
        serde_json::from_value(serde_json::Value::Array(vec![serde_json::Value::Object(
            [
                ("op".to_string(), serde_json::Value::String("remove".to_string())),
                ("path".to_string(), serde_json::Value::String("/datetime".to_string())),
            ]
            .into_iter()
            .collect(),
        )]))
        .unwrap();
    let j = JsonEvaluator { ignore: vec![], patch: Some(EvaluateTo::All(patch)), patch_fail: None };
    let mut d = Destinations::new();
    d.insert("actual".to_string(), br#"{"a":1,"datetime":"x"}"#.to_vec());
    d.insert("expect".to_string(), br#"{"a":1,"datetime":"y"}"#.to_vec());
    let mut msg = Messages::new();
    assert!(j.accept_json(&d, &mut msg));
    assert_eq!(JsonEvaluator::pointers(&json_patch::diff(&serde_json::Value::Null, &serde_json::Value::Bool(true))).len(), 1);
}

#[test]
fn evaluate_stops_at_the_first_destination_without_response() {
    let evaluator = HttpResponse::default();
    let mut results = Destinations::new();
    results.insert("actual".to_string(), RequestResult::Response(parts(200, "ok")));
    results.insert("expect".to_string(), RequestResult::Timeout(1_000_000_000));
    results.insert("other".to_string(), RequestResult::NoReady("not ready".to_string()));
    let mut msg = Messages::new();
    assert!(!evaluator.evaluate(results, &mut msg));
    assert_eq!(
        msg.as_slice(),
        &[HttpEvaluateError::RequestError(RequestError::Timeout(1_000_000_000))]
    );
}

#[test]
fn evaluate_responses_as_accept_does() {
    let evaluator = HttpResponse::default();
    let mut results = Destinations::new();
    results.insert("actual".to_string(), RequestResult::Response(parts(200, "same")));
    results.insert("expect".to_string(), RequestResult::Response(parts(200, "same")));
    let mut msg = Messages::new();
    assert!(evaluator.evaluate(results, &mut msg));
    assert!(msg.is_empty());

    let mut results = Destinations::new();
    results.insert("actual".to_string(), RequestResult::Response(parts(500, "err")));
    let mut msg = Messages::new();
    assert!(!evaluator.evaluate(results, &mut msg));
    assert_eq!(msg.as_slice(), &[HttpEvaluateError::UnacceptableStatus]);
}

#[test]
fn json_patch_for_one_destination_only() {
    let patch: json_patch::Patch = serde_json::from_str(r#"[{"op":"remove","path":"/a"}]"#).unwrap();
    let mut per = Destinations::new();
    per.insert("actual".to_string(), patch);
    let j = JsonEvaluator { ignore: vec![], patch: Some(EvaluateTo::Destinations(per)), patch_fail: None };
    let mut v: serde_json::Value = serde_json::from_str(r#"{"a":1,"b":2}"#).unwrap();
    assert!(j.patch("expect", &mut v).is_ok());
    assert_eq!(v, serde_json::from_str::<serde_json::Value>(r#"{"a":1,"b":2}"#).unwrap());
    assert!(j.patch("actual", &mut v).is_ok());
    assert_eq!(v, serde_json::from_str::<serde_json::Value>(r#"{"b":2}"#).unwrap());
    assert!(j.patch("actual", &mut v).is_err());
}

#[test]
fn json_patch_without_operations_leaves_value() {
    let patch: json_patch::Patch = serde_json::from_str("[]").unwrap();
    let j = JsonEvaluator { ignore: vec![], patch: Some(EvaluateTo::All(patch)), patch_fail: None };
    let mut v: serde_json::Value = serde_json::from_str(r#"{"a":1}"#).unwrap();
    assert!(j.patch("actual", &mut v).is_ok());
    assert_eq!(v, serde_json::from_str::<serde_json::Value>(r#"{"a":1}"#).unwrap());
}

#[test]
fn json_single_destination_that_parses_is_accepted() {
    let j = JsonEvaluator { ignore: vec![], patch: None, patch_fail: None };
    let mut msg = Messages::new();
    assert!(j.accept_json(&one("a", br#"{"x":[1,2]}"#.to_vec()), &mut msg));
    assert!(msg.is_empty());
}

#[test]
fn json_compare_reports_each_unignored_pointer() {
    let j = JsonEvaluator { ignore: vec!["/z".to_string()], patch: None, patch_fail: None };
    let a: serde_json::Value = serde_json::from_str(r#"{"x":1,"y":2,"z":3}"#).unwrap();
    let b: serde_json::Value = serde_json::from_str(r#"{"x":0,"y":2,"z":0}"#).unwrap();
    let mut msg = Messages::new();
    assert!(j.json_compare(&a, &a.clone(), &mut msg));
    assert!(msg.is_empty());
    assert!(!j.json_compare(&a, &b, &mut msg));
    assert_eq!(msg.as_slice(), &[JsonEvaluateError::Diff("/x".to_string())]);
}

#[test]
fn json_stops_at_the_first_pair_that_differs() {
    let j = JsonEvaluator { ignore: vec![], patch: None, patch_fail: None };
    let mut d = Destinations::new();
    d.insert("a".to_string(), br#"{"k":1,"m":1}"#.to_vec());
    d.insert("b".to_string(), br#"{"k":1,"m":1}"#.to_vec());
    d.insert("c".to_string(), br#"{"k":2,"m":2}"#.to_vec());
    let mut msg = Messages::new();
    assert!(!j.accept_json(&d, &mut msg));
    assert_eq!(
        msg.as_slice(),
        &[JsonEvaluateError::Diff("/k".to_string()), JsonEvaluateError::Diff("/m".to_string())]
    );
}

#[test]
fn plaintext_patterns_are_needed_only_once_status_and_headers_pass() {
    let mut patterns = Destinations::new();
    patterns.insert("other".to_string(), "ok".to_string());
    let evaluator = HttpResponse {
        status: HttpStatus::OkOrEqual,
        header: HttpHeaders::AnyOrEqual,
        body: HttpBody::Plaintext(PlaintextEvaluator { regex: Some(EvaluateTo::Destinations(patterns)) }),
    };
    let mut results = Destinations::new();
    results.insert("actual".to_string(), RequestResult::Response(parts(500, "ok")));
    let mut msg = Messages::new();
    assert!(!evaluator.evaluate(results, &mut msg));
    assert_eq!(msg.as_slice(), &[HttpEvaluateError::UnacceptableStatus]);
}
