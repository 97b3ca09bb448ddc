use relentless::destinations::Destinations;
use relentless::evaluate::HeaderMap;
use relentless::request::{HttpBody, HttpRequest, ProduceError, RequestFactory};
use relentless::config::Coalesce;
use relentless::template::Template;

fn headers(pairs: &[(&str, &str)]) -> HeaderMap {
    let mut h = HeaderMap::new();
    for (k, v) in pairs {
        h.append(k.to_string(), v.as_bytes().to_vec());
    }
    h
}

#[test]
fn produce_renders_target_and_adds_body_headers() {
    let req = HttpRequest { body: HttpBody::Plaintext("hello ${name}".to_string()), ..HttpRequest::default() };
    let t = Template::from_pairs(&[("name", "world"), ("id", "7")]);
    let r = req.produce("http://localhost:3000", "/echo/${id}", &t, &Destinations::new()).unwrap();
    assert_eq!(r.destination, "http://localhost:3000");
    assert_eq!(r.path_and_query, "/echo/7");
    assert_eq!(r.uri, "http://localhost:3000/echo/7");
    assert_eq!(r.method, "GET");
    assert_eq!(r.body, b"hello world".to_vec());
    assert!(r.headers.equal(&headers(&[("content-type", "text/plain"), ("content-length", "11")])));
}

#[test]
fn produce_without_additional_headers() {
    let req = HttpRequest {
        no_additional_headers: true,
        method: Some("POST".to_string()),
        headers: Some(headers(&[("x-a", "1")])),
        body: HttpBody::Plaintext("abc".to_string()),
    };
    let r = req.produce("http://h", "/", &Template::new(), &Destinations::new()).unwrap();
    assert_eq!(r.method, "POST");
    assert!(r.headers.equal(&headers(&[("x-a", "1")])));
}

#[test]
fn produce_fails_on_undefined_variable() {
    let req = HttpRequest::default();
    assert!(matches!(
        req.produce("http://h", "/${missing}", &Template::new(), &Destinations::new()),
        Err(ProduceError::Template(_))
    ));
}

#[test]
fn produce_fails_on_a_target_that_makes_no_uri() {
    let req = HttpRequest::default();
    assert!(matches!(
        req.produce("http://h", "/a b", &Template::new(), &Destinations::new()),
        Err(ProduceError::InvalidUri(_))
    ));
    assert!(matches!(
        req.produce("not a uri", "/", &Template::new(), &Destinations::new()),
        Err(ProduceError::InvalidUri(_))
    ));
}

#[test]
fn empty_body_has_no_headers() {
    let (body, h) = HttpBody::Empty.body_with_headers(&Template::new(), &Destinations::new());
    assert!(body.is_empty());
    assert!(h.equal(&HeaderMap::new()));
    assert_eq!(HttpBody::Empty.content_type(), None);
}

#[test]
fn json_body_is_an_object_of_strings() {
    let mut m = Destinations::new();
    m.insert("k".to_string(), "v".to_string());
    let body = HttpBody::Json(m);
    assert_eq!(body.content_type(), Some("application/json".to_string()));
    assert_eq!(body.produce(&Template::new(), &Destinations::new()), br#"{"k":"v"}"#.to_vec());
}

#[test]
fn request_coalesce_fills_gaps() {
    let a = HttpRequest { method: None, ..HttpRequest::default() };
    let b = HttpRequest { method: Some("PUT".to_string()), no_additional_headers: true, ..HttpRequest::default() };
    let c = a.coalesce(b);
    assert_eq!(c.method, Some("PUT".to_string()));
    assert!(c.no_additional_headers);
}

#[test]
fn json_body_writes_names_in_order() {
    let mut m = Destinations::new();
    m.insert("zeta".to_string(), "1".to_string());
    m.insert("alpha".to_string(), "two \"quoted\"".to_string());
    let body = HttpBody::Json(m);
    assert_eq!(
        body.produce(&Template::new(), &Destinations::new()),
        br#"{"alpha":"two \"quoted\"","zeta":"1"}"#.to_vec()
    );
}
