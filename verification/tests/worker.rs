use relentless::config::{Repeat, Setting};
use relentless::destinations::Destinations;
use relentless::evaluate::HttpResponse;
use relentless::metrics::RequestResult;
use relentless::request::HttpRequest;
use relentless::router::{AssaultError, OriginRouter};
use relentless::template::Template;
use relentless::worker::Case;

#[test]
fn request_stream_uses_each_destination_template() {
    let mut destinations = Destinations::new();
    destinations.insert("actual".to_string(), "http://localhost:3000".to_string());
    destinations.insert("expect".to_string(), "http://localhost:3001".to_string());
    let mut template = Destinations::new();
    template.insert("actual".to_string(), Template::from_pairs(&[("var", "a")]));
    template.insert("expect".to_string(), Template::from_pairs(&[("var", "b")]));
    let setting: Setting<HttpRequest, HttpResponse> = Setting {
        request: HttpRequest::default(),
        template,
        repeat: Repeat(Some(3)),
        timeout: None,
        response: HttpResponse::default(),
    };
    let stream = Case::<()>::request_stream(&destinations, "/echo/${var}", &setting, &Destinations::new());
    assert_eq!(stream.len(), 3);
    for repeat in &stream {
        let a = repeat.get("actual").unwrap().as_ref().unwrap();
        assert_eq!(a.path_and_query, "/echo/a");
        assert_eq!(a.destination, "http://localhost:3000");
        let b = repeat.get("expect").unwrap().as_ref().unwrap();
        assert_eq!(b.path_and_query, "/echo/b");
    }
}

#[test]
fn outcome_of_requests() {
    assert!(matches!(Case::<()>::outcome::<u8>(Ok(1), None), RequestResult::Response(1)));
    assert!(matches!(Case::<()>::outcome::<u8>(Err((true, "e".to_string())), Some(5)), RequestResult::Timeout(5)));
    assert!(matches!(
        Case::<()>::outcome::<u8>(Err((false, "e".to_string())), Some(5)),
        RequestResult::RequestError(s) if s == "e"
    ));
}

#[test]
fn origin_router_routes_by_authority() {
    let mut map = Destinations::new();
    map.insert("localhost:3000".to_string(), "first");
    map.insert("localhost:3001".to_string(), "second");
    let mut router = OriginRouter::new(map);
    assert_eq!(router.route("http://localhost:3000/counter/increment"), Ok(0));
    assert_eq!(router.route("http://localhost:3001/counter"), Ok(1));
    assert_eq!(router.route("http://LOCALHOST:3000/counter"), Ok(0));
    assert_eq!(router.route("http://LocalHost:3001"), Ok(1));
    assert_eq!(router.route("http://localhost:8000"), Err(AssaultError::CannotSpecifyService));
    assert_eq!(router.route("/relative"), Err(AssaultError::CannotSpecifyService));
    assert_eq!(*router.service_mut(1), "second");
    assert_eq!(router.len(), 2);
}
