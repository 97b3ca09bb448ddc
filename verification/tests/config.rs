use relentless::config::{
    Attribute, Coalesce, Coalesced, Format, FormatError, Repeat, Setting, Testcase, WorkerConfig,
};
use relentless::destinations::Destinations;
use relentless::evaluate::HttpResponse;
use relentless::request::HttpRequest;
use relentless::template::Template;

fn setting(repeat: Option<usize>, timeout: Option<u64>) -> Setting<HttpRequest, HttpResponse> {
    Setting {
        request: HttpRequest::default(),
        template: Destinations::new(),
        repeat: Repeat(repeat),
        timeout,
        response: HttpResponse::default(),
    }
}

#[test]
fn repeat_times_defaults_to_one() {
    assert_eq!(Repeat(None).times(), 1);
    assert_eq!(Repeat(Some(10)).times(), 10);
    assert_eq!(Repeat(Some(3)).range(), 0..3);
}

#[test]
fn repeat_coalesce_prefers_given() {
    assert_eq!(Repeat(Some(2)).coalesce(Repeat(Some(5))), Repeat(Some(2)));
    assert_eq!(Repeat(None).coalesce(Repeat(Some(5))), Repeat(Some(5)));
    assert_eq!(Repeat(None).coalesce(Repeat(None)), Repeat(None));
}

#[test]
fn setting_coalesce_fills_gaps() {
    let mut t: Destinations<Template> = Destinations::new();
    t.insert("actual".to_string(), Template::from_pairs(&[("var", "x")]));
    let other = Setting { template: t, ..setting(Some(7), Some(100)) };
    let s = setting(None, None).coalesce(other);
    assert_eq!(s.repeat, Repeat(Some(7)));
    assert_eq!(s.timeout, Some(100));
    assert_eq!(s.template.len(), 1);

    let s = setting(Some(1), Some(5)).coalesce(setting(Some(7), Some(100)));
    assert_eq!(s.repeat, Repeat(Some(1)));
    assert_eq!(s.timeout, Some(5));
}

#[test]
fn coalesced_testcase_takes_worker_setting() {
    let testcase = Testcase {
        description: Some("d".to_string()),
        target: "/health".to_string(),
        setting: setting(None, None),
        attr: Attribute { allow: true },
    };
    let c = Coalesced::tuple(testcase, setting(Some(4), Some(9)));
    assert_eq!(c.repeat(), Repeat(Some(4)));
    let t = c.coalesce();
    assert_eq!(t.setting.repeat, Repeat(Some(4)));
    assert_eq!(t.setting.timeout, Some(9));
    assert_eq!(t.target, "/health");
    assert!(t.attr.allow);
    assert_eq!(c.base().target, "/health");
}

#[test]
fn worker_config_destinations_are_overridden() {
    let mut d = Destinations::new();
    d.insert("actual".to_string(), "http://localhost:3000".to_string());
    d.insert("expect".to_string(), "http://localhost:3001".to_string());
    let w = WorkerConfig { name: Some("w".to_string()), destinations: d, setting: setting(None, None) };
    let mut o = Destinations::new();
    o.insert("actual".to_string(), "http://localhost:8080".to_string());
    o.insert("other".to_string(), "http://localhost:9999".to_string());
    let w = w.coalesce(o);
    assert_eq!(w.destinations.len(), 2);
    assert_eq!(w.destinations.get("actual").unwrap(), "http://localhost:8080");
    assert_eq!(w.destinations.get("expect").unwrap(), "http://localhost:3001");
    assert!(w.destinations.get("other").is_none());
}

#[test]
fn format_from_path() {
    assert_eq!(Format::from_path("path/to/config.yaml"), Ok(Format::Yaml));
    assert_eq!(Format::from_path("config.yml"), Ok(Format::Yaml));
    assert_eq!(Format::from_path("a/b.json"), Ok(Format::Json));
    assert_eq!(Format::from_path("a/b.toml"), Ok(Format::Toml));
    assert_eq!(Format::from_path("a/b.txt"), Err(FormatError::UnknownFormatExtension("txt".to_string())));
    assert_eq!(Format::from_path("a/noext"), Err(FormatError::CannotSpecifyFormat));
    assert_eq!(Format::from_path(".hidden"), Err(FormatError::CannotSpecifyFormat));
}
