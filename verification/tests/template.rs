use relentless::destinations::Destinations;
use relentless::template::{Template, TemplateError, Variable};

#[test]
fn test_parse_variable() {
    let input = "${foo} bar ${baz} ${ENV:SECRET}";
    let parsed = Variable::split(input).unwrap();
    assert_eq!(
        parsed,
        vec![
            Variable::Defined("foo".to_string()),
            Variable::Literal(" bar ".to_string()),
            Variable::Defined("baz".to_string()),
            Variable::Literal(" ".to_string()),
            Variable::Environment("SECRET".to_string()),
        ]
    );
}

#[test]
fn test_template_render() {
    let template = Template::from_pairs(&[("foo", "hoge"), ("bar", "fuga"), ("baz", "piyo")]);
    let mut env = Destinations::new();
    env.insert("SECRET".to_string(), "VERY_SENSITIVE_VALUE".to_string());
    let rendered = template.render("${foo} bar ${baz} ${env:SECRET}", &env).unwrap();
    assert_eq!(rendered, "hoge bar piyo VERY_SENSITIVE_VALUE".to_string());
}

#[test]
fn test_template_render_with_undefined() {
    let template = Template::from_pairs(&[("foo", "hoge"), ("bar", "fuga"), ("baz", "piyo")]);
    let error = template.render("hoge ${fuga} piyo", &Destinations::new()).unwrap_err();
    if let TemplateError::VariableNotDefined(var) = error {
        assert_eq!(var, "fuga");
    } else {
        panic!("the variable is not defined");
    }
}

#[test]
fn test_template_render_with_invalid() {
    let template = Template::from_pairs(&[("foo", "hoge"), ("bar", "fuga"), ("baz", "piyo")]);
    let error = template.render("foo ${bar baz", &Destinations::new()).unwrap_err();
    assert!(matches!(error, TemplateError::RemainingTemplate(s) if s == "${bar baz"));
}

#[test]
fn template_render_without_placeholders_is_identity() {
    let template = Template::new();
    assert_eq!(template.render("/plain/path?x=1", &Destinations::new()).unwrap(), "/plain/path?x=1");
}

#[test]
fn template_render_with_missing_environment_variable() {
    let template = Template::new();
    let error = template.render("${ENV:NOPE}", &Destinations::new()).unwrap_err();
    assert_eq!(error.message(), "environment variable not found");
    assert!(matches!(error, TemplateError::EnvironmentNotDefined(s) if s == "NOPE"));
}

#[test]
fn plain_text_renders_to_itself() {
    let template = Template::from_pairs(&[("foo", "hoge")]);
    let env: Destinations<String> = Destinations::new();
    assert_eq!(template.render("/health/rich?x=1", &env).unwrap(), "/health/rich?x=1");
    assert_eq!(template.render("", &env).unwrap(), "");
}

#[test]
fn render_bytes_as_text() {
    let template = Template::from_pairs(&[("name", "relentless")]);
    let env: Destinations<String> = Destinations::new();
    assert_eq!(template.render_as_string(b"{\"user\": \"x\"}", &env).ok(), None);
    assert_eq!(template.render_as_string(b"hello ${name}", &env).unwrap(), "hello relentless");
    assert_eq!(template.render_as_string(&[0x68, 0xff, 0x69], &env).unwrap(), "h\u{fffd}i");
}
