use relentless::aggregate::EvaluateAggregator;
use relentless::command::{Relentless, ReportFormat};
use relentless::config::{Attribute, Coalesced, Repeat, Setting, Testcase, WorkerConfig};
use relentless::destinations::Destinations;
use relentless::evaluate::HttpResponse;
use relentless::messages::Messages;
use relentless::reportable::{CaseReport, Report, ReportWriter, Reportable, WorkerReport};
use relentless::request::HttpRequest;

type Case = CaseReport<String, HttpRequest, HttpResponse>;

fn setting(repeat: Option<usize>) -> Setting<HttpRequest, HttpResponse> {
    Setting {
        request: HttpRequest::default(),
        template: Destinations::new(),
        repeat: Repeat(repeat),
        timeout: None,
        response: HttpResponse::default(),
    }
}

fn case(passed: usize, repeat: Option<usize>, allow: bool) -> Case {
    let testcase = Testcase { description: None, target: "/".to_string(), setting: setting(None), attr: Attribute { allow } };
    let names: Destinations<()> = Destinations::new();
    CaseReport::new(Coalesced::tuple(testcase, setting(repeat)), passed, Messages::new(), EvaluateAggregator::new(&names, None))
}

fn cmd(strict: bool, ng_only: bool, report_format: ReportFormat) -> Relentless {
    Relentless {
        file: vec![],
        destination: vec![],
        strict,
        ng_only,
        no_color: false,
        report_format,
        output_record: None,
        sequential: vec![],
        measure: None,
        rps: None,
    }
}

fn worker(report: Vec<Case>) -> WorkerReport<String, HttpRequest, HttpResponse> {
    let config = WorkerConfig { name: None, destinations: Destinations::new(), setting: setting(None) };
    WorkerReport::new(Coalesced::tuple(config, Destinations::new()), report)
}

#[test]
fn case_passes_when_every_repeat_passed() {
    assert!(case(10, Some(10), false).pass());
    assert!(!case(9, Some(10), false).pass());
    assert!(case(1, None, false).pass());
}

#[test]
fn case_allowed_when_attribute_allows_and_not_strict() {
    let c = case(0, Some(3), true);
    assert!(!c.pass());
    assert!(c.allow(false));
    assert!(!c.allow(true));
    assert!(!case(0, Some(3), false).allow(false));
}

#[test]
fn report_exit_code_and_skip() {
    let report = Report::new(vec![worker(vec![case(3, Some(3), false), case(0, Some(3), true)])]);
    assert!(!report.pass());
    assert_eq!(report.exit_code(&cmd(false, false, ReportFormat::Console)), 0);
    assert_eq!(report.exit_code(&cmd(true, false, ReportFormat::Console)), 1);
    assert!(report.skip_report(&cmd(false, false, ReportFormat::NullDevice)));
    assert!(!report.skip_report(&cmd(false, false, ReportFormat::Console)));
    assert!(report.skip_report(&cmd(false, true, ReportFormat::Console)));
    assert!(worker(vec![]).skip_report(&cmd(false, false, ReportFormat::Console)));
}

#[test]
fn report_writer_indents_lines() {
    let mut w = ReportWriter::new(0, String::new());
    w.write_str("top\n");
    w.increment();
    w.write_str("a");
    w.write_str("b\n");
    w.increment();
    w.write_str("x\r\ny\n");
    w.decrement();
    w.write_str("end");
    assert_eq!(w.buffer(), "top\n  ab\n    x\n    y\n  end");
    assert_eq!(w.indent(), "  ");
}

#[test]
fn report_writer_line_without_break_at_end() {
    let mut w = ReportWriter::new(1, String::new());
    w.write_str("one\ntwo");
    assert_eq!(w.buffer(), "  one\n  two\n");
}

#[test]
fn write_at_levels_indents_each_text_by_its_level() {
    let mut w = ReportWriter::new(0, String::new());
    let texts = vec![
        (0, "head".to_string()),
        (0, "\n".to_string()),
        (2, "deep\n".to_string()),
        (1, "a".to_string()),
        (1, "b\n".to_string()),
    ];
    w.write_at_levels(&texts);
    assert_eq!(w.buffer(), "head\n    deep\n  ab\n");
}

#[test]
fn case_from_verdicts_counts_the_passes() {
    let testcase = Testcase { description: None, target: "/".to_string(), setting: setting(None), attr: Attribute { allow: false } };
    let names: Destinations<()> = Destinations::new();
    let c: Case = CaseReport::from_verdicts(
        Coalesced::tuple(testcase, setting(Some(4))),
        &vec![true, false, true, true],
        Messages::new(),
        EvaluateAggregator::new(&names, None),
    );
    assert_eq!(c.passed(), 3);
    assert!(!c.pass());
}
