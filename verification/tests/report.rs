use relentless::aggregate::EvaluateAggregator;
use relentless::command::{Relentless, ReportFormat, WorkerKind};
use relentless::config::{Attribute, Coalesced, Repeat, Setting, Testcase, WorkerConfig};
use relentless::destinations::Destinations;
use relentless::evaluate::HttpResponse;
use relentless::messages::Messages;
use relentless::report::{CaseTexts, LatencyText, Piece, ReportTexts, Style, Summary, SummaryTexts, WorkerTexts};
use relentless::aggregate::Aggregate;
use relentless::metrics::Metrics;
use relentless::reportable::{CaseReport, Report, WorkerReport};
use relentless::request::HttpRequest;
use relentless::threshold::Classification;

type Case = CaseReport<String, HttpRequest, HttpResponse>;
type Worker = WorkerReport<String, HttpRequest, HttpResponse>;

fn setting(repeat: Option<usize>) -> Setting<HttpRequest, HttpResponse> {
    Setting {
        request: HttpRequest::default(),
        template: Destinations::new(),
        repeat: Repeat(repeat),
        timeout: None,
        response: HttpResponse::default(),
    }
}

fn case(target: &str, description: Option<&str>, passed: usize, repeat: Option<usize>, allow: bool, messages: Vec<String>) -> Case {
    let testcase = Testcase {
        description: description.map(|d| d.to_string()),
        target: target.to_string(),
        setting: setting(None),
        attr: Attribute { allow },
    };
    let names: Destinations<()> = Destinations::new();
    CaseReport::new(
        Coalesced::tuple(testcase, setting(repeat)),
        passed,
        Messages::from_vec(messages),
        EvaluateAggregator::new(&names, None),
    )
}

fn cmd(report_format: ReportFormat, measure: Option<Vec<WorkerKind>>) -> Relentless {
    Relentless {
        file: vec![],
        destination: vec![],
        strict: false,
        ng_only: false,
        no_color: true,
        report_format,
        output_record: None,
        sequential: vec![],
        measure,
        rps: None,
    }
}

fn latency(micros: u64, text: &str) -> LatencyText {
    LatencyText { micros, text: text.to_string() }
}

/// The summary of the example in the README: three testcases sent to two destinations.
fn readme_summary() -> Summary {
    Summary {
        pass: 3,
        count: 3,
        pass_rate: "100.00".to_string(),
        req: 6,
        duration: "22.37ms".to_string(),
        rps: "268.23".to_string(),
        min: latency(2774, "2.774ms"),
        mean: latency(8194, "8.194ms"),
        quantiles: vec![
            ("50".to_string(), latency(5219, "5.219ms")),
            ("90".to_string(), latency(22127, "22.127ms")),
            ("99".to_string(), latency(22127, "22.127ms")),
        ],
        max: latency(22127, "22.127ms"),
    }
}

/// The summary of the README on the console, each line indented by `indent`.
fn readme_summary_text(indent: &str) -> String {
    format!(
        "{i}pass-rt: 3/3=100.00%    rps: 6req/22.37ms=268.23req/s\n{i}latency: min=2.774ms mean=8.194ms p50=5.219ms p90=22.127ms p99=22.127ms max=22.127ms\n",
        i = indent
    )
}

/// The summary of the README in markdown, each line indented by `indent`.
fn readme_markdown_text(indent: &str) -> String {
    format!(
        "{i}| | min | mean | p50 | p90 | p99 | max |\n{i}| --- | --- | --- | --- | --- | --- | --- |\n{i}| latency | 2.774ms | 8.194ms | 5.219ms | 22.127ms | 22.127ms | 22.127ms |\n\n{i}pass rate: 3/3=100.00%, rps: 6req/22.37ms=268.23req/s\n",
        i = indent
    )
}

fn texts() -> CaseTexts {
    CaseTexts { summary: readme_summary() }
}

/// The pieces written as text, each line indented two spaces a level, emoji shown.
fn text_of(pieces: &[Piece]) -> String {
    let mut out = String::new();
    let mut at_start = true;
    for p in pieces {
        for (i, line) in p.text.split('\n').enumerate() {
            if i > 0 {
                out.push('\n');
                at_start = true;
            }
            if !line.is_empty() {
                if at_start {
                    out.push_str(&"  ".repeat(p.level));
                    at_start = false;
                }
                out.push_str(line);
            }
        }
    }
    out
}

/// The pieces written with the fallback of each emoji.
fn fallback_text_of(pieces: &[Piece]) -> String {
    let replaced: Vec<Piece> = pieces
        .iter()
        .map(|p| match &p.fallback {
            Some(f) => Piece { level: p.level, style: p.style, text: f.clone(), fallback: None },
            None => p.clone(),
        })
        .collect();
    text_of(&replaced)
}

#[test]
fn console_case_pass_line() {
    let c = case("/health", Some("ok"), 3, Some(3), false, vec![]);
    let pieces = c.console_report(&cmd(ReportFormat::Console, Some(vec![])), 0, &texts());
    assert_eq!(text_of(&pieces), "✅ /health 🔁3/3 📝 ok\n");
    assert_eq!(fallback_text_of(&pieces), "PASS /health 3/3  ok\n");
    assert!(pieces.iter().any(|p| p.text == "/health" && p.style == Style::Class(Classification::Good)));
}

#[test]
fn console_case_failed_allowed_with_messages() {
    let c = case("/", None, 1, Some(2), true, vec!["first".to_string(), "second".to_string()]);
    let pieces = c.console_report(&cmd(ReportFormat::Console, Some(vec![])), 1, &texts());
    assert_eq!(
        text_of(&pieces),
        "  ❌ / 🔁1/2 \n    👀 this testcase is allowed\n    💬 message was found\n      first\n      second\n"
    );
    assert!(pieces.iter().any(|p| p.text == "/" && p.style == Style::Class(Classification::Bad)));
    assert!(pieces.iter().any(|p| p.text == "message was found" && p.style == Style::Class(Classification::Warn)));
    assert!(pieces.iter().any(|p| p.text == "first" && p.style == Style::Dim));
}

#[test]
fn console_case_many_messages_and_summary() {
    let msgs = vec!["a".to_string(), "b".to_string(), "c".to_string(), "d".to_string(), "e".to_string()];
    let c = case("/x", None, 0, None, false, msgs);
    let t = texts();
    let pieces = c.console_report(&cmd(ReportFormat::Console, Some(vec![WorkerKind::Repeats])), 0, &t);
    assert_eq!(
        text_of(&pieces),
        format!(
            "❌ /x \n  💬 message was found\n    a\n    b\n    c\n    ... and 2 more\n  💥 summery of all requests in repeats\n{}",
            readme_summary_text("    ")
        )
    );
}

#[test]
fn markdown_case_line() {
    let c = case("/api", Some("api"), 1, Some(2), true, vec!["bad".to_string()]);
    let pieces = c.github_markdown_report(&cmd(ReportFormat::GithubMarkdown, Some(vec![])), 0, &texts());
    assert_eq!(
        text_of(&pieces),
        "- :x: `/api` :repeat:1/2 :memo: api\n  :eyes: this testcase is allowed\n  <details>\n    <summary> :speech_balloon: message was found </summary>\n\n    ```\n    bad\n    ```\n  </details>\n"
    );
}

fn worker(name: Option<&str>, base: Vec<(&str, &str)>, over: Vec<(&str, &str)>, cases: Vec<Case>) -> Worker {
    let mut d = Destinations::new();
    for (n, u) in base {
        d.insert(n.to_string(), u.to_string());
    }
    let mut o = Destinations::new();
    for (n, u) in over {
        o.insert(n.to_string(), u.to_string());
    }
    let config = WorkerConfig { name: name.map(|n| n.to_string()), destinations: d, setting: setting(None) };
    WorkerReport::new(Coalesced::tuple(config, o), cases)
}

#[test]
fn console_worker_destinations_and_cases() {
    let w = worker(
        Some("example"),
        vec![("api", "http://a/"), ("web", "http://w/")],
        vec![("api", "http://b/")],
        vec![case("/", None, 1, None, false, vec![])],
    );
    let t = WorkerTexts { cases: vec![texts()], summary: readme_summary() };
    let pieces = w.console_report(&cmd(ReportFormat::Console, Some(vec![WorkerKind::Testcases])), 0, &t);
    assert_eq!(
        text_of(&pieces),
        format!(
            "🚀 example 🚀\n  api🌐 http://a/ 👉 http://b/\n  web🌐 http://w/\n  ✅ / \n  💥 summery of all requests in testcases\n{}",
            readme_summary_text("    ")
        )
    );
    assert_eq!(
        fallback_text_of(&pieces),
        format!(
            " example \n  api: http://a/ -> http://b/\n  web: http://w/\n  PASS / \n   summery of all requests in testcases\n{}",
            readme_summary_text("    ")
        )
    );
}

#[test]
fn markdown_worker_without_name() {
    let w = worker(None, vec![("api", "http://a/")], vec![], vec![case("/", None, 1, None, false, vec![])]);
    let t = WorkerTexts { cases: vec![texts()], summary: readme_summary() };
    let pieces = w.github_markdown_report(&cmd(ReportFormat::GithubMarkdown, Some(vec![])), 0, &t);
    assert_eq!(
        text_of(&pieces),
        "## :rocket: testcases :rocket:\napi :globe_with_meridians: http://a/\n- :white_check_mark: `/` \n"
    );
}

#[test]
fn report_console_skips_blank_workers_and_summarizes() {
    let r = Report::new(vec![
        worker(Some("one"), vec![], vec![], vec![case("/", None, 1, None, false, vec![])]),
        worker(Some("empty"), vec![], vec![], vec![]),
    ]);
    let t = ReportTexts {
        workers: vec![
            WorkerTexts { cases: vec![texts()], summary: readme_summary() },
            WorkerTexts { cases: vec![], summary: readme_summary() },
        ],
        summary: readme_summary(),
    };
    let pieces = r.console_report(&cmd(ReportFormat::Console, None), 0, &t);
    assert_eq!(
        text_of(&pieces),
        format!("🚀 one 🚀\n  ✅ / \n\n💥 summery of all requests in configs 💥\n{}", readme_summary_text("  "))
    );
    let md = r.github_markdown_report(&cmd(ReportFormat::GithubMarkdown, None), 0, &t);
    assert_eq!(
        text_of(&md),
        format!(
            "## :rocket: one :rocket:\n- :white_check_mark: `/` \n\n## :boom: summery of all requests in configs :boom:\n{}",
            readme_markdown_text("  ")
        )
    );
}

#[test]
fn readme_console_report() {
    let cases = vec![
        case("/", None, 1, None, false, vec![]),
        case("/health", None, 1, None, false, vec![]),
        case("/healthz", None, 1, None, false, vec![]),
    ];
    let w = worker(
        Some("basic comparison test"),
        vec![("actual", "http://localhost:3000/"), ("expect", "http://localhost:3000/")],
        vec![],
        cases,
    );
    let r = Report::new(vec![w]);
    let t = ReportTexts {
        workers: vec![WorkerTexts { cases: vec![texts(), texts(), texts()], summary: readme_summary() }],
        summary: readme_summary(),
    };
    let pieces = r.console_report(&cmd(ReportFormat::Console, None), 0, &t);
    assert_eq!(
        text_of(&pieces),
        format!(
            "🚀 basic comparison test 🚀\n  actual🌐 http://localhost:3000/\n  expect🌐 http://localhost:3000/\n  ✅ / \n  ✅ /health \n  ✅ /healthz \n\n💥 summery of all requests in configs 💥\n{}",
            readme_summary_text("  ")
        )
    );
}

#[test]
fn summary_styles_follow_grades() {
    let mut s = readme_summary();
    s.pass = 2;
    s.count = 3;
    s.max = latency(3_500_000, "3.500s");
    let c = case("/", None, 1, None, false, vec![]);
    let t = CaseTexts { summary: s };
    let pieces = c.console_report(&cmd(ReportFormat::Console, Some(vec![WorkerKind::Repeats])), 0, &t);
    assert!(pieces.iter().any(|p| p.text == "100.00" && p.style == Style::Class(Classification::Warn)));
    assert!(pieces.iter().any(|p| p.text == "268.23" && p.style == Style::Class(Classification::Good)));
    assert!(pieces.iter().any(|p| p.text == "3.500s" && p.style == Style::Class(Classification::Bad)));
    assert!(pieces.iter().any(|p| p.text == "2.774ms" && p.style == Style::Class(Classification::Good)));
}

#[test]
fn summary_numbers_come_from_the_aggregator() {
    let names: Destinations<()> = Destinations::new();
    let mut agg = EvaluateAggregator::new(&names, Some(0));
    for (pass, micros) in [(true, 2_000u64), (false, 1_500), (true, 900)] {
        let mut d: Destinations<Option<Metrics>> = Destinations::new();
        d.insert("actual".to_string(), Some(Metrics { bytes: 0, timestamp: 1_000, duration: (0, micros * 1_000) }));
        agg.add(&(pass, d));
    }
    assert!(agg.can_aggregate());
    let texts = SummaryTexts {
        pass_rate: "66.67".to_string(),
        duration: "1.00µs".to_string(),
        rps: "3.00".to_string(),
        min: "900µs".to_string(),
        mean: "1.466ms".to_string(),
        quantiles: vec![],
        max: "2ms".to_string(),
    };
    let s = Summary::of_aggregator(&agg, texts);
    assert_eq!((s.pass, s.count, s.req), (2, 3, 3));
    assert_eq!((s.min.micros, s.max.micros), (900, 2_000));
    assert_eq!(s.mean.micros, 1_466);
    assert_eq!(s.pass_rate, "66.67");
}
