//! What the reports say, line by line: the console report and the GitHub markdown report
//! as pieces of text, each at its indentation level and with its style.
use vstd::prelude::*;
use crate::command::{Relentless, WorkerKind};
use crate::config::{Coalesce, Repeat, overridden_all, destination_views};
use crate::destinations::{Destinations, lookup};
use crate::reportable::{CaseReport, Report, Reportable, WorkerReport};
use crate::text::{decimal, owned, u64_to_string};
use crate::messages::{MessageText, texts_of};
use crate::aggregate::{PassAggregate, Aggregate, EvaluateAggregator, total_responses, all_latencies, summed_latencies};
use crate::threshold::{Classification, Classify, Micros, latency_class, pass_class};

verus! {

/// How a piece of text is shown on the console.
#[derive(Debug, Clone, Copy, PartialEq, Eq, Structural)]
pub enum Style {
    Plain,
    /// In the color of a grade.
    Class(Classification),
    Bold,
    Dim,
}

/// A piece of text of a report: written at an indentation level, in a style; an emoji
/// carries the text shown where emoji cannot be.
#[derive(Debug, Clone)]
pub struct Piece {
    pub level: usize,
    pub style: Style,
    pub text: String,
    pub fallback: Option<String>,
}

/// A piece of text as a value: level, style, text, and the fallback of an emoji.
pub type PieceView = (nat, Style, Seq<char>, Option<Seq<char>>);

/// The views of pieces.
pub open spec fn pieces_view(v: Seq<Piece>) -> Seq<PieceView> {
    v.map_values(|p: Piece| (p.level as nat, p.style, p.text@, match p.fallback {
        Some(f) => Some(f@),
        None => None,
    }))
}

/// Plain text at `level`.
pub open spec fn plain(level: nat, text: Seq<char>) -> PieceView {
    (level, Style::Plain, text, None)
}

/// Styled text at `level`.
pub open spec fn styled(level: nat, style: Style, text: Seq<char>) -> PieceView {
    (level, style, text, None)
}

/// An emoji at `level`, with the text shown in its place where emoji cannot be.
pub open spec fn emoji(level: nat, e: Seq<char>, fallback: Seq<char>) -> PieceView {
    (level, Style::Plain, e, Some(fallback))
}

/// A latency: how long it was, in microseconds, and how it is written.
#[derive(Debug, Clone)]
pub struct LatencyText {
    pub micros: u64,
    pub text: String,
}

/// What the summary of measured requests says: how many passed out of how many, how many
/// requests over how long, and their latencies. The rates and durations come written as
/// text; the library lays them out and grades them.
#[derive(Debug, Clone)]
pub struct Summary {
    pub pass: u64,
    pub count: u64,
    /// The pass rate in percent.
    pub pass_rate: String,
    pub req: u64,
    pub duration: String,
    /// Requests per second.
    pub rps: String,
    pub min: LatencyText,
    pub mean: LatencyText,
    /// Each percentile, as it is named, with the latency at it.
    pub quantiles: Vec<(String, LatencyText)>,
    pub max: LatencyText,
}

/// What the summary says that the library does not write: the pass rate, the duration and
/// the requests per second (they are floating point), the least, mean and greatest latency
/// as written, and the latency at each percentile.
#[derive(Debug, Clone)]
pub struct SummaryTexts {
    pub pass_rate: String,
    pub duration: String,
    pub rps: String,
    pub min: String,
    pub mean: String,
    pub quantiles: Vec<(String, LatencyText)>,
    pub max: String,
}

impl Summary {
    /// The summary of what `agg` gathered: how many verdicts passed out of how many, how
    /// many requests, and the least, mean and greatest latency come from it; the rest is
    /// `texts`.
    pub fn of_aggregator(agg: &EvaluateAggregator, texts: SummaryTexts) -> (res: Summary)
        requires
            agg.aggregatable(),
        ensures
            res.pass == agg.pass_view().0,
            res.count == agg.pass_view().1,
            res.req == total_responses(agg.destinations_view()),
            summed_latencies(all_latencies(agg.destinations_view()), res.min.micros, res.mean.micros, res.max.micros),
            res.pass_rate == texts.pass_rate,
            res.duration == texts.duration,
            res.rps == texts.rps,
            res.min.text == texts.min,
            res.mean.text == texts.mean,
            res.quantiles == texts.quantiles,
            res.max.text == texts.max,
    {
        let e = agg.aggregate(&());
        Summary {
            pass: e.pass.pass,
            count: e.pass.count,
            pass_rate: texts.pass_rate,
            req: e.response.req,
            duration: texts.duration,
            rps: texts.rps,
            min: LatencyText { micros: e.response.latency.min, text: texts.min },
            mean: LatencyText { micros: e.response.latency.mean, text: texts.mean },
            quantiles: texts.quantiles,
            max: LatencyText { micros: e.response.latency.max, text: texts.max },
        }
    }
}

/// The texts a report needs that the library does not make: the summaries of the measured
/// metrics.
#[derive(Debug, Clone)]
pub struct CaseTexts {
    pub summary: Summary,
}

#[derive(Debug, Clone)]
pub struct WorkerTexts {
    pub cases: Vec<CaseTexts>,
    pub summary: Summary,
}

#[derive(Debug, Clone)]
pub struct ReportTexts {
    pub workers: Vec<WorkerTexts>,
    pub summary: Summary,
}

/// A latency in the color of its grade.
pub open spec fn latency_piece(level: nat, l: LatencyText) -> PieceView {
    styled(level, Style::Class(latency_class(l.micros)), l.text@)
}

/// The latency at each percentile on the console: `p`, the percentile, `=`, the latency.
pub open spec fn console_quantiles(level: nat, q: Seq<(String, LatencyText)>) -> Seq<PieceView>
    decreases q.len(),
{
    if q.len() == 0 {
        Seq::empty()
    } else {
        console_quantiles(level, q.drop_last()) + seq![
            plain(level, "p"@),
            plain(level, q.last().0@),
            plain(level, "="@),
            latency_piece(level, q.last().1),
            plain(level, " "@),
        ]
    }
}

/// The summary on the console: the pass rate in the color of its grade, the requests per
/// second, then each latency in the color of its grade.
pub open spec fn console_summary(level: nat, s: Summary) -> Seq<PieceView> {
    let pc = Style::Class(pass_class(s.pass as nat, s.count as nat));
    let good = Style::Class(Classification::Good);
    seq![
        plain(level, "pass-rt: "@),
        plain(level, decimal(s.pass as nat)),
        plain(level, "/"@),
        plain(level, decimal(s.count as nat)),
        plain(level, "="@),
        styled(level, pc, s.pass_rate@),
        styled(level, pc, "%"@),
        plain(level, "    "@),
        plain(level, "rps: "@),
        plain(level, decimal(s.req as nat)),
        plain(level, "req/"@),
        plain(level, s.duration@),
        plain(level, "="@),
        styled(level, good, s.rps@),
        styled(level, good, "req/s"@),
        plain(level, "\n"@),
        plain(level, "latency: min="@),
        latency_piece(level, s.min),
        plain(level, " mean="@),
        latency_piece(level, s.mean),
        plain(level, " "@),
    ] + console_quantiles(level, s.quantiles@) + seq![
        plain(level, "max="@),
        latency_piece(level, s.max),
        plain(level, "\n"@),
    ]
}

/// The heads of the percentile columns of the markdown table.
pub open spec fn markdown_quantile_heads(level: nat, q: Seq<(String, LatencyText)>) -> Seq<PieceView>
    decreases q.len(),
{
    if q.len() == 0 {
        Seq::empty()
    } else {
        markdown_quantile_heads(level, q.drop_last()) + seq![plain(level, " p"@), plain(level, q.last().0@), plain(level, " |"@)]
    }
}

/// A separator for each percentile column of the markdown table.
pub open spec fn markdown_quantile_rules(level: nat, n: nat) -> Seq<PieceView>
    decreases n,
{
    if n == 0 { Seq::empty() } else { markdown_quantile_rules(level, (n - 1) as nat) + seq![plain(level, " --- |"@)] }
}

/// The latency at each percentile, in the cells of the markdown table.
pub open spec fn markdown_quantile_cells(level: nat, q: Seq<(String, LatencyText)>) -> Seq<PieceView>
    decreases q.len(),
{
    if q.len() == 0 {
        Seq::empty()
    } else {
        markdown_quantile_cells(level, q.drop_last()) + seq![plain(level, " "@), plain(level, q.last().1.text@), plain(level, " |"@)]
    }
}

/// The head line of the markdown table of latencies.
pub open spec fn markdown_table_head(level: nat, q: Seq<(String, LatencyText)>) -> Seq<PieceView> {
    seq![plain(level, "| | min | mean |"@)] + markdown_quantile_heads(level, q) + seq![plain(level, " max |\n"@)]
}

/// The separator line of the markdown table of latencies.
pub open spec fn markdown_table_rule(level: nat, n: nat) -> Seq<PieceView> {
    seq![plain(level, "| --- | --- | --- |"@)] + markdown_quantile_rules(level, n) + seq![plain(level, " --- |\n"@)]
}

/// The line of latencies of the markdown table.
pub open spec fn markdown_table_cells(level: nat, s: Summary) -> Seq<PieceView> {
    seq![
        plain(level, "| latency | "@),
        plain(level, s.min.text@),
        plain(level, " | "@),
        plain(level, s.mean.text@),
        plain(level, " |"@),
    ] + markdown_quantile_cells(level, s.quantiles@) + seq![
        plain(level, " "@),
        plain(level, s.max.text@),
        plain(level, " |\n"@),
    ]
}

/// An empty line, then the pass rate and the requests per second in markdown.
pub open spec fn markdown_rates(level: nat, s: Summary) -> Seq<PieceView> {
    seq![
        plain(level, "\n"@),
        plain(level, "pass rate: "@),
        plain(level, decimal(s.pass as nat)),
        plain(level, "/"@),
        plain(level, decimal(s.count as nat)),
        plain(level, "="@),
        plain(level, s.pass_rate@),
        plain(level, "%, "@),
        plain(level, "rps: "@),
        plain(level, decimal(s.req as nat)),
        plain(level, "req/"@),
        plain(level, s.duration@),
        plain(level, "="@),
        plain(level, s.rps@),
        plain(level, "req/s\n"@),
    ]
}

/// The summary in markdown: a table of the latencies, an empty line, then the pass rate and
/// the requests per second.
pub open spec fn markdown_summary(level: nat, s: Summary) -> Seq<PieceView> {
    markdown_table_head(level, s.quantiles@) + markdown_table_rule(level, s.quantiles@.len())
        + markdown_table_cells(level, s) + markdown_rates(level, s)
}

/// Appends a latency in the color of its grade.
fn put_latency(v: &mut Vec<Piece>, level: usize, l: &LatencyText)
    ensures
        pieces_view(final(v)@) == pieces_view(old(v)@).push(latency_piece(level as nat, *l)),
{
    let class = Micros(l.micros).classify();
    put(v, level, Style::Class(class), l.text.clone());
}

/// Appends the summary on the console.
fn put_console_summary(v: &mut Vec<Piece>, level: usize, s: &Summary)
    ensures
        pieces_view(final(v)@) == pieces_view(old(v)@) + console_summary(level as nat, *s),
{
    let ghost pre = pieces_view(v@);
    let pc = Style::Class(PassAggregate { pass: s.pass, count: s.count }.classify());
    let good = Style::Class(Classification::Good);
    put_str(v, level, "pass-rt: ");
    put(v, level, Style::Plain, u64_to_string(s.pass));
    put_str(v, level, "/");
    put(v, level, Style::Plain, u64_to_string(s.count));
    put_str(v, level, "=");
    put(v, level, pc, s.pass_rate.clone());
    put(v, level, pc, owned("%"));
    put_str(v, level, "    ");
    put_str(v, level, "rps: ");
    put(v, level, Style::Plain, u64_to_string(s.req));
    put_str(v, level, "req/");
    put(v, level, Style::Plain, s.duration.clone());
    put_str(v, level, "=");
    put(v, level, good, s.rps.clone());
    put(v, level, good, owned("req/s"));
    put_str(v, level, "\n");
    put_str(v, level, "latency: min=");
    put_latency(v, level, &s.min);
    put_str(v, level, " mean=");
    put_latency(v, level, &s.mean);
    put_str(v, level, " ");
    let ghost head = pieces_view(v@);
    let n = s.quantiles.len();
    let mut i: usize = 0;
    while i < n
        invariant
            n == s.quantiles@.len(),
            i <= n,
            pieces_view(v@) == head + console_quantiles(level as nat, s.quantiles@.take(i as int)),
        decreases n - i,
    {
        let (label, l) = &s.quantiles[i];
        put_str(v, level, "p");
        put(v, level, Style::Plain, label.clone());
        put_str(v, level, "=");
        put_latency(v, level, l);
        put_str(v, level, " ");
        proof {
            let t = s.quantiles@.take(i + 1);
            assert(t.drop_last() =~= s.quantiles@.take(i as int));
            assert(t.last() == s.quantiles@[i as int]);
            assert(pieces_view(v@) =~= head + console_quantiles(level as nat, t));
        }
        i = i + 1;
    }
    proof { assert(s.quantiles@.take(n as int) =~= s.quantiles@); }
    put_str(v, level, "max=");
    put_latency(v, level, &s.max);
    put_str(v, level, "\n");
    proof {
        assert(pieces_view(v@) =~= pre + console_summary(level as nat, *s));
    }
}

/// Appends the head line of the markdown table.
fn put_markdown_table_head(v: &mut Vec<Piece>, level: usize, q: &Vec<(String, LatencyText)>)
    ensures
        pieces_view(final(v)@) == pieces_view(old(v)@) + markdown_table_head(level as nat, q@),
{
    let ghost pre = pieces_view(v@);
    let n = q.len();
    put_str(v, level, "| | min | mean |");
    let ghost h0 = pieces_view(v@);
    let mut i: usize = 0;
    while i < n
        invariant
            n == q@.len(),
            i <= n,
            pieces_view(v@) == h0 + markdown_quantile_heads(level as nat, q@.take(i as int)),
        decreases n - i,
    {
        put_str(v, level, " p");
        put(v, level, Style::Plain, q[i].0.clone());
        put_str(v, level, " |");
        proof {
            let t = q@.take(i + 1);
            assert(t.drop_last() =~= q@.take(i as int));
            assert(t.last() == q@[i as int]);
            assert(pieces_view(v@) =~= h0 + markdown_quantile_heads(level as nat, t));
        }
        i = i + 1;
    }
    proof { assert(q@.take(n as int) =~= q@); }
    put_str(v, level, " max |\n");
    proof { assert(pieces_view(v@) =~= pre + markdown_table_head(level as nat, q@)); }
}

/// Appends the separator line of the markdown table.
fn put_markdown_table_rule(v: &mut Vec<Piece>, level: usize, n: usize)
    ensures
        pieces_view(final(v)@) == pieces_view(old(v)@) + markdown_table_rule(level as nat, n as nat),
{
    let ghost pre = pieces_view(v@);
    put_str(v, level, "| --- | --- | --- |");
    let ghost h1 = pieces_view(v@);
    let mut i: usize = 0;
    while i < n
        invariant
            i <= n,
            pieces_view(v@) == h1 + markdown_quantile_rules(level as nat, i as nat),
        decreases n - i,
    {
        put_str(v, level, " --- |");
        proof {
            assert(pieces_view(v@) =~= h1 + markdown_quantile_rules(level as nat, (i + 1) as nat));
        }
        i = i + 1;
    }
    put_str(v, level, " --- |\n");
    proof { assert(pieces_view(v@) =~= pre + markdown_table_rule(level as nat, n as nat)); }
}

/// Appends the line of latencies of the markdown table.
fn put_markdown_table_cells(v: &mut Vec<Piece>, level: usize, s: &Summary)
    ensures
        pieces_view(final(v)@) == pieces_view(old(v)@) + markdown_table_cells(level as nat, *s),
{
    let ghost pre = pieces_view(v@);
    let n = s.quantiles.len();
    put_str(v, level, "| latency | ");
    put(v, level, Style::Plain, s.min.text.clone());
    put_str(v, level, " | ");
    put(v, level, Style::Plain, s.mean.text.clone());
    put_str(v, level, " |");
    let ghost h2 = pieces_view(v@);
    let mut i: usize = 0;
    while i < n
        invariant
            n == s.quantiles@.len(),
            i <= n,
            pieces_view(v@) == h2 + markdown_quantile_cells(level as nat, s.quantiles@.take(i as int)),
        decreases n - i,
    {
        put_str(v, level, " ");
        put(v, level, Style::Plain, s.quantiles[i].1.text.clone());
        put_str(v, level, " |");
        proof {
            let t = s.quantiles@.take(i + 1);
            assert(t.drop_last() =~= s.quantiles@.take(i as int));
            assert(t.last() == s.quantiles@[i as int]);
            assert(pieces_view(v@) =~= h2 + markdown_quantile_cells(level as nat, t));
        }
        i = i + 1;
    }
    proof { assert(s.quantiles@.take(n as int) =~= s.quantiles@); }
    put_str(v, level, " ");
    put(v, level, Style::Plain, s.max.text.clone());
    put_str(v, level, " |\n");
    proof { assert(pieces_view(v@) =~= pre + markdown_table_cells(level as nat, *s)); }
}

/// Appends an empty line, then the pass rate and the requests per second.
fn put_markdown_rates(v: &mut Vec<Piece>, level: usize, s: &Summary)
    ensures
        pieces_view(final(v)@) == pieces_view(old(v)@) + markdown_rates(level as nat, *s),
{
    let ghost pre = pieces_view(v@);
    put_str(v, level, "\n");
    put_str(v, level, "pass rate: ");
    put(v, level, Style::Plain, u64_to_string(s.pass));
    put_str(v, level, "/");
    put(v, level, Style::Plain, u64_to_string(s.count));
    put_str(v, level, "=");
    put(v, level, Style::Plain, s.pass_rate.clone());
    put_str(v, level, "%, ");
    put_str(v, level, "rps: ");
    put(v, level, Style::Plain, u64_to_string(s.req));
    put_str(v, level, "req/");
    put(v, level, Style::Plain, s.duration.clone());
    put_str(v, level, "=");
    put(v, level, Style::Plain, s.rps.clone());
    put_str(v, level, "req/s\n");
    proof { assert(pieces_view(v@) =~= pre + markdown_rates(level as nat, *s)); }
}

/// Appends the summary in markdown.
fn put_markdown_summary(v: &mut Vec<Piece>, level: usize, s: &Summary)
    ensures
        pieces_view(final(v)@) == pieces_view(old(v)@) + markdown_summary(level as nat, *s),
{
    let ghost pre = pieces_view(v@);
    put_markdown_table_head(v, level, &s.quantiles);
    put_markdown_table_rule(v, level, s.quantiles.len());
    put_markdown_table_cells(v, level, s);
    put_markdown_rates(v, level, s);
    proof {
        let a = markdown_table_head(level as nat, s.quantiles@);
        let b = markdown_table_rule(level as nat, s.quantiles@.len());
        let c = markdown_table_cells(level as nat, *s);
        let d = markdown_rates(level as nat, *s);
        assert(pieces_view(v@) =~= pre + (a + b + c + d));
    }
}

/// The first `n` of the message texts, separated by line breaks.
pub open spec fn shown_messages(level: nat, style: Style, msgs: Seq<Seq<char>>, n: nat) -> Seq<PieceView>
    decreases n,
{
    if n == 0 {
        Seq::empty()
    } else {
        shown_messages(level, style, msgs, (n - 1) as nat)
            + (if n > 1 { seq![styled(level, style, "\n"@)] } else { Seq::empty() })
            + seq![styled(level, style, msgs[n - 1])]
    }
}

/// The messages as their list shows them: the first three, then how many more there are.
pub open spec fn messages_pieces(level: nat, style: Style, msgs: Seq<Seq<char>>) -> Seq<PieceView> {
    let n = if msgs.len() < 3 { msgs.len() } else { 3 };
    shown_messages(level, style, msgs, n) + (if msgs.len() > 3 {
        seq![
            styled(level, style, "\n"@),
            styled(level, style, "... and "@),
            styled(level, style, decimal((msgs.len() - 3) as nat)),
            styled(level, style, " more"@),
        ]
    } else {
        Seq::empty()
    })
}

/// The views of strings.
pub open spec fn string_views(v: Seq<String>) -> Seq<Seq<char>> {
    v.map_values(|s: String| s@)
}

/// Appends `text` at `level` in `style`.
fn put(v: &mut Vec<Piece>, level: usize, style: Style, text: String)
    ensures
        pieces_view(final(v)@) == pieces_view(old(v)@).push(styled(level as nat, style, text@)),
{
    let ghost pre = v@;
    v.push(Piece { level, style, text, fallback: None });
    proof { assert(pieces_view(v@) =~= pieces_view(pre).push(styled(level as nat, style, text@))); }
}

/// Appends plain `text` at `level`.
fn put_str(v: &mut Vec<Piece>, level: usize, text: &str)
    ensures
        pieces_view(final(v)@) == pieces_view(old(v)@).push(plain(level as nat, text@)),
{
    put(v, level, Style::Plain, owned(text));
}

/// Appends an emoji at `level`.
fn put_emoji(v: &mut Vec<Piece>, level: usize, e: &str, fallback: &str)
    ensures
        pieces_view(final(v)@) == pieces_view(old(v)@).push(emoji(level as nat, e@, fallback@)),
{
    let ghost pre = v@;
    v.push(Piece { level, style: Style::Plain, text: owned(e), fallback: Some(owned(fallback)) });
    proof { assert(pieces_view(v@) =~= pieces_view(pre).push(emoji(level as nat, e@, fallback@))); }
}

/// Appends the pieces of the messages at `level`, in `style`.
fn put_messages(v: &mut Vec<Piece>, level: usize, style: Style, msgs: &Vec<String>)
    ensures
        pieces_view(final(v)@) == pieces_view(old(v)@) + messages_pieces(level as nat, style, string_views(msgs@)),
{
    let ghost pre = pieces_view(v@);
    let ghost ms = string_views(msgs@);
    let m = msgs.len();
    let n = if m < 3 { m } else { 3 };
    let mut i: usize = 0;
    proof { reveal_strlit("\n"); }
    while i < n
        invariant
            n <= m == msgs@.len(),
            n == (if m < 3 { m } else { 3 }),
            ms == string_views(msgs@),
            i <= n,
            pieces_view(v@) == pre + shown_messages(level as nat, style, ms, i as nat),
        decreases n - i,
    {
        if i > 0 {
            put(v, level, style, owned("\n"));
        }
        put(v, level, style, msgs[i].clone());
        proof {
            reveal_strlit("\n");
            assert(pieces_view(v@) =~= pre + shown_messages(level as nat, style, ms, (i + 1) as nat));
        }
        i = i + 1;
    }
    if m > 3 {
        let more = u64_to_string((m - 3) as u64);
        put(v, level, style, owned("\n"));
        put(v, level, style, owned("... and "));
        put(v, level, style, more);
        put(v, level, style, owned(" more"));
        proof {
            reveal_strlit("\n");
            reveal_strlit("... and ");
            reveal_strlit(" more");
        }
    }
    proof {
        assert(pieces_view(v@) =~= pre + messages_pieces(level as nat, style, ms));
    }
}

/// The view of an optional string.
pub open spec fn opt_view(o: Option<String>) -> Option<Seq<char>> {
    match o {
        Some(s) => Some(s@),
        None => None,
    }
}

/// The number of repeats a testcase has when it is given.
pub open spec fn given_repeat(r: Repeat) -> Option<nat> {
    match r.0 {
        Some(n) => Some(n as nat),
        None => None,
    }
}

/// The head of the line of a testcase in markdown: pass or fail, and the target.
pub open spec fn md_head(level: nat, pass: bool, target: Seq<char>) -> Seq<PieceView> {
    seq![
        plain(level, "- "@),
        plain(level, (if pass { ":white_check_mark:"@ } else { ":x:"@ })),
        plain(level, " `"@),
        plain(level, target),
        plain(level, "` "@),
    ]
}

/// How many repeats passed, out of how many, when the number of repeats is given.
pub open spec fn md_repeat(level: nat, passed: nat, repeat: Option<nat>) -> Seq<PieceView> {
    match repeat {
        Some(r) => seq![
            plain(level, ":repeat:"@),
            plain(level, decimal(passed)),
            plain(level, "/"@),
            plain(level, decimal(r)),
            plain(level, " "@),
        ],
        None => Seq::empty(),
    }
}

/// The description that ends the line, if any.
pub open spec fn md_description(level: nat, description: Option<Seq<char>>) -> Seq<PieceView> {
    match description {
        Some(d) => seq![plain(level, ":memo:"@), plain(level, " "@), plain(level, d), plain(level, "\n"@)],
        None => seq![plain(level, "\n"@)],
    }
}

/// The note that a failed testcase is allowed.
pub open spec fn md_allowed(level: nat, shown: bool) -> Seq<PieceView> {
    if shown {
        seq![plain(level + 1, ":eyes:"@), plain(level + 1, " this testcase is allowed\n"@)]
    } else {
        Seq::empty()
    }
}

/// The messages, folded in a details block.
pub open spec fn md_messages(level: nat, shown: bool, msgs: Seq<Seq<char>>) -> Seq<PieceView> {
    if shown {
        seq![
            plain(level + 1, "<details>\n"@),
            plain(level + 2, "<summary> "@),
            plain(level + 2, ":speech_balloon:"@),
            plain(level + 2, " message was found </summary>\n"@),
            plain(level + 2, "\n"@),
            plain(level + 2, "```\n"@),
        ] + messages_pieces(level + 2, Style::Plain, msgs) + seq![
            plain(level + 2, "\n"@),
            plain(level + 2, "```\n"@),
            plain(level + 1, "</details>\n"@),
        ]
    } else {
        Seq::empty()
    }
}

/// The summary of the metrics, when they are measured at this level.
pub open spec fn md_summary(level: nat, shown: bool, summary: Summary) -> Seq<PieceView> {
    if shown { markdown_summary(level + 1, summary) } else { Seq::empty() }
}

impl<T: MessageText, Q: Coalesce, P: Coalesce> CaseReport<T, Q, P> {
    /// The line of the testcase in markdown, and what follows it one level deeper.
    pub open spec fn markdown_pieces(&self, cmd: Relentless, level: nat, texts: CaseTexts) -> Seq<PieceView> {
        let t = self.testcase_view().base_view();
        md_head(level, self.passes(), t.target@)
            + md_repeat(level, self.passed_view(), given_repeat(self.testcase_view().repeat_view()))
            + md_description(level, opt_view(t.description))
            + md_allowed(level, !self.passes() && self.allows(cmd.strict))
            + md_messages(level, self.messages_view()@.len() > 0, texts_of(self.messages_view()@))
            + md_summary(level, cmd_measures(cmd, WorkerKind::Repeats), texts.summary)
    }

    /// The testcase in the GitHub markdown report, at `level`.
    pub fn github_markdown_report(&self, cmd: &Relentless, level: usize, texts: &CaseTexts) -> (res: Vec<Piece>)
        requires
            level + 2 <= usize::MAX,
        ensures
            pieces_view(res@) == self.markdown_pieces(*cmd, level as nat, *texts),
    {
        let mut v: Vec<Piece> = Vec::new();
        let t = self.testcase().base();
        let pass = self.pass();
        put_md_head(&mut v, level, pass, &t.target);
        put_md_repeat(&mut v, level, self.passed(), self.testcase().repeat());
        put_md_description(&mut v, level, &t.description);
        let allowed = !pass && self.allow(cmd.strict);
        put_md_allowed(&mut v, level, allowed);
        let shown = !self.messages().is_empty();
        let message_texts = self.messages().texts();
        put_md_messages(&mut v, level, shown, &message_texts);
        let measured = cmd.is_measure(WorkerKind::Repeats);
        put_md_summary(&mut v, level, measured, &texts.summary);
        proof {
            let a = md_head(level as nat, pass, t.target@);
            let b = md_repeat(level as nat, self.passed_view(), given_repeat(self.testcase_view().repeat_view()));
            let c = md_description(level as nat, opt_view(t.description));
            let d = md_allowed(level as nat, allowed);
            let e = md_messages(level as nat, shown, texts_of(self.messages_view()@));
            let f = md_summary(level as nat, measured, texts.summary);
            assert(Seq::<PieceView>::empty() + a + b + c + d + e + f =~= a + b + c + d + e + f);
        }
        v
    }
}

/// Appends the head of the line of a testcase.
fn put_md_head(v: &mut Vec<Piece>, level: usize, pass: bool, target: &String)
    ensures
        pieces_view(final(v)@) == pieces_view(old(v)@) + md_head(level as nat, pass, target@),
{
    let ghost pre = pieces_view(v@);
    put_str(v, level, "- ");
    put_str(v, level, if pass { ":white_check_mark:" } else { ":x:" });
    put_str(v, level, " `");
    put(v, level, Style::Plain, target.clone());
    put_str(v, level, "` ");
    proof {
        reveal_strlit(":white_check_mark:");
        reveal_strlit(":x:");
        assert(pieces_view(v@) =~= pre + md_head(level as nat, pass, target@));
    }
}

/// Appends how many repeats passed, when the number of repeats is given.
fn put_md_repeat(v: &mut Vec<Piece>, level: usize, passed: usize, repeat: Repeat)
    ensures
        pieces_view(final(v)@) == pieces_view(old(v)@) + md_repeat(level as nat, passed as nat, given_repeat(repeat)),
{
    let ghost pre = pieces_view(v@);
    match repeat.0 {
        Some(r) => {
            put_str(v, level, ":repeat:");
            put(v, level, Style::Plain, u64_to_string(passed as u64));
            put_str(v, level, "/");
            put(v, level, Style::Plain, u64_to_string(r as u64));
            put_str(v, level, " ");
        },
        None => {},
    }
    proof { assert(pieces_view(v@) =~= pre + md_repeat(level as nat, passed as nat, given_repeat(repeat))); }
}

/// Appends the description, if any, and the end of the line.
fn put_md_description(v: &mut Vec<Piece>, level: usize, description: &Option<String>)
    ensures
        pieces_view(final(v)@) == pieces_view(old(v)@) + md_description(level as nat, opt_view(*description)),
{
    let ghost pre = pieces_view(v@);
    match description {
        Some(d) => {
            put_str(v, level, ":memo:");
            put_str(v, level, " ");
            put(v, level, Style::Plain, d.clone());
            put_str(v, level, "\n");
        },
        None => {
            put_str(v, level, "\n");
        },
    }
    proof { assert(pieces_view(v@) =~= pre + md_description(level as nat, opt_view(*description))); }
}

/// Appends the note that the testcase is allowed, when it is shown.
fn put_md_allowed(v: &mut Vec<Piece>, level: usize, shown: bool)
    requires
        level + 1 <= usize::MAX,
    ensures
        pieces_view(final(v)@) == pieces_view(old(v)@) + md_allowed(level as nat, shown),
{
    let ghost pre = pieces_view(v@);
    if shown {
        put_str(v, level + 1, ":eyes:");
        put_str(v, level + 1, " this testcase is allowed\n");
    }
    proof { assert(pieces_view(v@) =~= pre + md_allowed(level as nat, shown)); }
}

/// Appends the messages in a details block, when they are shown.
fn put_md_messages(v: &mut Vec<Piece>, level: usize, shown: bool, msgs: &Vec<String>)
    requires
        level + 2 <= usize::MAX,
    ensures
        pieces_view(final(v)@) == pieces_view(old(v)@) + md_messages(level as nat, shown, string_views(msgs@)),
{
    let ghost pre = pieces_view(v@);
    if shown {
        put_str(v, level + 1, "<details>\n");
        put_str(v, level + 2, "<summary> ");
        put_str(v, level + 2, ":speech_balloon:");
        put_str(v, level + 2, " message was found </summary>\n");
        put_str(v, level + 2, "\n");
        put_str(v, level + 2, "```\n");
        let ghost mid = pieces_view(v@);
        put_messages(v, level + 2, Style::Plain, msgs);
        let ghost after = pieces_view(v@);
        put_str(v, level + 2, "\n");
        put_str(v, level + 2, "```\n");
        put_str(v, level + 1, "</details>\n");
        proof {
            let lv = level as nat;
            let open = seq![
                plain(lv + 1, "<details>\n"@),
                plain(lv + 2, "<summary> "@),
                plain(lv + 2, ":speech_balloon:"@),
                plain(lv + 2, " message was found </summary>\n"@),
                plain(lv + 2, "\n"@),
                plain(lv + 2, "```\n"@),
            ];
            let close = seq![
                plain(lv + 2, "\n"@),
                plain(lv + 2, "```\n"@),
                plain(lv + 1, "</details>\n"@),
            ];
            assert(mid =~= pre + open);
            assert(pieces_view(v@) =~= after + close);
            assert(pieces_view(v@) =~= pre + (open + messages_pieces(lv + 2, Style::Plain, string_views(msgs@)) + close));
        }
    }
    proof { assert(pieces_view(v@) =~= pre + md_messages(level as nat, shown, string_views(msgs@))); }
}

/// Appends the summary, when it is shown.
fn put_md_summary(v: &mut Vec<Piece>, level: usize, shown: bool, summary: &Summary)
    requires
        level + 1 <= usize::MAX,
    ensures
        pieces_view(final(v)@) == pieces_view(old(v)@) + md_summary(level as nat, shown, *summary),
{
    let ghost pre = pieces_view(v@);
    if shown {
        put_markdown_summary(v, level + 1, summary);
    }
    proof { assert(pieces_view(v@) =~= pre + md_summary(level as nat, shown, *summary)); }
}

/// Whether the options report metrics at level `kind`.
pub open spec fn cmd_measures(cmd: Relentless, kind: WorkerKind) -> bool {
    match cmd.measure {
        Some(m) => m@.contains(kind),
        None => kind == WorkerKind::Configs,
    }
}

/// A report is left out of the report of what holds it.
pub open spec fn skipped<R: Reportable>(r: R, cmd: Relentless) -> bool {
    r.is_blank() || cmd.report_format == crate::command::ReportFormat::NullDevice || (cmd.ng_only && r.allows(cmd.strict))
}

/// The lines of the destinations in markdown: each name with its URI, and the URI it
/// replaces when the configuration names another.
pub open spec fn md_destinations(level: nat, d: Seq<(Seq<char>, String)>, base: Seq<(Seq<char>, String)>) -> Seq<PieceView>
    decreases d.len(),
{
    if d.len() == 0 {
        Seq::empty()
    } else {
        let (n, u) = d.last();
        md_destinations(level, d.drop_last(), base) + seq![
            plain(level, n),
            plain(level, " "@),
            plain(level, ":globe_with_meridians:"@),
            plain(level, " "@),
        ] + match lookup(base, n) {
            Some(b) if b@ != u@ => seq![
                plain(level, b@),
                plain(level, " "@),
                plain(level, ":point_right:"@),
                plain(level, " "@),
                plain(level, u@),
                plain(level, "\n"@),
            ],
            _ => seq![plain(level, u@), plain(level, "\n"@)],
        }
    }
}

/// The testcases in markdown, those left out skipped.
pub open spec fn md_cases<T: MessageText, Q: Coalesce, P: Coalesce>(
    cmd: Relentless,
    level: nat,
    cases: Seq<CaseReport<T, Q, P>>,
    texts: Seq<CaseTexts>,
) -> Seq<PieceView>
    decreases cases.len(),
{
    if cases.len() == 0 {
        Seq::empty()
    } else {
        let rest = md_cases(cmd, level, cases.drop_last(), texts);
        let i = cases.len() - 1;
        if skipped(cases[i], cmd) { rest } else { rest + cases[i].markdown_pieces(cmd, level, texts[i]) }
    }
}

/// The name of a configuration, or `testcases` when it has none.
pub open spec fn worker_name(name: Option<String>) -> Seq<char> {
    match name {
        Some(n) => n@,
        None => "testcases"@,
    }
}

/// Appends the destination lines in markdown.
fn put_md_destinations(v: &mut Vec<Piece>, level: usize, d: &Destinations<String>, base: &Destinations<String>)
    ensures
        pieces_view(final(v)@) == pieces_view(old(v)@) + md_destinations(level as nat, d@, base@),
{
    let ghost pre = pieces_view(v@);
    let n = d.len();
    let mut i: usize = 0;
    proof { assert(d@.take(0) =~= Seq::<(Seq<char>, String)>::empty()); }
    while i < n
        invariant
            n == d@.len(),
            i <= n,
            pieces_view(v@) == pre + md_destinations(level as nat, d@.take(i as int), base@),
        decreases n - i,
    {
        let name = d.name_at(i);
        let uri = d.value_at(i);
        put(v, level, Style::Plain, name.clone());
        put_str(v, level, " ");
        put_str(v, level, ":globe_with_meridians:");
        put_str(v, level, " ");
        let replaced = match base.get(name.as_str()) {
            Some(b) => !crate::text::str_eq(b.as_str(), uri.as_str()),
            None => false,
        };
        if replaced {
            let b = match base.get(name.as_str()) {
                Some(b) => b.clone(),
                None => String::new(),
            };
            put(v, level, Style::Plain, b);
            put_str(v, level, " ");
            put_str(v, level, ":point_right:");
            put_str(v, level, " ");
            put(v, level, Style::Plain, uri.clone());
            put_str(v, level, "\n");
        } else {
            put(v, level, Style::Plain, uri.clone());
            put_str(v, level, "\n");
        }
        proof {
            let t = d@.take(i + 1);
            assert(t.drop_last() =~= d@.take(i as int));
            assert(t.last() == d@[i as int]);
            assert(pieces_view(v@) =~= pre + md_destinations(level as nat, t, base@));
        }
        i = i + 1;
    }
    proof { assert(d@.take(n as int) =~= d@); }
}

impl<T: MessageText, Q: Coalesce, P: Coalesce> WorkerReport<T, Q, P> {
    /// The configuration in markdown: its name, its destinations, its testcases, and the
    /// summary when it is measured at this level.
    pub open spec fn markdown_pieces(&self, cmd: Relentless, level: nat, texts: WorkerTexts) -> Seq<PieceView> {
        let base = self.config.base_view();
        seq![
            plain(level, "## "@),
            plain(level, ":rocket:"@),
            plain(level, " "@),
            plain(level, worker_name(base.name)),
            plain(level, " "@),
            plain(level, ":rocket:"@),
            plain(level, "\n"@),
        ] + md_destinations(level, overridden_all(base.destinations@, destination_views(self.config.others_view())), base.destinations@)
            + md_cases(cmd, level, self.report@, texts.cases@)
            + md_summary(level, cmd_measures(cmd, WorkerKind::Testcases), texts.summary)
    }

    /// The configuration in the GitHub markdown report, at `level`.
    pub fn github_markdown_report(&self, cmd: &Relentless, level: usize, texts: &WorkerTexts) -> (res: Vec<Piece>)
        requires
            level + 2 <= usize::MAX,
            texts.cases@.len() == self.report@.len(),
        ensures
            pieces_view(res@) == self.markdown_pieces(*cmd, level as nat, *texts),
    {
        let mut v: Vec<Piece> = Vec::new();
        let base = self.config.base();
        put_str(&mut v, level, "## ");
        put_str(&mut v, level, ":rocket:");
        put_str(&mut v, level, " ");
        let name = match &base.name {
            Some(n) => n.clone(),
            None => owned("testcases"),
        };
        put(&mut v, level, Style::Plain, name);
        put_str(&mut v, level, " ");
        put_str(&mut v, level, ":rocket:");
        put_str(&mut v, level, "\n");
        let destinations = self.config.destinations();
        put_md_destinations(&mut v, level, &destinations, &base.destinations);
        let ghost after_destinations = pieces_view(v@);
        let n = self.report.len();
        let mut i: usize = 0;
        while i < n
            invariant
                n == self.report@.len() == texts.cases@.len(),
                level + 2 <= usize::MAX,
                i <= n,
                pieces_view(v@) == after_destinations + md_cases(*cmd, level as nat, self.report@.take(i as int), texts.cases@),
            decreases n - i,
        {
            let case = &self.report[i];
            let ghost before = v@;
            let skip = case.skip_report(cmd);
            if !skip {
                let mut p = case.github_markdown_report(cmd, level, &texts.cases[i]);
                let ghost pv = p@;
                v.append(&mut p);
                proof {
                    assert(pieces_view(v@) =~= pieces_view(before) + pieces_view(pv));
                }
            }
            proof {
                let t = self.report@.take(i + 1);
                assert(t.drop_last() =~= self.report@.take(i as int));
                assert(t[i as int] == self.report@[i as int]);
                assert(skip == skipped(self.report@[i as int], *cmd));
                assert(md_cases(*cmd, level as nat, t, texts.cases@) == (if skip {
                    md_cases(*cmd, level as nat, self.report@.take(i as int), texts.cases@)
                } else {
                    md_cases(*cmd, level as nat, self.report@.take(i as int), texts.cases@)
                        + self.report@[i as int].markdown_pieces(*cmd, level as nat, texts.cases@[i as int])
                }));
                assert(pieces_view(v@) =~= after_destinations + md_cases(*cmd, level as nat, t, texts.cases@));
            }
            i = i + 1;
        }
        proof { assert(self.report@.take(n as int) =~= self.report@); }
        let measured = cmd.is_measure(WorkerKind::Testcases);
        put_md_summary(&mut v, level, measured, &texts.summary);
        proof {
            reveal_strlit("testcases");
            assert(pieces_view(v@) =~= self.markdown_pieces(*cmd, level as nat, *texts));
        }
        v
    }
}

/// The configurations in markdown, each followed by an empty line, those left out skipped.
pub open spec fn md_workers<T: MessageText, Q: Coalesce, P: Coalesce>(
    cmd: Relentless,
    level: nat,
    workers: Seq<WorkerReport<T, Q, P>>,
    texts: Seq<WorkerTexts>,
) -> Seq<PieceView>
    decreases workers.len(),
{
    if workers.len() == 0 {
        Seq::empty()
    } else {
        let rest = md_workers(cmd, level, workers.drop_last(), texts);
        let i = workers.len() - 1;
        if skipped(workers[i], cmd) {
            rest
        } else {
            rest + workers[i].markdown_pieces(cmd, level, texts[i]) + seq![plain(level, "\n"@)]
        }
    }
}

impl<T: MessageText, Q: Coalesce, P: Coalesce> Report<T, Q, P> {
    /// The run in markdown: its configurations, then the summary of all of them when it is
    /// measured at this level.
    pub open spec fn markdown_pieces(&self, cmd: Relentless, level: nat, texts: ReportTexts) -> Seq<PieceView> {
        md_workers(cmd, level, self.report@, texts.workers@) + if cmd_measures(cmd, WorkerKind::Configs) {
            seq![
                plain(level, "## "@),
                plain(level, ":boom:"@),
                plain(level, " summery of all requests in configs "@),
                plain(level, ":boom:"@),
                plain(level, "\n"@),
            ] + markdown_summary(level + 1, texts.summary)
        } else {
            Seq::empty()
        }
    }

    /// The run in the GitHub markdown report, at `level`.
    pub fn github_markdown_report(&self, cmd: &Relentless, level: usize, texts: &ReportTexts) -> (res: Vec<Piece>)
        requires
            level + 2 <= usize::MAX,
            texts.workers@.len() == self.report@.len(),
            forall|i: int| 0 <= i < self.report@.len() ==>
                (#[trigger] texts.workers@[i]).cases@.len() == self.report@[i].report@.len(),
        ensures
            pieces_view(res@) == self.markdown_pieces(*cmd, level as nat, *texts),
    {
        let mut v: Vec<Piece> = Vec::new();
        let n = self.report.len();
        let mut i: usize = 0;
        proof { assert(pieces_view(v@) =~= md_workers(*cmd, level as nat, self.report@.take(0), texts.workers@)); }
        while i < n
            invariant
                n == self.report@.len() == texts.workers@.len(),
                level + 2 <= usize::MAX,
                forall|j: int| 0 <= j < self.report@.len() ==>
                    (#[trigger] texts.workers@[j]).cases@.len() == self.report@[j].report@.len(),
                i <= n,
                pieces_view(v@) == md_workers(*cmd, level as nat, self.report@.take(i as int), texts.workers@),
            decreases n - i,
        {
            let worker = &self.report[i];
            let ghost before = v@;
            if !worker.skip_report(cmd) {
                let mut p = worker.github_markdown_report(cmd, level, &texts.workers[i]);
                let ghost pv = p@;
                v.append(&mut p);
                proof {
                    assert(pieces_view(v@) =~= pieces_view(before) + pieces_view(pv));
                }
                put_str(&mut v, level, "\n");
            }
            proof {
                let t = self.report@.take(i + 1);
                assert(t.drop_last() =~= self.report@.take(i as int));
                assert(t[i as int] == self.report@[i as int]);
                assert(pieces_view(v@) =~= md_workers(*cmd, level as nat, t, texts.workers@));
            }
            i = i + 1;
        }
        proof { assert(self.report@.take(n as int) =~= self.report@); }
        if cmd.is_measure(WorkerKind::Configs) {
            put_str(&mut v, level, "## ");
            put_str(&mut v, level, ":boom:");
            put_str(&mut v, level, " summery of all requests in configs ");
            put_str(&mut v, level, ":boom:");
            put_str(&mut v, level, "\n");
            put_markdown_summary(&mut v, level + 1, &texts.summary);
        }
        proof {
            assert(pieces_view(v@) =~= self.markdown_pieces(*cmd, level as nat, *texts));
        }
        v
    }
}


/// The head of the line of a testcase on the console: pass or fail, and the target in the
/// color of its grade.
pub open spec fn cs_head(level: nat, pass: bool, target: Seq<char>) -> Seq<PieceView> {
    seq![
        (if pass { emoji(level, "✅"@, "PASS"@) } else { emoji(level, "❌"@, "FAIL"@) }),
        plain(level, " "@),
        styled(level, Style::Class(if pass { Classification::Good } else { Classification::Bad }), target),
        plain(level, " "@),
    ]
}

/// How many repeats passed, out of how many, when the number of repeats is given.
pub open spec fn cs_repeat(level: nat, passed: nat, repeat: Option<nat>) -> Seq<PieceView> {
    match repeat {
        Some(r) => seq![
            emoji(level, "🔁"@, ""@),
            plain(level, decimal(passed)),
            plain(level, "/"@),
            plain(level, decimal(r)),
            plain(level, " "@),
        ],
        None => Seq::empty(),
    }
}

/// The description that ends the line, if any.
pub open spec fn cs_description(level: nat, description: Option<Seq<char>>) -> Seq<PieceView> {
    match description {
        Some(d) => seq![emoji(level, "📝"@, ""@), plain(level, " "@), plain(level, d), plain(level, "\n"@)],
        None => seq![plain(level, "\n"@)],
    }
}

/// The note that a failed testcase is allowed.
pub open spec fn cs_allowed(level: nat, shown: bool) -> Seq<PieceView> {
    if shown {
        seq![
            emoji(level + 1, "👀"@, ""@),
            plain(level + 1, " "@),
            styled(level + 1, Style::Class(Classification::Good), "this testcase is allowed"@),
            plain(level + 1, "\n"@),
        ]
    } else {
        Seq::empty()
    }
}

/// The messages, dimmed, under a warning.
pub open spec fn cs_messages(level: nat, shown: bool, msgs: Seq<Seq<char>>) -> Seq<PieceView> {
    if shown {
        seq![
            emoji(level + 1, "💬"@, ""@),
            plain(level + 1, " "@),
            styled(level + 1, Style::Class(Classification::Warn), "message was found"@),
            plain(level + 1, "\n"@),
        ] + messages_pieces(level + 2, Style::Dim, msgs) + seq![styled(level + 2, Style::Dim, "\n"@)]
    } else {
        Seq::empty()
    }
}

/// The summary of the metrics under its title, when they are measured at this level.
pub open spec fn cs_summary(level: nat, shown: bool, title: Seq<char>, summary: Summary) -> Seq<PieceView> {
    if shown {
        seq![
            emoji(level + 1, "💥"@, ""@),
            plain(level + 1, " "@),
            styled(level + 1, Style::Bold, title),
            plain(level + 1, "\n"@),
        ] + console_summary(level + 2, summary)
    } else {
        Seq::empty()
    }
}

impl<T: MessageText, Q: Coalesce, P: Coalesce> CaseReport<T, Q, P> {
    /// The line of the testcase on the console, and what follows it one level deeper.
    pub open spec fn console_pieces(&self, cmd: Relentless, level: nat, texts: CaseTexts) -> Seq<PieceView> {
        let t = self.testcase_view().base_view();
        cs_head(level, self.passes(), t.target@)
            + cs_repeat(level, self.passed_view(), given_repeat(self.testcase_view().repeat_view()))
            + cs_description(level, opt_view(t.description))
            + cs_allowed(level, !self.passes() && self.allows(cmd.strict))
            + cs_messages(level, self.messages_view()@.len() > 0, texts_of(self.messages_view()@))
            + cs_summary(level, cmd_measures(cmd, WorkerKind::Repeats), "summery of all requests in repeats"@, texts.summary)
    }

    /// The testcase in the console report, at `level`.
    pub fn console_report(&self, cmd: &Relentless, level: usize, texts: &CaseTexts) -> (res: Vec<Piece>)
        requires
            level + 2 <= usize::MAX,
        ensures
            pieces_view(res@) == self.console_pieces(*cmd, level as nat, *texts),
    {
        let mut v: Vec<Piece> = Vec::new();
        let t = self.testcase().base();
        let pass = self.pass();
        put_cs_head(&mut v, level, pass, &t.target);
        put_cs_repeat(&mut v, level, self.passed(), self.testcase().repeat());
        put_cs_description(&mut v, level, &t.description);
        let allowed = !pass && self.allow(cmd.strict);
        put_cs_allowed(&mut v, level, allowed);
        let shown = !self.messages().is_empty();
        let message_texts = self.messages().texts();
        put_cs_messages(&mut v, level, shown, &message_texts);
        let measured = cmd.is_measure(WorkerKind::Repeats);
        put_cs_summary(&mut v, level, measured, "summery of all requests in repeats", &texts.summary);
        proof {
            let a = cs_head(level as nat, pass, t.target@);
            let b = cs_repeat(level as nat, self.passed_view(), given_repeat(self.testcase_view().repeat_view()));
            let c = cs_description(level as nat, opt_view(t.description));
            let d = cs_allowed(level as nat, allowed);
            let e = cs_messages(level as nat, shown, texts_of(self.messages_view()@));
            let f = cs_summary(level as nat, measured, "summery of all requests in repeats"@, texts.summary);
            assert(Seq::<PieceView>::empty() + a + b + c + d + e + f =~= a + b + c + d + e + f);
        }
        v
    }
}

/// Appends the head of the line of a testcase.
fn put_cs_head(v: &mut Vec<Piece>, level: usize, pass: bool, target: &String)
    ensures
        pieces_view(final(v)@) == pieces_view(old(v)@) + cs_head(level as nat, pass, target@),
{
    let ghost pre = pieces_view(v@);
    if pass {
        put_emoji(v, level, "✅", "PASS");
    } else {
        put_emoji(v, level, "❌", "FAIL");
    }
    put_str(v, level, " ");
    let class = if pass { Classification::Good } else { Classification::Bad };
    put(v, level, Style::Class(class), target.clone());
    put_str(v, level, " ");
    proof { assert(pieces_view(v@) =~= pre + cs_head(level as nat, pass, target@)); }
}

/// Appends how many repeats passed, when the number of repeats is given.
fn put_cs_repeat(v: &mut Vec<Piece>, level: usize, passed: usize, repeat: Repeat)
    ensures
        pieces_view(final(v)@) == pieces_view(old(v)@) + cs_repeat(level as nat, passed as nat, given_repeat(repeat)),
{
    let ghost pre = pieces_view(v@);
    match repeat.0 {
        Some(r) => {
            put_emoji(v, level, "🔁", "");
            put(v, level, Style::Plain, u64_to_string(passed as u64));
            put_str(v, level, "/");
            put(v, level, Style::Plain, u64_to_string(r as u64));
            put_str(v, level, " ");
        },
        None => {},
    }
    proof { assert(pieces_view(v@) =~= pre + cs_repeat(level as nat, passed as nat, given_repeat(repeat))); }
}

/// Appends the description, if any, and the end of the line.
fn put_cs_description(v: &mut Vec<Piece>, level: usize, description: &Option<String>)
    ensures
        pieces_view(final(v)@) == pieces_view(old(v)@) + cs_description(level as nat, opt_view(*description)),
{
    let ghost pre = pieces_view(v@);
    match description {
        Some(d) => {
            put_emoji(v, level, "📝", "");
            put_str(v, level, " ");
            put(v, level, Style::Plain, d.clone());
            put_str(v, level, "\n");
        },
        None => {
            put_str(v, level, "\n");
        },
    }
    proof { assert(pieces_view(v@) =~= pre + cs_description(level as nat, opt_view(*description))); }
}

/// Appends the note that the testcase is allowed, when it is shown.
fn put_cs_allowed(v: &mut Vec<Piece>, level: usize, shown: bool)
    requires
        level + 1 <= usize::MAX,
    ensures
        pieces_view(final(v)@) == pieces_view(old(v)@) + cs_allowed(level as nat, shown),
{
    let ghost pre = pieces_view(v@);
    if shown {
        put_emoji(v, level + 1, "👀", "");
        put_str(v, level + 1, " ");
        put(v, level + 1, Style::Class(Classification::Good), owned("this testcase is allowed"));
        put_str(v, level + 1, "\n");
    }
    proof { assert(pieces_view(v@) =~= pre + cs_allowed(level as nat, shown)); }
}

/// Appends the messages under their warning, when they are shown.
fn put_cs_messages(v: &mut Vec<Piece>, level: usize, shown: bool, msgs: &Vec<String>)
    requires
        level + 2 <= usize::MAX,
    ensures
        pieces_view(final(v)@) == pieces_view(old(v)@) + cs_messages(level as nat, shown, string_views(msgs@)),
{
    let ghost pre = pieces_view(v@);
    if shown {
        put_emoji(v, level + 1, "💬", "");
        put_str(v, level + 1, " ");
        put(v, level + 1, Style::Class(Classification::Warn), owned("message was found"));
        put_str(v, level + 1, "\n");
        let ghost mid = pieces_view(v@);
        put_messages(v, level + 2, Style::Dim, msgs);
        let ghost after = pieces_view(v@);
        put(v, level + 2, Style::Dim, owned("\n"));
        proof {
            let lv = level as nat;
            let open = seq![
                emoji(lv + 1, "💬"@, ""@),
                plain(lv + 1, " "@),
                styled(lv + 1, Style::Class(Classification::Warn), "message was found"@),
                plain(lv + 1, "\n"@),
            ];
            let close = seq![styled(lv + 2, Style::Dim, "\n"@)];
            assert(mid =~= pre + open);
            assert(pieces_view(v@) =~= after + close);
            assert(pieces_view(v@) =~= pre + (open + messages_pieces(lv + 2, Style::Dim, string_views(msgs@)) + close));
        }
    }
    proof { assert(pieces_view(v@) =~= pre + cs_messages(level as nat, shown, string_views(msgs@))); }
}

/// Appends the summary under its title, when it is shown.
fn put_cs_summary(v: &mut Vec<Piece>, level: usize, shown: bool, title: &str, summary: &Summary)
    requires
        level + 2 <= usize::MAX,
    ensures
        pieces_view(final(v)@) == pieces_view(old(v)@) + cs_summary(level as nat, shown, title@, *summary),
{
    let ghost pre = pieces_view(v@);
    if shown {
        put_emoji(v, level + 1, "💥", "");
        put_str(v, level + 1, " ");
        put(v, level + 1, Style::Bold, owned(title));
        put_str(v, level + 1, "\n");
        put_console_summary(v, level + 2, summary);
    }
    proof { assert(pieces_view(v@) =~= pre + cs_summary(level as nat, shown, title@, *summary)); }
}

/// The lines of the destinations on the console: each name with its URI, and the URI it
/// replaces when the configuration names another.
pub open spec fn cs_destinations(level: nat, d: Seq<(Seq<char>, String)>, base: Seq<(Seq<char>, String)>) -> Seq<PieceView>
    decreases d.len(),
{
    if d.len() == 0 {
        Seq::empty()
    } else {
        let (n, u) = d.last();
        cs_destinations(level, d.drop_last(), base) + seq![
            plain(level, n),
            emoji(level, "🌐"@, ":"@),
            plain(level, " "@),
        ] + match lookup(base, n) {
            Some(b) if b@ != u@ => seq![
                plain(level, b@),
                plain(level, " "@),
                emoji(level, "👉"@, "->"@),
                plain(level, " "@),
                plain(level, u@),
                plain(level, "\n"@),
            ],
            _ => seq![plain(level, u@), plain(level, "\n"@)],
        }
    }
}

/// Appends the destination lines on the console.
fn put_cs_destinations(v: &mut Vec<Piece>, level: usize, d: &Destinations<String>, base: &Destinations<String>)
    ensures
        pieces_view(final(v)@) == pieces_view(old(v)@) + cs_destinations(level as nat, d@, base@),
{
    let ghost pre = pieces_view(v@);
    let n = d.len();
    let mut i: usize = 0;
    proof { assert(d@.take(0) =~= Seq::<(Seq<char>, String)>::empty()); }
    while i < n
        invariant
            n == d@.len(),
            i <= n,
            pieces_view(v@) == pre + cs_destinations(level as nat, d@.take(i as int), base@),
        decreases n - i,
    {
        let name = d.name_at(i);
        let uri = d.value_at(i);
        put(v, level, Style::Plain, name.clone());
        put_emoji(v, level, "🌐", ":");
        put_str(v, level, " ");
        let replaced = match base.get(name.as_str()) {
            Some(b) => !crate::text::str_eq(b.as_str(), uri.as_str()),
            None => false,
        };
        if replaced {
            let b = match base.get(name.as_str()) {
                Some(b) => b.clone(),
                None => String::new(),
            };
            put(v, level, Style::Plain, b);
            put_str(v, level, " ");
            put_emoji(v, level, "👉", "->");
            put_str(v, level, " ");
            put(v, level, Style::Plain, uri.clone());
            put_str(v, level, "\n");
        } else {
            put(v, level, Style::Plain, uri.clone());
            put_str(v, level, "\n");
        }
        proof {
            let t = d@.take(i + 1);
            assert(t.drop_last() =~= d@.take(i as int));
            assert(t.last() == d@[i as int]);
            assert(pieces_view(v@) =~= pre + cs_destinations(level as nat, t, base@));
        }
        i = i + 1;
    }
    proof { assert(d@.take(n as int) =~= d@); }
}

/// The testcases on the console, those left out skipped.
pub open spec fn cs_cases<T: MessageText, Q: Coalesce, P: Coalesce>(
    cmd: Relentless,
    level: nat,
    cases: Seq<CaseReport<T, Q, P>>,
    texts: Seq<CaseTexts>,
) -> Seq<PieceView>
    decreases cases.len(),
{
    if cases.len() == 0 {
        Seq::empty()
    } else {
        let rest = cs_cases(cmd, level, cases.drop_last(), texts);
        let i = cases.len() - 1;
        if skipped(cases[i], cmd) { rest } else { rest + cases[i].console_pieces(cmd, level, texts[i]) }
    }
}

impl<T: MessageText, Q: Coalesce, P: Coalesce> WorkerReport<T, Q, P> {
    /// The configuration on the console: its name, its destinations and its testcases one
    /// level deeper, and the summary when it is measured at this level.
    pub open spec fn console_pieces(&self, cmd: Relentless, level: nat, texts: WorkerTexts) -> Seq<PieceView> {
        let base = self.config.base_view();
        seq![
            emoji(level, "🚀"@, ""@),
            plain(level, " "@),
            plain(level, worker_name(base.name)),
            plain(level, " "@),
            emoji(level, "🚀"@, ""@),
            plain(level, "\n"@),
        ] + cs_destinations(level + 1, overridden_all(base.destinations@, destination_views(self.config.others_view())), base.destinations@)
            + cs_cases(cmd, level + 1, self.report@, texts.cases@)
            + cs_summary(level, cmd_measures(cmd, WorkerKind::Testcases), "summery of all requests in testcases"@, texts.summary)
    }

    /// The configuration in the console report, at `level`.
    pub fn console_report(&self, cmd: &Relentless, level: usize, texts: &WorkerTexts) -> (res: Vec<Piece>)
        requires
            level + 3 <= usize::MAX,
            texts.cases@.len() == self.report@.len(),
        ensures
            pieces_view(res@) == self.console_pieces(*cmd, level as nat, *texts),
    {
        let mut v: Vec<Piece> = Vec::new();
        let base = self.config.base();
        put_emoji(&mut v, level, "🚀", "");
        put_str(&mut v, level, " ");
        let name = match &base.name {
            Some(n) => n.clone(),
            None => owned("testcases"),
        };
        put(&mut v, level, Style::Plain, name);
        put_str(&mut v, level, " ");
        put_emoji(&mut v, level, "🚀", "");
        put_str(&mut v, level, "\n");
        let destinations = self.config.destinations();
        put_cs_destinations(&mut v, level + 1, &destinations, &base.destinations);
        let ghost after_destinations = pieces_view(v@);
        let n = self.report.len();
        let mut i: usize = 0;
        while i < n
            invariant
                n == self.report@.len() == texts.cases@.len(),
                level + 3 <= usize::MAX,
                i <= n,
                pieces_view(v@) == after_destinations + cs_cases(*cmd, (level + 1) as nat, self.report@.take(i as int), texts.cases@),
            decreases n - i,
        {
            let case = &self.report[i];
            let ghost before = v@;
            let skip = case.skip_report(cmd);
            if !skip {
                let mut p = case.console_report(cmd, level + 1, &texts.cases[i]);
                let ghost pv = p@;
                v.append(&mut p);
                proof {
                    assert(pieces_view(v@) =~= pieces_view(before) + pieces_view(pv));
                }
            }
            proof {
                let t = self.report@.take(i + 1);
                assert(t.drop_last() =~= self.report@.take(i as int));
                assert(t[i as int] == self.report@[i as int]);
                assert(skip == skipped(self.report@[i as int], *cmd));
                assert(pieces_view(v@) =~= after_destinations + cs_cases(*cmd, (level + 1) as nat, t, texts.cases@));
            }
            i = i + 1;
        }
        proof { assert(self.report@.take(n as int) =~= self.report@); }
        let measured = cmd.is_measure(WorkerKind::Testcases);
        put_cs_summary(&mut v, level, measured, "summery of all requests in testcases", &texts.summary);
        proof {
            reveal_strlit("testcases");
            assert(pieces_view(v@) =~= self.console_pieces(*cmd, level as nat, *texts));
        }
        v
    }
}

/// The configurations on the console, each followed by an empty line, those left out skipped.
pub open spec fn cs_workers<T: MessageText, Q: Coalesce, P: Coalesce>(
    cmd: Relentless,
    level: nat,
    workers: Seq<WorkerReport<T, Q, P>>,
    texts: Seq<WorkerTexts>,
) -> Seq<PieceView>
    decreases workers.len(),
{
    if workers.len() == 0 {
        Seq::empty()
    } else {
        let rest = cs_workers(cmd, level, workers.drop_last(), texts);
        let i = workers.len() - 1;
        if skipped(workers[i], cmd) {
            rest
        } else {
            rest + workers[i].console_pieces(cmd, level, texts[i]) + seq![plain(level, "\n"@)]
        }
    }
}

impl<T: MessageText, Q: Coalesce, P: Coalesce> Report<T, Q, P> {
    /// The run on the console: its configurations, then the summary of all of them when it
    /// is measured at this level.
    pub open spec fn console_pieces(&self, cmd: Relentless, level: nat, texts: ReportTexts) -> Seq<PieceView> {
        cs_workers(cmd, level, self.report@, texts.workers@) + if cmd_measures(cmd, WorkerKind::Configs) {
            seq![
                emoji(level, "💥"@, ""@),
                plain(level, " "@),
                styled(level, Style::Bold, "summery of all requests in configs"@),
                plain(level, " "@),
                emoji(level, "💥"@, ""@),
                plain(level, "\n"@),
            ] + console_summary(level + 1, texts.summary)
        } else {
            Seq::empty()
        }
    }

    /// The run in the console report, at `level`.
    pub fn console_report(&self, cmd: &Relentless, level: usize, texts: &ReportTexts) -> (res: Vec<Piece>)
        requires
            level + 3 <= usize::MAX,
            texts.workers@.len() == self.report@.len(),
            forall|i: int| 0 <= i < self.report@.len() ==>
                (#[trigger] texts.workers@[i]).cases@.len() == self.report@[i].report@.len(),
        ensures
            pieces_view(res@) == self.console_pieces(*cmd, level as nat, *texts),
    {
        let mut v: Vec<Piece> = Vec::new();
        let n = self.report.len();
        let mut i: usize = 0;
        proof { assert(pieces_view(v@) =~= cs_workers(*cmd, level as nat, self.report@.take(0), texts.workers@)); }
        while i < n
            invariant
                n == self.report@.len() == texts.workers@.len(),
                level + 3 <= usize::MAX,
                forall|j: int| 0 <= j < self.report@.len() ==>
                    (#[trigger] texts.workers@[j]).cases@.len() == self.report@[j].report@.len(),
                i <= n,
                pieces_view(v@) == cs_workers(*cmd, level as nat, self.report@.take(i as int), texts.workers@),
            decreases n - i,
        {
            let worker = &self.report[i];
            let ghost before = v@;
            if !worker.skip_report(cmd) {
                let mut p = worker.console_report(cmd, level, &texts.workers[i]);
                let ghost pv = p@;
                v.append(&mut p);
                proof {
                    assert(pieces_view(v@) =~= pieces_view(before) + pieces_view(pv));
                }
                put_str(&mut v, level, "\n");
            }
            proof {
                let t = self.report@.take(i + 1);
                assert(t.drop_last() =~= self.report@.take(i as int));
                assert(t[i as int] == self.report@[i as int]);
                assert(pieces_view(v@) =~= cs_workers(*cmd, level as nat, t, texts.workers@));
            }
            i = i + 1;
        }
        proof { assert(self.report@.take(n as int) =~= self.report@); }
        if cmd.is_measure(WorkerKind::Configs) {
            put_emoji(&mut v, level, "💥", "");
            put_str(&mut v, level, " ");
            put(&mut v, level, Style::Bold, owned("summery of all requests in configs"));
            put_str(&mut v, level, " ");
            put_emoji(&mut v, level, "💥", "");
            put_str(&mut v, level, "\n");
            put_console_summary(&mut v, level + 1, &texts.summary);
        }
        proof {
            assert(pieces_view(v@) =~= self.console_pieces(*cmd, level as nat, *texts));
        }
        v
    }
}

} // verus!
