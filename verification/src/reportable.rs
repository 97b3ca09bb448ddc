//! Reports of a run, whether they pass, and the writer that indents them.
use vstd::prelude::*;
use crate::text::{repeat_seq, repeat_str, chars_of, string_of};
use crate::aggregate::EvaluateAggregator;
use crate::command::{Relentless, ReportFormat};
use crate::config::{Coalesce, Coalesced, Setting, Testcase, WorkerConfig};
use crate::destinations::Destinations;
use crate::messages::Messages;

verus! {

/// `l` without one trailing carriage return.
pub open spec fn strip_cr(l: Seq<char>) -> Seq<char> {
    if l.len() > 0 && l.last() == '\r' { l.drop_last() } else { l }
}

/// The lines of `s`, as `str::lines` gives them: split at each `\n`, a `\r` before it
/// dropped, no empty line after a final `\n`.
pub open spec fn lines_of(s: Seq<char>) -> Seq<Seq<char>>
    decreases s.len(),
{
    if s.len() == 0 {
        Seq::empty()
    } else {
        match s.index_of_first('\n') {
            None => seq![s],
            Some(j) => {
                if 0 <= j < s.len() {
                    seq![strip_cr(s.take(j))] + lines_of(s.skip(j + 1))
                } else {
                    Seq::empty()
                }
            },
        }
    }
}

/// Each of `lines` on a line of its own, ended by `\n`, behind `indent`; the first one
/// behind `indent` only when it starts a line.
pub open spec fn indented(lines: Seq<Seq<char>>, indent: Seq<char>, at_start: bool) -> Seq<char>
    decreases lines.len(),
{
    if lines.len() == 0 {
        Seq::empty()
    } else {
        (if at_start { indent } else { Seq::empty() }) + lines[0] + seq!['\n']
            + indented(lines.drop_first(), indent, true)
    }
}

/// What is written for `s` behind `indent`: its lines, each ended, when it holds a `\n`;
/// else `s` itself, behind `indent` when it starts a line.
pub open spec fn written(s: Seq<char>, indent: Seq<char>, at_start: bool) -> Seq<char> {
    if s.contains('\n') {
        indented(lines_of(s), indent, at_start)
    } else {
        (if at_start { indent } else { Seq::empty() }) + s
    }
}

/// Each text with its level, by view.
pub open spec fn leveled_views(v: Seq<(usize, String)>) -> Seq<(nat, Seq<char>)> {
    v.map_values(|p: (usize, String)| (p.0 as nat, p.1@))
}

/// What writing each text at its level writes, one after the other, from a line start when
/// `at_start`: each text as `written` writes it behind the indentation of its level.
pub open spec fn leveled_text(texts: Seq<(nat, Seq<char>)>, at_start: bool) -> Seq<char>
    decreases texts.len(),
{
    if texts.len() == 0 {
        Seq::empty()
    } else {
        written(texts[0].1, repeat_seq("  "@, texts[0].0), at_start)
            + leveled_text(texts.drop_first(), texts[0].1.contains('\n'))
    }
}

/// How many of `verdicts` passed.
pub open spec fn passes_in(verdicts: Seq<bool>) -> nat
    decreases verdicts.len(),
{
    if verdicts.len() == 0 {
        0
    } else {
        passes_in(verdicts.drop_last()) + if verdicts.last() { 1nat } else { 0nat }
    }
}

/// One more line at the end of what `indented` writes.
proof fn lemma_indented_push(lines: Seq<Seq<char>>, l: Seq<char>, indent: Seq<char>, at_start: bool)
    ensures
        indented(lines.push(l), indent, at_start) == indented(lines, indent, at_start)
            + (if lines.len() == 0 && !at_start { Seq::empty() } else { indent }) + l + seq!['\n'],
    decreases lines.len(),
{
    if lines.len() == 0 {
        assert(lines.push(l).drop_first() =~= Seq::<Seq<char>>::empty());
        assert(lines.push(l)[0] == l);
        assert(indented(lines.push(l).drop_first(), indent, true) =~= Seq::<char>::empty());
        assert(indented(lines, indent, at_start) =~= Seq::<char>::empty());
        assert(indented(lines.push(l), indent, at_start) =~= (if at_start { indent } else { Seq::empty() }) + l + seq!['\n']);
    } else {
        assert(lines.push(l).drop_first() =~= lines.drop_first().push(l));
        lemma_indented_push(lines.drop_first(), l, indent, true);
        assert(indented(lines.push(l), indent, at_start) =~= indented(lines, indent, at_start) + indent + l + seq!['\n']);
    }
}

/// The lines of a text whose first `\n` is at `k`.
proof fn lemma_lines_split(x: Seq<char>, k: int)
    requires
        0 <= k < x.len(),
        x[k] == '\n',
        forall|j: int| 0 <= j < k ==> x[j] != '\n',
    ensures
        lines_of(x) == seq![strip_cr(x.take(k))] + lines_of(x.skip(k + 1)),
{
    x.index_of_first_ensures('\n');
    let r = x.index_of_first('\n');
    assert(x.contains('\n'));
    assert(r == Some(k)) by {
        if r.unwrap() < k {
            assert(x[r.unwrap()] == '\n');
        }
    }
}

/// A text with a `\n` has a line.
pub proof fn lemma_lines_nonempty(s: Seq<char>)
    requires
        s.contains('\n'),
    ensures
        lines_of(s).len() > 0,
{
    s.index_of_first_ensures('\n');
}

/// The lines of a text without `\n`.
proof fn lemma_lines_single(x: Seq<char>)
    requires
        forall|j: int| 0 <= j < x.len() ==> x[j] != '\n',
    ensures
        lines_of(x) == (if x.len() == 0 { Seq::<Seq<char>>::empty() } else { seq![x] }),
{
    x.index_of_first_ensures('\n');
    if x.len() > 0 {
        assert(!x.contains('\n'));
    }
}

/// Writes text indented by two spaces per level, into a buffer.
#[derive(Debug, Clone)]
pub struct ReportWriter {
    indent: usize,
    buf: String,
    at_start_line: bool,
}

impl ReportWriter {
    /// The indentation level.
    pub closed spec fn level(&self) -> nat {
        self.indent as nat
    }

    /// What was written so far.
    pub closed spec fn text(&self) -> Seq<char> {
        self.buf@
    }

    /// Whether the next character starts a line.
    pub closed spec fn at_start(&self) -> bool {
        self.at_start_line
    }

    /// A writer at level `indent` that appends to `buf`, at the start of a line.
    pub fn new(indent: usize, buf: String) -> (res: Self)
        ensures
            res.level() == indent,
            res.text() == buf@,
            res.at_start(),
    {
        ReportWriter { indent, buf, at_start_line: true }
    }

    /// Two spaces per level.
    pub fn indent(&self) -> (res: String)
        ensures
            res@ == repeat_seq("  "@, self.level()),
    {
        repeat_str("  ", self.indent)
    }

    /// One level deeper.
    pub fn increment(&mut self)
        requires
            old(self).level() < usize::MAX,
        ensures
            final(self).level() == old(self).level() + 1,
            final(self).text() == old(self).text(),
            final(self).at_start() == old(self).at_start(),
    {
        self.indent = self.indent + 1;
    }

    /// One level less deep.
    pub fn decrement(&mut self)
        requires
            old(self).level() > 0,
        ensures
            final(self).level() == old(self).level() - 1,
            final(self).text() == old(self).text(),
            final(self).at_start() == old(self).at_start(),
    {
        self.indent = self.indent - 1;
    }

    /// Writes `s`: each of its lines behind the indentation when it holds a `\n`, else `s`
    /// itself, behind the indentation when it starts a line.
    pub fn write_str(&mut self, s: &str)
        ensures
            final(self).text() == old(self).text() + written(s@, repeat_seq("  "@, old(self).level()), old(self).at_start()),
            final(self).at_start() == s@.contains('\n'),
            final(self).level() == old(self).level(),
    {
        let ind = self.indent();
        let chars = chars_of(s);
        if !contains_newline(&chars) {
            if self.at_start_line {
                self.buf.append(ind.as_str());
                self.at_start_line = false;
            }
            self.buf.append(s);
            return;
        }
        let ghost buf0 = self.buf@;
        let ghost a0 = self.at_start_line;
        let ghost done: Seq<Seq<char>> = Seq::empty();
        let ghost lvl = self.indent;
        let mut cur: Vec<char> = Vec::new();
        let mut i: usize = 0;
        proof {
            assert(cur@ + s@.skip(0) =~= s@);
            assert(done + lines_of(s@) =~= lines_of(s@));
        }
        while i < chars.len()
            invariant
                self.indent == lvl,
                chars@ == s@,
                i <= chars@.len(),
                ind@ == repeat_seq("  "@, self.indent as nat),
                forall|j: int| 0 <= j < cur@.len() ==> cur@[j] != '\n',
                lines_of(s@) == done + lines_of(cur@ + s@.skip(i as int)),
                self.buf@ == buf0 + indented(done, ind@, a0),
                self.at_start_line == (if done.len() == 0 { a0 } else { true }),
            decreases chars@.len() - i,
        {
            let c = chars[i];
            if c == '\n' {
                proof {
                    let x = cur@ + s@.skip(i as int);
                    assert(x[cur@.len() as int] == '\n');
                    lemma_lines_split(x, cur@.len() as int);
                    assert(x.take(cur@.len() as int) =~= cur@);
                    assert(x.skip(cur@.len() as int + 1) =~= Seq::<char>::empty() + s@.skip(i + 1));
                }
                let line = strip_carriage_return(&cur);
                if self.at_start_line {
                    self.buf.append(ind.as_str());
                }
                let ls = string_of(line.as_slice());
                self.buf.append(ls.as_str());
                self.buf.append("\n");
                proof {
                    reveal_strlit("\n");
                    lemma_indented_push(done, line@, ind@, a0);
                    let x = cur@ + s@.skip(i as int);
                    assert(lines_of(x) == seq![line@] + lines_of(Seq::<char>::empty() + s@.skip(i + 1)));
                    assert(lines_of(s@) =~= done.push(line@) + lines_of(Seq::<char>::empty() + s@.skip(i + 1)));
                    done = done.push(line@);
                }
                self.at_start_line = true;
                cur = Vec::new();
                proof {
                    assert(cur@ =~= Seq::<char>::empty());
                    assert(self.buf@ =~= buf0 + indented(done, ind@, a0));
                    assert(lines_of(s@) == done + lines_of(cur@ + s@.skip(i + 1)));
                }
            } else {
                let ghost pre = cur@;
                cur.push(c);
                proof {
                    assert(s@[i as int] == c);
                    assert(s@.skip(i as int) =~= seq![c] + s@.skip(i + 1));
                    assert(cur@ + s@.skip(i + 1) =~= pre + s@.skip(i as int));
                    assert(lines_of(s@) == done + lines_of(cur@ + s@.skip(i + 1)));
                }
            }
            i = i + 1;
        }
        proof {
            assert(s@.skip(chars@.len() as int) =~= Seq::<char>::empty());
            assert(cur@ + s@.skip(i as int) =~= cur@);
            lemma_lines_single(cur@);
        }
        if cur.len() > 0 {
            if self.at_start_line {
                self.buf.append(ind.as_str());
            }
            let ls = string_of(cur.as_slice());
            self.buf.append(ls.as_str());
            self.buf.append("\n");
            proof {
                reveal_strlit("\n");
                lemma_indented_push(done, cur@, ind@, a0);
                done = done.push(cur@);
                assert(self.buf@ =~= buf0 + indented(done, ind@, a0));
            }
            self.at_start_line = true;
        }
        proof {
            assert(done =~= lines_of(s@));
            lemma_lines_nonempty(s@);
        }
    }

    /// Writes each text at its level, one after the other, going deeper or back first as
    /// the level of the text asks.
    pub fn write_at_levels(&mut self, texts: &Vec<(usize, String)>)
        ensures
            final(self).text() == old(self).text() + leveled_text(leveled_views(texts@), old(self).at_start()),
    {
        let ghost ps = leveled_views(texts@);
        let ghost start = self.text();
        let ghost a0 = self.at_start();
        let mut i: usize = 0;
        proof {
            assert(ps.skip(0) =~= ps);
        }
        while i < texts.len()
            invariant
                i <= texts@.len(),
                ps == leveled_views(texts@),
                start + leveled_text(ps, a0) == self.text() + leveled_text(ps.skip(i as int), self.at_start()),
            decreases texts@.len() - i,
        {
            let target = texts[i].0;
            if self.indent < target {
                while self.indent < target
                    invariant
                        self.level() <= target,
                        start + leveled_text(ps, a0) == self.text() + leveled_text(ps.skip(i as int), self.at_start()),
                    decreases target - self.level(),
                {
                    self.increment();
                }
            } else {
                while self.indent > target
                    invariant
                        self.level() >= target,
                        start + leveled_text(ps, a0) == self.text() + leveled_text(ps.skip(i as int), self.at_start()),
                    decreases self.level() - target,
                {
                    self.decrement();
                }
            }
            proof {
                assert(ps.skip(i as int).drop_first() =~= ps.skip(i + 1));
                assert(ps.skip(i as int)[0] == (target as nat, texts@[i as int].1@));
            }
            self.write_str(texts[i].1.as_str());
            proof {
                assert(start + leveled_text(ps, a0) =~= self.text() + leveled_text(ps.skip(i + 1), self.at_start()));
            }
            i = i + 1;
        }
        proof {
            assert(ps.skip(texts@.len() as int) =~= Seq::<(nat, Seq<char>)>::empty());
            assert(start + leveled_text(ps, a0) =~= self.text());
        }
    }

    /// What was written.
    pub fn buffer(&self) -> (res: &String)
        ensures
            res@ == self.text(),
    {
        &self.buf
    }
}

/// Whether `v` holds a `\n`.
fn contains_newline(v: &Vec<char>) -> (res: bool)
    ensures
        res == v@.contains('\n'),
{
    let mut i: usize = 0;
    while i < v.len()
        invariant
            i <= v@.len(),
            forall|j: int| 0 <= j < i ==> v@[j] != '\n',
        decreases v@.len() - i,
    {
        if v[i] == '\n' {
            proof { assert(v@[i as int] == '\n'); }
            return true;
        }
        i = i + 1;
    }
    proof {
        assert(!v@.contains('\n')) by {
            if v@.contains('\n') {
                let j = choose|j: int| 0 <= j < v@.len() && v@[j] == '\n';
                assert(v@[j] != '\n');
            }
        }
    }
    false
}

/// `v` without one trailing carriage return.
fn strip_carriage_return(v: &Vec<char>) -> (res: Vec<char>)
    ensures
        res@ == strip_cr(v@),
{
    let n = v.len();
    let m = if n > 0 && v[n - 1] == '\r' { n - 1 } else { n };
    let mut res: Vec<char> = Vec::new();
    let mut i: usize = 0;
    while i < m
        invariant
            m <= n == v@.len(),
            i <= m,
            res@ == v@.take(i as int),
        decreases m - i,
    {
        res.push(v[i]);
        proof { assert(v@.take(i + 1) =~= v@.take(i as int).push(v@[i as int])); }
        i = i + 1;
    }
    proof {
        assert(v@.take(m as int) =~= strip_cr(v@));
    }
    res
}

/// What a report says of the testcases below it.
pub trait Reportable {
    /// Every testcase below passed.
    spec fn passes(&self) -> bool;

    /// Every testcase below passed or is allowed to fail; with `strict`, none is allowed.
    spec fn allows(&self, strict: bool) -> bool;

    /// There is nothing below to report.
    spec fn is_blank(&self) -> bool;

    fn pass(&self) -> (b: bool)
        ensures
            b == self.passes(),
    ;

    fn allow(&self, strict: bool) -> (b: bool)
        ensures
            b == self.allows(strict),
    ;

    /// Whether the report is left out: it has nothing below, nothing is reported, or only
    /// failures are and this one is allowed.
    fn skip_report(&self, cmd: &Relentless) -> (b: bool)
        ensures
            b == (self.is_blank() || cmd.report_format == ReportFormat::NullDevice
                || (cmd.ng_only && self.allows(cmd.strict))),
    {
        let blank = self.is_empty_report();
        blank || cmd.report_format == ReportFormat::NullDevice || (cmd.ng_only && self.allow(cmd.strict))
    }

    fn is_empty_report(&self) -> (b: bool)
        ensures
            b == self.is_blank(),
    ;
}

/// The outcome of one testcase: how many of its repeats passed, the messages, and what
/// was gathered of its responses.
#[derive(Debug)]
pub struct CaseReport<T, Q, P> {
    testcase: Coalesced<Testcase<Q, P>, Setting<Q, P>>,
    passed: usize,
    messages: Messages<T>,
    aggregate: EvaluateAggregator,
}

impl<T, Q: Coalesce, P: Coalesce> CaseReport<T, Q, P> {
    pub closed spec fn testcase_view(&self) -> Coalesced<Testcase<Q, P>, Setting<Q, P>> {
        self.testcase
    }

    /// How many repeats passed.
    pub closed spec fn passed_view(&self) -> nat {
        self.passed as nat
    }

    pub closed spec fn messages_view(&self) -> Messages<T> {
        self.messages
    }

    pub closed spec fn aggregate_view(&self) -> EvaluateAggregator {
        self.aggregate
    }

    pub fn new(
        testcase: Coalesced<Testcase<Q, P>, Setting<Q, P>>,
        passed: usize,
        messages: Messages<T>,
        aggregate: EvaluateAggregator,
    ) -> (res: Self)
        ensures
            res.testcase_view() == testcase,
            res.passed_view() == passed,
            res.messages_view() == messages,
            res.aggregate_view() == aggregate,
    {
        CaseReport { testcase, passed, messages, aggregate }
    }

    /// The report of the testcase from the verdict of each repeat: as many passed as there
    /// are `true` verdicts.
    pub fn from_verdicts(
        testcase: Coalesced<Testcase<Q, P>, Setting<Q, P>>,
        verdicts: &Vec<bool>,
        messages: Messages<T>,
        aggregate: EvaluateAggregator,
    ) -> (res: Self)
        ensures
            res.testcase_view() == testcase,
            res.passed_view() == passes_in(verdicts@),
            res.messages_view() == messages,
            res.aggregate_view() == aggregate,
    {
        let mut passed: usize = 0;
        let mut i: usize = 0;
        while i < verdicts.len()
            invariant
                i <= verdicts@.len(),
                passed == passes_in(verdicts@.take(i as int)),
                passed <= i,
            decreases verdicts@.len() - i,
        {
            proof {
                assert(verdicts@.take(i + 1).drop_last() =~= verdicts@.take(i as int));
            }
            if verdicts[i] {
                passed = passed + 1;
            }
            i = i + 1;
        }
        proof {
            assert(verdicts@.take(verdicts@.len() as int) =~= verdicts@);
        }
        CaseReport { testcase, passed, messages, aggregate }
    }

    /// How many repeats passed.
    pub fn passed(&self) -> (n: usize)
        ensures
            n == self.passed_view(),
    {
        self.passed
    }

    /// The testcase and the settings that fill its gaps.
    pub fn testcase(&self) -> (res: &Coalesced<Testcase<Q, P>, Setting<Q, P>>)
        ensures
            *res == self.testcase_view(),
    {
        &self.testcase
    }

    /// The messages of the evaluations.
    pub fn messages(&self) -> (res: &Messages<T>)
        ensures
            *res == self.messages_view(),
    {
        &self.messages
    }

    /// What was gathered of the responses: verdicts and, for each destination, counts,
    /// spans and latencies.
    pub fn aggregator(&self) -> (res: EvaluateAggregator)
        ensures
            res.pass_view() == self.aggregate_view().pass_view(),
            forall|k: Seq<char>| #[trigger] crate::aggregate::view_lookup(res.destinations_view(), k)
                == crate::aggregate::view_lookup(self.aggregate_view().destinations_view(), k),
    {
        self.aggregate.clone()
    }
}

impl<T, Q: Coalesce, P: Coalesce> Reportable for CaseReport<T, Q, P> {
    /// Every repeat passed.
    open spec fn passes(&self) -> bool {
        self.passed_view() == self.testcase_view().repeat_view().spec_times()
    }

    /// Passed, or allowed to fail by its attributes when not `strict`.
    open spec fn allows(&self, strict: bool) -> bool {
        self.passes() || (!strict && self.testcase_view().base_view().attr.allow)
    }

    open spec fn is_blank(&self) -> bool {
        false
    }

    fn pass(&self) -> (b: bool) {
        self.passed == self.testcase.repeat().times()
    }

    fn allow(&self, strict: bool) -> (b: bool) {
        self.pass() || (!strict && self.testcase.base().attr.allow)
    }

    fn is_empty_report(&self) -> (b: bool) {
        false
    }
}

/// The outcomes of the testcases of one configuration.
#[derive(Debug)]
pub struct WorkerReport<T, Q, P> {
    pub config: Coalesced<WorkerConfig<Q, P>, Destinations<String>>,
    pub report: Vec<CaseReport<T, Q, P>>,
}

impl<T, Q: Coalesce, P: Coalesce> WorkerReport<T, Q, P> {
    pub fn new(config: Coalesced<WorkerConfig<Q, P>, Destinations<String>>, report: Vec<CaseReport<T, Q, P>>) -> (res: Self)
        ensures
            res.config == config,
            res.report == report,
    {
        WorkerReport { config, report }
    }
}

impl<T, Q: Coalesce, P: Coalesce> Reportable for WorkerReport<T, Q, P> {
    open spec fn passes(&self) -> bool {
        forall|i: int| 0 <= i < self.report@.len() ==> #[trigger] self.report@[i].passes()
    }

    open spec fn allows(&self, strict: bool) -> bool {
        forall|i: int| 0 <= i < self.report@.len() ==> #[trigger] self.report@[i].allows(strict)
    }

    open spec fn is_blank(&self) -> bool {
        self.report@.len() == 0
    }

    fn pass(&self) -> (b: bool) {
        let mut i: usize = 0;
        while i < self.report.len()
            invariant
                i <= self.report@.len(),
                forall|j: int| 0 <= j < i ==> #[trigger] self.report@[j].passes(),
            decreases self.report@.len() - i,
        {
            if !self.report[i].pass() {
                return false;
            }
            i = i + 1;
        }
        true
    }

    fn allow(&self, strict: bool) -> (b: bool) {
        let mut i: usize = 0;
        while i < self.report.len()
            invariant
                i <= self.report@.len(),
                forall|j: int| 0 <= j < i ==> #[trigger] self.report@[j].allows(strict),
            decreases self.report@.len() - i,
        {
            if !self.report[i].allow(strict) {
                return false;
            }
            i = i + 1;
        }
        true
    }

    fn is_empty_report(&self) -> (b: bool) {
        self.report.len() == 0
    }
}

/// The outcomes of all configurations of a run.
#[derive(Debug)]
pub struct Report<T, Q, P> {
    pub report: Vec<WorkerReport<T, Q, P>>,
}

impl<T, Q: Coalesce, P: Coalesce> Report<T, Q, P> {
    pub fn new(report: Vec<WorkerReport<T, Q, P>>) -> (res: Self)
        ensures
            res.report == report,
    {
        Report { report }
    }

    /// The exit code of the run: 0 when every testcase passed or is allowed to fail, else 1.
    pub fn exit_code(&self, cmd: &Relentless) -> (code: u8)
        ensures
            code == (if self.allows(cmd.strict) { 0u8 } else { 1u8 }),
    {
        if self.allow(cmd.strict) { 0 } else { 1 }
    }
}

impl<T, Q: Coalesce, P: Coalesce> Reportable for Report<T, Q, P> {
    open spec fn passes(&self) -> bool {
        forall|i: int| 0 <= i < self.report@.len() ==> #[trigger] self.report@[i].passes()
    }

    open spec fn allows(&self, strict: bool) -> bool {
        forall|i: int| 0 <= i < self.report@.len() ==> #[trigger] self.report@[i].allows(strict)
    }

    open spec fn is_blank(&self) -> bool {
        self.report@.len() == 0
    }

    fn pass(&self) -> (b: bool) {
        let mut i: usize = 0;
        while i < self.report.len()
            invariant
                i <= self.report@.len(),
                forall|j: int| 0 <= j < i ==> #[trigger] self.report@[j].passes(),
            decreases self.report@.len() - i,
        {
            if !self.report[i].pass() {
                return false;
            }
            i = i + 1;
        }
        true
    }

    fn allow(&self, strict: bool) -> (b: bool) {
        let mut i: usize = 0;
        while i < self.report.len()
            invariant
                i <= self.report@.len(),
                forall|j: int| 0 <= j < i ==> #[trigger] self.report@[j].allows(strict),
            decreases self.report@.len() - i,
        {
            if !self.report[i].allow(strict) {
                return false;
            }
            i = i + 1;
        }
        true
    }

    fn is_empty_report(&self) -> (b: bool) {
        self.report.len() == 0
    }
}

} // verus!
