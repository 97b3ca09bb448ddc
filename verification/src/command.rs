//! The options of a run, and what is read from them.
use vstd::prelude::*;
use crate::destinations::{Destinations, bind};

verus! {

/// Where the report goes.
#[derive(Debug, Clone, Copy, PartialEq, Eq, Hash, Structural)]
pub enum ReportFormat {
    /// No report.
    NullDevice,
    /// A report on the console.
    Console,
    /// A report in GitHub markdown.
    GithubMarkdown,
}

impl Default for ReportFormat {
    fn default() -> (res: Self)
        ensures
            res == ReportFormat::Console,
    {
        ReportFormat::Console
    }
}

/// The levels at which requests are run together and measured.
#[derive(Debug, Clone, Copy, PartialEq, Eq, PartialOrd, Ord, Hash, Structural)]
pub enum WorkerKind {
    /// Each repeat of a testcase.
    Repeats,
    /// Each testcase of a configuration.
    Testcases,
    /// Each configuration.
    Configs,
}

impl Default for WorkerKind {
    fn default() -> (res: Self)
        ensures
            res == WorkerKind::Configs,
    {
        WorkerKind::Configs
    }
}

/// Why the options cannot be read.
#[derive(Debug, Clone, PartialEq, Eq)]
pub enum InterfaceError {
    /// The text is not of the form `key=value`.
    KeyValueFormat(String),
    /// The text is no URI.
    InvalidUri(String),
}

impl InterfaceError {
    /// The text of the error, as it is displayed.
    pub fn message(&self) -> (res: String)
        ensures
            res@ == match self {
                InterfaceError::KeyValueFormat(s) => "should be KEY=VALUE format, but `"@ + s@ + "` has no `=`"@,
                InterfaceError::InvalidUri(s) => "`"@ + s@ + "` is no valid URI"@,
            },
    {
        match self {
            InterfaceError::KeyValueFormat(s) => {
                let mut m = String::from_str("should be KEY=VALUE format, but `");
                m.append(s.as_str());
                m.append("` has no `=`");
                m
            },
            InterfaceError::InvalidUri(s) => {
                let mut m = String::from_str("`");
                m.append(s.as_str());
                m.append("` is no valid URI");
                m
            },
        }
    }
}

/// The options of a run.
#[derive(Debug, Clone)]
pub struct Relentless {
    /// Configuration files.
    pub file: Vec<String>,
    /// Destinations to use in place of those that the configurations name.
    pub destination: Vec<(String, String)>,
    /// A failed testcase fails the run even where it is allowed.
    pub strict: bool,
    /// Report failed testcases only.
    pub ng_only: bool,
    /// Report without colors.
    pub no_color: bool,
    pub report_format: ReportFormat,
    /// Where requests and responses are recorded.
    pub output_record: Option<String>,
    /// The levels at which requests are run one after the other.
    pub sequential: Vec<WorkerKind>,
    /// The levels at which metrics are reported; `Configs` when not given.
    pub measure: Option<Vec<WorkerKind>>,
    /// Requests per second.
    pub rps: Option<usize>,
}

/// The kinds that `v` holds, each once, in the order `Repeats`, `Testcases`, `Configs`.
pub open spec fn kind_set(v: Seq<WorkerKind>) -> Seq<WorkerKind> {
    (if v.contains(WorkerKind::Repeats) { seq![WorkerKind::Repeats] } else { Seq::empty() })
        + (if v.contains(WorkerKind::Testcases) { seq![WorkerKind::Testcases] } else { Seq::empty() })
        + (if v.contains(WorkerKind::Configs) { seq![WorkerKind::Configs] } else { Seq::empty() })
}

/// An element is in `s.push(a)` when it is `a` or in `s`.
proof fn lemma_contains_push<A>(s: Seq<A>, a: A, x: A)
    ensures
        s.push(a).contains(x) == (s.contains(x) || a == x),
{
    if s.contains(x) {
        let j = choose|j: int| 0 <= j < s.len() && s[j] == x;
        assert(s.push(a)[j] == x);
    }
    if a == x {
        assert(s.push(a)[s.len() as int] == x);
    }
    if s.push(a).contains(x) {
        let j = choose|j: int| 0 <= j < s.push(a).len() && s.push(a)[j] == x;
        if j < s.len() {
            assert(s[j] == x);
        }
    }
}

/// The kinds that `v` holds, each once and in order.
fn sorted_kinds(v: &Vec<WorkerKind>) -> (res: Vec<WorkerKind>)
    ensures
        res@ == kind_set(v@),
{
    let mut has_repeats = false;
    let mut has_testcases = false;
    let mut has_configs = false;
    let mut i: usize = 0;
    while i < v.len()
        invariant
            i <= v@.len(),
            has_repeats == v@.take(i as int).contains(WorkerKind::Repeats),
            has_testcases == v@.take(i as int).contains(WorkerKind::Testcases),
            has_configs == v@.take(i as int).contains(WorkerKind::Configs),
        decreases v@.len() - i,
    {
        proof {
            assert(v@.take(i + 1) =~= v@.take(i as int).push(v@[i as int]));
            lemma_contains_push(v@.take(i as int), v@[i as int], WorkerKind::Repeats);
            lemma_contains_push(v@.take(i as int), v@[i as int], WorkerKind::Testcases);
            lemma_contains_push(v@.take(i as int), v@[i as int], WorkerKind::Configs);
        }
        match v[i] {
            WorkerKind::Repeats => { has_repeats = true; },
            WorkerKind::Testcases => { has_testcases = true; },
            WorkerKind::Configs => { has_configs = true; },
        }
        i = i + 1;
    }
    proof {
        assert(v@.take(v@.len() as int) =~= v@);
    }
    let mut res: Vec<WorkerKind> = Vec::new();
    if has_repeats { res.push(WorkerKind::Repeats); }
    if has_testcases { res.push(WorkerKind::Testcases); }
    if has_configs { res.push(WorkerKind::Configs); }
    proof {
        assert(res@ =~= kind_set(v@));
    }
    res
}

/// `pairs` bound in turn, a later pair replacing an earlier one with the same key.
pub open spec fn bind_all(pairs: Seq<(Seq<char>, Seq<char>)>) -> Seq<(Seq<char>, Seq<char>)>
    decreases pairs.len(),
{
    if pairs.len() == 0 {
        Seq::empty()
    } else {
        bind(bind_all(pairs.drop_last()), pairs.last().0, pairs.last().1)
    }
}

/// Each URI of `pairs` as it is displayed once parsed.
pub open spec fn displayed(pairs: Seq<(Seq<char>, Seq<char>)>) -> Seq<(Seq<char>, Seq<char>)> {
    pairs.map_values(|p: (Seq<char>, Seq<char>)| (p.0, uri_display(p.1).unwrap()))
}

/// The key and the value of `key=value`: what stands before the first `=`, and after it.
pub open spec fn key_value_of(s: Seq<char>) -> Option<(Seq<char>, Seq<char>)> {
    crate::text::split_at_first(s, '=')
}

/// The URI `s` as `http::Uri` parses and then displays it; none when it does not parse.
pub uninterp spec fn uri_display(s: Seq<char>) -> Option<Seq<char>>;

/// Whether `s` reads as a URI.
pub open spec fn uri_parses(s: Seq<char>) -> bool {
    uri_display(s) is Some
}

/// The URI `s`, parsed by `http::Uri` and displayed again.
#[verifier::external_body]
fn uri_text(s: &str) -> (res: Option<String>)
    ensures
        match res {
            Some(t) => uri_display(s@) == Some(t@),
            None => uri_display(s@) is None,
        },
{
    s.parse::<http::Uri>().ok().map(|u| u.to_string())
}

/// The key and the value of `key=value`, split at the first `=`.
pub fn parse_key_value(s: &str) -> (res: Result<(String, String), InterfaceError>)
    ensures
        match key_value_of(s@) {
            Some((k, v)) => res matches Ok((a, b)) && a@ == k && b@ == v,
            None => res matches Err(InterfaceError::KeyValueFormat(t)) && t@ == s@,
        },
{
    match crate::text::split_once(s, '=') {
        Some(kv) => Ok(kv),
        None => Err(InterfaceError::KeyValueFormat(crate::text::owned(s))),
    }
}

/// The destinations that the options name: each key bound to its URI as it is displayed
/// once parsed, a later key replacing an earlier one; the first value that is no URI makes
/// it fail.
pub open spec fn destinations_result(
    pairs: Seq<(String, String)>,
    res: Result<Destinations<String>, InterfaceError>,
) -> bool {
    let views = pairs.map_values(|p: (String, String)| (p.0@, p.1@));
    if forall|i: int| 0 <= i < pairs.len() ==> uri_parses(#[trigger] pairs[i].1@) {
        res matches Ok(d) && crate::template::string_map(d@) == bind_all(displayed(views))
    } else {
        exists|i: int| #![trigger pairs[i]]
            0 <= i < pairs.len() && !uri_parses(pairs[i].1@)
            && (forall|j: int| 0 <= j < i ==> uri_parses(#[trigger] pairs[j].1@))
            && (res matches Err(InterfaceError::InvalidUri(t)) && t@ == pairs[i].1@)
    }
}

/// The destinations `d` with each URI as `http::Uri` parses and then displays it; the
/// first URI that does not parse makes it fail.
pub fn parse_uris(d: &Destinations<String>) -> (res: Result<Destinations<String>, InterfaceError>)
    ensures
        (forall|i: int| 0 <= i < d@.len() ==> uri_parses(#[trigger] d@[i].1@)) ==> (res matches Ok(r)
            && crate::destinations::names_of(r@) == crate::destinations::names_of(d@)
            && forall|i: int| 0 <= i < d@.len() ==> (#[trigger] r@[i]).1@ == uri_display(d@[i].1@).unwrap()),
        !(forall|i: int| 0 <= i < d@.len() ==> uri_parses(#[trigger] d@[i].1@)) ==> exists|i: int|
            0 <= i < d@.len() && !uri_parses(#[trigger] d@[i].1@)
                && (forall|j: int| 0 <= j < i ==> uri_parses(#[trigger] d@[j].1@))
                && (res matches Err(InterfaceError::InvalidUri(t)) && t@ == d@[i].1@),
{
    let n = d.len();
    let mut out: Destinations<String> = Destinations::new();
    let mut i: usize = 0;
    while i < n
        invariant
            n == d@.len(),
            crate::destinations::distinct_names(d@),
            i <= n,
            forall|j: int| 0 <= j < i ==> uri_parses(#[trigger] d@[j].1@),
            out@.len() == i,
            forall|j: int| 0 <= j < i ==> (#[trigger] out@[j]).0 == d@[j].0 && out@[j].1@ == uri_display(d@[j].1@).unwrap(),
        decreases n - i,
    {
        let name = d.name_at(i);
        let uri = d.value_at(i);
        match uri_text(uri.as_str()) {
            None => {
                proof { assert(!uri_parses(d@[i as int].1@)); }
                return Err(InterfaceError::InvalidUri(uri.clone()));
            },
            Some(t) => {
                let ghost pre = out@;
                proof {
                    crate::destinations::lemma_find(pre, name@);
                    assert forall|j: int| 0 <= j < pre.len() implies pre[j].0 != name@ by {
                        assert(d@[j].0 != d@[i as int].0);
                    }
                }
                out.insert(name.clone(), t);
                proof { assert(out@ == pre.push((name@, out@[i as int].1))); }
            },
        }
        i = i + 1;
    }
    proof {
        assert(crate::destinations::names_of(out@) =~= crate::destinations::names_of(d@));
    }
    Ok(out)
}

impl Relentless {
    /// The levels at which requests are run one after the other, each once and in order.
    pub fn sequential_set(&self) -> (res: Vec<WorkerKind>)
        ensures
            res@ == kind_set(self.sequential@),
    {
        sorted_kinds(&self.sequential)
    }

    /// Whether requests are run one after the other at level `kind`.
    pub fn is_sequential(&self, kind: WorkerKind) -> (b: bool)
        ensures
            b == self.sequential@.contains(kind),
    {
        let mut i: usize = 0;
        while i < self.sequential.len()
            invariant
                i <= self.sequential@.len(),
                forall|j: int| 0 <= j < i ==> self.sequential@[j] != kind,
            decreases self.sequential@.len() - i,
        {
            if self.sequential[i] == kind {
                proof { assert(self.sequential@[i as int] == kind); }
                return true;
            }
            i = i + 1;
        }
        false
    }

    /// The levels at which metrics are reported, each once and in order; `Configs` when
    /// none are given.
    pub fn measure_set(&self) -> (res: Vec<WorkerKind>)
        ensures
            res@ == match self.measure {
                Some(m) => kind_set(m@),
                None => seq![WorkerKind::Configs],
            },
    {
        match &self.measure {
            Some(m) => sorted_kinds(m),
            None => {
                let mut v: Vec<WorkerKind> = Vec::new();
                v.push(WorkerKind::Configs);
                proof { assert(v@ =~= seq![WorkerKind::Configs]); }
                v
            },
        }
    }

    /// Whether metrics are reported at level `kind`.
    pub fn is_measure(&self, kind: WorkerKind) -> (b: bool)
        ensures
            b == match self.measure {
                Some(m) => m@.contains(kind),
                None => kind == WorkerKind::Configs,
            },
    {
        match &self.measure {
            Some(m) => {
                let mut i: usize = 0;
                while i < m.len()
                    invariant
                        self.measure == Some(*m),
                        i <= m@.len(),
                        forall|j: int| 0 <= j < i ==> m@[j] != kind,
                    decreases m@.len() - i,
                {
                    if m[i] == kind {
                        proof { assert(m@[i as int] == kind); }
                        return true;
                    }
                    i = i + 1;
                }
                proof {
                    assert(!m@.contains(kind)) by {
                        if m@.contains(kind) {
                            let j = choose|j: int| 0 <= j < m@.len() && m@[j] == kind;
                            assert(m@[j] != kind);
                        }
                    }
                }
                false
            },
            None => kind == WorkerKind::Configs,
        }
    }

    /// The destinations that the options name, each key bound to its URI.
    pub fn destinations(&self) -> (res: Result<Destinations<String>, InterfaceError>)
        ensures
            destinations_result(self.destination@, res),
    {
        let pairs = &self.destination;
        let ghost views = pairs@.map_values(|p: (String, String)| (p.0@, p.1@));
        let mut d: Destinations<String> = Destinations::new();
        let mut i: usize = 0;
        while i < pairs.len()
            invariant
                pairs@ == self.destination@,
                i <= pairs@.len(),
                views == pairs@.map_values(|p: (String, String)| (p.0@, p.1@)),
                forall|j: int| 0 <= j < i ==> uri_parses(#[trigger] pairs@[j].1@),
                crate::template::string_map(d@) == bind_all(displayed(views.take(i as int))),
            decreases pairs@.len() - i,
        {
            let (k, v) = &pairs[i];
            let text = uri_text(v.as_str());
            if text.is_none() {
                let bad = v.clone();
                proof {
                    assert(pairs@[i as int].1 == *v);
                    assert(!(forall|j: int| 0 <= j < pairs@.len() ==> uri_parses(#[trigger] pairs@[j].1@))) by {
                        assert(!uri_parses(pairs@[i as int].1@));
                    }
                    let res = Err::<Destinations<String>, InterfaceError>(InterfaceError::InvalidUri(bad));
                    assert(0 <= i < pairs@.len() && !uri_parses(pairs@[i as int].1@)
                        && (forall|j: int| 0 <= j < i ==> uri_parses(#[trigger] pairs@[j].1@))
                        && (res matches Err(InterfaceError::InvalidUri(t)) && t@ == pairs@[i as int].1@));
                }
                return Err(InterfaceError::InvalidUri(bad));
            }
            let ghost pre = d@;
            let vc = match text {
                Some(t) => t,
                None => v.clone(),
            };
            d.insert(k.clone(), vc);
            proof {
                assert(views.take(i + 1).drop_last() =~= views.take(i as int));
                assert(displayed(views.take(i + 1)).drop_last() =~= displayed(views.take(i as int)));
                crate::template::lemma_string_map_bind(pre, k@, vc);
                assert(crate::template::string_map(d@) =~= bind_all(displayed(views.take(i + 1))));
            }
            i = i + 1;
        }
        proof {
            assert(views.take(pairs@.len() as int) =~= views);
        }
        Ok(d)
    }
}

} // verus!
