//! Configurations of testcases, and how settings fill each other's gaps.
use vstd::prelude::*;
use crate::destinations::{Destinations, overridden};
use crate::template::Template;

verus! {

/// Filling the gaps of `self` with what `other` has.
pub trait Coalesce<O = Self>: Sized {
    /// `res` is `self` with its gaps filled from `other`.
    spec fn coalesces(self, other: O, res: Self) -> bool;

    fn coalesce(self, other: O) -> (res: Self)
        ensures
            self.coalesces(other, res),
    ;
}

/// `steps` starts at `base` and fills each step's gaps from the next of `others`.
pub open spec fn coalesce_steps<T: Coalesce<O>, O>(base: T, others: Seq<O>, steps: Seq<T>) -> bool {
    &&& steps.len() == others.len() + 1
    &&& steps[0] == base
    &&& forall|i: int| 0 <= i < others.len() ==> #[trigger] steps[i].coalesces(others[i], steps[i + 1])
}

/// A configuration, and what fills its gaps.
#[derive(Debug, Clone)]
pub struct Coalesced<T, O> {
    base: T,
    coalesced: Vec<O>,
}

impl<T, O> Coalesced<T, O> {
    /// The configuration itself.
    pub closed spec fn base_view(&self) -> T {
        self.base
    }

    /// What fills its gaps, in order.
    pub closed spec fn others_view(&self) -> Seq<O> {
        self.coalesced@
    }

    /// `base`, with its gaps filled from each of `coalesced` in turn.
    pub fn new(base: T, coalesced: Vec<O>) -> (res: Self)
        ensures
            res.base_view() == base,
            res.others_view() == coalesced@,
    {
        Coalesced { base, coalesced }
    }

    /// `base`, with its gaps filled from `other`.
    pub fn tuple(base: T, other: O) -> (res: Self)
        ensures
            res.base_view() == base,
            res.others_view() == seq![other],
    {
        let mut coalesced = Vec::new();
        coalesced.push(other);
        proof {
            assert(coalesced@ =~= seq![other]);
        }
        Coalesced { base, coalesced }
    }

    /// The configuration itself.
    pub fn base(&self) -> (res: &T)
        ensures
            *res == self.base_view(),
    {
        &self.base
    }
}

impl<T: Clone + Coalesce<O>, O: Clone> Coalesced<T, O> {
    /// The configuration with all gaps filled: a clone of the base, filled from clones of
    /// each of the others in turn.
    pub fn coalesce(&self) -> (res: T)
        ensures
            exists|b: T, os: Seq<O>, steps: Seq<T>| #![trigger coalesce_steps(b, os, steps)]
                cloned::<T>(self.base_view(), b)
                && os.len() == self.others_view().len()
                && (forall|i: int| 0 <= i < os.len() ==> cloned::<O>(self.others_view()[i], #[trigger] os[i]))
                && coalesce_steps(b, os, steps)
                && res == steps.last(),
    {
        let mut acc = self.base.clone();
        let ghost b = acc;
        let ghost mut os: Seq<O> = Seq::empty();
        let ghost mut steps: Seq<T> = seq![acc];
        let mut i: usize = 0;
        while i < self.coalesced.len()
            invariant
                i <= self.coalesced@.len(),
                cloned::<T>(self.base, b),
                os.len() == i,
                forall|j: int| 0 <= j < i ==> cloned::<O>(self.coalesced@[j], #[trigger] os[j]),
                coalesce_steps(b, os, steps),
                acc == steps.last(),
            decreases self.coalesced@.len() - i,
        {
            let o = self.coalesced[i].clone();
            acc = acc.coalesce(o);
            proof {
                let ghost pre_os = os;
                let ghost pre_steps = steps;
                os = os.push(o);
                steps = steps.push(acc);
                assert forall|j: int| 0 <= j < os.len() implies #[trigger] steps[j].coalesces(os[j], steps[j + 1]) by {
                    if j < pre_os.len() {
                        assert(pre_steps[j].coalesces(pre_os[j], pre_steps[j + 1]));
                    }
                }
            }
            i = i + 1;
        }
        acc
    }
}

/// How many times a request is repeated; once when not given.
#[derive(Debug, Clone, Copy, PartialEq, Eq, Default, Structural)]
pub struct Repeat(pub Option<usize>);

impl Repeat {
    /// The number of repeats.
    pub open spec fn spec_times(&self) -> nat {
        match self.0 {
            Some(n) => n as nat,
            None => 1,
        }
    }

    /// The indices of the repeats, from 0.
    pub fn range(&self) -> (r: std::ops::Range<usize>)
        ensures
            r.start == 0,
            r.end == self.spec_times(),
    {
        0..self.times()
    }

    /// The number of repeats.
    pub fn times(&self) -> (n: usize)
        ensures
            n == self.spec_times(),
    {
        match self.0 {
            Some(n) => n,
            None => 1,
        }
    }
}

impl Coalesce for Repeat {
    /// The number of repeats of `self` when given, else that of `other`.
    open spec fn coalesces(self, other: Repeat, res: Repeat) -> bool {
        res == (if self.0 is Some { self } else { other })
    }

    fn coalesce(self, other: Repeat) -> (res: Repeat) {
        let r = if self.0.is_some() { self } else { other };
        assert(r == (if self.0 is Some { self } else { other }));
        assert(self.coalesces(other, r));
        r
    }
}

/// How serious a failure is: allowed, a warning, or an error.
#[derive(Debug, Clone, Copy, PartialEq, Eq, PartialOrd, Ord, Hash, Structural)]
pub enum Severity {
    Allow,
    Warn,
    Error,
}

/// Attributes of a testcase.
#[derive(Debug, Clone, Copy, PartialEq, Eq, Default, Structural)]
pub struct Attribute {
    /// A failure of the testcase is allowed.
    pub allow: bool,
}

/// One expectation for all destinations, or one for each.
#[derive(Debug, Clone)]
pub enum EvaluateTo<T> {
    All(T),
    Destinations(Destinations<T>),
}

/// What a request carries and what its response is held to.
#[derive(Debug, Clone)]
pub struct Setting<Q, P> {
    pub request: Q,
    pub template: Destinations<Template>,
    pub repeat: Repeat,
    /// In nanoseconds.
    pub timeout: Option<u64>,
    pub response: P,
}

impl<Q: Coalesce, P: Coalesce> Coalesce for Setting<Q, P> {
    /// Each part of `self` that is not given is taken from `other`: the request and the
    /// response by their own rules, the templates when `self` has none.
    open spec fn coalesces(self, other: Setting<Q, P>, res: Setting<Q, P>) -> bool {
        &&& self.request.coalesces(other.request, res.request)
        &&& res.template == (if self.template@.len() == 0 { other.template } else { self.template })
        &&& self.repeat.coalesces(other.repeat, res.repeat)
        &&& res.timeout == (match self.timeout {
                Some(t) => Some(t),
                None => other.timeout,
            })
        &&& self.response.coalesces(other.response, res.response)
    }

    fn coalesce(self, other: Setting<Q, P>) -> (res: Setting<Q, P>) {
        let Setting { request, template, repeat, timeout, response } = self;
        let Setting { request: o_request, template: o_template, repeat: o_repeat, timeout: o_timeout, response: o_response } = other;
        Setting {
            request: request.coalesce(o_request),
            template: if template.is_empty() { o_template } else { template },
            repeat: repeat.coalesce(o_repeat),
            timeout: match timeout {
                Some(t) => Some(t),
                None => o_timeout,
            },
            response: response.coalesce(o_response),
        }
    }
}

/// One testcase: a target, and how it is requested and judged.
#[derive(Debug, Clone)]
pub struct Testcase<Q, P> {
    pub description: Option<String>,
    pub target: String,
    pub setting: Setting<Q, P>,
    pub attr: Attribute,
}

impl<Q: Coalesce, P: Coalesce> Coalesce<Setting<Q, P>> for Testcase<Q, P> {
    /// The setting of the testcase filled from `other`; the rest unchanged.
    open spec fn coalesces(self, other: Setting<Q, P>, res: Testcase<Q, P>) -> bool {
        &&& res.description == self.description
        &&& res.target == self.target
        &&& self.setting.coalesces(other, res.setting)
        &&& res.attr == self.attr
    }

    fn coalesce(self, other: Setting<Q, P>) -> (res: Testcase<Q, P>) {
        let Testcase { description, target, setting, attr } = self;
        Testcase { description, target, setting: setting.coalesce(other), attr }
    }
}

/// The part of a configuration that its testcases share.
#[derive(Debug, Clone)]
pub struct WorkerConfig<Q, P> {
    pub name: Option<String>,
    /// The URI of each destination.
    pub destinations: Destinations<String>,
    pub setting: Setting<Q, P>,
}

impl<Q, P> Coalesce<Destinations<String>> for WorkerConfig<Q, P> {
    /// The URIs of the destinations replaced by those of `other` where it names them.
    open spec fn coalesces(self, other: Destinations<String>, res: WorkerConfig<Q, P>) -> bool {
        &&& res.name == self.name
        &&& res.destinations@ == overridden(self.destinations@, other@)
        &&& res.setting == self.setting
    }

    fn coalesce(self, other: Destinations<String>) -> (res: WorkerConfig<Q, P>) {
        let WorkerConfig { name, destinations, setting } = self;
        let mut destinations = destinations;
        destinations.override_with(other);
        WorkerConfig { name, destinations, setting }
    }
}

/// A configuration file: what its testcases share, and the testcases.
#[derive(Debug, Clone)]
pub struct Config<Q, P> {
    pub worker_config: WorkerConfig<Q, P>,
    pub testcases: Vec<Testcase<Q, P>>,
}

/// The formats a configuration file can be written in.
#[derive(Debug, Clone, Copy, PartialEq, Eq, Hash, Structural)]
pub enum Format {
    Json,
    Yaml,
    Toml,
}

/// Why the format of a file cannot be told.
#[derive(Debug, Clone, PartialEq, Eq)]
pub enum FormatError {
    /// The extension names no known format.
    UnknownFormatExtension(String),
    /// The file has no extension.
    CannotSpecifyFormat,
}

impl FormatError {
    /// The text of the error, as it is displayed.
    pub fn message(&self) -> (res: String)
        ensures
            res@ == match self {
                FormatError::UnknownFormatExtension(s) => "`"@ + s@ + "` is unknown extension format"@,
                FormatError::CannotSpecifyFormat => "cannot specify format"@,
            },
    {
        match self {
            FormatError::UnknownFormatExtension(s) => {
                let mut m = String::from_str("`");
                m.append(s.as_str());
                m.append("` is unknown extension format");
                m
            },
            FormatError::CannotSpecifyFormat => String::from_str("cannot specify format"),
        }
    }
}

/// The extension of the file that `path` names, as `std::path::Path::extension` reads it.
pub uninterp spec fn path_extension_of(path: Seq<char>) -> Option<Seq<char>>;

/// The extension of the file that `path` names, if it has one.
#[verifier::external_body]
fn path_extension(path: &str) -> (res: Option<String>)
    ensures
        match res {
            Some(e) => path_extension_of(path@) == Some(e@),
            None => path_extension_of(path@) is None,
        },
{
    std::path::Path::new(path).extension().and_then(|e| e.to_str()).map(|e| e.to_string())
}

/// The format an extension stands for: `json`, `yaml` or `yml`, `toml`.
pub open spec fn format_of_extension(ext: Seq<char>) -> Option<Format> {
    if ext == "json"@ {
        Some(Format::Json)
    } else if ext == "yaml"@ || ext == "yml"@ {
        Some(Format::Yaml)
    } else if ext == "toml"@ {
        Some(Format::Toml)
    } else {
        None
    }
}

/// What the format of a file with extension `ext` is told to be.
pub open spec fn format_result(ext: Option<Seq<char>>, res: Result<Format, FormatError>) -> bool {
    match ext {
        None => res == Err::<Format, FormatError>(FormatError::CannotSpecifyFormat),
        Some(e) => match format_of_extension(e) {
            Some(f) => res == Ok::<Format, FormatError>(f),
            None => res matches Err(FormatError::UnknownFormatExtension(x)) && x@ == e,
        },
    }
}

impl Format {
    /// The format of a file with extension `ext`.
    pub fn from_extension(ext: Option<&str>) -> (res: Result<Format, FormatError>)
        ensures
            format_result(
                match ext {
                    Some(e) => Some(e@),
                    None => None,
                },
                res,
            ),
    {
        proof {
            reveal_strlit("json");
            reveal_strlit("yaml");
            reveal_strlit("yml");
            reveal_strlit("toml");
        }
        match ext {
            None => Err(FormatError::CannotSpecifyFormat),
            Some(e) => {
                if crate::text::str_eq(e, "json") {
                    Ok(Format::Json)
                } else if crate::text::str_eq(e, "yaml") || crate::text::str_eq(e, "yml") {
                    Ok(Format::Yaml)
                } else if crate::text::str_eq(e, "toml") {
                    Ok(Format::Toml)
                } else {
                    Err(FormatError::UnknownFormatExtension(crate::text::owned(e)))
                }
            },
        }
    }

    /// The format of the file that `path` names, told by its extension.
    pub fn from_path(path: &str) -> (res: Result<Format, FormatError>)
        ensures
            format_result(path_extension_of(path@), res),
    {
        let ext = path_extension(path);
        match ext {
            Some(e) => Format::from_extension(Some(e.as_str())),
            None => Format::from_extension(None),
        }
    }
}

/// The repeat that `base` has once filled from each of `others` in turn.
pub open spec fn repeat_after(base: Repeat, others: Seq<Repeat>) -> Repeat
    decreases others.len(),
{
    if others.len() == 0 {
        base
    } else {
        let r = repeat_after(base, others.drop_last());
        match r.0 {
            Some(_) => r,
            None => others.last(),
        }
    }
}

/// The repeats of a sequence of settings.
pub open spec fn repeats_of<Q, P>(s: Seq<Setting<Q, P>>) -> Seq<Repeat> {
    s.map_values(|x: Setting<Q, P>| x.repeat)
}

impl<Q: Coalesce, P: Coalesce> Coalesced<Testcase<Q, P>, Setting<Q, P>> {
    /// The repeat of the testcase once its gaps are filled.
    pub closed spec fn repeat_view(&self) -> Repeat {
        repeat_after(self.base.setting.repeat, repeats_of(self.coalesced@))
    }

    /// The repeat of the testcase once its gaps are filled, read without filling them.
    pub fn repeat(&self) -> (r: Repeat)
        ensures
            r == self.repeat_view(),
    {
        let mut r = self.base.setting.repeat;
        let mut i: usize = 0;
        while i < self.coalesced.len()
            invariant
                i <= self.coalesced@.len(),
                r == repeat_after(self.base.setting.repeat, repeats_of(self.coalesced@).take(i as int)),
            decreases self.coalesced@.len() - i,
        {
            proof {
                assert(repeats_of(self.coalesced@).take(i + 1).drop_last() =~= repeats_of(self.coalesced@).take(i as int));
            }
            r = r.coalesce(self.coalesced[i].repeat);
            i = i + 1;
        }
        proof {
            assert(repeats_of(self.coalesced@).take(self.coalesced@.len() as int) =~= repeats_of(self.coalesced@));
        }
        r
    }
}

/// Filling the gaps of a testcase step by step ends with the repeat that `repeat_after`
/// gives.
pub proof fn lemma_steps_repeat<Q: Coalesce, P: Coalesce>(
    base: Testcase<Q, P>,
    others: Seq<Setting<Q, P>>,
    steps: Seq<Testcase<Q, P>>,
)
    requires
        coalesce_steps(base, others, steps),
    ensures
        steps.last().setting.repeat == repeat_after(base.setting.repeat, repeats_of(others)),
    decreases others.len(),
{
    if others.len() > 0 {
        let n = others.len() - 1;
        lemma_steps_repeat(base, others.drop_last(), steps.drop_last());
        assert(repeats_of(others.drop_last()) =~= repeats_of(others).drop_last());
        assert(steps[n].coalesces(others[n], steps[n + 1]));
    }
}

/// `base` with the URIs replaced by those of each of `others` in turn.
pub open spec fn overridden_all(base: Seq<(Seq<char>, String)>, others: Seq<Seq<(Seq<char>, String)>>) -> Seq<(Seq<char>, String)>
    decreases others.len(),
{
    if others.len() == 0 {
        base
    } else {
        overridden(overridden_all(base, others.drop_last()), others.last())
    }
}

/// The views of a sequence of destinations.
pub open spec fn destination_views(s: Seq<Destinations<String>>) -> Seq<Seq<(Seq<char>, String)>> {
    s.map_values(|d: Destinations<String>| d@)
}

/// A clone of destinations with string values has the same view.
proof fn lemma_clone_view(a: Seq<(Seq<char>, String)>, b: Seq<(Seq<char>, String)>)
    requires
        a.len() == b.len(),
        forall|i: int| 0 <= i < a.len() ==> (#[trigger] b[i]).0 == a[i].0 && cloned::<String>(a[i].1, b[i].1),
    ensures
        a == b,
{
    assert forall|i: int| 0 <= i < a.len() implies a[i] == b[i] by {
        assert(b[i].0 == a[i].0);
        assert(b[i].1 == a[i].1);
    }
    assert(a =~= b);
}

impl<Q, P> Coalesced<WorkerConfig<Q, P>, Destinations<String>> {
    /// The URIs of the destinations once every override is applied.
    pub fn destinations(&self) -> (res: Destinations<String>)
        ensures
            res@ == overridden_all(self.base_view().destinations@, destination_views(self.others_view())),
    {
        let mut d = self.base.destinations.clone();
        proof { lemma_clone_view(self.base.destinations@, d@); }
        let mut i: usize = 0;
        while i < self.coalesced.len()
            invariant
                i <= self.coalesced@.len(),
                d@ == overridden_all(self.base.destinations@, destination_views(self.coalesced@).take(i as int)),
            decreases self.coalesced@.len() - i,
        {
            let o = self.coalesced[i].clone();
            proof {
                lemma_clone_view(self.coalesced@[i as int]@, o@);
                assert(destination_views(self.coalesced@).take(i + 1).drop_last() =~= destination_views(self.coalesced@).take(i as int));
            }
            d.override_with(o);
            i = i + 1;
        }
        proof {
            assert(destination_views(self.coalesced@).take(self.coalesced@.len() as int) =~= destination_views(self.coalesced@));
        }
        d
    }
}

} // verus!
