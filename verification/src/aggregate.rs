//! Aggregation of measurements: counts, pass rates, time spans and latencies.
use vstd::prelude::*;
use vstd::multiset::Multiset;
use hdrhistogram::Histogram;
use crate::destinations::{Destinations, find, lookup, lemma_find, has_name, lemma_lookup_prefix};
use crate::metrics::{Metrics, elapsed};

verus! {

/// Something that gathers values one by one, can take in another of its kind, and sums
/// up what it gathered.
pub trait Aggregate: Sized {
    type Add;
    type Query;
    type Aggregate;

    /// `add` can gather this value without overflow.
    spec fn addable(&self, add: &Self::Add) -> bool;

    /// `merge` can take in `other` without overflow.
    spec fn mergeable(&self, other: &Self) -> bool;

    /// `aggregate` can sum up without overflow.
    spec fn aggregatable(&self) -> bool;

    fn add(&mut self, add: &Self::Add)
        requires
            old(self).addable(add),
    ;

    fn merge(&mut self, other: &Self)
        requires
            old(self).mergeable(other),
    ;

    fn aggregate(&self, query: &Self::Query) -> Self::Aggregate
        requires
            self.aggregatable(),
    ;
}

// ---------------------------------------------------------------------------------------
// Counting

/// Counts what it is given.
#[derive(Debug, Clone, Copy)]
pub struct CountAggregator {
    count: u64,
}

impl View for CountAggregator {
    type V = nat;

    closed spec fn view(&self) -> nat {
        self.count as nat
    }
}

impl CountAggregator {
    /// Nothing counted.
    pub fn new() -> (res: Self)
        ensures
            res@ == 0,
    {
        CountAggregator { count: 0 }
    }
}

impl Default for CountAggregator {
    fn default() -> (res: Self)
        ensures
            res@ == 0,
    {
        CountAggregator::new()
    }
}

impl Aggregate for CountAggregator {
    type Add = ();
    type Query = ();
    type Aggregate = u64;

    open spec fn addable(&self, add: &()) -> bool {
        self@ < u64::MAX
    }

    open spec fn mergeable(&self, other: &Self) -> bool {
        self@ + other@ <= u64::MAX
    }

    open spec fn aggregatable(&self) -> bool {
        true
    }

    fn add(&mut self, add: &())
        ensures
            final(self)@ == old(self)@ + 1,
    {
        self.count = self.count + 1;
    }

    fn merge(&mut self, other: &Self)
        ensures
            final(self)@ == old(self)@ + other@,
    {
        self.count = self.count + other.count;
    }

    fn aggregate(&self, query: &()) -> (res: u64)
        ensures
            res == self@,
    {
        self.count
    }
}

// ---------------------------------------------------------------------------------------
// Passing

/// Counts verdicts, and how many of them passed.
#[derive(Debug)]
pub struct PassAggregator {
    pass: u64,
    count: u64,
}

/// How many verdicts passed, out of how many.
#[derive(Debug, Clone, PartialEq, Eq, Default)]
pub struct PassAggregate {
    pub pass: u64,
    pub count: u64,
}

impl View for PassAggregator {
    type V = (nat, nat);

    closed spec fn view(&self) -> (nat, nat) {
        (self.pass as nat, self.count as nat)
    }
}

impl PassAggregator {
    #[verifier::type_invariant]
    closed spec fn inv(self) -> bool {
        self.pass <= self.count
    }

    /// No verdict.
    pub fn new() -> (res: Self)
        ensures
            res@ == (0nat, 0nat),
    {
        PassAggregator { pass: 0, count: 0 }
    }

    /// How many verdicts.
    pub fn count(&self) -> (n: u64)
        ensures
            n == self@.1,
            self@.0 <= self@.1,
    {
        proof { use_type_invariant(self); }
        self.count
    }

    /// How many verdicts passed.
    pub fn pass(&self) -> (n: u64)
        ensures
            n == self@.0,
            self@.0 <= self@.1,
    {
        proof { use_type_invariant(self); }
        self.pass
    }
}

impl Default for PassAggregator {
    fn default() -> (res: Self)
        ensures
            res@ == (0nat, 0nat),
    {
        PassAggregator::new()
    }
}

impl Clone for PassAggregator {
    fn clone(&self) -> (res: Self)
        ensures
            res@ == self@,
    {
        proof { use_type_invariant(self); }
        PassAggregator { pass: self.pass, count: self.count }
    }
}

impl Aggregate for PassAggregator {
    type Add = bool;
    type Query = ();
    type Aggregate = PassAggregate;

    open spec fn addable(&self, add: &bool) -> bool {
        self@.1 < u64::MAX
    }

    open spec fn mergeable(&self, other: &Self) -> bool {
        self@.1 + other@.1 <= u64::MAX
    }

    open spec fn aggregatable(&self) -> bool {
        true
    }

    fn add(&mut self, pass: &bool)
        ensures
            final(self)@ == (if *pass { old(self)@.0 + 1 } else { old(self)@.0 }, old(self)@.1 + 1),
    {
        proof { use_type_invariant(&*self); }
        let p = if *pass { self.pass + 1 } else { self.pass };
        *self = PassAggregator { pass: p, count: self.count + 1 };
    }

    fn merge(&mut self, other: &Self)
        ensures
            final(self)@ == (old(self)@.0 + other@.0, old(self)@.1 + other@.1),
    {
        proof {
            use_type_invariant(&*self);
            use_type_invariant(other);
        }
        *self = PassAggregator { pass: self.pass + other.pass, count: self.count + other.count };
    }

    fn aggregate(&self, query: &()) -> (res: PassAggregate)
        ensures
            res.pass == self@.0,
            res.count == self@.1,
            res.pass <= res.count,
    {
        PassAggregate { pass: self.pass(), count: self.count() }
    }
}

// ---------------------------------------------------------------------------------------
// Time spans

/// The span covering `span` and the instant `t`.
pub open spec fn span_add(span: Option<(u64, u64)>, t: u64) -> Option<(u64, u64)> {
    match span {
        None => Some((t, t)),
        Some((start, end)) => Some((if t < start { t } else { start }, if t > end { t } else { end })),
    }
}

/// The span covering both spans.
pub open spec fn span_merge(a: Option<(u64, u64)>, b: Option<(u64, u64)>) -> Option<(u64, u64)> {
    match (a, b) {
        (None, _) => b,
        (_, None) => a,
        (Some((s1, e1)), Some((s2, e2))) => Some((if s2 < s1 { s2 } else { s1 }, if e2 > e1 { e2 } else { e1 })),
    }
}

/// The span covering `span` and each instant of `ts`, added in order.
pub open spec fn span_of(span: Option<(u64, u64)>, ts: Seq<u64>) -> Option<(u64, u64)>
    decreases ts.len(),
{
    if ts.len() == 0 {
        span
    } else {
        span_add(span_of(span, ts.drop_last()), ts.last())
    }
}

/// The length of a span; zero for no span.
pub open spec fn span_length(span: Option<(u64, u64)>) -> u64 {
    match span {
        None => 0,
        Some((start, end)) => elapsed(start, end),
    }
}

/// A span starts no later than it ends.
pub open spec fn span_ordered(span: Option<(u64, u64)>) -> bool {
    match span {
        None => true,
        Some((start, end)) => start <= end,
    }
}

/// The time from the earliest to the latest timestamp it is given.
#[derive(Debug)]
pub struct DurationAggregator {
    start_end: Option<(u64, u64)>,
}

impl View for DurationAggregator {
    type V = Option<(u64, u64)>;

    closed spec fn view(&self) -> Option<(u64, u64)> {
        self.start_end
    }
}

impl DurationAggregator {
    #[verifier::type_invariant]
    closed spec fn inv(self) -> bool {
        span_ordered(self.start_end)
    }

    /// No timestamp yet, or the single timestamp `now`.
    pub fn new(now: Option<u64>) -> (res: Self)
        ensures
            res@ == (match now {
                None => None::<(u64, u64)>,
                Some(t) => Some((t, t)),
            }),
    {
        match now {
            None => DurationAggregator { start_end: None },
            Some(t) => DurationAggregator { start_end: Some((t, t)) },
        }
    }
}

impl Default for DurationAggregator {
    fn default() -> (res: Self)
        ensures
            res@ == None::<(u64, u64)>,
    {
        DurationAggregator::new(None)
    }
}

impl Clone for DurationAggregator {
    fn clone(&self) -> (res: Self)
        ensures
            res@ == self@,
    {
        proof { use_type_invariant(self); }
        DurationAggregator { start_end: self.start_end }
    }
}

impl Aggregate for DurationAggregator {
    type Add = u64;
    type Query = ();
    type Aggregate = u64;

    open spec fn addable(&self, add: &u64) -> bool {
        true
    }

    open spec fn mergeable(&self, other: &Self) -> bool {
        true
    }

    open spec fn aggregatable(&self) -> bool {
        true
    }

    fn add(&mut self, timestamp: &u64)
        ensures
            final(self)@ == span_add(old(self)@, *timestamp),
    {
        let t = *timestamp;
        match self.start_end {
            None => {
                self.start_end = Some((t, t));
            },
            Some((start, end)) => {
                let s = if t < start { t } else { start };
                let e = if t > end { t } else { end };
                self.start_end = Some((s, e));
            },
        }
    }

    fn merge(&mut self, other: &Self)
        ensures
            final(self)@ == span_merge(old(self)@, other@),
    {
        proof { use_type_invariant(other); }
        match (self.start_end, other.start_end) {
            (None, _) => {
                self.start_end = other.start_end;
            },
            (_, None) => {},
            (Some((s1, e1)), Some((s2, e2))) => {
                let s = if s2 < s1 { s2 } else { s1 };
                let e = if e2 > e1 { e2 } else { e1 };
                self.start_end = Some((s, e));
            },
        }
    }

    /// The time from the earliest to the latest timestamp; zero when there is none.
    fn aggregate(&self, query: &()) -> (res: u64)
        ensures
            res == span_length(self@),
    {
        proof { use_type_invariant(self); }
        match self.start_end {
            None => 0,
            Some((start, end)) => end - start,
        }
    }
}

// ---------------------------------------------------------------------------------------
// Bytes

/// Gathers response sizes; sizes are not measured, so there is nothing to sum up.
#[derive(Debug, Clone, Default)]
pub struct BytesAggregator {}

/// What is known of response sizes: nothing yet.
#[derive(Debug, Clone, PartialEq, Eq, PartialOrd, Ord, Default, Hash)]
pub struct BytesAggregate {}

impl Aggregate for BytesAggregator {
    type Add = ();
    type Query = ();
    type Aggregate = BytesAggregate;

    open spec fn addable(&self, add: &()) -> bool {
        true
    }

    open spec fn mergeable(&self, other: &Self) -> bool {
        true
    }

    open spec fn aggregatable(&self) -> bool {
        true
    }

    fn add(&mut self, add: &()) {
    }

    fn merge(&mut self, other: &Self) {
    }

    fn aggregate(&self, query: &()) -> (res: BytesAggregate) {
        BytesAggregate {}
    }
}

// ---------------------------------------------------------------------------------------
// Latencies

/// A `hdrhistogram::Histogram<u64>`, held where Verus does not look into it.
#[verifier::external_body]
#[derive(Debug)]
pub struct LatencyHistogram {
    pub hist: Histogram<u64>,
}

/// The values a histogram has recorded, each as often as it was recorded.
pub uninterp spec fn recorded(h: LatencyHistogram) -> Multiset<u64>;

/// The number of significant decimal digits a histogram was made with.
pub uninterp spec fn significant_digits(h: LatencyHistogram) -> nat;

/// What `Histogram::mean` gives, truncated to an integer, for a histogram with three
/// significant digits that has recorded `values`: the mean, taken in floating point, of the
/// middle values of the buckets that hold them.
pub uninterp spec fn bucket_mean(values: Multiset<u64>) -> u64;

/// `2` to the power `n`.
pub open spec fn two_to(n: nat) -> nat
    decreases n,
{
    if n == 0 { 1 } else { 2 * two_to((n - 1) as nat) }
}

/// How many low bits the bucket of `v` in a three-digit histogram leaves out: none below
/// 2048, one more for each doubling above it (the bit length of `v` less 11).
pub open spec fn bucket_shift(v: nat) -> nat
    decreases v,
{
    if v < 2048 { 0 } else { 1 + bucket_shift(v / 2) }
}

/// How many values the bucket of `v` holds.
pub open spec fn bucket_width(v: nat) -> nat {
    two_to(bucket_shift(v))
}

/// The lowest value of the bucket of `v`: `v` with its low `bucket_shift(v)` bits cleared.
pub open spec fn lowest_equivalent(v: nat) -> nat {
    (v / bucket_width(v)) * bucket_width(v)
}

/// The highest value of the bucket of `v`.
pub open spec fn highest_equivalent(v: nat) -> nat {
    (lowest_equivalent(v) + bucket_width(v) - 1) as nat
}

/// `v` is the least of `values`.
pub open spec fn is_least(values: Multiset<u64>, v: u64) -> bool {
    values.count(v) > 0 && forall|w: u64| #[trigger] values.count(w) > 0 ==> v <= w
}

/// `v` is the greatest of `values`.
pub open spec fn is_greatest(values: Multiset<u64>, v: u64) -> bool {
    values.count(v) > 0 && forall|w: u64| #[trigger] values.count(w) > 0 ==> w <= v
}

/// `m` is the lowest value of the bucket that holds the least of `values`.
pub open spec fn least_bucket_low(values: Multiset<u64>, m: u64) -> bool {
    exists|v: u64| #[trigger] is_least(values, v) && m == lowest_equivalent(v as nat)
}

/// `m` is the highest value of the bucket that holds the greatest of `values`.
pub open spec fn greatest_bucket_high(values: Multiset<u64>, m: u64) -> bool {
    exists|v: u64| #[trigger] is_greatest(values, v) && m == highest_equivalent(v as nat)
}

/// The largest value an auto-resizing histogram can record.
pub open spec fn max_recordable() -> u64 {
    0x3fff_ffff_ffff_ffff
}

/// `hdrhistogram::Histogram::<u64>::new(3)`: an auto-resizing histogram with three
/// significant digits that has recorded nothing. With these arguments the constructor
/// does not fail.
#[verifier::external_body]
fn histogram_new() -> (h: LatencyHistogram)
    ensures
        recorded(h) =~= Multiset::<u64>::empty(),
        significant_digits(h) == 3,
{
    LatencyHistogram { hist: Histogram::<u64>::new(3).expect("three significant digits are supported") }
}

/// `Histogram::record` (through `+=`): records `value` once. Values up to
/// `max_recordable()` fit after the histogram resizes itself.
#[verifier::external_body]
fn histogram_record(h: &mut LatencyHistogram, value: u64)
    requires
        value <= max_recordable(),
        recorded(*old(h)).len() < u64::MAX,
    ensures
        recorded(*final(h)) =~= recorded(*old(h)).insert(value),
        significant_digits(*final(h)) == significant_digits(*old(h)),
    no_unwind
{
    h.hist += value;
}

/// `Histogram::add` (through `+=`): records every value `other` has recorded.
#[verifier::external_body]
fn histogram_merge(h: &mut LatencyHistogram, other: &LatencyHistogram)
    requires
        recorded(*old(h)).len() + recorded(*other).len() <= u64::MAX,
        forall|v: u64| #[trigger] recorded(*other).count(v) > 0 ==> v <= max_recordable(),
    ensures
        recorded(*final(h)) =~= recorded(*old(h)).add(recorded(*other)),
        significant_digits(*final(h)) == significant_digits(*old(h)),
    no_unwind
{
    h.hist += &other.hist;
}

/// `Histogram::len`: how many values were recorded.
#[verifier::external_body]
fn histogram_len(h: &LatencyHistogram) -> (n: u64)
    requires
        recorded(*h).len() <= u64::MAX,
    ensures
        n == recorded(*h).len(),
{
    h.hist.len()
}

/// `Histogram::min`: 0 when nothing was recorded, else `lowest_equivalent` of the least
/// recorded value (with three significant digits and lowest value 1 the histogram has 2048
/// sub-buckets and unit magnitude 0, so a bucket below 2048 holds one value and the bucket of
/// a greater value leaves out its bit length less 11 low bits), which is no more than any
/// recorded value.
#[verifier::external_body]
fn histogram_min(h: &LatencyHistogram) -> (m: u64)
    requires
        significant_digits(*h) == 3,
    ensures
        recorded(*h).len() == 0 ==> m == 0,
        forall|v: u64| #[trigger] recorded(*h).count(v) > 0 ==> m <= v,
        recorded(*h).len() > 0 ==> least_bucket_low(recorded(*h), m),
{
    h.hist.min()
}

/// `Histogram::max`: 0 when nothing was recorded, else `highest_equivalent` of the greatest
/// recorded value, the highest value of its bucket, which is no less than any recorded
/// value.
#[verifier::external_body]
fn histogram_max(h: &LatencyHistogram) -> (m: u64)
    requires
        significant_digits(*h) == 3,
    ensures
        recorded(*h).len() == 0 ==> m == 0,
        forall|v: u64| #[trigger] recorded(*h).count(v) > 0 ==> v <= m,
        recorded(*h).len() > 0 ==> greatest_bucket_high(recorded(*h), m),
{
    h.hist.max()
}

/// `Histogram::mean`, truncated to an integer: 0 when nothing was recorded. Otherwise the
/// mean is taken in floating point over the middle values of the buckets, in the order of
/// the buckets, so it depends on the recorded values alone; what it is is not stated.
#[verifier::external_body]
fn histogram_mean(h: &LatencyHistogram) -> (m: u64)
    requires
        significant_digits(*h) == 3,
    ensures
        m == bucket_mean(recorded(*h)),
        recorded(*h).len() == 0 ==> m == 0,
{
    h.hist.mean() as u64
}

/// `Histogram::clone`: a histogram that has recorded the same values.
#[verifier::external_body]
fn histogram_clone(h: &LatencyHistogram) -> (c: LatencyHistogram)
    ensures
        recorded(c) == recorded(*h),
        significant_digits(c) == significant_digits(*h),
{
    LatencyHistogram { hist: h.hist.clone() }
}

/// Latencies, in microseconds, gathered in a histogram.
#[derive(Debug)]
pub struct LatencyAggregator {
    hist: LatencyHistogram,
}

/// Latencies summed up, in microseconds: the least, the mean, the values at the asked
/// quantiles, the greatest.
#[derive(Debug, Clone, PartialEq, Eq, Default)]
pub struct LatencyAggregate {
    pub min: u64,
    pub mean: u64,
    pub quantile: Vec<u64>,
    pub max: u64,
}

impl View for LatencyAggregator {
    type V = Multiset<u64>;

    closed spec fn view(&self) -> Multiset<u64> {
        recorded(self.hist)
    }
}

/// `a` sums up the latencies `values` as a three-digit histogram does: 0 for none; else the
/// lowest value of the bucket of the least value and the highest value of the bucket of the
/// greatest, which bound every value; and the mean of the histogram's buckets.
pub open spec fn sums_up(values: Multiset<u64>, a: LatencyAggregate) -> bool {
    summed_latencies(values, a.min, a.mean, a.max)
}

/// `min`, `mean` and `max` sum up the latencies `values` as a three-digit histogram does.
pub open spec fn summed_latencies(values: Multiset<u64>, min: u64, mean: u64, max: u64) -> bool {
    &&& values.len() == 0 ==> min == 0 && max == 0 && mean == 0
    &&& forall|v: u64| #[trigger] values.count(v) > 0 ==> min <= v && v <= max
    &&& values.len() > 0 ==> least_bucket_low(values, min) && greatest_bucket_high(values, max)
    &&& mean == bucket_mean(values)
}

/// The latency of a request in microseconds, as it is recorded.
pub open spec fn latency_micros(nanos: u64) -> u64 {
    (nanos / 1000) as u64
}

impl LatencyAggregator {
    #[verifier::type_invariant]
    closed spec fn inv(self) -> bool {
        &&& forall|v: u64| #[trigger] recorded(self.hist).count(v) > 0 ==> v <= max_recordable()
        &&& recorded(self.hist).len() <= u64::MAX
        &&& significant_digits(self.hist) == 3
    }

    /// No latency.
    pub fn new() -> (res: Self)
        ensures
            res@ =~= Multiset::<u64>::empty(),
    {
        LatencyAggregator { hist: histogram_new() }
    }

    /// How many latencies were gathered.
    pub fn len(&self) -> (n: u64)
        ensures
            n == self@.len(),
    {
        proof { use_type_invariant(self); }
        histogram_len(&self.hist)
    }

    /// The least latency, to three significant digits: the lowest value of the bucket of the
    /// least gathered one, no more than any gathered one; 0 when there is none.
    pub fn min(&self) -> (m: u64)
        ensures
            self@.len() == 0 ==> m == 0,
            forall|v: u64| #[trigger] self@.count(v) > 0 ==> m <= v,
            self@.len() > 0 ==> least_bucket_low(self@, m),
    {
        proof { use_type_invariant(self); }
        histogram_min(&self.hist)
    }

    /// The mean latency, over the buckets of the histogram; 0 when there is none.
    pub fn mean(&self) -> (m: u64)
        ensures
            m == bucket_mean(self@),
            self@.len() == 0 ==> m == 0,
    {
        proof { use_type_invariant(self); }
        histogram_mean(&self.hist)
    }

    /// The greatest latency, to three significant digits: the highest value of the bucket of
    /// the greatest gathered one, no less than any gathered one; 0 when there is none.
    pub fn max(&self) -> (m: u64)
        ensures
            self@.len() == 0 ==> m == 0,
            forall|v: u64| #[trigger] self@.count(v) > 0 ==> v <= m,
            self@.len() > 0 ==> greatest_bucket_high(self@, m),
    {
        proof { use_type_invariant(self); }
        histogram_max(&self.hist)
    }

    /// The histogram itself, to read quantiles from.
    pub fn histogram(&self) -> (h: &LatencyHistogram)
        ensures
            recorded(*h) == self@,
    {
        &self.hist
    }
}

impl Default for LatencyAggregator {
    fn default() -> (res: Self)
        ensures
            res@ =~= Multiset::<u64>::empty(),
    {
        LatencyAggregator::new()
    }
}

impl Clone for LatencyAggregator {
    fn clone(&self) -> (res: Self)
        ensures
            res@ == self@,
    {
        proof { use_type_invariant(self); }
        LatencyAggregator { hist: histogram_clone(&self.hist) }
    }
}

impl Aggregate for LatencyAggregator {
    type Add = u64;
    type Query = ();
    type Aggregate = LatencyAggregate;

    open spec fn addable(&self, add: &u64) -> bool {
        self@.len() < u64::MAX
    }

    open spec fn mergeable(&self, other: &Self) -> bool {
        self@.len() + other@.len() <= u64::MAX
    }

    open spec fn aggregatable(&self) -> bool {
        true
    }

    /// Records a latency given in nanoseconds, in microseconds.
    fn add(&mut self, latency: &u64)
        ensures
            final(self)@ =~= old(self)@.insert(latency_micros(*latency)),
    {
        proof { use_type_invariant(&*self); }
        let micros = *latency / 1000;
        histogram_record(&mut self.hist, micros);
        proof {
            assert forall|v: u64| #[trigger] recorded(self.hist).count(v) > 0 implies v <= max_recordable() by {
                if v != micros {
                    assert(recorded(self.hist).count(v) == old(self)@.count(v));
                }
            }
        }
    }

    fn merge(&mut self, other: &Self)
        ensures
            final(self)@ =~= old(self)@.add(other@),
    {
        proof {
            use_type_invariant(&*self);
            use_type_invariant(other);
        }
        histogram_merge(&mut self.hist, &other.hist);
    }

    /// The least, the mean and the greatest latency; quantiles are read from the histogram.
    fn aggregate(&self, query: &()) -> (res: LatencyAggregate)
        ensures
            sums_up(self@, res),
            res.quantile@.len() == 0,
    {
        LatencyAggregate { min: self.min(), mean: self.mean(), quantile: Vec::new(), max: self.max() }
    }
}


// ---------------------------------------------------------------------------------------
// Responses

/// What is gathered of responses: how many, the span of their timestamps, their latencies.
pub type ResponseView = (nat, Option<(u64, u64)>, Multiset<u64>);

/// Nothing gathered.
pub open spec fn empty_response() -> ResponseView {
    (0nat, None::<(u64, u64)>, Multiset::<u64>::empty())
}

/// What is gathered once the metrics `m` are added.
pub open spec fn response_add(v: ResponseView, m: Metrics) -> ResponseView {
    (v.0 + 1, span_add(v.1, m.timestamp), v.2.insert(latency_micros(elapsed(m.duration.0, m.duration.1))))
}

/// What is gathered of both.
pub open spec fn response_merge(a: ResponseView, b: ResponseView) -> ResponseView {
    (a.0 + b.0, span_merge(a.1, b.1), a.2.add(b.2))
}

/// Counts, spans and latencies of responses.
#[derive(Debug)]
pub struct ResponseAggregator {
    count: CountAggregator,
    duration: DurationAggregator,
    bytes: BytesAggregator,
    latency: LatencyAggregator,
}

/// Responses summed up: how many, over how long, their sizes and latencies.
#[derive(Debug, Clone, PartialEq, Eq, Default)]
pub struct ResponseAggregate {
    pub req: u64,
    pub duration: Option<u64>,
    pub bytes: BytesAggregate,
    pub latency: LatencyAggregate,
}

impl View for ResponseAggregator {
    type V = ResponseView;

    closed spec fn view(&self) -> ResponseView {
        (self.count@, self.duration@, self.latency@)
    }
}

impl ResponseAggregator {
    /// Nothing gathered; the span starts at `now` when it is given.
    pub fn new(now: Option<u64>) -> (res: Self)
        ensures
            res@ == (0nat, match now {
                None => None::<(u64, u64)>,
                Some(t) => Some((t, t)),
            }, Multiset::<u64>::empty()),
    {
        ResponseAggregator {
            count: CountAggregator::new(),
            duration: DurationAggregator::new(now),
            bytes: BytesAggregator {},
            latency: LatencyAggregator::new(),
        }
    }
}

impl ResponseAggregator {
    /// How many responses, and how many latencies, were gathered.
    pub fn counts(&self) -> (res: (u64, u64))
        ensures
            res.0 == self@.0,
            res.1 == self@.2.len(),
    {
        (self.count.aggregate(&()), self.latency.len())
    }

    /// The latencies gathered.
    pub fn latency(&self) -> (res: &LatencyAggregator)
        ensures
            res@ == self@.2,
    {
        &self.latency
    }
}

impl Default for ResponseAggregator {
    fn default() -> (res: Self)
        ensures
            res@ == empty_response(),
    {
        ResponseAggregator::new(None)
    }
}

impl Clone for ResponseAggregator {
    fn clone(&self) -> (res: Self)
        ensures
            res@ == self@,
    {
        ResponseAggregator {
            count: self.count,
            duration: self.duration.clone(),
            bytes: BytesAggregator {},
            latency: self.latency.clone(),
        }
    }
}

impl Aggregate for ResponseAggregator {
    type Add = Metrics;
    type Query = ();
    type Aggregate = ResponseAggregate;

    open spec fn addable(&self, add: &Metrics) -> bool {
        self@.0 < u64::MAX && self@.2.len() < u64::MAX
    }

    open spec fn mergeable(&self, other: &Self) -> bool {
        self@.0 + other@.0 <= u64::MAX && self@.2.len() + other@.2.len() <= u64::MAX
    }

    open spec fn aggregatable(&self) -> bool {
        true
    }

    fn add(&mut self, res: &Metrics)
        ensures
            final(self)@ == response_add(old(self)@, *res),
    {
        self.count.add(&());
        self.duration.add(&res.timestamp());
        self.bytes.add(&());
        self.latency.add(&res.latency());
    }

    fn merge(&mut self, other: &Self)
        ensures
            final(self)@ == response_merge(old(self)@, other@),
    {
        self.count.merge(&other.count);
        self.duration.merge(&other.duration);
        self.bytes.merge(&other.bytes);
        self.latency.merge(&other.latency);
    }

    fn aggregate(&self, query: &()) -> (res: ResponseAggregate)
        ensures
            res.req == self@.0,
            res.duration == Some(span_length(self@.1)),
            sums_up(self@.2, res.latency),
    {
        ResponseAggregate {
            req: self.count.aggregate(&()),
            duration: Some(self.duration.aggregate(&())),
            bytes: self.bytes.aggregate(&()),
            latency: self.latency.aggregate(&()),
        }
    }
}

// ---------------------------------------------------------------------------------------
// Evaluations

/// The view of the aggregator bound to `k`, if any.
pub open spec fn view_lookup(d: Seq<(Seq<char>, ResponseAggregator)>, k: Seq<char>) -> Option<ResponseView> {
    match lookup(d, k) {
        Some(r) => Some(r@),
        None => None,
    }
}

/// The view of the aggregator bound to `k`, or nothing gathered when there is none.
pub open spec fn view_or_empty(d: Seq<(Seq<char>, ResponseAggregator)>, k: Seq<char>) -> ResponseView {
    match view_lookup(d, k) {
        Some(v) => v,
        None => empty_response(),
    }
}

/// One more response fits in the counters of `v`.
pub open spec fn response_addable(v: ResponseView) -> bool {
    v.0 < u64::MAX && v.2.len() < u64::MAX
}

/// The responses of `a` and `b` together fit in the counters.
pub open spec fn response_mergeable(a: ResponseView, b: ResponseView) -> bool {
    a.0 + b.0 <= u64::MAX && a.2.len() + b.2.len() <= u64::MAX
}

/// What `k` looks up to once the metrics of `dst` are added to `old`.
pub open spec fn added_lookup(
    old: Seq<(Seq<char>, ResponseAggregator)>,
    dst: Seq<(Seq<char>, Option<Metrics>)>,
    k: Seq<char>,
) -> Option<ResponseView> {
    match lookup(dst, k) {
        Some(Some(m)) => Some(response_add(
            match view_lookup(old, k) {
                Some(v) => v,
                None => empty_response(),
            },
            m,
        )),
        _ => view_lookup(old, k),
    }
}

/// What `k` looks up to once `other` is merged into `old`.
pub open spec fn merged_lookup(
    old: Seq<(Seq<char>, ResponseAggregator)>,
    other: Seq<(Seq<char>, ResponseAggregator)>,
    k: Seq<char>,
) -> Option<ResponseView> {
    match view_lookup(other, k) {
        Some(o) => Some(response_merge(
            match view_lookup(old, k) {
                Some(v) => v,
                None => empty_response(),
            },
            o,
        )),
        None => view_lookup(old, k),
    }
}

/// Verdicts, and what is gathered of the responses of each destination.
#[derive(Debug)]
pub struct EvaluateAggregator {
    pass: PassAggregator,
    destinations: Destinations<ResponseAggregator>,
}

/// Verdicts and responses summed up.
#[derive(Debug, Clone, PartialEq, Eq, Default)]
pub struct EvaluateAggregate {
    pub pass: PassAggregate,
    pub response: ResponseAggregate,
}

impl EvaluateAggregator {
    /// The verdicts.
    pub closed spec fn pass_view(&self) -> (nat, nat) {
        self.pass@
    }

    /// What is gathered of each destination.
    pub closed spec fn destinations_view(&self) -> Seq<(Seq<char>, ResponseAggregator)> {
        self.destinations@
    }

    /// No verdict; nothing gathered of each destination of `dst`, whose spans start at `now`.
    pub fn new<T>(dst: &Destinations<T>, now: Option<u64>) -> (res: Self)
        ensures
            res.pass_view() == (0nat, 0nat),
            crate::destinations::names_of(res.destinations_view()) == crate::destinations::names_of(dst@),
            forall|i: int| 0 <= i < dst@.len() ==> (#[trigger] res.destinations_view()[i]).1@ == (0nat, match now {
                None => None::<(u64, u64)>,
                Some(t) => Some((t, t)),
            }, Multiset::<u64>::empty()),
    {
        let mut destinations: Destinations<ResponseAggregator> = Destinations::new();
        let n = dst.len();
        let mut i: usize = 0;
        while i < n
            invariant
                n == dst@.len(),
                crate::destinations::distinct_names(dst@),
                i <= n,
                destinations@.len() == i,
                forall|j: int| 0 <= j < i ==> (#[trigger] destinations@[j]).0 == dst@[j].0,
                forall|j: int| 0 <= j < i ==> (#[trigger] destinations@[j]).1@ == (0nat, match now {
                    None => None::<(u64, u64)>,
                    Some(t) => Some((t, t)),
                }, Multiset::<u64>::empty()),
            decreases n - i,
        {
            let name = dst.name_at(i).clone();
            let ghost pre = destinations@;
            proof {
                lemma_find(pre, name@);
                assert forall|j: int| 0 <= j < pre.len() implies pre[j].0 != name@ by {
                    assert(dst@[j].0 != dst@[i as int].0);
                }
            }
            destinations.insert(name, ResponseAggregator::new(now));
            i = i + 1;
        }
        proof {
            assert(crate::destinations::names_of(destinations@) =~= crate::destinations::names_of(dst@));
        }
        EvaluateAggregator { pass: PassAggregator::new(), destinations }
    }

    /// Whether `add` can gather `add` without overflow.
    pub fn can_add(&self, add: &(bool, Destinations<Option<Metrics>>)) -> (b: bool)
        ensures
            b == self.addable(add),
    {
        if self.pass.count() == u64::MAX {
            return false;
        }
        let d = &add.1;
        let n = d.len();
        let mut i: usize = 0;
        while i < n
            invariant
                n == d@.len(),
                d@ == add.1@,
                crate::destinations::distinct_names(d@),
                i <= n,
                forall|j: int| 0 <= j < i ==> (#[trigger] d@[j]).1 is Some ==>
                    response_addable(view_or_empty(self.destinations@, d@[j].0)),
            decreases n - i,
        {
            if d.value_at(i).is_some() {
                match self.destinations.get(d.name_at(i).as_str()) {
                    Some(r) => {
                        let (c, l) = r.counts();
                        if c == u64::MAX || l == u64::MAX {
                            proof {
                                crate::destinations::lemma_find_distinct(d@, i as int);
                                assert(lookup(add.1@, d@[i as int].0) == Some(d@[i as int].1));
                                assert(view_or_empty(self.destinations_view(), d@[i as int].0) == r@);
                                assert(!response_addable(view_or_empty(self.destinations_view(), d@[i as int].0)));
                            }
                            return false;
                        }
                    },
                    None => {},
                }
            }
            i = i + 1;
        }
        proof {
            assert forall|k: Seq<char>| #[trigger] lookup(add.1@, k) matches Some(Some(m)) implies
                response_addable(view_or_empty(self.destinations_view(), k)) by {
                lemma_find(d@, k);
            }
        }
        true
    }

    /// Whether `merge` can take in `other` without overflow.
    pub fn can_merge(&self, other: &Self) -> (b: bool)
        ensures
            b == self.mergeable(other),
    {
        let (a, c) = (self.pass.count(), other.pass.count());
        if a > u64::MAX - c {
            return false;
        }
        let d = &other.destinations;
        let n = d.len();
        let mut i: usize = 0;
        while i < n
            invariant
                n == d@.len(),
                d@ == other.destinations@,
                crate::destinations::distinct_names(d@),
                i <= n,
                forall|j: int| 0 <= j < i ==>
                    response_mergeable(view_or_empty(self.destinations@, (#[trigger] d@[j]).0), d@[j].1@),
            decreases n - i,
        {
            let (oc, ol) = d.value_at(i).counts();
            let (sc, sl) = match self.destinations.get(d.name_at(i).as_str()) {
                Some(r) => r.counts(),
                None => (0, 0),
            };
            if sc > u64::MAX - oc || sl > u64::MAX - ol {
                proof {
                    let k = d@[i as int].0;
                    crate::destinations::lemma_find_distinct(d@, i as int);
                    assert(view_lookup(other.destinations_view(), k) == Some(d@[i as int].1@));
                    assert(view_or_empty(self.destinations_view(), k).0 == sc);
                    assert(view_or_empty(self.destinations_view(), k).2.len() == sl);
                    assert(!response_mergeable(view_or_empty(self.destinations_view(), k), d@[i as int].1@));
                }
                return false;
            }
            i = i + 1;
        }
        proof {
            assert forall|k: Seq<char>| #[trigger] view_lookup(other.destinations_view(), k) is Some implies
                response_mergeable(view_or_empty(self.destinations_view(), k), view_lookup(other.destinations_view(), k).unwrap()) by {
                lemma_find(d@, k);
            }
        }
        true
    }

    /// Whether `aggregate` can sum up without overflow.
    pub fn can_aggregate(&self) -> (b: bool)
        ensures
            b == self.aggregatable(),
    {
        let d = &self.destinations;
        let n = d.len();
        let mut responses: u64 = 0;
        let mut latencies: u64 = 0;
        let mut i: usize = 0;
        while i < n
            invariant
                n == d@.len(),
                d@ == self.destinations@,
                i <= n,
                responses == total_responses(d@.subrange(0, i as int)),
                latencies == total_latencies(d@.subrange(0, i as int)),
            decreases n - i,
        {
            let (c, l) = d.value_at(i).counts();
            proof {
                assert(d@.subrange(0, i + 1).drop_last() =~= d@.subrange(0, i as int));
                assert(d@.subrange(0, i + 1).last() == d@[i as int]);
                lemma_totals_prefix(d@, i + 1);
            }
            if responses > u64::MAX - c || latencies > u64::MAX - l {
                return false;
            }
            responses = responses + c;
            latencies = latencies + l;
            i = i + 1;
        }
        proof { assert(d@.subrange(0, n as int) =~= d@); }
        true
    }

    /// What was gathered of all destinations, merged into one.
    pub fn responses_merged(&self) -> (res: ResponseAggregator)
        requires
            total_responses(self.destinations_view()) <= u64::MAX,
            total_latencies(self.destinations_view()) <= u64::MAX,
        ensures
            res@.0 == total_responses(self.destinations_view()),
            res@.2.len() == total_latencies(self.destinations_view()),
            res@.2 == all_latencies(self.destinations_view()),
            res@.1 == all_spans(self.destinations_view()),
    {
        let mut agg = ResponseAggregator::new(None);
        let n = self.destinations.len();
        let ghost d = self.destinations_view();
        let mut i: usize = 0;
        while i < n
            invariant
                n == d.len(),
                d == self.destinations_view(),
                total_responses(d) <= u64::MAX,
                total_latencies(d) <= u64::MAX,
                i <= n,
                agg@.0 == total_responses(d.subrange(0, i as int)),
                agg@.2.len() == total_latencies(d.subrange(0, i as int)),
                agg@.2 == all_latencies(d.subrange(0, i as int)),
                agg@.1 == all_spans(d.subrange(0, i as int)),
            decreases n - i,
        {
            let r = self.destinations.value_at(i);
            proof {
                assert(d.subrange(0, i + 1).drop_last() =~= d.subrange(0, i as int));
                lemma_totals_prefix(d, i + 1);
            }
            agg.merge(r);
            i = i + 1;
        }
        proof {
            assert(d.subrange(0, n as int) =~= d);
        }
        agg
    }

    /// All responses of all destinations summed up as one.
    pub fn aggregate_responses(&self, query: &()) -> (res: ResponseAggregate)
        requires
            total_responses(self.destinations_view()) <= u64::MAX,
            total_latencies(self.destinations_view()) <= u64::MAX,
        ensures
            res.req == total_responses(self.destinations_view()),
            res.duration == Some(span_length(all_spans(self.destinations_view()))),
            sums_up(all_latencies(self.destinations_view()), res.latency),
    {
        self.responses_merged().aggregate(query)
    }
}

/// How many responses were gathered over all destinations.
pub open spec fn total_responses(d: Seq<(Seq<char>, ResponseAggregator)>) -> nat
    decreases d.len(),
{
    if d.len() == 0 { 0 } else { total_responses(d.drop_last()) + d.last().1@.0 }
}

/// The span of the responses of all destinations: their spans merged, starting from none.
pub open spec fn all_spans(d: Seq<(Seq<char>, ResponseAggregator)>) -> Option<(u64, u64)>
    decreases d.len(),
{
    if d.len() == 0 { None } else { span_merge(all_spans(d.drop_last()), d.last().1@.1) }
}

/// The latencies gathered over all destinations.
pub open spec fn all_latencies(d: Seq<(Seq<char>, ResponseAggregator)>) -> Multiset<u64>
    decreases d.len(),
{
    if d.len() == 0 { Multiset::empty() } else { all_latencies(d.drop_last()).add(d.last().1@.2) }
}

/// How many latencies were gathered over all destinations.
pub open spec fn total_latencies(d: Seq<(Seq<char>, ResponseAggregator)>) -> nat
    decreases d.len(),
{
    if d.len() == 0 { 0 } else { total_latencies(d.drop_last()) + d.last().1@.2.len() }
}

/// The totals of a prefix are no more than those of the whole.
proof fn lemma_totals_prefix(d: Seq<(Seq<char>, ResponseAggregator)>, i: int)
    requires
        0 <= i <= d.len(),
    ensures
        total_responses(d.subrange(0, i)) <= total_responses(d),
        total_latencies(d.subrange(0, i)) <= total_latencies(d),
    decreases d.len() - i,
{
    if i < d.len() {
        lemma_totals_prefix(d, i + 1);
        assert(d.subrange(0, i + 1).drop_last() =~= d.subrange(0, i));
    } else {
        assert(d.subrange(0, i) =~= d);
    }
}

impl Aggregate for EvaluateAggregator {
    type Add = (bool, Destinations<Option<Metrics>>);
    type Query = ();
    type Aggregate = EvaluateAggregate;

    open spec fn addable(&self, add: &(bool, Destinations<Option<Metrics>>)) -> bool {
        &&& self.pass_view().1 < u64::MAX
        &&& forall|k: Seq<char>| #[trigger] lookup(add.1@, k) matches Some(Some(m)) ==>
                response_addable(view_or_empty(self.destinations_view(), k))
    }

    open spec fn mergeable(&self, other: &Self) -> bool {
        &&& self.pass_view().1 + other.pass_view().1 <= u64::MAX
        &&& forall|k: Seq<char>| #[trigger] view_lookup(other.destinations_view(), k) matches Some(o) ==>
                response_mergeable(view_or_empty(self.destinations_view(), k), o)
    }

    open spec fn aggregatable(&self) -> bool {
        total_responses(self.destinations_view()) <= u64::MAX && total_latencies(self.destinations_view()) <= u64::MAX
    }

    /// Adds the verdict, and the metrics of each destination that has some.
    fn add(&mut self, add: &(bool, Destinations<Option<Metrics>>))
        ensures
            final(self).pass_view() == (if add.0 { old(self).pass_view().0 + 1 } else { old(self).pass_view().0 }, old(self).pass_view().1 + 1),
            forall|k: Seq<char>| #[trigger] view_lookup(final(self).destinations_view(), k)
                == added_lookup(old(self).destinations_view(), add.1@, k),
    {
        let (pass, dst) = add;
        self.pass.add(pass);
        let ghost final_pass = self.pass@;
        let ghost orig = self.destinations@;
        let n = dst.len();
        let mut i: usize = 0;
        proof {
            assert forall|k: Seq<char>| #[trigger] view_lookup(self.destinations@, k) == added_lookup(orig, dst@.subrange(0, 0), k) by {
                lemma_find(dst@.subrange(0, 0), k);
            }
        }
        while i < n
            invariant
                n == dst@.len(),
                crate::destinations::distinct_names(dst@),
                i <= n,
                self.pass@ == final_pass,
                forall|k: Seq<char>| #[trigger] lookup(dst@, k) matches Some(Some(m)) ==>
                    response_addable(view_or_empty(orig, k)),
                forall|k: Seq<char>| #[trigger] view_lookup(self.destinations@, k) == added_lookup(orig, dst@.subrange(0, i as int), k),
            decreases n - i,
        {
            let ghost name = dst@[i as int].0;
            proof {
                crate::destinations::lemma_find_distinct(dst@, i as int);
                lemma_find(dst@.subrange(0, i as int), name);
                assert forall|j: int| 0 <= j < i implies dst@.subrange(0, i as int)[j].0 != name by {
                    assert(dst@[j].0 != dst@[i as int].0);
                }
                assert forall|k: Seq<char>| #[trigger] added_lookup(orig, dst@.subrange(0, i + 1), k)
                    == (if k == name {
                        match dst@[i as int].1 {
                            Some(m) => Some(response_add(match view_lookup(orig, k) { Some(v) => v, None => empty_response() }, m)),
                            None => view_lookup(orig, k),
                        }
                    } else { added_lookup(orig, dst@.subrange(0, i as int), k) }) by {
                    lemma_lookup_prefix(dst@, i as int, k);
                }
            }
            match dst.value_at(i) {
                Some(m) => {
                    let ghost cur = self.destinations@;
                    let j = self.destinations.position_or_insert(dst.name_at(i).clone(), ResponseAggregator::new(None));
                    let ghost cur1 = self.destinations@;
                    proof {
                        crate::destinations::lemma_lookup_bind(cur, name, cur1.last().1, name);
                        crate::destinations::lemma_find_distinct(cur1, j as int);
                    }
                    let mut r = self.destinations.replace_at(j, ResponseAggregator::new(None));
                    let ghost cur2 = self.destinations@;
                    proof {
                        assert(view_lookup(cur, name) == added_lookup(orig, dst@.subrange(0, i as int), name));
                        assert(lookup(dst@.subrange(0, i as int), name) is None);
                        assert(view_lookup(cur, name) == view_lookup(orig, name));
                        lemma_find(cur, name);
                        lemma_find(cur1, name);
                        assert(lookup(cur1, name) == Some(r));
                        if has_name(cur, name) {
                            assert(r@ == view_or_empty(orig, name));
                        } else {
                            assert(r@ == empty_response());
                            assert(view_lookup(orig, name) is None);
                        }
                        assert(r@ == view_or_empty(orig, name));
                        assert(lookup(dst@, name) == Some(Some(*m)));
                    }
                    r.add(m);
                    self.destinations.replace_at(j, r);
                    proof {
                        assert forall|k: Seq<char>| #[trigger] view_lookup(self.destinations@, k)
                            == added_lookup(orig, dst@.subrange(0, i + 1), k) by {
                            crate::destinations::lemma_lookup_update(cur2, j as int, r, k);
                            crate::destinations::lemma_lookup_update(cur1, j as int, cur2[j as int].1, k);
                            assert(view_lookup(cur, k) == added_lookup(orig, dst@.subrange(0, i as int), k));
                            if !has_name(cur, name) {
                                crate::destinations::lemma_lookup_bind(cur, name, cur1.last().1, k);
                                assert(cur1 == crate::destinations::bind(cur, name, cur1.last().1));
                            }
                        }
                    }
                },
                None => {},
            }
            i = i + 1;
        }
        proof {
            assert(dst@.subrange(0, n as int) =~= dst@);
        }
    }

    /// Merges the verdicts, and what is gathered of each destination.
    fn merge(&mut self, other: &Self)
        ensures
            final(self).pass_view() == (old(self).pass_view().0 + other.pass_view().0, old(self).pass_view().1 + other.pass_view().1),
            forall|k: Seq<char>| #[trigger] view_lookup(final(self).destinations_view(), k)
                == merged_lookup(old(self).destinations_view(), other.destinations_view(), k),
    {
        self.pass.merge(&other.pass);
        let ghost final_pass = self.pass@;
        let ghost orig = self.destinations@;
        let od = &other.destinations;
        let n = od.len();
        let mut i: usize = 0;
        proof {
            assert forall|k: Seq<char>| #[trigger] view_lookup(self.destinations@, k) == merged_lookup(orig, od@.subrange(0, 0), k) by {
                lemma_find(od@.subrange(0, 0), k);
            }
        }
        while i < n
            invariant
                n == od@.len(),
                crate::destinations::distinct_names(od@),
                i <= n,
                self.pass@ == final_pass,
                forall|k: Seq<char>| #[trigger] view_lookup(od@, k) matches Some(o) ==>
                    response_mergeable(view_or_empty(orig, k), o),
                forall|k: Seq<char>| #[trigger] view_lookup(self.destinations@, k) == merged_lookup(orig, od@.subrange(0, i as int), k),
            decreases n - i,
        {
            let ghost name = od@[i as int].0;
            proof {
                crate::destinations::lemma_find_distinct(od@, i as int);
                lemma_find(od@.subrange(0, i as int), name);
                assert forall|j: int| 0 <= j < i implies od@.subrange(0, i as int)[j].0 != name by {
                    assert(od@[j].0 != od@[i as int].0);
                }
                assert forall|k: Seq<char>| #[trigger] merged_lookup(orig, od@.subrange(0, i + 1), k)
                    == (if k == name {
                        Some(response_merge(match view_lookup(orig, k) { Some(v) => v, None => empty_response() }, od@[i as int].1@))
                    } else { merged_lookup(orig, od@.subrange(0, i as int), k) }) by {
                    lemma_lookup_prefix(od@, i as int, k);
                }
                assert(view_lookup(od@, name) == Some(od@[i as int].1@));
            }
            let ghost cur = self.destinations@;
            let j = self.destinations.position_or_insert(od.name_at(i).clone(), ResponseAggregator::new(None));
            let ghost cur1 = self.destinations@;
            proof {
                crate::destinations::lemma_lookup_bind(cur, name, cur1.last().1, name);
                crate::destinations::lemma_find_distinct(cur1, j as int);
            }
            let mut r = self.destinations.replace_at(j, ResponseAggregator::new(None));
            let ghost cur2 = self.destinations@;
            proof {
                assert(view_lookup(cur, name) == merged_lookup(orig, od@.subrange(0, i as int), name));
                lemma_find(cur, name);
                lemma_find(cur1, name);
                assert(r@ == view_or_empty(orig, name));
                assert(view_lookup(od@, name) matches Some(o) && response_mergeable(view_or_empty(orig, name), o));
            }
            r.merge(od.value_at(i));
            self.destinations.replace_at(j, r);
            proof {
                assert forall|k: Seq<char>| #[trigger] view_lookup(self.destinations@, k)
                    == merged_lookup(orig, od@.subrange(0, i + 1), k) by {
                    crate::destinations::lemma_lookup_update(cur2, j as int, r, k);
                    crate::destinations::lemma_lookup_update(cur1, j as int, cur2[j as int].1, k);
                    assert(view_lookup(cur, k) == merged_lookup(orig, od@.subrange(0, i as int), k));
                    if !has_name(cur, name) {
                        crate::destinations::lemma_lookup_bind(cur, name, cur1.last().1, k);
                        assert(cur1 == crate::destinations::bind(cur, name, cur1.last().1));
                    }
                }
            }
            i = i + 1;
        }
        proof {
            assert(od@.subrange(0, n as int) =~= od@);
        }
    }

    /// The verdicts summed up, and all responses of all destinations summed up as one.
    fn aggregate(&self, query: &()) -> (res: EvaluateAggregate)
        ensures
            res.pass.pass == self.pass_view().0,
            res.pass.count == self.pass_view().1,
            res.response.req == total_responses(self.destinations_view()),
            res.response.duration == Some(span_length(all_spans(self.destinations_view()))),
            sums_up(all_latencies(self.destinations_view()), res.response.latency),
    {
        EvaluateAggregate { pass: self.pass.aggregate(&()), response: self.aggregate_responses(query) }
    }
}

impl Default for EvaluateAggregator {
    fn default() -> (res: Self)
        ensures
            res.pass_view() == (0nat, 0nat),
            res.destinations_view().len() == 0,
    {
        EvaluateAggregator { pass: PassAggregator::new(), destinations: Destinations::new() }
    }
}

impl Clone for EvaluateAggregator {
    /// The same verdicts, and for each destination what was gathered of it.
    fn clone(&self) -> (res: Self)
        ensures
            res.pass_view() == self.pass_view(),
            forall|k: Seq<char>| #[trigger] view_lookup(res.destinations_view(), k) == view_lookup(self.destinations_view(), k),
    {
        let destinations = self.destinations.clone();
        let res = EvaluateAggregator { pass: self.pass.clone(), destinations };
        proof {
            let a = self.destinations@;
            let b = res.destinations@;
            assert forall|k: Seq<char>| #[trigger] view_lookup(b, k) == view_lookup(a, k) by {
                crate::destinations::lemma_find_names(a, b, k);
                lemma_find(a, k);
                let i = find(a, k);
                if i >= 0 {
                    assert(cloned::<ResponseAggregator>(a[i].1, b[i].1));
                    assert(b[i].1@ == a[i].1@);
                }
            }
        }
        res
    }
}

} // verus!
