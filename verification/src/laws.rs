//! What holds of the library as a whole, over the models its contracts speak of.
use vstd::prelude::*;
use crate::aggregate::{span_add, span_merge, span_of, response_add, response_merge, empty_response, ResponseView};
use crate::metrics::Metrics;
use crate::command::{kind_set, key_value_of, WorkerKind};
use crate::config::{Coalesce, Repeat};
use crate::destinations::{overridden, lookup, names_of, distinct_names, lemma_find};
use crate::reportable::{Reportable, CaseReport, Report, written, lines_of};
use crate::threshold::{pass_class, latency_class, rank, Classification};
use crate::template::{render_spec, literal_run, is_literal_char, tokens_from, token_at, Token, split_spec, assign_all};
use crate::transpose::{swapped, nested_lookup, entry_at, longest, column, gathered};
use crate::destinations::Destinations;
use crate::evaluate::{JsonEvaluator, JsonEvaluateError};
use crate::router::{OriginRouter, lookup_folded, ascii_lower, lemma_lookup_folded};
use crate::aggregate::{all_spans, ResponseAggregator};
use crate::request::{HttpRequest, PreparedRequest, ProduceError, body_headers, content_type_of};
use crate::worker::produced;
use crate::evaluate::HttpStatus;
use crate::aggregate::{lowest_equivalent, highest_equivalent, bucket_width, bucket_shift, two_to};

verus! {

/// Two spans merged cover the same as merged the other way round.
pub proof fn law_span_merge_commutative(a: Option<(u64, u64)>, b: Option<(u64, u64)>)
    ensures
        span_merge(a, b) == span_merge(b, a),
{
}

/// Merging spans is associative.
pub proof fn law_span_merge_associative(a: Option<(u64, u64)>, b: Option<(u64, u64)>, c: Option<(u64, u64)>)
    ensures
        span_merge(span_merge(a, b), c) == span_merge(a, span_merge(b, c)),
{
}

/// Adding an instant to a span is merging in the span of that instant alone.
pub proof fn law_span_add_is_merge(span: Option<(u64, u64)>, t: u64)
    ensures
        span_add(span, t) == span_merge(span, Some((t, t))),
{
}

/// Gathering instants in two parts and merging the spans covers what gathering all of
/// them in one does.
pub proof fn law_span_of_concat(span: Option<(u64, u64)>, a: Seq<u64>, b: Seq<u64>)
    ensures
        span_of(span, a + b) == span_merge(span_of(span, a), span_of(None, b)),
    decreases b.len(),
{
    if b.len() == 0 {
        assert(a + b =~= a);
    } else {
        law_span_of_concat(span, a, b.drop_last());
        assert((a + b).drop_last() =~= a + b.drop_last());
        assert((a + b).last() == b.last());
    }
}

/// Merging what was gathered of responses is commutative.
pub proof fn law_response_merge_commutative(a: ResponseView, b: ResponseView)
    ensures
        response_merge(a, b) == response_merge(b, a),
{
    assert(a.2.add(b.2) =~= b.2.add(a.2));
}

/// Merging what was gathered of responses is associative.
pub proof fn law_response_merge_associative(a: ResponseView, b: ResponseView, c: ResponseView)
    ensures
        response_merge(response_merge(a, b), c) == response_merge(a, response_merge(b, c)),
{
    assert(a.2.add(b.2).add(c.2) =~= a.2.add(b.2.add(c.2)));
}

/// The repeat of `self` wins when it is given; no repeat fills from the other.
pub proof fn law_repeat_coalesce(a: Repeat, b: Repeat, r: Repeat)
    requires
        a.coalesces(b, r),
    ensures
        a.0 is Some ==> r == a,
        a.0 is None ==> r == b,
        r.spec_times() == (if a.0 is Some { a.spec_times() } else { b.spec_times() }),
{
}

/// Filling repeats is associative: filling from `b` then from `c` is filling from `b`
/// filled from `c`.
pub proof fn law_repeat_coalesce_associative(a: Repeat, b: Repeat, c: Repeat, ab: Repeat, abc: Repeat, bc: Repeat, a_bc: Repeat)
    requires
        a.coalesces(b, ab),
        ab.coalesces(c, abc),
        b.coalesces(c, bc),
        a.coalesces(bc, a_bc),
    ensures
        abc == a_bc,
{
}

/// A repeat that is not given changes nothing, on either side.
pub proof fn law_repeat_coalesce_identity(a: Repeat, r1: Repeat, r2: Repeat)
    requires
        Repeat(None).coalesces(a, r1),
        a.coalesces(Repeat(None), r2),
    ensures
        r1 == a,
        r2 == a,
{
}

/// Overriding destinations keeps their names, in order, and changes only the values of
/// the names the overrides bind.
pub proof fn law_override_keeps_names<T>(d: Seq<(Seq<char>, T)>, e: Seq<(Seq<char>, T)>, k: Seq<char>)
    requires
        distinct_names(d),
    ensures
        names_of(overridden(d, e)) == names_of(d),
        lookup(overridden(d, e), k) == (match lookup(d, k) {
            None => None,
            Some(v) => match lookup(e, k) {
                Some(w) => Some(w),
                None => Some(v),
            },
        }),
{
    let o = overridden(d, e);
    assert(names_of(o) =~= names_of(d));
    crate::destinations::lemma_find_names(d, o, k);
    lemma_find(d, k);
}

/// A report that passes is allowed, strict or not.
pub proof fn law_pass_implies_allow<T, Q: Coalesce, P: Coalesce>(r: CaseReport<T, Q, P>, strict: bool)
    requires
        r.passes(),
    ensures
        r.allows(strict),
{
}

/// What a strict run allows, a run that is not strict allows too.
pub proof fn law_strict_allows_less<T, Q: Coalesce, P: Coalesce>(r: CaseReport<T, Q, P>)
    requires
        r.allows(true),
    ensures
        r.allows(false),
{
}

/// A strict run allows a testcase exactly when it passes.
pub proof fn law_strict_allow_is_pass<T, Q: Coalesce, P: Coalesce>(r: CaseReport<T, Q, P>)
    ensures
        r.allows(true) == r.passes(),
{
}

/// A pass rate is good exactly when every verdict passed.
pub proof fn law_pass_class_good(pass: nat, count: nat)
    requires
        pass <= count,
    ensures
        (pass_class(pass, count) == Classification::Good) == (pass == count),
{
}

/// The kinds are sorted and each is there once: taking the set again changes nothing.
pub proof fn law_kind_set_idempotent(v: Seq<WorkerKind>)
    ensures
        kind_set(kind_set(v)) == kind_set(v),
{
    let s = kind_set(v);
    let r = seq![WorkerKind::Repeats];
    let t = seq![WorkerKind::Testcases];
    let c = seq![WorkerKind::Configs];
    assert(s.contains(WorkerKind::Repeats) == v.contains(WorkerKind::Repeats)) by {
        if v.contains(WorkerKind::Repeats) { assert(s[0] == WorkerKind::Repeats); }
    }
    assert(s.contains(WorkerKind::Testcases) == v.contains(WorkerKind::Testcases)) by {
        if v.contains(WorkerKind::Testcases) {
            let i = if v.contains(WorkerKind::Repeats) { 1int } else { 0int };
            assert(s[i] == WorkerKind::Testcases);
        }
    }
    assert(s.contains(WorkerKind::Configs) == v.contains(WorkerKind::Configs)) by {
        if v.contains(WorkerKind::Configs) {
            assert(s[s.len() - 1] == WorkerKind::Configs);
        }
    }
    assert(kind_set(s) =~= s);
}

/// What is read of `key=value` puts the text back together: the key, `=`, the value; and
/// the key holds no `=`.
pub proof fn law_key_value_roundtrip(s: Seq<char>)
    requires
        key_value_of(s) is Some,
    ensures
        ({
            let (k, v) = key_value_of(s).unwrap();
            &&& k + seq!['='] + v == s
            &&& !k.contains('=')
        }),
{
    s.index_of_first_ensures('=');
    let i = s.index_of_first('=').unwrap();
    assert(s.take(i) + seq!['='] + s.skip(i + 1) =~= s);
    assert(!s.take(i).contains('=')) by {
        if s.take(i).contains('=') {
            let j = choose|j: int| 0 <= j < s.take(i).len() && s.take(i)[j] == '=';
            assert(s[j] == '=');
        }
    }
}

/// Writing two pieces of text without line breaks one after the other writes what
/// writing them as one does.
pub proof fn law_written_concat(a: Seq<char>, b: Seq<char>, indent: Seq<char>, at_start: bool)
    requires
        !a.contains('\n'),
        !b.contains('\n'),
    ensures
        written(a, indent, at_start) + written(b, indent, false) == written(a + b, indent, at_start),
{
    assert(!(a + b).contains('\n')) by {
        if (a + b).contains('\n') {
            let j = choose|j: int| 0 <= j < (a + b).len() && (a + b)[j] == '\n';
            if j < a.len() {
                assert(a[j] == '\n');
            } else {
                assert(b[j - a.len()] == '\n');
            }
        }
    }
    assert(written(a, indent, at_start) + written(b, indent, false) =~= written(a + b, indent, at_start));
}

/// A text with a line break is written as whole lines: what is written ends with one.
pub proof fn law_written_lines_end(s: Seq<char>, indent: Seq<char>, at_start: bool)
    requires
        s.contains('\n'),
    ensures
        written(s, indent, at_start).len() > 0,
        written(s, indent, at_start).last() == '\n',
{
    crate::reportable::lemma_lines_nonempty(s);
    lemma_indented_last(lines_of(s), indent, at_start);
}

/// What `indented` writes of at least one line ends with a line break.
proof fn lemma_indented_last(lines: Seq<Seq<char>>, indent: Seq<char>, at_start: bool)
    requires
        lines.len() > 0,
    ensures
        crate::reportable::indented(lines, indent, at_start).len() > 0,
        crate::reportable::indented(lines, indent, at_start).last() == '\n',
    decreases lines.len(),
{
    let head = (if at_start { indent } else { Seq::empty() }) + lines[0] + seq!['\n'];
    if lines.len() == 1 {
        assert(lines.drop_first().len() == 0);
        assert(crate::reportable::indented(lines.drop_first(), indent, true) =~= Seq::<char>::empty());
        assert(crate::reportable::indented(lines, indent, at_start) =~= head);
    } else {
        lemma_indented_last(lines.drop_first(), indent, true);
        let rest = crate::reportable::indented(lines.drop_first(), indent, true);
        assert(crate::reportable::indented(lines, indent, at_start) =~= head + rest);
    }
}

/// What is gathered of the metrics `ms`, added one by one to `v`.
pub open spec fn responses_added(v: ResponseView, ms: Seq<Metrics>) -> ResponseView
    decreases ms.len(),
{
    if ms.len() == 0 {
        v
    } else {
        response_add(responses_added(v, ms.drop_last()), ms.last())
    }
}

/// Gathering responses in two aggregators and merging them gathers what one aggregator
/// given all of the responses does: the counts add up, the spans cover both, the latencies
/// are all there.
pub proof fn law_merge_gathers_all(v: ResponseView, a: Seq<Metrics>, b: Seq<Metrics>)
    ensures
        responses_added(v, a + b) == response_merge(responses_added(v, a), responses_added(empty_response(), b)),
    decreases b.len(),
{
    if b.len() == 0 {
        assert(a + b =~= a);
        let x = responses_added(v, a);
        assert(x.2.add(vstd::multiset::Multiset::empty()) =~= x.2);
    } else {
        law_merge_gathers_all(v, a, b.drop_last());
        assert((a + b).drop_last() =~= a + b.drop_last());
        assert((a + b).last() == b.last());
        let x = responses_added(v, a);
        let y = responses_added(empty_response(), b.drop_last());
        let m = b.last();
        let l = crate::aggregate::latency_micros(crate::metrics::elapsed(m.duration.0, m.duration.1));
        assert(x.2.add(y.2).insert(l) =~= x.2.add(y.2.insert(l)));
    }
}


/// Turning the values of each variable at each destination inside out twice gives back
/// what each variable is bound to at each destination.
pub proof fn law_transpose_twice<V>(
    d: Seq<(Seq<char>, Destinations<V>)>,
    e: Seq<(Seq<char>, Destinations<V>)>,
    f: Seq<(Seq<char>, Destinations<V>)>,
    a: Seq<char>,
    b: Seq<char>,
)
    requires
        swapped(d, e),
        swapped(e, f),
    ensures
        nested_lookup(f, a, b) == nested_lookup(d, a, b),
{
    assert(nested_lookup(f, a, b) == nested_lookup(e, b, a));
}

/// The values the first `r` rows bind `k` to are the first `r` of its sequence.
proof fn lemma_column_prefix<T>(
    d: Seq<(Seq<char>, Vec<T>)>,
    rows: Seq<Destinations<T>>,
    k: Seq<char>,
    r: int,
)
    requires
        0 <= r <= rows.len(),
        forall|i: int, x: Seq<char>| 0 <= i < rows.len() ==> #[trigger] lookup(rows[i]@, x) == entry_at(d, x, i),
    ensures
        column(rows.subrange(0, r), k) == (match lookup(d, k) {
            Some(v) => if r < v@.len() { v@.subrange(0, r) } else { v@ },
            None => Seq::<T>::empty(),
        }),
    decreases r,
{
    if r > 0 {
        lemma_column_prefix(d, rows, k, r - 1);
        let w = rows.subrange(0, r);
        assert(w.drop_last() =~= rows.subrange(0, r - 1));
        assert(lookup(w.last()@, k) == entry_at(d, k, r - 1));
        match lookup(d, k) {
            Some(v) => {
                if r - 1 < v@.len() {
                    assert(v@.subrange(0, r - 1).push(v@[r - 1]) =~= v@.subrange(0, r));
                }
                if r == v@.len() {
                    assert(v@.subrange(0, r) =~= v@);
                }
            },
            None => {},
        }
    } else {
        match lookup(d, k) {
            Some(v) => {
                if v@.len() == 0 {
                    assert(v@ =~= Seq::<T>::empty());
                } else {
                    assert(v@.subrange(0, 0) =~= Seq::<T>::empty());
                }
            },
            None => {},
        }
    }
}

/// Named sequences turned into rows and the rows back into named sequences give back each
/// name's sequence; a name bound to no value at all is left out.
pub proof fn law_rows_then_columns<T>(
    d: Seq<(Seq<char>, Vec<T>)>,
    rows: Seq<Destinations<T>>,
    back: Seq<(Seq<char>, Vec<T>)>,
    k: Seq<char>,
)
    requires
        distinct_names(d),
        rows.len() == longest(d),
        forall|i: int, x: Seq<char>| 0 <= i < rows.len() ==> #[trigger] lookup(rows[i]@, x) == entry_at(d, x, i),
        gathered(rows, back),
    ensures
        match lookup(d, k) {
            Some(v) if v@.len() > 0 => lookup(back, k) matches Some(c) && c@ == v@,
            _ => lookup(back, k) is None,
        },
{
    lemma_column_prefix(d, rows, k, rows.len() as int);
    assert(rows.subrange(0, rows.len() as int) =~= rows);
    match lookup(d, k) {
        Some(v) => {
            if v@.len() > 0 {
                crate::transpose::lemma_longest_bounds(d, k);
                assert(v@.subrange(0, v@.len() as int) =~= v@);
            }
        },
        None => {},
    }
}


/// From `i` on, a text of literal characters is one run of them.
proof fn lemma_literal_run_all(s: Seq<char>, i: int)
    requires
        0 <= i <= s.len(),
        forall|j: int| 0 <= j < s.len() ==> is_literal_char(#[trigger] s[j]),
    ensures
        literal_run(s, i) == s.len() - i,
    decreases s.len() - i,
{
    if i < s.len() {
        lemma_literal_run_all(s, i + 1);
    }
}

/// A text with neither `$` nor `{` renders to itself, whatever the variables and the
/// environment.
pub proof fn law_plain_text_renders_to_itself(
    s: Seq<char>,
    vars: Seq<(Seq<char>, Seq<char>)>,
    env: Seq<(Seq<char>, Seq<char>)>,
)
    requires
        forall|j: int| 0 <= j < s.len() ==> s[j] != '$' && s[j] != '{',
    ensures
        render_spec(s, vars, env) == Ok::<Seq<char>, crate::template::Failure>(s),
{
    assert forall|j: int| 0 <= j < s.len() implies is_literal_char(#[trigger] s[j]) by {}
    lemma_literal_run_all(s, 0);
    lemma_literal_run_all(s, s.len() as int);
    let n = s.len() as int;
    if n > 0 {
        if n >= 2 {
            assert(s.subrange(0, 2)[0] == s[0]);
        }
        if n >= 6 {
            assert(s.subrange(0, 6)[0] == s[0]);
        }
        assert(token_at(s, 0) == Some((Token::Literal(s.subrange(0, n)), n)));
        assert(token_at(s, n) is None);
        assert(tokens_from(s, n) == (Seq::<Token>::empty(), n));
        assert(tokens_from(s, 0) == (seq![Token::Literal(s.subrange(0, n))] + Seq::<Token>::empty(), n));
        assert(s.subrange(0, n) =~= s);
        let ts = seq![Token::Literal(s)];
        assert(ts.drop_last() =~= Seq::<Token>::empty());
        assert(split_spec(s) == Ok::<Seq<Token>, crate::template::Failure>(ts)) by {
            assert(seq![Token::Literal(s.subrange(0, n))] + Seq::<Token>::empty() =~= ts);
        }
        assert(ts.last() == Token::Literal(s));
        assert(assign_all(ts.drop_last(), vars, env) == Ok::<Seq<char>, crate::template::Failure>(Seq::<char>::empty()));
        assert(assign_all(ts, vars, env) == Ok::<Seq<char>, crate::template::Failure>(Seq::<char>::empty() + s));
        assert(Seq::<char>::empty() + s =~= s);
    } else {
        assert(token_at(s, 0) is None);
        assert(s =~= Seq::<char>::empty());
    }
}

/// A longer latency never gets a better grade.
pub proof fn law_latency_class_monotone(a: u64, b: u64)
    requires
        a <= b,
    ensures
        rank(latency_class(a)) <= rank(latency_class(b)),
{
}

/// Out of the same count, more passes never give a worse grade.
pub proof fn law_pass_class_monotone(p: nat, q: nat, count: nat)
    requires
        p <= q <= count,
    ensures
        rank(pass_class(q, count)) <= rank(pass_class(p, count)),
{
}

/// JSON bodies that all parse, hold the same bytes and get the same patch, or none, pass
/// the comparison without a message.
pub proof fn law_same_json_bodies_pass(
    j: JsonEvaluator,
    d: Seq<(Seq<char>, Seq<u8>)>,
    m0: Seq<JsonEvaluateError>,
    m1: Seq<JsonEvaluateError>,
    res: bool,
)
    requires
        j.json_judged(d, m0, m1, res),
        j.docs_ok(d),
        forall|i: int| #![trigger d[i]] 0 <= i < d.len() ==> d[i].1 == d[0].1 && j.patch_of(d[i].0) == j.patch_of(d[0].0),
    ensures
        res,
        m1 == m0,
{
    assert forall|i: int| 1 <= i < d.len() implies #[trigger] j.same_doc_at(d, i) by {
        assert(d[i - 1].1 == d[0].1 && j.patch_of(d[i - 1].0) == j.patch_of(d[0].0));
        assert(d[i].1 == d[0].1 && j.patch_of(d[i].0) == j.patch_of(d[0].0));
    }
}

/// Every value lies in its own bucket, from its lowest to its highest value, and a value
/// below 2048 is a bucket by itself.
pub proof fn law_value_in_its_bucket(v: nat)
    ensures
        lowest_equivalent(v) <= v <= highest_equivalent(v),
        v < 2048 ==> lowest_equivalent(v) == v && highest_equivalent(v) == v,
{
    lemma_two_to_positive(bucket_shift(v));
    let w = bucket_width(v);
    vstd::arithmetic::div_mod::lemma_fundamental_div_mod(v as int, w as int);
    vstd::arithmetic::div_mod::lemma_mod_bound(v as int, w as int);
    assert(lowest_equivalent(v) == (v as int / w as int) * w as int);
}

/// Some power of two is positive.
proof fn lemma_two_to_positive(n: nat)
    ensures
        two_to(n) >= 1,
    decreases n,
{
    if n > 0 {
        lemma_two_to_positive((n - 1) as nat);
    }
}

/// A router made of `map` sends an authority to the service of the first destination of
/// `map` whose name is that authority but for the case of ASCII letters, and to none when no
/// name is.
pub proof fn law_router_routes_by_map<S>(r: OriginRouter<S>, map: Seq<(Seq<char>, S)>, a: Seq<char>)
    requires
        names_of(r.origins_view()) == names_of(map),
        r.services_view() == map.map_values(|e: (Seq<char>, S)| e.1),
        forall|i: int| 0 <= i < r.origins_view().len() ==> (#[trigger] r.origins_view()[i]).1 == i,
    ensures
        match lookup_folded(r.origins_view(), a) {
            Some(i) => i < map.len() && ascii_lower(map[i as int].0) == ascii_lower(a)
                && r.services_view()[i as int] == map[i as int].1
                && forall|j: int| 0 <= j < i ==> ascii_lower(#[trigger] map[j].0) != ascii_lower(a),
            None => forall|j: int| 0 <= j < map.len() ==> ascii_lower(#[trigger] map[j].0) != ascii_lower(a),
        },
{
    let o = r.origins_view();
    lemma_lookup_folded(o, a);
    assert(names_of(o).len() == names_of(map).len());
    assert forall|j: int| 0 <= j < map.len() implies #[trigger] map[j].0 == o[j].0 by {
        assert(names_of(o)[j] == names_of(map)[j]);
    }
    match lookup_folded(o, a) {
        Some(i) => {
            let k = choose|k: int| #![trigger o[k]] 0 <= k < o.len() && o[k].1 == i
                && ascii_lower(o[k].0) == ascii_lower(a)
                && forall|j: int| 0 <= j < k ==> ascii_lower(#[trigger] o[j].0) != ascii_lower(a);
            assert(o[k].1 == k);
            assert(map[k].0 == o[k].0);
            assert forall|j: int| 0 <= j < i implies ascii_lower(#[trigger] map[j].0) != ascii_lower(a) by {
                assert(map[j].0 == o[j].0);
            }
        },
        None => {
            assert forall|j: int| 0 <= j < map.len() implies ascii_lower(#[trigger] map[j].0) != ascii_lower(a) by {
                assert(map[j].0 == o[j].0);
            }
        },
    }
}

/// A run is allowed exactly when every testcase of every configuration in it is: it passed
/// every repeat it was run for, or, when the run is not strict, its attributes allow it to
/// fail. Its exit code is 0 exactly then.
pub proof fn law_run_allowed_iff_every_testcase<T, Q: Coalesce, P: Coalesce>(r: Report<T, Q, P>, strict: bool)
    ensures
        r.allows(strict) <==> forall|i: int, j: int|
            0 <= i < r.report@.len() && 0 <= j < r.report@[i].report@.len() ==> {
                let c = #[trigger] r.report@[i].report@[j];
                c.passed_view() == c.testcase_view().repeat_view().spec_times()
                    || (!strict && c.testcase_view().base_view().attr.allow)
            },
{
    if r.allows(strict) {
        assert forall|i: int, j: int| 0 <= i < r.report@.len() && 0 <= j < r.report@[i].report@.len() implies
            (#[trigger] r.report@[i].report@[j]).allows(strict) by {
            assert(r.report@[i].allows(strict));
        }
    } else {
        let i = choose|i: int| 0 <= i < r.report@.len() && !(#[trigger] r.report@[i]).allows(strict);
        let w = r.report@[i];
        let j = choose|j: int| 0 <= j < w.report@.len() && !(#[trigger] w.report@[j]).allows(strict);
        assert(!r.report@[i].report@[j].allows(strict));
    }
}

/// A run passes exactly when every testcase of every configuration in it passed every
/// repeat it was run for.
pub proof fn law_run_passes_iff_every_testcase<T, Q: Coalesce, P: Coalesce>(r: Report<T, Q, P>)
    ensures
        r.passes() <==> forall|i: int, j: int|
            0 <= i < r.report@.len() && 0 <= j < r.report@[i].report@.len() ==> {
                let c = #[trigger] r.report@[i].report@[j];
                c.passed_view() == c.testcase_view().repeat_view().spec_times()
            },
{
    if r.passes() {
        assert forall|i: int, j: int| 0 <= i < r.report@.len() && 0 <= j < r.report@[i].report@.len() implies
            (#[trigger] r.report@[i].report@[j]).passes() by {
            assert(r.report@[i].passes());
        }
    } else {
        let i = choose|i: int| 0 <= i < r.report@.len() && !(#[trigger] r.report@[i]).passes();
        let w = r.report@[i];
        let j = choose|j: int| 0 <= j < w.report@.len() && !(#[trigger] w.report@[j]).passes();
        assert(!r.report@[i].report@[j].passes());
    }
}

/// Coalescing a request only fills its gaps: its own method, header fields and body win
/// when it has them, and those of `b` fill them when not; header fields that go with the
/// body are left out when either leaves them out.
pub proof fn law_request_coalesce_fills_gaps(a: HttpRequest, b: HttpRequest, r: HttpRequest)
    requires
        a.coalesces(b, r),
    ensures
        a.method is Some ==> r.method == a.method,
        a.method is None ==> r.method == b.method,
        a.headers is Some ==> r.headers == a.headers,
        a.headers is None ==> r.headers == b.headers,
        !(a.body is Empty) ==> r.body == a.body,
        a.body is Empty ==> r.body == b.body,
        r.no_additional_headers == (a.no_additional_headers || b.no_additional_headers),
{
}

/// With a single destination the default status rule accepts exactly the codes of success,
/// 200 to 299: 200 and 204 pass, 404 and 500 do not. With several destinations it accepts
/// exactly when they all gave the same code.
pub proof fn law_default_status(s: Seq<(Seq<char>, u16)>)
    ensures
        s.len() == 1 ==> (HttpStatus::OkOrEqual.acceptable(s) <==> 200 <= s[0].1 && s[0].1 < 300),
        s.len() != 1 ==> (HttpStatus::OkOrEqual.acceptable(s) <==>
            forall|i: int, j: int| 0 <= i < s.len() && 0 <= j < s.len() ==> #[trigger] s[i].1 == #[trigger] s[j].1),
{
    if s.len() != 1 {
        let v = crate::evaluate::value_views(s);
        assert forall|i: int| 0 <= i < s.len() implies #[trigger] v[i] == s[i].1 by {}
        if HttpStatus::OkOrEqual.acceptable(s) {
            assert forall|i: int, j: int| 0 <= i < s.len() && 0 <= j < s.len() implies #[trigger] s[i].1 == #[trigger] s[j].1 by {
                assert(v[i] == v[j]);
            }
        } else {
            assert(!crate::evaluate::all_equal(v));
            let (i, j) = choose|i: int, j: int| 0 <= i < v.len() && 0 <= j < v.len() && !(#[trigger] v[i] == #[trigger] v[j]);
            assert(s[i].1 != s[j].1);
        }
    }
}

/// A request carries every header field it is given, with the value given, but where a
/// field that goes with the body (`content-type`, `content-length`) takes its place; it
/// carries no field beyond those; and with the body fields left out, or with no body, it
/// carries just the given fields.
pub proof fn law_request_headers(
    request: HttpRequest,
    uri: Seq<char>,
    target: Seq<char>,
    vars: Seq<(Seq<char>, Seq<char>)>,
    env: Seq<(Seq<char>, Seq<char>)>,
    r: Result<PreparedRequest, ProduceError>,
)
    requires
        produced(request, uri, target, vars, env, r),
        r is Ok,
    ensures
        ({
            let h = r->Ok_0.headers@;
            let given = match request.headers {
                Some(g) => g@,
                None => Map::<Seq<char>, Seq<Seq<u8>>>::empty(),
            };
            &&& forall|k: Seq<char>| #[trigger] given.contains_key(k) && k != "content-type"@ && k != "content-length"@
                ==> h.contains_key(k) && h[k] == given[k]
            &&& forall|k: Seq<char>| #[trigger] h.contains_key(k)
                ==> given.contains_key(k) || k == "content-type"@ || k == "content-length"@
            &&& request.no_additional_headers ==> h == given
            &&& request.body is Empty && r->Ok_0.body@.len() == 0 ==> h == given
        }),
{
    let p = r->Ok_0;
    let given = match request.headers {
        Some(g) => g@,
        None => Map::<Seq<char>, Seq<Seq<u8>>>::empty(),
    };
    let bh = body_headers(content_type_of(request.body), p.body@.len());
    assert forall|k: Seq<char>| #[trigger] bh.contains_key(k) implies k == "content-type"@ || k == "content-length"@ by {}
    if !request.no_additional_headers && request.body is Empty && p.body@.len() == 0 {
        assert(bh =~= Map::<Seq<char>, Seq<Seq<u8>>>::empty());
        assert(given.union_prefer_right(bh) =~= given);
    }
}

/// The span of a run covers the span of every destination and no more: it is none exactly
/// when no destination has a span, and otherwise it starts when the earliest of them starts
/// and ends when the latest of them ends.
pub proof fn law_run_span_is_tightest(d: Seq<(Seq<char>, ResponseAggregator)>)
    ensures
        all_spans(d) is None <==> forall|i: int| 0 <= i < d.len() ==> (#[trigger] d[i].1@).1 is None,
        all_spans(d) is Some ==> {
            let (s, e) = all_spans(d).unwrap();
            &&& forall|i: int| 0 <= i < d.len() && (#[trigger] d[i].1@).1 is Some
                ==> s <= d[i].1@.1.unwrap().0 && d[i].1@.1.unwrap().1 <= e
            &&& exists|i: int| 0 <= i < d.len() && (#[trigger] d[i].1@).1 is Some && d[i].1@.1.unwrap().0 == s
            &&& exists|i: int| 0 <= i < d.len() && (#[trigger] d[i].1@).1 is Some && d[i].1@.1.unwrap().1 == e
        },
    decreases d.len(),
{
    if d.len() > 0 {
        let t = d.drop_last();
        law_run_span_is_tightest(t);
        assert forall|i: int| 0 <= i < t.len() implies #[trigger] t[i] == d[i] by {}
        let last = d.len() - 1;
        let x = d[last].1@.1;
        let a = all_spans(t);
        if a is Some {
            let (s0, e0) = a.unwrap();
            let i0 = choose|i: int| 0 <= i < t.len() && (#[trigger] t[i].1@).1 is Some && t[i].1@.1.unwrap().0 == s0;
            let j0 = choose|i: int| 0 <= i < t.len() && (#[trigger] t[i].1@).1 is Some && t[i].1@.1.unwrap().1 == e0;
            assert(d[i0] == t[i0]);
            assert(d[j0] == t[j0]);
        }
        if a is None {
            assert forall|i: int| 0 <= i < t.len() implies (#[trigger] d[i].1@).1 is None by {
                assert(d[i] == t[i]);
            }
        }
        assert forall|i: int| 0 <= i < d.len() && (#[trigger] d[i].1@).1 is Some && all_spans(d) is Some implies
            all_spans(d).unwrap().0 <= d[i].1@.1.unwrap().0 && d[i].1@.1.unwrap().1 <= all_spans(d).unwrap().1 by {
            if i < last {
                assert(d[i] == t[i]);
            }
        }
        if all_spans(d) is None {
            assert forall|i: int| 0 <= i < d.len() implies (#[trigger] d[i].1@).1 is None by {
                if i < last {
                    assert(d[i] == t[i]);
                }
            }
        }
    }
}

} // verus!
