//! Judging the responses of the destinations: status, headers and body.
use vstd::prelude::*;
use crate::config::{Coalesce, EvaluateTo, Severity};
use crate::destinations::{Destinations, has_name, lookup, lemma_find, find};
use crate::messages::{Messages, MessageText};
use crate::metrics::RequestResult;

verus! {

/// The values of `d`, in order.
pub open spec fn values_of<T>(d: Seq<(Seq<char>, T)>) -> Seq<T> {
    d.map_values(|e: (Seq<char>, T)| e.1)
}

/// All of `v` are equal.
pub open spec fn all_equal<T>(v: Seq<T>) -> bool {
    forall|i: int, j: int| 0 <= i < v.len() && 0 <= j < v.len() ==> #[trigger] v[i] == #[trigger] v[j]
}

/// Whether `a` and `b` hold the same bytes.
pub fn bytes_eq(a: &Vec<u8>, b: &Vec<u8>) -> (res: bool)
    ensures
        res == (a@ == b@),
{
    if a.len() != b.len() {
        return false;
    }
    let mut i: usize = 0;
    while i < a.len()
        invariant
            a@.len() == b@.len(),
            i <= a@.len(),
            forall|j: int| 0 <= j < i ==> a@[j] == b@[j],
        decreases a@.len() - i,
    {
        if a[i] != b[i] {
            return false;
        }
        i = i + 1;
    }
    proof { assert(a@ =~= b@); }
    true
}

/// The byte strings of `v`.
pub open spec fn byte_lists(v: Seq<Vec<u8>>) -> Seq<Seq<u8>> {
    v.map_values(|x: Vec<u8>| x@)
}

/// Whether `a` and `b` hold the same byte strings in the same order.
fn byte_lists_eq(a: &Vec<Vec<u8>>, b: &Vec<Vec<u8>>) -> (res: bool)
    ensures
        res == (byte_lists(a@) == byte_lists(b@)),
{
    if a.len() != b.len() {
        proof {
            assert(byte_lists(a@).len() != byte_lists(b@).len());
        }
        return false;
    }
    let mut i: usize = 0;
    while i < a.len()
        invariant
            a@.len() == b@.len(),
            i <= a@.len(),
            forall|j: int| 0 <= j < i ==> a@[j]@ == b@[j]@,
        decreases a@.len() - i,
    {
        if !bytes_eq(&a[i], &b[i]) {
            proof {
                assert(byte_lists(a@)[i as int] != byte_lists(b@)[i as int]);
            }
            return false;
        }
        i = i + 1;
    }
    proof { assert(byte_lists(a@) =~= byte_lists(b@)); }
    true
}

/// `o` has the field of entry `e`, with the same values.
pub open spec fn has_same_field(o: Seq<(Seq<char>, Vec<Vec<u8>>)>, e: (Seq<char>, Vec<Vec<u8>>)) -> bool {
    has_name(o, e.0) && byte_lists(lookup(o, e.0).unwrap()@) == byte_lists(e.1@)
}

/// The header fields of a response: for each name, its values in order.
#[derive(Debug)]
pub struct HeaderMap {
    fields: Destinations<Vec<Vec<u8>>>,
}

/// The fields of `d`: each name with its values.
pub open spec fn fields_map(d: Seq<(Seq<char>, Vec<Vec<u8>>)>) -> Map<Seq<char>, Seq<Seq<u8>>> {
    Map::new(
        |k: Seq<char>| has_name(d, k),
        |k: Seq<char>| byte_lists(lookup(d, k).unwrap()@),
    )
}

/// Binding a name sets that field, and leaves the others.
proof fn lemma_fields_bind(d: Seq<(Seq<char>, Vec<Vec<u8>>)>, k: Seq<char>, v: Vec<Vec<u8>>)
    ensures
        fields_map(crate::destinations::bind(d, k, v)) == fields_map(d).insert(k, byte_lists(v@)),
{
    let b = crate::destinations::bind(d, k, v);
    assert forall|k2: Seq<char>| #[trigger] has_name(b, k2) == (k2 == k || has_name(d, k2)) by {
        crate::destinations::lemma_lookup_bind(d, k, v, k2);
        lemma_find(b, k2);
        lemma_find(d, k2);
    }
    assert forall|k2: Seq<char>| #![trigger lookup(b, k2)] has_name(b, k2) implies
        byte_lists(lookup(b, k2).unwrap()@) == (if k2 == k { byte_lists(v@) } else { byte_lists(lookup(d, k2).unwrap()@) }) by {
        crate::destinations::lemma_lookup_bind(d, k, v, k2);
    }
    assert(fields_map(b) =~= fields_map(d).insert(k, byte_lists(v@)));
}

impl View for HeaderMap {
    type V = Map<Seq<char>, Seq<Seq<u8>>>;

    closed spec fn view(&self) -> Map<Seq<char>, Seq<Seq<u8>>> {
        fields_map(self.fields@)
    }
}

impl HeaderMap {
    /// No field.
    pub fn new() -> (res: Self)
        ensures
            res@ == Map::<Seq<char>, Seq<Seq<u8>>>::empty(),
    {
        let res = HeaderMap { fields: Destinations::new() };
        proof {
            assert forall|k: Seq<char>| !has_name(res.fields@, k) by {
                lemma_find(res.fields@, k);
            }
            assert(res@ =~= Map::<Seq<char>, Seq<Seq<u8>>>::empty());
        }
        res
    }

    /// Adds `value` as the last value of the field `name`.
    pub fn append(&mut self, name: String, value: Vec<u8>)
        ensures
            final(self)@ == old(self)@.insert(name@, (if old(self)@.contains_key(name@) {
                old(self)@[name@]
            } else {
                Seq::empty()
            }).push(value@)),
    {
        let ghost pre = self.fields@;
        let ghost nm = name@;
        proof { lemma_find(pre, nm); }
        let j = self.fields.position_or_insert(name, Vec::new());
        let ghost c1 = self.fields@;
        let mut values = self.fields.replace_at(j, Vec::new());
        let ghost vs = values;
        values.push(value);
        self.fields.replace_at(j, values);
        proof {
            let cur = self.fields@;
            crate::destinations::lemma_find_distinct(c1, j as int);
            assert(cur == c1.update(j as int, (nm, values)));
            if !has_name(pre, nm) {
                assert(c1 == crate::destinations::bind(pre, nm, c1.last().1));
            }
            assert forall|k: Seq<char>| #[trigger] lookup(cur, k) == (if k == nm { Some(values) } else { lookup(pre, k) }) by {
                crate::destinations::lemma_lookup_update(c1, j as int, values, k);
                if !has_name(pre, nm) {
                    crate::destinations::lemma_lookup_bind(pre, nm, c1.last().1, k);
                }
            }
            assert forall|k: Seq<char>| #[trigger] has_name(cur, k) == (k == nm || has_name(pre, k)) by {
                lemma_find(cur, k);
                lemma_find(pre, k);
                assert(lookup(cur, k) == (if k == nm { Some(values) } else { lookup(pre, k) }));
            }
            if has_name(pre, nm) {
                crate::destinations::lemma_lookup_bind(pre, nm, vs, nm);
                assert(lookup(c1, nm) == Some(vs));
                assert(byte_lists(values@) =~= byte_lists(lookup(pre, nm).unwrap()@).push(value@));
            } else {
                crate::destinations::lemma_lookup_bind(pre, nm, c1.last().1, nm);
                assert(byte_lists(values@) =~= Seq::<Seq<u8>>::empty().push(value@));
            }
            assert(self@ =~= old(self)@.insert(nm, (if old(self)@.contains_key(nm) {
                old(self)@[nm]
            } else {
                Seq::empty()
            }).push(value@)));
        }
    }

    /// Sets the field `name` to `values`, in place of any values it had.
    pub fn set(&mut self, name: String, values: Vec<Vec<u8>>)
        ensures
            final(self)@ == old(self)@.insert(name@, byte_lists(values@)),
    {
        let ghost pre = self.fields@;
        let ghost nm = name@;
        let ghost vs = values;
        self.fields.insert(name, values);
        proof { lemma_fields_bind(pre, nm, vs); }
    }

    /// Sets each field of `other` in `self`, in place of the values `self` had for it.
    pub fn extend(&mut self, other: HeaderMap)
        ensures
            final(self)@ == old(self)@.union_prefer_right(other@),
    {
        let ghost e = other.fields@;
        let ghost s0 = self@;
        let count = other.fields.len();
        let mut v = other.fields.into_vec();
        let ghost v0 = v@;
        let n = v.len();
        proof {
            assert(n == count);
            assert(fields_map(e.take(0)) =~= Map::<Seq<char>, Seq<Seq<u8>>>::empty()) by {
                assert forall|k: Seq<char>| !has_name(e.take(0), k) by { lemma_find(e.take(0), k); }
            }
            assert(self@ =~= s0.union_prefer_right(fields_map(e.take(0))));
        }
        while v.len() > 0
            invariant
                n == v0.len() == e.len(),
                e == v0.map_values(|x: (String, Vec<Vec<u8>>)| (x.0@, x.1)),
                crate::destinations::distinct_names(e),
                v@.len() <= n,
                v@ == v0.subrange(n - v@.len(), n as int),
                self@ == s0.union_prefer_right(fields_map(e.take(n - v@.len()))),
            decreases v@.len(),
        {
            let ghost i = n - v@.len();
            let ghost first = v@[0];
            proof {
                assert(first == v0[i]);
                assert(e[i] == (first.0@, first.1));
            }
            let (k, vals) = v.remove(0);
            self.set(k, vals);
            proof {
                let t = e.take(i + 1);
                assert forall|k2: Seq<char>| #[trigger] lookup(t, k2)
                    == (if e[i].0 == k2 { Some(e[i].1) } else { lookup(e.take(i), k2) }) by {
                    crate::destinations::lemma_lookup_prefix(e, i, k2);
                    assert(e.subrange(0, i + 1) =~= t);
                    assert(e.subrange(0, i) =~= e.take(i));
                }
                assert forall|k2: Seq<char>| #[trigger] has_name(t, k2) == (k2 == e[i].0 || has_name(e.take(i), k2)) by {
                    lemma_find(t, k2);
                    lemma_find(e.take(i), k2);
                    assert(lookup(t, k2) == (if e[i].0 == k2 { Some(e[i].1) } else { lookup(e.take(i), k2) }));
                }
                assert(fields_map(t) =~= fields_map(e.take(i)).insert(e[i].0, byte_lists(e[i].1@)));
                assert(self@ =~= s0.union_prefer_right(fields_map(t)));
            }
        }
        proof {
            assert(e.take(n as int) =~= e);
        }
    }

    /// The fields, each with its values, in the order their names were first set.
    pub fn entries(&self) -> (res: &Destinations<Vec<Vec<u8>>>)
        ensures
            fields_map(res@) == self@,
    {
        &self.fields
    }

    /// Whether `self` and `other` have the same fields, each with the same values in the
    /// same order, as `http::HeaderMap` compares.
    pub fn equal(&self, other: &HeaderMap) -> (res: bool)
        ensures
            res == (self@ == other@),
    {
        let n = self.fields.len();
        let mut i: usize = 0;
        while i < n
            invariant
                n == self.fields@.len(),
                crate::destinations::distinct_names(self.fields@),
                i <= n,
                forall|j: int| 0 <= j < i ==> #[trigger] has_same_field(other.fields@, self.fields@[j]),
            decreases n - i,
        {
            let name = self.fields.name_at(i);
            proof { crate::destinations::lemma_find_distinct(self.fields@, i as int); }
            match other.fields.get(name.as_str()) {
                Some(w) => {
                    if !byte_lists_eq(self.fields.value_at(i), w) {
                        proof {
                            assert(self@[name@] != other@[name@]);
                        }
                        return false;
                    }
                    proof {
                        lemma_find(other.fields@, name@);
                        assert(has_name(other.fields@, self.fields@[i as int].0));
                        assert(lookup(other.fields@, name@) == Some(*w));
                        assert(byte_lists(lookup(other.fields@, self.fields@[i as int].0).unwrap()@) == byte_lists(self.fields@[i as int].1@));
                        assert(has_same_field(other.fields@, self.fields@[i as int]));
                    }
                },
                None => {
                    proof {
                        lemma_find(other.fields@, name@);
                        assert(self@.contains_key(name@) && !other@.contains_key(name@));
                    }
                    return false;
                },
            }
            i = i + 1;
        }
        let m = other.fields.len();
        let mut i: usize = 0;
        while i < m
            invariant
                m == other.fields@.len(),
                i <= m,
                forall|j: int| 0 <= j < i ==> #[trigger] has_name(self.fields@, other.fields@[j].0),
            decreases m - i,
        {
            let name = other.fields.name_at(i);
            if !self.fields.contains_key(name.as_str()) {
                proof {
                    lemma_find(other.fields@, name@);
                    assert(other@.contains_key(name@) && !self@.contains_key(name@));
                }
                return false;
            }
            i = i + 1;
        }
        proof {
            assert forall|k: Seq<char>| self@.contains_key(k) == other@.contains_key(k) by {
                lemma_find(self.fields@, k);
                lemma_find(other.fields@, k);
                if has_name(self.fields@, k) {
                    let j = find(self.fields@, k);
                    assert(has_same_field(other.fields@, self.fields@[j]));
                }
                if has_name(other.fields@, k) {
                    let j = find(other.fields@, k);
                    assert(has_name(self.fields@, other.fields@[j].0));
                }
            }
            assert forall|k: Seq<char>| self@.contains_key(k) implies self@[k] == other@[k] by {
                lemma_find(self.fields@, k);
                let j = find(self.fields@, k);
                crate::destinations::lemma_find_distinct(self.fields@, j);
                assert(has_same_field(other.fields@, self.fields@[j]));
            }
            assert(self@ =~= other@);
        }
        true
    }
}

/// Values that can be told equal by their views.
pub trait Equal: View + Sized {
    fn equal(&self, other: &Self) -> (res: bool)
        ensures
            res == (self@ == other@),
    ;
}

impl Equal for u16 {
    fn equal(&self, other: &u16) -> (res: bool) {
        *self == *other
    }
}

impl Equal for Vec<u8> {
    fn equal(&self, other: &Vec<u8>) -> (res: bool) {
        bytes_eq(self, other)
    }
}

impl Equal for HeaderMap {
    fn equal(&self, other: &HeaderMap) -> (res: bool) {
        HeaderMap::equal(self, other)
    }
}

/// `d` with each value taken by its view.
pub open spec fn views_of<T: View>(d: Seq<(Seq<char>, T)>) -> Seq<(Seq<char>, T::V)> {
    d.map_values(|e: (Seq<char>, T)| (e.0, e.1@))
}

/// Taking the views keeps the names and what they look up to, by view.
pub proof fn lemma_lookup_views<T: View>(d: Seq<(Seq<char>, T)>, k: Seq<char>)
    ensures
        has_name(views_of(d), k) == has_name(d, k),
        has_name(d, k) ==> lookup(views_of(d), k).unwrap() == lookup(d, k).unwrap()@,
{
    crate::destinations::lemma_find_names(d, views_of(d), k);
    lemma_find(d, k);
}

/// The views of the values of `d`, in order.
pub open spec fn value_views<T: View>(d: Seq<(Seq<char>, T)>) -> Seq<T::V> {
    d.map_values(|e: (Seq<char>, T)| e.1@)
}

/// Whether all destinations got equal values, each compared with the one before it.
pub fn compare_all<T: Equal>(d: &Destinations<T>) -> (res: bool)
    ensures
        res == all_equal(value_views(d@)),
{
    let n = d.len();
    if n == 0 {
        return true;
    }
    let mut i: usize = 1;
    while i < n
        invariant
            n == d@.len(),
            1 <= i <= n,
            forall|j: int| 0 <= j < i ==> #[trigger] d@[j].1@ == d@[0].1@,
        decreases n - i,
    {
        if !d.value_at(i - 1).equal(d.value_at(i)) {
            proof {
                let v = value_views(d@);
                assert(v[i - 1] != v[i as int]);
            }
            return false;
        }
        i = i + 1;
    }
    proof {
        let v = value_views(d@);
        assert forall|a: int, b: int| 0 <= a < v.len() && 0 <= b < v.len() implies #[trigger] v[a] == #[trigger] v[b] by {
            assert(d@[a].1@ == d@[0].1@);
            assert(d@[b].1@ == d@[0].1@);
        }
    }
    true
}

/// Whether every destination got the status code `code`.
fn all_codes_are(d: &Destinations<u16>, code: u16) -> (res: bool)
    ensures
        res == (forall|i: int| 0 <= i < d@.len() ==> #[trigger] d@[i].1 == code),
{
    let n = d.len();
    let mut i: usize = 0;
    while i < n
        invariant
            n == d@.len(),
            i <= n,
            forall|j: int| 0 <= j < i ==> #[trigger] d@[j].1 == code,
        decreases n - i,
    {
        if *d.value_at(i) != code {
            return false;
        }
        i = i + 1;
    }
    true
}

/// Whether every destination got a value equal to `x`.
pub fn all_equal_to<T: Equal>(d: &Destinations<T>, x: &T) -> (res: bool)
    ensures
        res == (forall|i: int| 0 <= i < d@.len() ==> #[trigger] d@[i].1@ == x@),
{
    let n = d.len();
    let mut i: usize = 0;
    while i < n
        invariant
            n == d@.len(),
            i <= n,
            forall|j: int| 0 <= j < i ==> #[trigger] d@[j].1@ == x@,
        decreases n - i,
    {
        if !d.value_at(i).equal(x) {
            proof { assert(d@[i as int].1@ != x@); }
            return false;
        }
        i = i + 1;
    }
    true
}

/// `b` binds the name of `e` to a value equal to that of `e`.
pub open spec fn binds_equal<T: View>(b: Seq<(Seq<char>, T)>, e: (Seq<char>, T)) -> bool {
    has_name(b, e.0) && lookup(b, e.0).unwrap()@ == e.1@
}

/// Whether `a` and `b` bind the same names to equal values.
pub fn equal_bindings<T: Equal>(a: &Destinations<T>, b: &Destinations<T>) -> (res: bool)
    ensures
        res == (forall|k: Seq<char>| #[trigger] has_name(a@, k) == has_name(b@, k)
            && (has_name(a@, k) ==> lookup(a@, k).unwrap()@ == lookup(b@, k).unwrap()@)),
{
    let n = a.len();
    let mut i: usize = 0;
    while i < n
        invariant
            n == a@.len(),
            crate::destinations::distinct_names(a@),
            i <= n,
            forall|j: int| 0 <= j < i ==> #[trigger] binds_equal(b@, a@[j]),
        decreases n - i,
    {
        let name = a.name_at(i);
        proof { crate::destinations::lemma_find_distinct(a@, i as int); lemma_find(a@, name@); }
        match b.get(name.as_str()) {
            Some(w) => {
                if !a.value_at(i).equal(w) {
                    proof {
                        lemma_find(b@, name@);
                        let k = name@;
                        assert(!(has_name(a@, k) == has_name(b@, k)
                            && (has_name(a@, k) ==> lookup(a@, k).unwrap()@ == lookup(b@, k).unwrap()@)));
                    }
                    return false;
                }
                proof {
                    lemma_find(b@, name@);
                    assert(has_name(b@, a@[i as int].0));
                    assert(binds_equal(b@, a@[i as int]));
                }
            },
            None => {
                proof {
                    lemma_find(b@, name@);
                    let k = name@;
                    assert(!(has_name(a@, k) == has_name(b@, k)));
                }
                return false;
            },
        }
        i = i + 1;
    }
    let m = b.len();
    let mut i: usize = 0;
    while i < m
        invariant
            m == b@.len(),
            i <= m,
            forall|j: int| 0 <= j < i ==> #[trigger] has_name(a@, b@[j].0),
        decreases m - i,
    {
        let name = b.name_at(i);
        if !a.contains_key(name.as_str()) {
            proof {
                lemma_find(b@, name@);
                let k = name@;
                assert(!(has_name(a@, k) == has_name(b@, k)));
            }
            return false;
        }
        i = i + 1;
    }
    proof {
        assert forall|k: Seq<char>| #[trigger] has_name(a@, k) == has_name(b@, k)
            && (has_name(a@, k) ==> lookup(a@, k).unwrap()@ == lookup(b@, k).unwrap()@) by {
            lemma_find(a@, k);
            lemma_find(b@, k);
            if has_name(a@, k) {
                let j = find(a@, k);
                crate::destinations::lemma_find_distinct(a@, j);
                assert(binds_equal(b@, a@[j]));
            }
            if has_name(b@, k) {
                let j = find(b@, k);
                assert(has_name(a@, b@[j].0));
            }
        }
    }
    true
}

/// Why a response is not acceptable.
#[derive(Debug, Clone, PartialEq, Eq)]
pub enum HttpEvaluateError {
    RequestError(crate::metrics::RequestError),
    UnacceptableStatus,
    UnacceptableHeaderMap,
    FailToCollectBody(String),
    PlaintextEvaluateError(PlaintextEvaluateError),
    JsonEvaluateError(JsonEvaluateError),
}

/// Why a plain text body is not acceptable.
#[derive(Debug, Clone, PartialEq, Eq)]
pub enum PlaintextEvaluateError {
    /// The pattern is no regular expression; the message of the regex crate.
    FailToCompileRegex(String),
    /// The pattern does not match the body.
    FailToMatch(String, String),
}

/// Why a JSON body is not acceptable.
#[derive(Debug, Clone, PartialEq, Eq)]
pub enum JsonEvaluateError {
    FailToPatchJson(String),
    FailToParseJson(String),
    /// The bodies differ at this JSON pointer.
    Diff(String),
}

impl PlaintextEvaluateError {
    /// The text of the error, as it is displayed.
    pub open spec fn message_view(&self) -> Seq<char> {
        match self {
            PlaintextEvaluateError::FailToCompileRegex(s) => s@,
            PlaintextEvaluateError::FailToMatch(re, h) => "regex `"@ + re@ + "` does not match `"@ + h@ + "`"@,
        }
    }

    /// The text of the error, as it is displayed.
    pub fn message(&self) -> (res: String)
        ensures
            res@ == self.message_view(),
    {
        match self {
            PlaintextEvaluateError::FailToCompileRegex(s) => s.clone(),
            PlaintextEvaluateError::FailToMatch(re, h) => {
                let mut m = String::from_str("regex `");
                m.append(re.as_str());
                m.append("` does not match `");
                m.append(h.as_str());
                m.append("`");
                m
            },
        }
    }
}

impl JsonEvaluateError {
    /// The text of the error, as it is displayed.
    pub open spec fn message_view(&self) -> Seq<char> {
        match self {
            JsonEvaluateError::FailToPatchJson(s) => s@,
            JsonEvaluateError::FailToParseJson(s) => s@,
            JsonEvaluateError::Diff(p) => "diff in `"@ + p@ + "`"@,
        }
    }

    /// The text of the error, as it is displayed.
    pub fn message(&self) -> (res: String)
        ensures
            res@ == self.message_view(),
    {
        match self {
            JsonEvaluateError::FailToPatchJson(s) => s.clone(),
            JsonEvaluateError::FailToParseJson(s) => s.clone(),
            JsonEvaluateError::Diff(p) => {
                let mut m = String::from_str("diff in `");
                m.append(p.as_str());
                m.append("`");
                m
            },
        }
    }
}

impl HttpEvaluateError {
    /// The text of the error.
    pub open spec fn message_view(&self) -> Seq<char> {
        match self {
            HttpEvaluateError::RequestError(r) => r.message_view(),
            HttpEvaluateError::UnacceptableStatus => "status is not acceptable"@,
            HttpEvaluateError::UnacceptableHeaderMap => "header map is not acceptable"@,
            HttpEvaluateError::FailToCollectBody(s) => s@,
            HttpEvaluateError::PlaintextEvaluateError(p) => p.message_view(),
            HttpEvaluateError::JsonEvaluateError(j) => j.message_view(),
        }
    }

    /// The text of the error, as it is displayed.
    pub fn message(&self) -> (res: String)
        ensures
            res@ == self.message_view(),
    {
        match self {
            HttpEvaluateError::RequestError(r) => r.message(),
            HttpEvaluateError::UnacceptableStatus => String::from_str("status is not acceptable"),
            HttpEvaluateError::UnacceptableHeaderMap => String::from_str("header map is not acceptable"),
            HttpEvaluateError::FailToCollectBody(s) => s.clone(),
            HttpEvaluateError::PlaintextEvaluateError(p) => p.message(),
            HttpEvaluateError::JsonEvaluateError(j) => j.message(),
        }
    }
}

impl MessageText for HttpEvaluateError {
    open spec fn text_view(&self) -> Seq<char> {
        self.message_view()
    }

    fn text(&self) -> (res: String) {
        self.message()
    }
}

/// Something that judges what each destination gave.
pub trait Acceptable<T> {
    type Message;

    /// What `accept` needs of what it judges.
    spec fn can_judge(&self, dest: Seq<(Seq<char>, T)>) -> bool;

    fn accept(&self, dest: &Destinations<T>, msg: &mut Messages<Self::Message>) -> bool
        requires
            self.can_judge(dest@),
    ;
}

/// What the status codes are held to.
#[derive(Debug, Clone)]
pub enum HttpStatus {
    /// Success for a single destination; the same code from all of several.
    OkOrEqual,
    /// The given code, for all or for each destination.
    Expect(EvaluateTo<u16>),
    Ignore,
}

impl Default for HttpStatus {
    fn default() -> (res: Self)
        ensures
            res is OkOrEqual,
    {
        HttpStatus::OkOrEqual
    }
}

/// A status code of success, 200 to 299.
pub open spec fn is_success(code: u16) -> bool {
    200 <= code <= 299
}

impl HttpStatus {
    /// Whether the codes are acceptable.
    pub open spec fn acceptable(&self, s: Seq<(Seq<char>, u16)>) -> bool {
        match self {
            HttpStatus::OkOrEqual => if s.len() == 1 {
                is_success(s[0].1)
            } else {
                all_equal(value_views(s))
            },
            HttpStatus::Expect(EvaluateTo::All(code)) => forall|i: int| 0 <= i < s.len() ==> #[trigger] s[i].1 == *code,
            HttpStatus::Expect(EvaluateTo::Destinations(code)) =>
                forall|k: Seq<char>| #[trigger] has_name(s, k) == has_name(code@, k)
                    && (has_name(s, k) ==> lookup(s, k).unwrap()@ == lookup(code@, k).unwrap()@),
            HttpStatus::Ignore => true,
        }
    }
}

impl Acceptable<u16> for HttpStatus {
    type Message = HttpEvaluateError;

    open spec fn can_judge(&self, dest: Seq<(Seq<char>, u16)>) -> bool {
        true
    }

    /// Whether the codes are acceptable; when not, the message says so.
    fn accept(&self, status: &Destinations<u16>, msg: &mut Messages<HttpEvaluateError>) -> (res: bool)
        ensures
            res == self.acceptable(status@),
            final(msg)@ == (if res { old(msg)@ } else { old(msg)@.push(HttpEvaluateError::UnacceptableStatus) }),
    {
        let acceptable = match self {
            HttpStatus::OkOrEqual => {
                if status.len() == 1 {
                    let c = *status.value_at(0);
                    200 <= c && c <= 299
                } else {
                    compare_all(status)
                }
            },
            HttpStatus::Expect(EvaluateTo::All(code)) => all_codes_are(status, *code),
            HttpStatus::Expect(EvaluateTo::Destinations(code)) => equal_bindings(status, code),
            HttpStatus::Ignore => true,
        };
        if !acceptable {
            msg.push_err(HttpEvaluateError::UnacceptableStatus);
        }
        acceptable
    }
}

/// What the header fields are held to.
#[derive(Debug, Clone)]
pub enum HttpHeaders {
    /// Anything for a single destination; the same fields from all of several.
    AnyOrEqual,
    /// The given fields, for all or for each destination.
    Expect(EvaluateTo<HeaderMap>),
    Ignore,
}

impl Default for HttpHeaders {
    fn default() -> (res: Self)
        ensures
            res is AnyOrEqual,
    {
        HttpHeaders::AnyOrEqual
    }
}

impl HttpHeaders {
    /// Whether the header fields `h` are acceptable.
    pub open spec fn acceptable(&self, h: Seq<(Seq<char>, Map<Seq<char>, Seq<Seq<u8>>>)>) -> bool {
        match self {
            HttpHeaders::AnyOrEqual => h.len() == 1 || all_equal(values_of(h)),
            HttpHeaders::Expect(EvaluateTo::All(header)) => forall|i: int| 0 <= i < h.len() ==> #[trigger] h[i].1 == header@,
            HttpHeaders::Expect(EvaluateTo::Destinations(header)) =>
                forall|k: Seq<char>| #[trigger] has_name(h, k) == has_name(header@, k)
                    && (has_name(h, k) ==> lookup(h, k).unwrap() == lookup(header@, k).unwrap()@),
            HttpHeaders::Ignore => true,
        }
    }
}

impl Acceptable<HeaderMap> for HttpHeaders {
    type Message = HttpEvaluateError;

    open spec fn can_judge(&self, dest: Seq<(Seq<char>, HeaderMap)>) -> bool {
        true
    }

    /// Whether the header fields are acceptable; when not, the message says so.
    fn accept(&self, headers: &Destinations<HeaderMap>, msg: &mut Messages<HttpEvaluateError>) -> (res: bool)
        ensures
            res == self.acceptable(views_of(headers@)),
            final(msg)@ == (if res { old(msg)@ } else { old(msg)@.push(HttpEvaluateError::UnacceptableHeaderMap) }),
    {
        let ghost hv = views_of(headers@);
        let acceptable = match self {
            HttpHeaders::AnyOrEqual => {
                proof { assert(value_views(headers@) =~= values_of(hv)); }
                if headers.len() == 1 { true } else { compare_all(headers) }
            },
            HttpHeaders::Expect(EvaluateTo::All(header)) => {
                let r = all_equal_to(headers, header);
                proof {
                    if r {
                        assert forall|i: int| 0 <= i < hv.len() implies #[trigger] hv[i].1 == header@ by {
                            assert(headers@[i].1@ == header@);
                        }
                    } else {
                        let i = choose|i: int| 0 <= i < headers@.len() && !(#[trigger] headers@[i].1@ == header@);
                        assert(hv[i].1 != header@);
                    }
                }
                r
            },
            HttpHeaders::Expect(EvaluateTo::Destinations(header)) => {
                let r = equal_bindings(headers, header);
                proof {
                    assert forall|k: Seq<char>| #[trigger] has_name(hv, k) == has_name(headers@, k)
                        && (has_name(headers@, k) ==> lookup(hv, k).unwrap() == lookup(headers@, k).unwrap()@) by {
                        lemma_lookup_views(headers@, k);
                    }
                    if r {
                        assert forall|k: Seq<char>| #[trigger] has_name(hv, k) == has_name(header@, k)
                            && (has_name(hv, k) ==> lookup(hv, k).unwrap() == lookup(header@, k).unwrap()@) by {
                            assert(has_name(headers@, k) == has_name(header@, k));
                        }
                    } else {
                        let k = choose|k: Seq<char>| !(#[trigger] has_name(headers@, k) == has_name(header@, k)
                            && (has_name(headers@, k) ==> lookup(headers@, k).unwrap()@ == lookup(header@, k).unwrap()@));
                        assert(!(has_name(hv, k) == has_name(header@, k)
                            && (has_name(hv, k) ==> lookup(hv, k).unwrap() == lookup(header@, k).unwrap()@)));
                    }
                }
                r
            },
            HttpHeaders::Ignore => true,
        };
        if !acceptable {
            msg.push_err(HttpEvaluateError::UnacceptableHeaderMap);
        }
        acceptable
    }
}

impl Coalesce for HttpStatus {
    /// `other` when `self` is the default, else `self`.
    open spec fn coalesces(self, other: HttpStatus, res: HttpStatus) -> bool {
        res == (if self is OkOrEqual { other } else { self })
    }

    fn coalesce(self, other: HttpStatus) -> (res: HttpStatus) {
        let r = match self {
            HttpStatus::OkOrEqual => other,
            _ => self,
        };
        proof { assert(self.coalesces(other, r)); }
        r
    }
}

impl Coalesce for HttpHeaders {
    /// `other` when `self` is the default, else `self`.
    open spec fn coalesces(self, other: HttpHeaders, res: HttpHeaders) -> bool {
        res == (if self is AnyOrEqual { other } else { self })
    }

    fn coalesce(self, other: HttpHeaders) -> (res: HttpHeaders) {
        let r = match self {
            HttpHeaders::AnyOrEqual => other,
            _ => self,
        };
        proof { assert(self.coalesces(other, r)); }
        r
    }
}

// ---------------------------------------------------------------------------------------
// Plain text bodies

#[verifier::external_type_specification]
#[verifier::external_body]
pub struct ExRegex(regex::Regex);

/// Whether `pattern` compiles as a regular expression of the regex crate.
pub uninterp spec fn regex_compiles(pattern: Seq<char>) -> bool;

/// Whether the regular expression `pattern` matches somewhere in `haystack`.
pub uninterp spec fn regex_matches(pattern: Seq<char>, haystack: Seq<char>) -> bool;

/// The text of `bytes`, invalid UTF-8 replaced as `String::from_utf8_lossy` does.
pub uninterp spec fn utf8_lossy(bytes: Seq<u8>) -> Seq<char>;

/// A compiled regular expression, with the pattern it was compiled from.
pub struct CompiledRegex {
    pattern: String,
    re: regex::Regex,
}

impl CompiledRegex {
    /// The pattern it was compiled from.
    pub closed spec fn pattern_view(&self) -> Seq<char> {
        self.pattern@
    }
}

/// Compiles `pattern` with `regex::Regex::new`; the message of the regex crate when it
/// fails.
#[verifier::external_body]
fn compile_regex(pattern: &str) -> (res: Result<CompiledRegex, String>)
    ensures
        res is Ok == regex_compiles(pattern@),
        res matches Ok(r) ==> r.pattern_view() == pattern@,
{
    match regex::Regex::new(pattern) {
        Ok(re) => Ok(CompiledRegex { pattern: pattern.to_string(), re }),
        Err(e) => Err(e.to_string()),
    }
}

/// Whether the regular expression matches somewhere in `haystack`, by
/// `regex::Regex::is_match`.
#[verifier::external_body]
fn regex_is_match(re: &CompiledRegex, haystack: &str) -> (res: bool)
    ensures
        res == regex_matches(re.pattern_view(), haystack@),
{
    re.re.is_match(haystack)
}

/// Every byte of `b` is ASCII.
pub open spec fn all_ascii(b: Seq<u8>) -> bool {
    forall|i: int| 0 <= i < b.len() ==> #[trigger] b[i] < 128
}

/// The characters whose codes are the bytes of `b`.
pub open spec fn ascii_text(b: Seq<u8>) -> Seq<char> {
    b.map_values(|x: u8| x as char)
}

/// The text of `bytes`, by `String::from_utf8_lossy`. Bytes that are all ASCII are valid
/// UTF-8 and give the characters of the same codes, one each; no bytes give no text.
#[verifier::external_body]
pub(crate) fn lossy_text(bytes: &[u8]) -> (res: String)
    ensures
        res@ == utf8_lossy(bytes@),
        all_ascii(bytes@) ==> res@ == ascii_text(bytes@),
{
    String::from_utf8_lossy(bytes).into_owned()
}

/// The body `body` is accepted by the pattern `pattern`.
pub open spec fn plaintext_ok(pattern: Seq<char>, body: Seq<u8>) -> bool {
    regex_compiles(pattern) && regex_matches(pattern, utf8_lossy(body))
}

/// `e` says why `pattern` does not accept `body`.
pub open spec fn plaintext_failure(e: PlaintextEvaluateError, pattern: Seq<char>, body: Seq<u8>) -> bool {
    if !regex_compiles(pattern) {
        e is FailToCompileRegex
    } else {
        e matches PlaintextEvaluateError::FailToMatch(p, h) && p@ == pattern && h@ == utf8_lossy(body)
    }
}

/// Whether `regex` matches `haystack`; why not, when it does not.
pub fn is_match(regex: &str, haystack: &str) -> (res: Result<(), PlaintextEvaluateError>)
    ensures
        match res {
            Ok(_) => regex_compiles(regex@) && regex_matches(regex@, haystack@),
            Err(e) => if !regex_compiles(regex@) {
                e is FailToCompileRegex
            } else {
                !regex_matches(regex@, haystack@)
                    && (e matches PlaintextEvaluateError::FailToMatch(p, h) && p@ == regex@ && h@ == haystack@)
            },
        },
{
    match compile_regex(regex) {
        Err(m) => Err(PlaintextEvaluateError::FailToCompileRegex(m)),
        Ok(re) => {
            if regex_is_match(&re, haystack) {
                Ok(())
            } else {
                Err(PlaintextEvaluateError::FailToMatch(crate::text::owned(regex), crate::text::owned(haystack)))
            }
        },
    }
}

/// What plain text bodies are held to: a regular expression for all destinations or for
/// each, or nothing.
#[derive(Debug, Clone)]
pub struct PlaintextEvaluator {
    pub regex: Option<EvaluateTo<String>>,
}

impl PlaintextEvaluator {
    /// Every destination named in `d` has a pattern, when there is one for each.
    pub open spec fn covers<T>(&self, d: Seq<(Seq<char>, T)>) -> bool {
        match self.regex {
            Some(EvaluateTo::Destinations(p)) => forall|i: int| 0 <= i < d.len() ==> #[trigger] has_name(p@, d[i].0),
            _ => true,
        }
    }

    /// The pattern for the destination `name`.
    pub open spec fn pattern_for(&self, name: Seq<char>) -> Seq<char> {
        match self.regex {
            Some(EvaluateTo::All(r)) => r@,
            Some(EvaluateTo::Destinations(p)) => lookup(p@, name).unwrap()@,
            None => Seq::empty(),
        }
    }

    /// The body of the `i`-th destination is accepted.
    pub open spec fn accepts_at(&self, d: Seq<(Seq<char>, Seq<u8>)>, i: int) -> bool {
        self.regex is None || plaintext_ok(self.pattern_for(d[i].0), d[i].1)
    }
}

impl Acceptable<Vec<u8>> for PlaintextEvaluator {
    type Message = PlaintextEvaluateError;

    /// With a pattern for each destination, every destination judged has one.
    open spec fn can_judge(&self, dest: Seq<(Seq<char>, Vec<u8>)>) -> bool {
        self.covers(dest)
    }

    /// Whether every body matches its pattern; when one does not, the message says why for
    /// the first that does not, and the others are not looked at.
    fn accept(&self, bytes: &Destinations<Vec<u8>>, msg: &mut Messages<PlaintextEvaluateError>) -> (res: bool)
        ensures
            res == (forall|i: int| 0 <= i < bytes@.len() ==> #[trigger] self.accepts_at(views_of(bytes@), i)),
            res ==> final(msg)@ == old(msg)@,
            !res ==> exists|i: int| #![trigger self.accepts_at(views_of(bytes@), i)]
                0 <= i < bytes@.len() && !self.accepts_at(views_of(bytes@), i)
                && (forall|j: int| 0 <= j < i ==> #[trigger] self.accepts_at(views_of(bytes@), j))
                && final(msg)@.len() == old(msg)@.len() + 1
                && final(msg)@.drop_last() == old(msg)@
                && plaintext_failure(final(msg)@.last(), self.pattern_for(bytes@[i].0), bytes@[i].1@),
    {
        if self.regex.is_none() {
            return true;
        }
        let n = bytes.len();
        let mut i: usize = 0;
        while i < n
            invariant
                n == bytes@.len(),
                i <= n,
                self.regex is Some,
                self.covers(bytes@),
                msg@ == old(msg)@,
                forall|j: int| 0 <= j < i ==> #[trigger] self.accepts_at(views_of(bytes@), j),
            decreases n - i,
        {
            let name = bytes.name_at(i);
            let pattern: &String = match &self.regex {
                Some(EvaluateTo::All(r)) => r,
                Some(EvaluateTo::Destinations(p)) => {
                    proof {
                        assert(has_name(p@, bytes@[i as int].0));
                        lemma_find(p@, name@);
                    }
                    match p.get(name.as_str()) {
                        Some(r) => r,
                        None => {
                            proof { assert(false); }
                            return false;
                        },
                    }
                },
                None => {
                    proof { assert(false); }
                    return false;
                },
            };
            assert(pattern@ == self.pattern_for(bytes@[i as int].0));
            let text = lossy_text(bytes.value_at(i).as_slice());
            match is_match(pattern.as_str(), text.as_str()) {
                Ok(_) => {},
                Err(e) => {
                    msg.push_err(e);
                    proof {
                        assert(!self.accepts_at(views_of(bytes@), i as int));
                    }
                    return false;
                },
            }
            i = i + 1;
        }
        true
    }
}

// ---------------------------------------------------------------------------------------
// JSON bodies

#[verifier::external_type_specification]
#[verifier::external_body]
pub struct ExJsonValue(serde_json::Value);

#[verifier::external_type_specification]
#[verifier::external_body]
pub struct ExPatch(json_patch::Patch);

#[verifier::external_type_specification]
#[verifier::external_body]
pub struct ExPatchOperation(json_patch::PatchOperation);

/// The JSON value `serde_json::from_slice` reads from `bytes`; none when they do not parse
/// as one JSON value.
pub uninterp spec fn parsed_json(bytes: Seq<u8>) -> Option<serde_json::Value>;

/// Whether `bytes` parse as one JSON value with `serde_json::from_slice`.
pub open spec fn json_parses(bytes: Seq<u8>) -> bool {
    parsed_json(bytes) is Some
}

/// What `json_patch::patch_unsafe` does with the patch `p` to the value `v`: whether it
/// succeeds, and the value it leaves, in part patched when an operation failed.
pub uninterp spec fn patch_result(v: serde_json::Value, p: json_patch::Patch) -> (bool, serde_json::Value);

/// The JSON pointers of the operations `json_patch::diff` gives to turn `a` into `b`, in
/// order.
pub uninterp spec fn diff_paths(a: serde_json::Value, b: serde_json::Value) -> Seq<Seq<char>>;

/// The JSON pointers of the operations of a patch, in order.
pub uninterp spec fn patch_paths(p: json_patch::Patch) -> Seq<Seq<char>>;

/// Parses `bytes` as JSON with `serde_json::from_slice`; the message of serde_json when it
/// fails.
#[verifier::external_body]
fn json_from_slice(bytes: &[u8]) -> (res: Result<serde_json::Value, String>)
    ensures
        match res {
            Ok(v) => parsed_json(bytes@) == Some(v),
            Err(_) => parsed_json(bytes@) is None,
        },
{
    serde_json::from_slice(bytes).map_err(|e| e.to_string())
}

/// Applies `patch` to `value` with `json_patch::patch_unsafe`; the message of json_patch
/// when an operation fails. Which value it leaves is named; a patch without operations
/// succeeds and leaves the value as it is.
#[verifier::external_body]
fn json_apply_patch(value: &mut serde_json::Value, patch: &json_patch::Patch) -> (res: Result<(), String>)
    ensures
        (res is Ok) == patch_result(*old(value), *patch).0,
        *final(value) == patch_result(*old(value), *patch).1,
        patch_paths(*patch).len() == 0 ==> res is Ok && *final(value) == *old(value),
{
    json_patch::patch_unsafe(value, patch).map_err(|e| e.to_string())
}

/// The operations that turn `a` into `b`, by `json_patch::diff`; their pointers are named.
/// Equal values give no operation.
#[verifier::external_body]
fn json_diff(a: &serde_json::Value, b: &serde_json::Value) -> (res: json_patch::Patch)
    ensures
        patch_paths(res) == diff_paths(*a, *b),
        *a == *b ==> patch_paths(res).len() == 0,
{
    json_patch::diff(a, b)
}

/// The number of operations of `p`.
#[verifier::external_body]
fn patch_len(p: &json_patch::Patch) -> (n: usize)
    ensures
        n == patch_paths(*p).len(),
{
    p.0.len()
}

/// The JSON pointer of the `i`-th operation of `p`, by `PatchOperation::path`.
#[verifier::external_body]
fn patch_path_at(p: &json_patch::Patch, i: usize) -> (res: String)
    requires
        i < patch_paths(*p).len(),
    ensures
        res@ == patch_paths(*p)[i as int],
{
    p.0[i].path().to_string()
}

/// What JSON bodies are held to: pointers where differences are ignored, patches applied
/// before comparing, and how serious a failed patch is.
#[derive(Debug, Clone)]
pub struct JsonEvaluator {
    pub ignore: Vec<String>,
    pub patch: Option<EvaluateTo<json_patch::Patch>>,
    pub patch_fail: Option<Severity>,
}

/// The pointers of `paths` that `ignore` does not hold, in order.
pub open spec fn unignored(paths: Seq<Seq<char>>, ignore: Seq<Seq<char>>) -> Seq<Seq<char>>
    decreases paths.len(),
{
    if paths.len() == 0 {
        Seq::empty()
    } else {
        let rest = unignored(paths.drop_last(), ignore);
        if ignore.contains(paths.last()) { rest } else { rest.push(paths.last()) }
    }
}

/// `m1` is `m0` followed by a difference message for each pointer of `u`, in order.
pub open spec fn diff_messages(m0: Seq<JsonEvaluateError>, m1: Seq<JsonEvaluateError>, u: Seq<Seq<char>>) -> bool {
    &&& m1.len() == m0.len() + u.len()
    &&& m1.subrange(0, m0.len() as int) == m0
    &&& forall|j: int| 0 <= j < u.len() ==>
        (#[trigger] m1[m0.len() + j] matches JsonEvaluateError::Diff(p) && p@ == u[j])
}

impl JsonEvaluator {
    /// The document of the body `body` of the destination `name`: its JSON value, patched
    /// with the patch for the destination when there is one.
    pub open spec fn doc_of(&self, name: Seq<char>, body: Seq<u8>) -> serde_json::Value {
        match self.patch_of(name) {
            None => parsed_json(body).unwrap(),
            Some(p) => patch_result(parsed_json(body).unwrap(), p).1,
        }
    }

    /// The patch for the destination `name` fails on the JSON value of `body`.
    pub open spec fn patch_fails_on(&self, name: Seq<char>, body: Seq<u8>) -> bool {
        match self.patch_of(name) {
            None => false,
            Some(p) => !patch_result(parsed_json(body).unwrap(), p).0,
        }
    }

    /// The `i`-th body of `d` parses, and its patch does not fail where that is fatal.
    pub open spec fn body_ok(&self, d: Seq<(Seq<char>, Seq<u8>)>, i: int) -> bool {
        json_parses(d[i].1) && !(self.patch_is_fatal(d.len()) && self.patch_fails_on(d[i].0, d[i].1))
    }

    /// Every body of `d` parses, and no patch fails where that is fatal.
    pub open spec fn docs_ok(&self, d: Seq<(Seq<char>, Seq<u8>)>) -> bool {
        forall|i: int| 0 <= i < d.len() ==> #[trigger] self.body_ok(d, i)
    }

    /// The pointers, not ignored, at which the document of the `i`-th body of `d` differs
    /// from the one before it, in the order `json_patch::diff` gives them.
    pub open spec fn diff_at(&self, d: Seq<(Seq<char>, Seq<u8>)>, i: int) -> Seq<Seq<char>> {
        unignored(diff_paths(self.doc_of(d[i - 1].0, d[i - 1].1), self.doc_of(d[i].0, d[i].1)), self.ignore_view())
    }

    /// The documents of the `i`-th body of `d` and of the one before it are the same.
    pub open spec fn same_doc_at(&self, d: Seq<(Seq<char>, Seq<u8>)>, i: int) -> bool {
        self.doc_of(d[i - 1].0, d[i - 1].1) == self.doc_of(d[i].0, d[i].1)
    }

    /// Each of the first `k` documents of `d` differs from the one before it only at
    /// ignored pointers.
    pub open spec fn agree_upto(&self, d: Seq<(Seq<char>, Seq<u8>)>, k: int) -> bool {
        forall|i: int| 1 <= i < k ==> (#[trigger] self.diff_at(d, i)).len() == 0
    }

    /// How the JSON bodies `d` were judged: `res` is the verdict, `m1` the messages after
    /// `m0`. A body that does not parse, or a fatal patch that fails, gives one message and
    /// fails. Else each document is compared with the one before it; the first pair that
    /// differs at a pointer not ignored gives a message for each such pointer and fails.
    /// Documents that are all the same pass.
    pub open spec fn json_judged(&self, d: Seq<(Seq<char>, Seq<u8>)>, m0: Seq<JsonEvaluateError>, m1: Seq<JsonEvaluateError>, res: bool) -> bool {
        if !self.docs_ok(d) {
            !res && m1.len() == m0.len() + 1 && m1.drop_last() == m0 && !(m1.last() is Diff)
        } else {
            &&& res == self.agree_upto(d, d.len() as int)
            &&& res ==> m1 == m0
            &&& !res ==> exists|k: int| #![trigger self.diff_at(d, k)]
                1 <= k < d.len() && self.agree_upto(d, k) && self.diff_at(d, k).len() > 0
                && diff_messages(m0, m1, self.diff_at(d, k))
            &&& (forall|i: int| 1 <= i < d.len() ==> #[trigger] self.same_doc_at(d, i)) ==> res
        }
    }

    /// The pointers that differences are ignored at.
    pub open spec fn ignore_view(&self) -> Seq<Seq<char>> {
        self.ignore@.map_values(|p: String| p@)
    }

    /// A failed patch fails the evaluation: it is not told how serious it is and there is
    /// a single destination, or it is an error.
    pub open spec fn patch_is_fatal(&self, destinations: nat) -> bool {
        (self.patch_fail is None && destinations == 1) || self.patch_fail == Some(Severity::Error)
    }

    /// Whether a failed patch fails the evaluation of `destinations` destinations.
    pub fn patch_failure_is_fatal(&self, destinations: usize) -> (res: bool)
        ensures
            res == self.patch_is_fatal(destinations as nat),
    {
        match self.patch_fail {
            None => destinations == 1,
            Some(Severity::Error) => true,
            Some(_) => false,
        }
    }

    /// The patch for the destination `name`, if any.
    pub fn patch_for(&self, name: &str) -> (res: Option<&json_patch::Patch>)
        ensures
            match self.patch {
                None => res is None,
                Some(EvaluateTo::All(p)) => res == Some(&p),
                Some(EvaluateTo::Destinations(d)) => match lookup(d@, name@) {
                    Some(p) => res == Some(&p),
                    None => res is None,
                },
            },
    {
        match &self.patch {
            None => None,
            Some(EvaluateTo::All(p)) => Some(p),
            Some(EvaluateTo::Destinations(d)) => d.get(name),
        }
    }

    /// The patch for a destination named `name`, if any.
    pub open spec fn patch_of(&self, name: Seq<char>) -> Option<json_patch::Patch> {
        match self.patch {
            None => None,
            Some(EvaluateTo::All(p)) => Some(p),
            Some(EvaluateTo::Destinations(d)) => lookup(d@, name),
        }
    }

    /// Whether a destination named `name` has a patch to apply.
    pub open spec fn has_patch(&self, name: Seq<char>) -> bool {
        match self.patch {
            None => false,
            Some(EvaluateTo::All(_)) => true,
            Some(EvaluateTo::Destinations(d)) => lookup(d@, name) is Some,
        }
    }

    /// Applies the patch for the destination `name` to `value`; the message of json_patch
    /// when an operation fails. Without a patch for it, or with one that has no operations,
    /// `value` is left as it is.
    pub fn patch(&self, name: &str, value: &mut serde_json::Value) -> (res: Result<(), String>)
        ensures
            !self.has_patch(name@) ==> res is Ok && *final(value) == *old(value),
            self.patch_of(name@) matches Some(p) ==> (res is Ok) == patch_result(*old(value), p).0
                && *final(value) == patch_result(*old(value), p).1,
            self.patch_of(name@) matches Some(p) && patch_paths(p).len() == 0 ==> res is Ok && *final(value) == *old(value),
    {
        match self.patch_for(name) {
            Some(p) => json_apply_patch(value, p),
            None => Ok(()),
        }
    }

    /// The JSON pointers of the operations of `p`, in order.
    pub fn pointers(p: &json_patch::Patch) -> (res: Vec<String>)
        ensures
            res@.map_values(|s: String| s@) == patch_paths(*p),
    {
        let n = patch_len(p);
        let mut res: Vec<String> = Vec::new();
        let mut i: usize = 0;
        while i < n
            invariant
                n == patch_paths(*p).len(),
                i <= n,
                res@.len() == i,
                forall|j: int| 0 <= j < i ==> #[trigger] res@[j]@ == patch_paths(*p)[j],
            decreases n - i,
        {
            res.push(patch_path_at(p, i));
            i = i + 1;
        }
        proof {
            assert(res@.map_values(|s: String| s@) =~= patch_paths(*p));
        }
        res
    }

    /// Whether `path` is one of the ignored pointers.
    fn ignores(&self, path: &str) -> (res: bool)
        ensures
            res == self.ignore_view().contains(path@),
    {
        let mut i: usize = 0;
        while i < self.ignore.len()
            invariant
                i <= self.ignore@.len(),
                forall|j: int| 0 <= j < i ==> self.ignore@[j]@ != path@,
            decreases self.ignore@.len() - i,
        {
            if crate::text::str_eq(self.ignore[i].as_str(), path) {
                proof { assert(self.ignore_view()[i as int] == path@); }
                return true;
            }
            i = i + 1;
        }
        proof {
            assert(!self.ignore_view().contains(path@)) by {
                if self.ignore_view().contains(path@) {
                    let j = choose|j: int| 0 <= j < self.ignore_view().len() && self.ignore_view()[j] == path@;
                    assert(self.ignore@[j]@ == path@);
                }
            }
        }
        false
    }

    /// A message for each difference at a pointer that is not ignored, in order; whether
    /// there is none.
    pub fn accept_pointers(&self, pointers: &Vec<String>, msg: &mut Messages<JsonEvaluateError>) -> (res: bool)
        ensures
            ({
                let u = unignored(pointers@.map_values(|s: String| s@), self.ignore_view());
                &&& res == (u.len() == 0)
                &&& final(msg)@.len() == old(msg)@.len() + u.len()
                &&& final(msg)@.subrange(0, old(msg)@.len() as int) == old(msg)@
                &&& forall|j: int| 0 <= j < u.len() ==>
                    (#[trigger] final(msg)@[old(msg)@.len() + j] matches JsonEvaluateError::Diff(p) && p@ == u[j])
            }),
    {
        let ghost ps = pointers@.map_values(|s: String| s@);
        let ghost m0 = msg@;
        let mut accepted = true;
        let mut i: usize = 0;
        while i < pointers.len()
            invariant
                i <= pointers@.len(),
                ps == pointers@.map_values(|s: String| s@),
                msg@.len() == m0.len() + unignored(ps.take(i as int), self.ignore_view()).len(),
                msg@.subrange(0, m0.len() as int) == m0,
                accepted == (unignored(ps.take(i as int), self.ignore_view()).len() == 0),
                forall|j: int| 0 <= j < unignored(ps.take(i as int), self.ignore_view()).len() ==>
                    (#[trigger] msg@[m0.len() + j] matches JsonEvaluateError::Diff(p)
                        && p@ == unignored(ps.take(i as int), self.ignore_view())[j]),
            decreases pointers@.len() - i,
        {
            proof {
                assert(ps.take(i + 1).drop_last() =~= ps.take(i as int));
                assert(ps.take(i + 1).last() == pointers@[i as int]@);
            }
            let path = &pointers[i];
            let ghost pre = msg@;
            if !self.ignores(path.as_str()) {
                accepted = msg.push_unacceptable(JsonEvaluateError::Diff(path.clone()));
                proof {
                    assert(msg@.subrange(0, m0.len() as int) =~= pre.subrange(0, m0.len() as int));
                    let u = unignored(ps.take(i + 1), self.ignore_view());
                    assert forall|j: int| 0 <= j < u.len() implies
                        (#[trigger] msg@[m0.len() + j] matches JsonEvaluateError::Diff(p) && p@ == u[j]) by {
                        if j < u.len() - 1 {
                            assert(msg@[m0.len() + j] == pre[m0.len() + j]);
                        }
                    }
                }
            }
            i = i + 1;
        }
        proof {
            assert(ps.take(pointers@.len() as int) =~= ps);
        }
        accepted
    }

    /// Each body parsed as JSON and patched with the patch for its destination. A body that
    /// does not parse fails it; a patch that fails fails it when that is fatal.
    pub fn patched(&self, bytes: &Destinations<Vec<u8>>) -> (res: Result<Destinations<serde_json::Value>, JsonEvaluateError>)
        ensures
            res is Ok == self.docs_ok(views_of(bytes@)),
            res matches Ok(d) ==> d@.len() == bytes@.len() && forall|i: int| 0 <= i < bytes@.len() ==>
                #[trigger] d@[i] == (bytes@[i].0, self.doc_of(bytes@[i].0, bytes@[i].1@)),
            res matches Ok(d) ==> crate::destinations::names_of(d@) == crate::destinations::names_of(bytes@)
                && forall|i: int| 0 <= i < bytes@.len() ==> json_parses(#[trigger] bytes@[i].1@),
            res matches Err(JsonEvaluateError::FailToParseJson(_)) ==>
                exists|i: int| 0 <= i < bytes@.len() && !json_parses(#[trigger] bytes@[i].1@),
            res matches Err(JsonEvaluateError::FailToPatchJson(_)) ==>
                self.patch is Some && self.patch_is_fatal(bytes@.len()),
            !(res matches Err(JsonEvaluateError::Diff(_))),
            (forall|i: int| 0 <= i < bytes@.len() ==> json_parses(#[trigger] bytes@[i].1@))
                && (self.patch is None || !self.patch_is_fatal(bytes@.len())) ==> res is Ok,
    {
        let n = bytes.len();
        let fatal = self.patch_failure_is_fatal(n);
        let mut out: Destinations<serde_json::Value> = Destinations::new();
        let mut i: usize = 0;
        while i < n
            invariant
                n == bytes@.len(),
                crate::destinations::distinct_names(bytes@),
                fatal == self.patch_is_fatal(n as nat),
                i <= n,
                crate::destinations::names_of(out@) == crate::destinations::names_of(bytes@.take(i as int)),
                forall|j: int| 0 <= j < i ==> json_parses(#[trigger] bytes@[j].1@),
                forall|j: int| 0 <= j < i ==> #[trigger] self.body_ok(views_of(bytes@), j),
                out@.len() == i,
                forall|j: int| 0 <= j < i ==> #[trigger] out@[j] == (bytes@[j].0, self.doc_of(bytes@[j].0, bytes@[j].1@)),
            decreases n - i,
        {
            let ghost vb = views_of(bytes@);
            proof {
                assert(vb[i as int] == (bytes@[i as int].0, bytes@[i as int].1@));
            }
            let name = bytes.name_at(i);
            let mut value = match json_from_slice(bytes.value_at(i).as_slice()) {
                Ok(v) => v,
                Err(m) => {
                    proof {
                        assert(!self.body_ok(vb, i as int));
                    }
                    return Err(JsonEvaluateError::FailToParseJson(m));
                },
            };
            let ghost parsed = value;
            match self.patch(name.as_str(), &mut value) {
                Ok(_) => {},
                Err(e) => {
                    if fatal {
                        proof {
                            assert(self.patch_fails_on(vb[i as int].0, vb[i as int].1));
                            assert(!self.body_ok(vb, i as int));
                        }
                        return Err(JsonEvaluateError::FailToPatchJson(e));
                    }
                },
            }
            proof {
                assert(self.body_ok(vb, i as int));
                assert(value == self.doc_of(bytes@[i as int].0, bytes@[i as int].1@));
            }
            let ghost pre = out@;
            proof {
                lemma_find(pre, name@);
                assert(crate::destinations::names_of(pre).len() == pre.len());
                assert(crate::destinations::names_of(bytes@.take(i as int)).len() == i);
                assert forall|j: int| 0 <= j < pre.len() implies pre[j].0 != name@ by {
                    assert(crate::destinations::names_of(pre)[j] == crate::destinations::names_of(bytes@.take(i as int))[j]);
                    assert(bytes@[j].0 != bytes@[i as int].0);
                }
            }
            let ghost v = value;
            out.insert(name.clone(), value);
            proof {
                assert(find(pre, name@) == -1);
                assert(out@ == pre.push((name@, v)));
                assert(bytes@.take(i + 1) =~= bytes@.take(i as int).push(bytes@[i as int]));
                assert forall|j: int| 0 <= j < i + 1 implies #[trigger] crate::destinations::names_of(out@)[j]
                    == crate::destinations::names_of(bytes@.take(i + 1))[j] by {
                    if j < i {
                        assert(crate::destinations::names_of(pre)[j] == crate::destinations::names_of(bytes@.take(i as int))[j]);
                    }
                }
                assert(crate::destinations::names_of(out@) =~= crate::destinations::names_of(bytes@.take(i + 1)));
            }
            i = i + 1;
        }
        proof {
            assert(bytes@.take(n as int) =~= bytes@);
            assert(self.docs_ok(views_of(bytes@)));
        }
        Ok(out)
    }

    /// Whether `va` and `vb` differ only at ignored pointers; a message for each other
    /// pointer at which `json_patch::diff` finds them different, in its order.
    pub fn json_compare(&self, va: &serde_json::Value, vb: &serde_json::Value, msg: &mut Messages<JsonEvaluateError>) -> (res: bool)
        ensures
            res == (unignored(diff_paths(*va, *vb), self.ignore_view()).len() == 0),
            diff_messages(old(msg)@, final(msg)@, unignored(diff_paths(*va, *vb), self.ignore_view())),
            *va == *vb ==> res && final(msg)@ == old(msg)@,
    {
        let diff = json_diff(va, vb);
        let pointers = Self::pointers(&diff);
        let res = self.accept_pointers(&pointers, msg);
        proof {
            if *va == *vb {
                assert(unignored(diff_paths(*va, *vb), self.ignore_view()).len() == 0);
                assert(msg@ =~= old(msg)@.subrange(0, old(msg)@.len() as int));
            }
        }
        res
    }

    /// Whether the bodies parse, patch where that is fatal, and are equal but at ignored
    /// pointers, each compared with the one before it; the messages say why not.
    pub fn accept_json(&self, bytes: &Destinations<Vec<u8>>, msg: &mut Messages<JsonEvaluateError>) -> (res: bool)
        ensures
            self.json_judged(views_of(bytes@), old(msg)@, final(msg)@, res),
    {
        let ghost dv = views_of(bytes@);
        let patched = match self.patched(bytes) {
            Ok(d) => d,
            Err(e) => {
                let ghost pre = msg@;
                msg.push_err(e);
                proof { assert(msg@.drop_last() =~= pre); }
                return false;
            },
        };
        let ghost pd = patched@;
        let values = patched.into_values();
        proof {
            assert forall|j: int| 0 <= j < dv.len() implies #[trigger] values@[j] == self.doc_of(dv[j].0, dv[j].1) by {
                assert(values@[j] == pd[j].1);
            }
        }
        let ghost m0 = msg@;
        let mut i: usize = 1;
        while i < values.len()
            invariant
                1 <= i,
                msg@ == m0,
                m0 == old(msg)@,
                dv == views_of(bytes@),
                self.docs_ok(dv),
                values@.len() == dv.len(),
                forall|j: int| 0 <= j < dv.len() ==> #[trigger] values@[j] == self.doc_of(dv[j].0, dv[j].1),
                self.agree_upto(dv, i as int),
            decreases values@.len() - i,
        {
            let ghost pre = msg@;
            if !self.json_compare(&values[i - 1], &values[i], msg) {
                proof {
                    assert(self.diff_at(dv, i as int).len() > 0);
                    assert(!self.agree_upto(dv, dv.len() as int));
                    assert(!self.same_doc_at(dv, i as int));
                }
                return false;
            }
            proof {
                assert(msg@ =~= pre);
                assert(self.diff_at(dv, i as int).len() == 0);
            }
            i = i + 1;
        }
        true
    }
}

impl Acceptable<Vec<u8>> for JsonEvaluator {
    type Message = JsonEvaluateError;

    open spec fn can_judge(&self, dest: Seq<(Seq<char>, Vec<u8>)>) -> bool {
        true
    }

    fn accept(&self, bytes: &Destinations<Vec<u8>>, msg: &mut Messages<JsonEvaluateError>) -> (res: bool)
        ensures
            self.json_judged(views_of(bytes@), old(msg)@, final(msg)@, res),
    {
        self.accept_json(bytes, msg)
    }
}

/// A clone of a byte string holds the same bytes.
proof fn lemma_cloned_bytes(a: Vec<u8>, b: Vec<u8>)
    requires
        cloned::<Vec<u8>>(a, b),
    ensures
        b@ == a@,
{
    if a != b {
        assert(b@ =~= a@);
    }
}

/// A clone of a list of byte strings holds the same byte strings.
proof fn lemma_cloned_byte_lists(a: Vec<Vec<u8>>, b: Vec<Vec<u8>>)
    requires
        cloned::<Vec<Vec<u8>>>(a, b),
    ensures
        byte_lists(b@) == byte_lists(a@),
{
    if a != b {
        assert forall|i: int| 0 <= i < a@.len() implies b@[i]@ == a@[i]@ by {
            lemma_cloned_bytes(a@[i], b@[i]);
        }
        assert(byte_lists(b@) =~= byte_lists(a@));
    }
}

impl Clone for HeaderMap {
    fn clone(&self) -> (res: Self)
        ensures
            res@ == self@,
    {
        let res = HeaderMap { fields: self.fields.clone() };
        proof {
            let a = self.fields@;
            let b = res.fields@;
            assert forall|k: Seq<char>| #![trigger has_name(b, k)] has_name(b, k) == has_name(a, k)
                && (has_name(a, k) ==> byte_lists(lookup(b, k).unwrap()@) == byte_lists(lookup(a, k).unwrap()@)) by {
                crate::destinations::lemma_find_names(a, b, k);
                lemma_find(a, k);
                if has_name(a, k) {
                    let i = find(a, k);
                    lemma_cloned_byte_lists(a[i].1, b[i].1);
                }
            }
            assert(res@ =~= self@);
        }
        res
    }
}

// ---------------------------------------------------------------------------------------
// Responses

/// `msg` with each of `sub` added as the message of a plain text body.
fn extend_plaintext(msg: &mut Messages<HttpEvaluateError>, sub: Messages<PlaintextEvaluateError>)
    ensures
        final(msg)@ == old(msg)@ + sub@.map_values(|e: PlaintextEvaluateError| HttpEvaluateError::PlaintextEvaluateError(e)),
{
    let ghost s0 = sub@;
    let mut v = sub.to_vec();
    let n = v.len();
    let ghost m0 = msg@;
    while v.len() > 0
        invariant
            v@.len() <= n == s0.len(),
            v@ == s0.subrange(n - v@.len(), n as int),
            msg@ == m0 + s0.subrange(0, n - v@.len()).map_values(|e: PlaintextEvaluateError| HttpEvaluateError::PlaintextEvaluateError(e)),
        decreases v@.len(),
    {
        let ghost k = n - v@.len();
        let e = v.remove(0);
        msg.push_err(HttpEvaluateError::PlaintextEvaluateError(e));
        proof {
            assert(s0.subrange(0, k + 1) =~= s0.subrange(0, k).push(e));
            assert(msg@ =~= m0 + s0.subrange(0, k + 1).map_values(|e: PlaintextEvaluateError| HttpEvaluateError::PlaintextEvaluateError(e)));
        }
    }
    proof {
        assert(s0.subrange(0, n as int) =~= s0);
    }
}

/// `msg` with each of `sub` added as the message of a JSON body.
fn extend_json(msg: &mut Messages<HttpEvaluateError>, sub: Messages<JsonEvaluateError>)
    ensures
        final(msg)@ == old(msg)@ + sub@.map_values(|e: JsonEvaluateError| HttpEvaluateError::JsonEvaluateError(e)),
{
    let ghost s0 = sub@;
    let mut v = sub.to_vec();
    let n = v.len();
    let ghost m0 = msg@;
    while v.len() > 0
        invariant
            v@.len() <= n == s0.len(),
            v@ == s0.subrange(n - v@.len(), n as int),
            msg@ == m0 + s0.subrange(0, n - v@.len()).map_values(|e: JsonEvaluateError| HttpEvaluateError::JsonEvaluateError(e)),
        decreases v@.len(),
    {
        let ghost k = n - v@.len();
        let e = v.remove(0);
        msg.push_err(HttpEvaluateError::JsonEvaluateError(e));
        proof {
            assert(s0.subrange(0, k + 1) =~= s0.subrange(0, k).push(e));
            assert(msg@ =~= m0 + s0.subrange(0, k + 1).map_values(|e: JsonEvaluateError| HttpEvaluateError::JsonEvaluateError(e)));
        }
    }
    proof {
        assert(s0.subrange(0, n as int) =~= s0);
    }
}

/// What response bodies are held to.
#[derive(Debug, Clone)]
pub enum HttpBody {
    /// Anything for a single destination; the same bytes from all of several.
    AnyOrEqual,
    Plaintext(PlaintextEvaluator),
    Json(JsonEvaluator),
}

impl Default for HttpBody {
    fn default() -> (res: Self)
        ensures
            res is AnyOrEqual,
    {
        HttpBody::AnyOrEqual
    }
}

impl Coalesce for HttpBody {
    /// `other` when `self` is the default, else `self`.
    open spec fn coalesces(self, other: HttpBody, res: HttpBody) -> bool {
        res == (if self is AnyOrEqual { other } else { self })
    }

    fn coalesce(self, other: HttpBody) -> (res: HttpBody) {
        let r = match self {
            HttpBody::AnyOrEqual => other,
            _ => self,
        };
        proof { assert(self.coalesces(other, r)); }
        r
    }
}

impl HttpBody {
    /// How the bodies `d` were judged: `res` is the verdict, `m1` the messages after
    /// `m0`.
    pub open spec fn judged(&self, d: Seq<(Seq<char>, Seq<u8>)>, m0: Seq<HttpEvaluateError>, m1: Seq<HttpEvaluateError>, res: bool) -> bool {
        match self {
            HttpBody::AnyOrEqual => res == (d.len() == 1 || all_equal(values_of(d))) && m1 == m0,
            HttpBody::Plaintext(p) => {
                &&& res == (forall|i: int| 0 <= i < d.len() ==> #[trigger] p.accepts_at(d, i))
                &&& res ==> m1 == m0
                &&& !res ==> exists|i: int| #![trigger p.accepts_at(d, i)]
                    0 <= i < d.len() && !p.accepts_at(d, i)
                    && (forall|j: int| 0 <= j < i ==> #[trigger] p.accepts_at(d, j))
                    && m1.len() == m0.len() + 1 && m1.drop_last() == m0
                    && (m1.last() matches HttpEvaluateError::PlaintextEvaluateError(e)
                        && plaintext_failure(e, p.pattern_for(d[i].0), d[i].1))
            },
            HttpBody::Json(j) => exists|s: Seq<JsonEvaluateError>| #![trigger j.json_judged(d, Seq::empty(), s, res)]
                m1 == m0 + s.map_values(|e: JsonEvaluateError| HttpEvaluateError::JsonEvaluateError(e))
                && j.json_judged(d, Seq::<JsonEvaluateError>::empty(), s, res),
        }
    }
}

impl Acceptable<Vec<u8>> for HttpBody {
    type Message = HttpEvaluateError;

    open spec fn can_judge(&self, dest: Seq<(Seq<char>, Vec<u8>)>) -> bool {
        match self {
            HttpBody::Plaintext(p) => p.covers(dest),
            _ => true,
        }
    }

    fn accept(&self, body: &Destinations<Vec<u8>>, msg: &mut Messages<HttpEvaluateError>) -> (res: bool)
        ensures
            self.judged(views_of(body@), old(msg)@, final(msg)@, res),
    {
        let ghost bv = views_of(body@);
        match self {
            HttpBody::AnyOrEqual => {
                proof { assert(value_views(body@) =~= values_of(bv)); }
                if body.len() == 1 { true } else { compare_all(body) }
            },
            HttpBody::Plaintext(p) => {
                let mut sub: Messages<PlaintextEvaluateError> = Messages::new();
                let r = p.accept(body, &mut sub);
                let ghost sv = sub@;
                let ghost m0 = msg@;
                extend_plaintext(msg, sub);
                proof {
                    if r {
                        assert(msg@ =~= m0);
                    } else {
                        assert(sv.len() == 1);
                        assert(msg@.drop_last() =~= m0);
                    }
                }
                r
            },
            HttpBody::Json(j) => {
                let mut sub: Messages<JsonEvaluateError> = Messages::new();
                proof {
                    assert(sub@ =~= Seq::<JsonEvaluateError>::empty());
                }
                let r = j.accept(body, &mut sub);
                let ghost sv = sub@;
                extend_json(msg, sub);
                proof {
                    assert(j.json_judged(bv, Seq::<JsonEvaluateError>::empty(), sv, r));
                }
                r
            },
        }
    }
}

/// What the responses are held to: their status, their headers, their bodies.
#[derive(Debug, Clone)]
pub struct HttpResponse {
    pub status: HttpStatus,
    pub header: HttpHeaders,
    pub body: HttpBody,
}

impl Default for HttpResponse {
    fn default() -> (res: Self)
        ensures
            res.status is OkOrEqual,
            res.header is AnyOrEqual,
            res.body is AnyOrEqual,
    {
        HttpResponse { status: HttpStatus::OkOrEqual, header: HttpHeaders::AnyOrEqual, body: HttpBody::AnyOrEqual }
    }
}

impl Coalesce for HttpResponse {
    /// Each part filled by its own rule.
    open spec fn coalesces(self, other: HttpResponse, res: HttpResponse) -> bool {
        &&& self.status.coalesces(other.status, res.status)
        &&& self.header.coalesces(other.header, res.header)
        &&& self.body.coalesces(other.body, res.body)
    }

    fn coalesce(self, other: HttpResponse) -> (res: HttpResponse) {
        let HttpResponse { status, header, body } = self;
        let HttpResponse { status: o_status, header: o_header, body: o_body } = other;
        HttpResponse { status: status.coalesce(o_status), header: header.coalesce(o_header), body: body.coalesce(o_body) }
    }
}

/// The header fields of the parts of the responses, by view.
pub open spec fn header_views_of(p: Seq<(Seq<char>, (u16, HeaderMap, Vec<u8>))>) -> Seq<(Seq<char>, Map<Seq<char>, Seq<Seq<u8>>>)> {
    p.map_values(|e: (Seq<char>, (u16, HeaderMap, Vec<u8>))| (e.0, e.1.1@))
}

/// The bodies of the parts of the responses, by view.
pub open spec fn body_views_of(p: Seq<(Seq<char>, (u16, HeaderMap, Vec<u8>))>) -> Seq<(Seq<char>, Seq<u8>)> {
    p.map_values(|e: (Seq<char>, (u16, HeaderMap, Vec<u8>))| (e.0, e.1.2@))
}

/// The status codes of the parts of the responses.
pub open spec fn statuses_of(p: Seq<(Seq<char>, (u16, HeaderMap, Vec<u8>))>) -> Seq<(Seq<char>, u16)> {
    p.map_values(|e: (Seq<char>, (u16, HeaderMap, Vec<u8>))| (e.0, e.1.0))
}

impl HttpResponse {
    /// How the responses `parts` are judged: the status first, then the headers, then the
    /// bodies; the first that is not acceptable decides, and its messages are the only
    /// ones added to `m0`, giving `m1`.
    pub open spec fn judged(
        &self,
        parts: Seq<(Seq<char>, (u16, HeaderMap, Vec<u8>))>,
        m0: Seq<HttpEvaluateError>,
        m1: Seq<HttpEvaluateError>,
        res: bool,
    ) -> bool {
        &&& !self.status.acceptable(statuses_of(parts)) ==> !res && m1 == m0.push(HttpEvaluateError::UnacceptableStatus)
        &&& self.status.acceptable(statuses_of(parts)) && !self.header.acceptable(header_views_of(parts)) ==>
            !res && m1 == m0.push(HttpEvaluateError::UnacceptableHeaderMap)
        &&& self.status.acceptable(statuses_of(parts)) && self.header.acceptable(header_views_of(parts)) ==>
            self.body.judged(body_views_of(parts), m0, m1, res)
    }
}

impl Acceptable<(u16, HeaderMap, Vec<u8>)> for HttpResponse {
    type Message = HttpEvaluateError;

    /// Plain text bodies are judged by the pattern of each destination only once the
    /// statuses and the headers are acceptable; then every destination needs one.
    open spec fn can_judge(&self, dest: Seq<(Seq<char>, (u16, HeaderMap, Vec<u8>))>) -> bool {
        match self.body {
            HttpBody::Plaintext(p) => self.status.acceptable(statuses_of(dest))
                && self.header.acceptable(header_views_of(dest)) ==> p.covers(dest),
            _ => true,
        }
    }

    /// The status first, then the headers, then the bodies; the first that is not
    /// acceptable decides, and its messages are the only ones.
    fn accept(&self, parts: &Destinations<(u16, HeaderMap, Vec<u8>)>, msg: &mut Messages<HttpEvaluateError>) -> (res: bool)
        ensures
            self.judged(parts@, old(msg)@, final(msg)@, res),
    {
        let n = parts.len();
        let mut status: Destinations<u16> = Destinations::new();
        let mut headers: Destinations<HeaderMap> = Destinations::new();
        let mut body: Destinations<Vec<u8>> = Destinations::new();
        let mut i: usize = 0;
        while i < n
            invariant
                n == parts@.len(),
                crate::destinations::distinct_names(parts@),
                i <= n,
                status@ == statuses_of(parts@.take(i as int)),
                headers@.len() == i && body@.len() == i,
                forall|j: int| 0 <= j < i ==> (#[trigger] headers@[j]).0 == parts@[j].0 && headers@[j].1@ == parts@[j].1.1@,
                forall|j: int| 0 <= j < i ==> (#[trigger] body@[j]).0 == parts@[j].0 && body@[j].1@ == parts@[j].1.2@,
            decreases n - i,
        {
            let name = parts.name_at(i);
            let (s, h, b) = parts.value_at(i);
            let ghost (ps, pt, pb) = (status@, headers@, body@);
            proof {
                lemma_find(ps, name@);
                lemma_find(pt, name@);
                lemma_find(pb, name@);
                assert forall|j: int| 0 <= j < i implies ps[j].0 != name@ && pt[j].0 != name@ && pb[j].0 != name@ by {
                    assert(ps[j].0 == parts@[j].0);
                    assert(parts@[j].0 != parts@[i as int].0);
                }
            }
            status.insert(name.clone(), *s);
            headers.insert(name.clone(), h.clone());
            body.insert(name.clone(), b.clone());
            proof {
                assert(parts@.take(i + 1) =~= parts@.take(i as int).push(parts@[i as int]));
                assert(status@ =~= statuses_of(parts@.take(i + 1)));
            }
            i = i + 1;
        }
        proof {
            assert(parts@.take(n as int) =~= parts@);
            assert(views_of(headers@) =~= header_views_of(parts@));
            assert(views_of(body@) =~= body_views_of(parts@));
        }
        if !self.status.accept(&status, msg) {
            return false;
        }
        if !self.header.accept(&headers, msg) {
            return false;
        }
        proof {
            assert(forall|j: int| 0 <= j < body@.len() ==> (#[trigger] body@[j]).0 == parts@[j].0);
            assert(self.body.can_judge(body@));
        }
        let r = self.body.accept(&body, msg);
        r
    }
}


/// The message for each destination that gave no response, in order.
pub open spec fn failures<Res>(r: Seq<(Seq<char>, RequestResult<Res>)>) -> Seq<HttpEvaluateError>
    decreases r.len(),
{
    if r.len() == 0 {
        Seq::empty()
    } else {
        failures(r.drop_last()) + if r.last().1 is Response {
            Seq::empty()
        } else {
            seq![HttpEvaluateError::RequestError(r.last().1.error_of())]
        }
    }
}

/// The failures of the first `k` destinations come first among the failures of all.
proof fn lemma_failures_take<Res>(r: Seq<(Seq<char>, RequestResult<Res>)>, k: int)
    requires
        0 <= k <= r.len(),
    ensures
        failures(r.take(k)).len() <= failures(r).len(),
        forall|j: int| 0 <= j < failures(r.take(k)).len() ==> #[trigger] failures(r)[j] == failures(r.take(k))[j],
    decreases r.len(),
{
    if k == r.len() {
        assert(r.take(k) =~= r);
    } else {
        lemma_failures_take(r.drop_last(), k);
        assert(r.drop_last().take(k) =~= r.take(k));
    }
}

/// The responses of the destinations that gave one, in order.
pub open spec fn responses_of<Res>(r: Seq<(Seq<char>, RequestResult<Res>)>) -> Seq<(Seq<char>, Res)>
    decreases r.len(),
{
    if r.len() == 0 {
        Seq::empty()
    } else {
        responses_of(r.drop_last()) + match r.last().1 {
            RequestResult::Response(p) => seq![(r.last().0, p)],
            _ => Seq::empty(),
        }
    }
}

/// A name the responses bind is one of the outcomes.
proof fn lemma_responses_names<Res>(r: Seq<(Seq<char>, RequestResult<Res>)>, k: Seq<char>)
    ensures
        has_name(responses_of(r), k) ==> has_name(r, k),
    decreases r.len(),
{
    if r.len() > 0 {
        let a = r.drop_last();
        lemma_responses_names(a, k);
        let ra = responses_of(a);
        lemma_find(ra, k);
        lemma_find(responses_of(r), k);
        lemma_find(a, k);
        lemma_find(r, k);
        if has_name(responses_of(r), k) {
            let j = find(responses_of(r), k);
            if j < ra.len() {
                assert(responses_of(r)[j] == ra[j]);
                assert(r[find(a, k)] == a[find(a, k)]);
            } else {
                assert(r[r.len() - 1].0 == k);
            }
        }
    }
}

/// Something that judges what each destination gave for one request, whether it gave a
/// response or not.
pub trait Evaluate<Res> {
    type Message;

    /// What `evaluate` needs of what it judges.
    spec fn can_evaluate(&self, res: Seq<(Seq<char>, RequestResult<Res>)>) -> bool;

    fn evaluate(&self, res: Destinations<RequestResult<Res>>, msg: &mut Messages<Self::Message>) -> bool
        requires
            self.can_evaluate(res@),
    ;
}

impl Evaluate<(u16, HeaderMap, Vec<u8>)> for HttpResponse {
    type Message = HttpEvaluateError;

    /// The responses are judged only when every destination gave one.
    open spec fn can_evaluate(&self, res: Seq<(Seq<char>, RequestResult<(u16, HeaderMap, Vec<u8>)>)>) -> bool {
        failures(res).len() == 0 ==> self.can_judge(responses_of(res))
    }

    /// Judges what each destination gave for one request: when some gave no response, a
    /// message says why the first of them gave none and the request fails; else the
    /// responses are judged as `accept` does.
    fn evaluate(
        &self,
        results: Destinations<RequestResult<(u16, HeaderMap, Vec<u8>)>>,
        msg: &mut Messages<HttpEvaluateError>,
    ) -> (res: bool)
        ensures
            failures(results@).len() > 0 ==> !res && final(msg)@ == old(msg)@.push(failures(results@)[0]),
            failures(results@).len() == 0 ==> self.judged(responses_of(results@), old(msg)@, final(msg)@, res),
    {
        let n = results.len();
        let ghost rv = results@;
        let mut entries = results.into_vec();
        let ghost e0 = entries@;
        let ghost m0 = msg@;
        let mut parts: Destinations<(u16, HeaderMap, Vec<u8>)> = Destinations::new();
        let mut i: usize = 0;
        while entries.len() > 0
            invariant
                n == rv.len() == e0.len(),
                rv == results@,
                m0 == old(msg)@,
                crate::destinations::distinct_names(rv),
                rv == e0.map_values(|e: (String, RequestResult<(u16, HeaderMap, Vec<u8>)>)| (e.0@, e.1)),
                i <= n,
                entries@ == e0.subrange(i as int, n as int),
                parts@ == responses_of(rv.take(i as int)),
                msg@ == m0,
                failures(rv.take(i as int)).len() == 0,
            decreases entries@.len(),
        {
            let (name, r) = entries.remove(0);
            let ghost t = rv.take(i + 1);
            proof {
                assert(rv[i as int] == (name@, r));
                assert(t.drop_last() =~= rv.take(i as int));
                assert(t.last() == rv[i as int]);
            }
            match r {
                RequestResult::Response(p) => {
                    proof {
                        lemma_responses_names(rv.take(i as int), name@);
                        lemma_find(rv.take(i as int), name@);
                        assert forall|j: int| 0 <= j < i implies rv.take(i as int)[j].0 != name@ by {
                            assert(rv[j].0 != rv[i as int].0);
                        }
                        lemma_find(parts@, name@);
                    }
                    parts.insert(name, p);
                },
                other => {
                    let e = other.into_error();
                    proof {
                        assert(failures(t) =~= seq![HttpEvaluateError::RequestError(e)]);
                        lemma_failures_take(rv, i + 1);
                        assert(failures(rv)[0] == failures(t)[0]);
                    }
                    msg.push_err(HttpEvaluateError::RequestError(e));
                    return false;
                },
            }
            proof {
                assert(failures(t) =~= failures(rv.take(i as int)));
            }
            i = i + 1;
        }
        proof {
            assert(rv.take(n as int) =~= rv);
        }
        self.accept(&parts, msg)
    }
}

} // verus!
