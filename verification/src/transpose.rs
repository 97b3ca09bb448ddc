//! Turning nested collections inside out: the values of each variable at each destination
//! into the variables of each destination, and sequences of named values into a named
//! sequence of values.
use vstd::prelude::*;
use crate::destinations::{
    Destinations, bind, distinct_names, has_name, lookup, lemma_find, lemma_find_distinct,
    lemma_lookup_bind, lemma_lookup_prefix, lemma_lookup_update,
};

verus! {

/// A collection turned inside out.
pub trait Transpose: Sized {
    type Output;

    fn transpose(self) -> Self::Output;
}

/// What `b` is bound to in what `a` is bound to.
pub open spec fn nested_lookup<V>(d: Seq<(Seq<char>, Destinations<V>)>, a: Seq<char>, b: Seq<char>) -> Option<V> {
    match lookup(d, a) {
        Some(inner) => lookup(inner@, b),
        None => None,
    }
}

/// `e` is `d` inside out: it binds `b` to `a` to what `d` binds `a` to `b` to, and binds no
/// name to nothing.
pub open spec fn swapped<V>(d: Seq<(Seq<char>, Destinations<V>)>, e: Seq<(Seq<char>, Destinations<V>)>) -> bool {
    &&& forall|a: Seq<char>, b: Seq<char>| #[trigger] nested_lookup(e, b, a) == nested_lookup(d, a, b)
    &&& forall|i: int| 0 <= i < e.len() ==> (#[trigger] e[i]).1@.len() > 0
}

/// A name of a sequence with distinct names is not among the names before it.
proof fn lemma_not_before<T>(s: Seq<(Seq<char>, T)>, j: int)
    requires
        distinct_names(s),
        0 <= j < s.len(),
    ensures
        lookup(s.subrange(0, j), s[j].0) is None,
{
    let p = s.subrange(0, j);
    lemma_find(p, s[j].0);
    assert forall|k: int| 0 <= k < p.len() implies p[k].0 != s[j].0 by {
        assert(s[k].0 != s[j].0);
    }
}

/// Putting `inner` at the position `p` that `position_or_insert` gave for `b` in `old`:
/// `b` then binds what `inner` binds, every other name keeps what it bound, and the
/// position held what `b` was bound to, or nothing.
proof fn lemma_nested_update<V>(
    old: Seq<(Seq<char>, Destinations<V>)>,
    res1: Seq<(Seq<char>, Destinations<V>)>,
    p: int,
    b: Seq<char>,
    dflt: Destinations<V>,
    inner: Destinations<V>,
    x: Seq<char>,
    b2: Seq<char>,
)
    requires
        distinct_names(old),
        dflt@.len() == 0,
        res1 == (if has_name(old, b) { old } else { old.push((b, dflt)) }),
        distinct_names(res1),
        0 <= p < res1.len(),
        res1[p].0 == b,
    ensures
        nested_lookup(res1.update(p, (b, inner)), b2, x) == (if b2 == b { lookup(inner@, x) } else { nested_lookup(old, b2, x) }),
        lookup(res1[p].1@, x) == nested_lookup(old, b, x),
{
    let res2 = res1.update(p, (b, inner));
    lemma_find(old, b);
    if !has_name(old, b) {
        assert(res1 == bind(old, b, dflt));
        lemma_lookup_bind(old, b, dflt, b2);
        lemma_lookup_bind(old, b, dflt, b);
        lemma_find(dflt@, x);
    }
    lemma_lookup_update(res1, p, inner, b2);
    lemma_find_distinct(res1, p);
}

impl<V> Destinations<Destinations<V>> {
    /// Each destination's values as the values of each name bound in any of them.
    fn transpose_nested(self) -> (res: Destinations<Destinations<V>>)
        ensures
            swapped(self@, res@),
    {
        let n = self.len();
        let ghost d = self@;
        let mut entries = self.into_vec();
        let ghost e0 = entries@;
        let mut res: Destinations<Destinations<V>> = Destinations::new();
        let mut j: usize = 0;
        while entries.len() > 0
            invariant
                n == d.len() == e0.len(),
                distinct_names(d),
                d == e0.map_values(|e: (String, Destinations<V>)| (e.0@, e.1)),
                j <= n,
                entries@ == e0.subrange(j as int, n as int),
                forall|a: Seq<char>, b: Seq<char>| #[trigger] nested_lookup(res@, b, a) == nested_lookup(d.subrange(0, j as int), a, b),
                forall|r: int| 0 <= r < res@.len() ==> (#[trigger] res@[r]).1@.len() > 0,
                distinct_names(res@),
            decreases entries@.len(),
        {
            let (a, inner) = entries.remove(0);
            proof {
                assert(d[j as int] == (a@, inner));
                lemma_not_before(d, j as int);
            }
            let m = inner.len();
            let ghost iv = inner@;
            let mut items = inner.into_vec();
            let ghost i0 = items@;
            let mut i: usize = 0;
            while items.len() > 0
                invariant
                    m == iv.len() == i0.len(),
                    distinct_names(iv),
                    iv == i0.map_values(|e: (String, V)| (e.0@, e.1)),
                    i <= m,
                    items@ == i0.subrange(i as int, m as int),
                    distinct_names(d),
                    j < n == d.len(),
                    d[j as int] == (a@, d[j as int].1),
                    d[j as int].1@ == iv,
                    forall|x: Seq<char>, b: Seq<char>| #[trigger] nested_lookup(res@, b, x)
                        == (if x == a@ { lookup(iv.subrange(0, i as int), b) } else { nested_lookup(d.subrange(0, j as int), x, b) }),
                    forall|r: int| 0 <= r < res@.len() ==> (#[trigger] res@[r]).1@.len() > 0,
                    distinct_names(res@),
                decreases items@.len(),
            {
                let (b, v) = items.remove(0);
                let ghost bv = b@;
                let ghost old_res = res@;
                proof { assert(iv[i as int] == (bv, v)); }
                let dflt: Destinations<V> = Destinations::new();
                let ghost dg = dflt;
                let p = res.position_or_insert(b, dflt);
                let ghost res1 = res@;
                let mut e = res.replace_at(p, Destinations::new());
                let ghost e_old = e@;
                e.insert(a.clone(), v);
                let ghost e_new = e;
                res.replace_at(p, e);
                proof {
                    assert(res@ == res1.update(p as int, (bv, e_new)));
                    assert(e_new@ == bind(e_old, a@, v));
                    lemma_find(e_old, a@);
                    assert(e_new@.len() > 0);
                    assert forall|x: Seq<char>, b2: Seq<char>| #[trigger] nested_lookup(res@, b2, x)
                        == (if x == a@ { lookup(iv.subrange(0, i + 1), b2) } else { nested_lookup(d.subrange(0, j as int), x, b2) }) by {
                        lemma_nested_update(old_res, res1, p as int, bv, dg, e_new, x, b2);
                        lemma_lookup_bind(e_old, a@, v, x);
                        lemma_lookup_prefix(iv, i as int, b2);
                    }
                    assert forall|r: int| 0 <= r < res@.len() implies (#[trigger] res@[r]).1@.len() > 0 by {
                        if r != p {
                            lemma_find(old_res, bv);
                            lemma_find(res1, bv);
                            assert(res@[r] == res1[r]);
                            if r < old_res.len() {
                                assert(res1[r] == old_res[r]);
                            }
                        } else {
                            assert(res@[r].1@ == e_new@);
                        }
                    }
                }
                i = i + 1;
            }
            proof {
                assert(iv.subrange(0, m as int) =~= iv);
                assert forall|x: Seq<char>, b: Seq<char>| #[trigger] nested_lookup(res@, b, x)
                    == nested_lookup(d.subrange(0, j + 1), x, b) by {
                    lemma_lookup_prefix(d, j as int, x);
                }
            }
            j = j + 1;
        }
        proof {
            assert(d.subrange(0, n as int) =~= d);
        }
        res
    }
}

impl<V> Transpose for Destinations<Destinations<V>> {
    type Output = Destinations<Destinations<V>>;

    /// The values of each name at each destination as the names and values of each
    /// destination: what binds `a` to `b` to a value binds `b` to `a` to it.
    fn transpose(self) -> (res: Destinations<Destinations<V>>)
        ensures
            swapped(self@, res@),
    {
        self.transpose_nested()
    }
}


/// Putting `value` at the position `p` that `position_or_insert` gave for `b`: `b` is then
/// bound to `value`, and every other name to what it was bound to before; the position held
/// what `b` was bound to, or the default.
proof fn lemma_entry_update<X>(
    old: Seq<(Seq<char>, X)>,
    res1: Seq<(Seq<char>, X)>,
    p: int,
    b: Seq<char>,
    dflt: X,
    value: X,
    k: Seq<char>,
)
    requires
        distinct_names(old),
        res1 == (if has_name(old, b) { old } else { old.push((b, dflt)) }),
        distinct_names(res1),
        0 <= p < res1.len(),
        res1[p].0 == b,
    ensures
        lookup(res1.update(p, (b, value)), k) == (if k == b { Some(value) } else { lookup(old, k) }),
        res1[p].1 == (match lookup(old, b) {
            Some(y) => y,
            None => dflt,
        }),
        forall|r: int| 0 <= r < old.len() && r != p ==> #[trigger] res1.update(p, (b, value))[r] == old[r],
        p >= old.len() ==> p == old.len(),
{
    lemma_find(old, b);
    lemma_find(res1, b);
    if !has_name(old, b) {
        assert(res1 == bind(old, b, dflt));
        lemma_lookup_bind(old, b, dflt, k);
        lemma_lookup_bind(old, b, dflt, b);
    }
    lemma_lookup_update(res1, p, value, k);
    lemma_find_distinct(res1, p);
}

/// The `i`-th value of the sequence bound to `k`, when there is one.
pub open spec fn entry_at<T>(d: Seq<(Seq<char>, Vec<T>)>, k: Seq<char>, i: int) -> Option<T> {
    match lookup(d, k) {
        Some(v) => if 0 <= i < v@.len() { Some(v@[i]) } else { None },
        None => None,
    }
}

/// The length of the longest of the sequences.
pub open spec fn longest<T>(d: Seq<(Seq<char>, Vec<T>)>) -> nat
    decreases d.len(),
{
    if d.len() == 0 {
        0
    } else {
        let m = longest(d.drop_last());
        if d.last().1@.len() > m { d.last().1@.len() } else { m }
    }
}

/// No sequence has a value at or past the length of the longest.
proof fn lemma_longest<T>(d: Seq<(Seq<char>, Vec<T>)>, k: Seq<char>, i: int)
    requires
        distinct_names(d),
        i >= longest(d),
    ensures
        entry_at(d, k, i) is None,
    decreases d.len(),
{
    if d.len() > 0 {
        let n = d.len() - 1;
        lemma_lookup_prefix(d, n, k);
        assert(d.subrange(0, n + 1) =~= d);
        assert(d.subrange(0, n) =~= d.drop_last());
        lemma_longest(d.drop_last(), k, i);
    } else {
        lemma_find(d, k);
    }
}

/// Every sequence is at most as long as the longest.
pub proof fn lemma_longest_bounds<T>(d: Seq<(Seq<char>, Vec<T>)>, k: Seq<char>)
    requires
        distinct_names(d),
    ensures
        lookup(d, k) matches Some(v) ==> v@.len() <= longest(d),
{
    if let Some(v) = lookup(d, k) {
        if v@.len() > longest(d) {
            lemma_longest(d, k, v@.len() - 1);
        }
    }
}

impl<T> Destinations<Vec<T>> {
    /// The sequences of each destination as a sequence of destinations: the `i`-th binds
    /// each name to the `i`-th value of its sequence, for the names whose sequence has one.
    fn transpose_rows(self) -> (res: Vec<Destinations<T>>)
        ensures
            res@.len() == longest(self@),
            forall|r: int, k: Seq<char>| 0 <= r < res@.len() ==> #[trigger] lookup(res@[r]@, k) == entry_at(self@, k, r),
    {
        let n = self.len();
        let ghost d = self@;
        let mut entries = self.into_vec();
        let ghost e0 = entries@;
        let mut t: Vec<Destinations<T>> = Vec::new();
        let mut j: usize = 0;
        while entries.len() > 0
            invariant
                n == d.len() == e0.len(),
                distinct_names(d),
                d == e0.map_values(|e: (String, Vec<T>)| (e.0@, e.1)),
                j <= n,
                entries@ == e0.subrange(j as int, n as int),
                t@.len() == longest(d.subrange(0, j as int)),
                forall|r: int, k: Seq<char>| 0 <= r < t@.len() ==> #[trigger] lookup(t@[r]@, k) == entry_at(d.subrange(0, j as int), k, r),
            decreases entries@.len(),
        {
            let (k, vals) = entries.remove(0);
            proof {
                assert(d[j as int] == (k@, vals));
                lemma_not_before(d, j as int);
            }
            let ghost vv = vals@;
            let ghost l = longest(d.subrange(0, j as int));
            let m = vals.len();
            let mut vals = vals;
            let mut i: usize = 0;
            while vals.len() > 0
                invariant
                    m == vv.len(),
                    i <= m,
                    vals@ == vv.subrange(i as int, m as int),
                    distinct_names(d),
                    j < n == d.len(),
                    d[j as int] == (k@, d[j as int].1),
                    d[j as int].1@ == vv,
                    l == longest(d.subrange(0, j as int)),
                    lookup(d.subrange(0, j as int), k@) is None,
                    t@.len() == (if i > l { i as nat } else { l }),
                    forall|r: int, x: Seq<char>| 0 <= r < t@.len() ==> #[trigger] lookup(t@[r]@, x)
                        == (if x == k@ && r < i { Some(vv[r]) } else { entry_at(d.subrange(0, j as int), x, r) }),
                decreases vals@.len(),
            {
                let v = vals.remove(0);
                proof { assert(v == vv[i as int]); }
                let ghost pre = t@;
                if i < t.len() {
                    t[i].insert(k.clone(), v);
                } else {
                    let mut nd: Destinations<T> = Destinations::new();
                    nd.insert(k.clone(), v);
                    t.push(nd);
                }
                proof {
                    assert forall|r: int, x: Seq<char>| 0 <= r < t@.len() implies #[trigger] lookup(t@[r]@, x)
                        == (if x == k@ && r < i + 1 { Some(vv[r]) } else { entry_at(d.subrange(0, j as int), x, r) }) by {
                        if r == i {
                            if i < pre.len() {
                                lemma_lookup_bind(pre[r]@, k@, v, x);
                            } else {
                                lemma_lookup_bind(Seq::<(Seq<char>, T)>::empty(), k@, v, x);
                                lemma_find(Seq::<(Seq<char>, T)>::empty(), x);
                                if x != k@ {
                                    lemma_longest(d.subrange(0, j as int), x, r);
                                }
                            }
                        } else {
                            assert(t@[r] == pre[r]);
                        }
                    }
                }
                i = i + 1;
            }
            proof {
                let dj = d.subrange(0, j + 1);
                assert(dj.drop_last() =~= d.subrange(0, j as int));
                assert(dj.last() == d[j as int]);
                assert forall|r: int, x: Seq<char>| 0 <= r < t@.len() implies #[trigger] lookup(t@[r]@, x)
                    == entry_at(dj, x, r) by {
                    lemma_lookup_prefix(d, j as int, x);
                }
            }
            j = j + 1;
        }
        proof {
            assert(d.subrange(0, n as int) =~= d);
        }
        t
    }
}

impl<T> Transpose for Destinations<Vec<T>> {
    type Output = Vec<Destinations<T>>;

    /// The `i`-th destinations bind each name to the `i`-th value of its sequence, for the
    /// names whose sequence has one; there are as many as the longest sequence has values.
    fn transpose(self) -> (res: Vec<Destinations<T>>)
        ensures
            res@.len() == longest(self@),
            forall|r: int, k: Seq<char>| 0 <= r < res@.len() ==> #[trigger] lookup(res@[r]@, k) == entry_at(self@, k, r),
    {
        self.transpose_rows()
    }
}

/// The sequence `c` followed by the value `o` holds, if any.
pub open spec fn then_some<T>(c: Seq<T>, o: Option<T>) -> Seq<T> {
    match o {
        Some(x) => c.push(x),
        None => c,
    }
}

/// The values bound to `k` in those of `v` that bind it, in order.
pub open spec fn column<T>(v: Seq<Destinations<T>>, k: Seq<char>) -> Seq<T>
    decreases v.len(),
{
    if v.len() == 0 {
        Seq::empty()
    } else {
        then_some(column(v.drop_last(), k), lookup(v.last()@, k))
    }
}

/// `res` binds each name that some of `v` bind to the values they bind it to, in order, and
/// binds no other name.
pub open spec fn gathered<T>(v: Seq<Destinations<T>>, res: Seq<(Seq<char>, Vec<T>)>) -> bool {
    forall|k: Seq<char>| #![trigger lookup(res, k)] #![trigger column(v, k)]
        match lookup(res, k) {
            Some(c) => c@ == column(v, k) && c@.len() > 0,
            None => column(v, k).len() == 0,
        }
}

/// Each name bound in any of `v`, bound to the values they bind it to, in order.
fn transpose_columns<T>(v: Vec<Destinations<T>>) -> (res: Destinations<Vec<T>>)
    ensures
        gathered(v@, res@),
{
    let ghost v0 = v@;
    let n = v.len();
    let mut rest = v;
    let mut res: Destinations<Vec<T>> = Destinations::new();
    let mut j: usize = 0;
    proof {
        assert forall|k: Seq<char>| #![trigger lookup(res@, k)] #![trigger column(v0.subrange(0, 0), k)]
            match lookup(res@, k) {
                Some(c) => c@ == column(v0.subrange(0, 0), k) && c@.len() > 0,
                None => column(v0.subrange(0, 0), k).len() == 0,
            } by {
            lemma_find(res@, k);
        }
    }
    while rest.len() > 0
        invariant
            n == v0.len(),
            j <= n,
            rest@ == v0.subrange(j as int, n as int),
            gathered(v0.subrange(0, j as int), res@),
            distinct_names(res@),
        decreases rest@.len(),
    {
        let dj = rest.remove(0);
        proof { assert(dj == v0[j as int]); }
        let m = dj.len();
        let ghost dv = dj@;
        let mut items = dj.into_vec();
        let ghost i0 = items@;
        let ghost vj = v0.subrange(0, j as int);
        let mut i: usize = 0;
        while items.len() > 0
            invariant
                m == dv.len() == i0.len(),
                distinct_names(dv),
                dv == i0.map_values(|e: (String, T)| (e.0@, e.1)),
                i <= m,
                items@ == i0.subrange(i as int, m as int),
                distinct_names(res@),
                forall|k: Seq<char>| #![trigger lookup(res@, k)]
                    match lookup(res@, k) {
                        Some(c) => c@ == then_some(column(vj, k), lookup(dv.subrange(0, i as int), k)) && c@.len() > 0,
                        None => then_some(column(vj, k), lookup(dv.subrange(0, i as int), k)).len() == 0,
                    },
            decreases items@.len(),
        {
            let (k, x) = items.remove(0);
            let ghost kv = k@;
            proof {
                assert(dv[i as int] == (kv, x));
                lemma_not_before(dv, i as int);
            }
            let ghost old_res = res@;
            let dflt: Vec<T> = Vec::new();
            let ghost dg = dflt;
            let p = res.position_or_insert(k, dflt);
            let ghost res1 = res@;
            let mut c = res.replace_at(p, Vec::new());
            let ghost c_old = c;
            c.push(x);
            let ghost c_new = c;
            res.replace_at(p, c);
            proof {
                assert(res@ == res1.update(p as int, (kv, c_new)));
                assert forall|k2: Seq<char>| #![trigger lookup(res@, k2)]
                    match lookup(res@, k2) {
                        Some(c) => c@ == then_some(column(vj, k2), lookup(dv.subrange(0, i + 1), k2)) && c@.len() > 0,
                        None => then_some(column(vj, k2), lookup(dv.subrange(0, i + 1), k2)).len() == 0,
                    } by {
                    lemma_entry_update(old_res, res1, p as int, kv, dg, c_new, k2);
                    lemma_lookup_prefix(dv, i as int, k2);
                    if k2 == kv {
                        assert(c_new@ == c_old@.push(x));
                        assert(lookup(old_res, kv) matches Some(y) ==> y@ == column(vj, kv));
                    }
                }
            }
            i = i + 1;
        }
        proof {
            let w = v0.subrange(0, j + 1);
            assert(w.drop_last() =~= vj);
            assert(w.last() == v0[j as int]);
            assert(dv.subrange(0, m as int) =~= dv);
            assert forall|k: Seq<char>| #![trigger lookup(res@, k)] #![trigger column(w, k)]
                match lookup(res@, k) {
                    Some(c) => c@ == column(w, k) && c@.len() > 0,
                    None => column(w, k).len() == 0,
                } by {
                assert(column(w, k) == then_some(column(vj, k), lookup(dv, k)));
            }
        }
        j = j + 1;
    }
    proof {
        assert(v0.subrange(0, n as int) =~= v0);
    }
    res
}

impl<T> Transpose for Vec<Destinations<T>> {
    type Output = Destinations<Vec<T>>;

    /// Each name bound in any of the destinations, bound to the values they bind it to, in
    /// order.
    fn transpose(self) -> (res: Destinations<Vec<T>>)
        ensures
            gathered(self@, res@),
    {
        transpose_columns(self)
    }
}

} // verus!
