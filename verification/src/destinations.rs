//! `Destinations<T>`: one value for each named destination.
use vstd::prelude::*;

verus! {

/// The keys of a sequence of named entries.
pub open spec fn names_of<T>(s: Seq<(Seq<char>, T)>) -> Seq<Seq<char>> {
    s.map_values(|e: (Seq<char>, T)| e.0)
}

/// No name occurs twice.
pub open spec fn distinct_names<T>(s: Seq<(Seq<char>, T)>) -> bool {
    forall|i: int, j: int| 0 <= i < j < s.len() ==> #[trigger] s[i].0 != #[trigger] s[j].0
}

/// The position of the first entry named `name` in `s`, or -1 when there is none.
pub open spec fn find<T>(s: Seq<(Seq<char>, T)>, name: Seq<char>) -> int
    decreases s.len(),
{
    if s.len() == 0 {
        -1
    } else if s[0].0 == name {
        0
    } else {
        let r = find(s.drop_first(), name);
        if r < 0 { -1 } else { r + 1 }
    }
}

/// `name` is one of the names of `s`.
pub open spec fn has_name<T>(s: Seq<(Seq<char>, T)>, name: Seq<char>) -> bool {
    find(s, name) >= 0
}

/// The value bound to `name` in `s`, when there is one.
pub open spec fn lookup<T>(s: Seq<(Seq<char>, T)>, name: Seq<char>) -> Option<T> {
    let i = find(s, name);
    if i >= 0 { Some(s[i].1) } else { None }
}

/// `s` with `name` bound to `value`: in place where the name is bound, else at the end.
pub open spec fn bind<T>(s: Seq<(Seq<char>, T)>, name: Seq<char>, value: T) -> Seq<(Seq<char>, T)> {
    let i = find(s, name);
    if i >= 0 { s.update(i, (name, value)) } else { s.push((name, value)) }
}

/// `find` gives the first entry with the name, or -1 when no entry has it.
pub proof fn lemma_find<T>(s: Seq<(Seq<char>, T)>, name: Seq<char>)
    ensures
        -1 <= find(s, name) < s.len(),
        find(s, name) == -1 <==> (forall|j: int| 0 <= j < s.len() ==> s[j].0 != name),
        find(s, name) >= 0 ==> s[find(s, name)].0 == name,
        forall|j: int| 0 <= j < find(s, name) ==> s[j].0 != name,
    decreases s.len(),
{
    if s.len() > 0 && s[0].0 != name {
        lemma_find(s.drop_first(), name);
        assert forall|j: int| 1 <= j < s.len() implies s[j].0 == s.drop_first()[j - 1].0 by {}
        if find(s.drop_first(), name) == -1 {
            assert forall|j: int| 0 <= j < s.len() implies s[j].0 != name by {
                if j > 0 { assert(s.drop_first()[j - 1] == s[j]); }
            }
        } else {
            assert forall|j: int| 0 <= j < find(s, name) implies s[j].0 != name by {
                if j > 0 { assert(s.drop_first()[j - 1] == s[j]); }
            }
        }
    }
}

/// With distinct names, the entry at any position is what `find` finds for its name.
pub proof fn lemma_find_distinct<T>(s: Seq<(Seq<char>, T)>, i: int)
    requires
        distinct_names(s),
        0 <= i < s.len(),
    ensures
        find(s, s[i].0) == i,
        lookup(s, s[i].0) == Some(s[i].1),
{
    lemma_find(s, s[i].0);
}

/// `find` looks at the names only.
pub proof fn lemma_find_names<T, U>(s: Seq<(Seq<char>, T)>, t: Seq<(Seq<char>, U)>, name: Seq<char>)
    requires
        s.len() == t.len(),
        forall|j: int| 0 <= j < s.len() ==> s[j].0 == t[j].0,
    ensures
        find(s, name) == find(t, name),
    decreases s.len(),
{
    if s.len() > 0 {
        lemma_find_names(s.drop_first(), t.drop_first(), name);
    }
}

/// Binding a name changes what that name looks up to, and nothing else.
pub proof fn lemma_lookup_bind<T>(s: Seq<(Seq<char>, T)>, k: Seq<char>, v: T, k2: Seq<char>)
    ensures
        lookup(bind(s, k, v), k2) == (if k == k2 { Some(v) } else { lookup(s, k2) }),
{
    let t = bind(s, k, v);
    lemma_find(s, k);
    lemma_find(s, k2);
    lemma_find(t, k2);
    if find(s, k) >= 0 {
        lemma_find_names(s, t, k2);
    } else {
        assert(t[s.len() as int] == (k, v));
        assert forall|j: int| 0 <= j < s.len() implies t[j] == s[j] by {}
    }
}

/// Changing the value at a position changes what its name looks up to, and nothing else.
pub proof fn lemma_lookup_update<T>(s: Seq<(Seq<char>, T)>, j: int, v: T, k: Seq<char>)
    requires
        distinct_names(s),
        0 <= j < s.len(),
    ensures
        lookup(s.update(j, (s[j].0, v)), k) == (if s[j].0 == k { Some(v) } else { lookup(s, k) }),
{
    let t = s.update(j, (s[j].0, v));
    lemma_find_names(s, t, k);
    lemma_find(s, k);
    if s[j].0 == k {
        lemma_find_distinct(s, j);
    } else {
        if find(s, k) == j {
            assert(s[j].0 == k);
        }
    }
}

/// With distinct names, what `k` looks up to in the first `i + 1` entries: the `i`-th value
/// when that entry is named `k`, else what `k` looks up to in the first `i` entries.
pub proof fn lemma_lookup_prefix<T>(s: Seq<(Seq<char>, T)>, i: int, k: Seq<char>)
    requires
        distinct_names(s),
        0 <= i < s.len(),
    ensures
        lookup(s.subrange(0, i + 1), k) == (if s[i].0 == k { Some(s[i].1) } else { lookup(s.subrange(0, i), k) }),
{
    let p = s.subrange(0, i + 1);
    let q = s.subrange(0, i);
    lemma_find(p, k);
    lemma_find(q, k);
    if s[i].0 == k {
        assert(p[i].0 == k);
        assert forall|j: int| 0 <= j < i implies p[j].0 != k by {
            assert(s[j].0 != s[i].0);
        }
    } else {
        assert forall|j: int| 0 <= j < i implies p[j] == q[j] by {}
    }
}


/// `d` with the value of each of its names replaced by the one `e` binds it to, where `e`
/// binds it; names that only `e` has are left out.
pub open spec fn overridden<T>(d: Seq<(Seq<char>, T)>, e: Seq<(Seq<char>, T)>) -> Seq<(Seq<char>, T)> {
    Seq::new(d.len(), |i: int| (d[i].0, match lookup(e, d[i].0) {
        Some(v) => v,
        None => d[i].1,
    }))
}

/// A value for each named destination. Names are distinct; entries keep the order in
/// which their names were first bound.
#[derive(Debug)]
pub struct Destinations<T> {
    entries: Vec<(String, T)>,
}

impl<T> View for Destinations<T> {
    type V = Seq<(Seq<char>, T)>;

    closed spec fn view(&self) -> Seq<(Seq<char>, T)> {
        self.entries@.map_values(|e: (String, T)| (e.0@, e.1))
    }
}

impl<T> Destinations<T> {
    #[verifier::type_invariant]
    closed spec fn inv(self) -> bool {
        distinct_names(self@)
    }

    /// No destination at all.
    pub fn new() -> (res: Self)
        ensures
            res@ == Seq::<(Seq<char>, T)>::empty(),
    {
        Destinations { entries: Vec::new() }
    }

    /// The number of destinations.
    pub fn len(&self) -> (n: usize)
        ensures
            n == self@.len(),
            distinct_names(self@),
    {
        proof { use_type_invariant(self); }
        self.entries.len()
    }

    /// Whether there is no destination.
    pub fn is_empty(&self) -> (b: bool)
        ensures
            b == (self@.len() == 0),
    {
        self.entries.len() == 0
    }

    /// The name of the `i`-th destination.
    pub fn name_at(&self, i: usize) -> (res: &String)
        requires
            i < self@.len(),
        ensures
            res@ == self@[i as int].0,
    {
        &self.entries[i].0
    }

    /// The value of the `i`-th destination.
    pub fn value_at(&self, i: usize) -> (res: &T)
        requires
            i < self@.len(),
        ensures
            *res == self@[i as int].1,
    {
        &self.entries[i].1
    }

    /// Puts `value` as the value of the `i`-th destination; returns the value it had.
    pub fn replace_at(&mut self, i: usize, value: T) -> (res: T)
        requires
            i < old(self)@.len(),
        ensures
            res == old(self)@[i as int].1,
            final(self)@ == old(self)@.update(i as int, (old(self)@[i as int].0, value)),
            distinct_names(final(self)@),
    {
        proof { use_type_invariant(&*self); }
        let ghost pre = self@;
        let mut entries: Vec<(String, T)> = Vec::new();
        std::mem::swap(&mut entries, &mut self.entries);
        let ghost e0 = entries@;
        let (k, old_v) = entries.remove(i);
        let ghost kv = k@;
        entries.insert(i, (k, value));
        proof {
            assert(entries@ == e0.update(i as int, entries@[i as int]));
            assert(entries@.map_values(|e: (String, T)| (e.0@, e.1)) =~= pre.update(i as int, (kv, value)));
            assert forall|a: int, b: int| 0 <= a < b < pre.len() implies
                #[trigger] pre.update(i as int, (kv, value))[a].0 != #[trigger] pre.update(i as int, (kv, value))[b].0 by {
                assert(pre[a].0 != pre[b].0);
            }
        }
        self.entries = entries;
        proof { use_type_invariant(&*self); }
        old_v
    }

    /// The position of `name`, binding it to `default` first when it is not bound.
    pub fn position_or_insert(&mut self, name: String, default: T) -> (i: usize)
        ensures
            final(self)@ == (if has_name(old(self)@, name@) { old(self)@ } else { old(self)@.push((name@, default)) }),
            i < final(self)@.len(),
            final(self)@[i as int].0 == name@,
            i as int == find(final(self)@, name@),
            distinct_names(final(self)@),
    {
        proof {
            use_type_invariant(&*self);
            lemma_find(self@, name@);
        }
        let i = match self.position(name.as_str()) {
            Some(i) => i,
            None => {
                let ghost nm = name@;
                self.insert(name, default);
                proof {
                    lemma_find(old(self)@, nm);
                    lemma_find(self@, nm);
                    assert(self@[old(self)@.len() as int].0 == nm);
                }
                self.entries.len() - 1
            },
        };
        proof { use_type_invariant(&*self); }
        i
    }

    /// The position of `name`, if it is bound.
    pub fn position(&self, name: &str) -> (res: Option<usize>)
        ensures
            match res {
                Some(i) => i as int == find(self@, name@),
                None => find(self@, name@) == -1,
            },
    {
        proof { lemma_find(self@, name@); }
        let mut i: usize = 0;
        while i < self.entries.len()
            invariant
                i <= self@.len(),
                self@.len() == self.entries@.len(),
                forall|j: int| 0 <= j < i ==> self@[j].0 != name@,
            decreases self@.len() - i,
        {
            if crate::text::str_eq(self.entries[i].0.as_str(), name) {
                proof {
                    assert(self@[i as int].0 == name@);
                    lemma_find(self@, name@);
                }
                return Some(i);
            }
            i = i + 1;
        }
        None
    }

    /// Whether `name` is bound.
    pub fn contains_key(&self, name: &str) -> (b: bool)
        ensures
            b == has_name(self@, name@),
    {
        self.position(name).is_some()
    }

    /// The value bound to `name`, if any.
    pub fn get(&self, name: &str) -> (res: Option<&T>)
        ensures
            match res {
                Some(v) => lookup(self@, name@) == Some(*v),
                None => lookup(self@, name@) is None,
            },
    {
        proof { lemma_find(self@, name@); }
        match self.position(name) {
            Some(i) => {
                Some(&self.entries[i].1)
            },
            None => None,
        }
    }

    /// Binds `name` to `value`; returns the value it was bound to before, if any.
    pub fn insert(&mut self, name: String, value: T) -> (old_value: Option<T>)
        ensures
            final(self)@ == bind(old(self)@, name@, value),
            old_value == lookup(old(self)@, name@),
            distinct_names(final(self)@),
    {
        proof { use_type_invariant(&*self); }
        let ghost pre = self@;
        proof { lemma_find(pre, name@); }
        let res = match self.position(name.as_str()) {
            Some(i) => {
                let mut entries: Vec<(String, T)> = Vec::new();
                std::mem::swap(&mut entries, &mut self.entries);
                let ghost e0 = entries@;
                let (k, old_v) = entries.remove(i);
                entries.insert(i, (name, value));
                proof {
                    lemma_find(pre, name@);
                    assert(entries@ == e0.update(i as int, entries@[i as int]));
                    assert(entries@.map_values(|e: (String, T)| (e.0@, e.1)) =~= pre.update(i as int, (name@, value)));
                }
                self.entries = entries;
                Some(old_v)
            },
            None => {
                let ghost nm = name@;
                let mut entries: Vec<(String, T)> = Vec::new();
                std::mem::swap(&mut entries, &mut self.entries);
                entries.push((name, value));
                proof {
                    assert(entries@.map_values(|e: (String, T)| (e.0@, e.1)) =~= pre.push((nm, value)));
                    lemma_find(pre, nm);
                    assert forall|a: int, b: int| 0 <= a < b < pre.len() + 1 implies
                        #[trigger] pre.push((nm, value))[a].0 != #[trigger] pre.push((nm, value))[b].0 by {
                        if b < pre.len() {} else { assert(pre[a].0 != nm); }
                    }
                }
                self.entries = entries;
                None
            },
        };
        proof { use_type_invariant(&*self); }
        res
    }

    /// The entries, in order.
    pub fn into_vec(self) -> (res: Vec<(String, T)>)
        ensures
            res@.map_values(|e: (String, T)| (e.0@, e.1)) == self@,
    {
        self.entries
    }

    /// The names, in order.
    pub fn into_keys(self) -> (res: Vec<String>)
        ensures
            res@.map_values(|k: String| k@) == names_of(self@),
    {
        let ghost v = self@;
        let mut entries = self.entries;
        let mut keys: Vec<String> = Vec::new();
        let mut i: usize = 0;
        let n = entries.len();
        let ghost e0 = entries@;
        while entries.len() > 0
            invariant
                n == e0.len(),
                v == e0.map_values(|e: (String, T)| (e.0@, e.1)),
                entries@.len() <= n,
                entries@ == e0.subrange(n - entries@.len(), n as int),
                keys@.len() == n - entries@.len(),
                forall|j: int| 0 <= j < keys@.len() ==> #[trigger] keys@[j]@ == v[j].0,
            decreases entries@.len(),
        {
            let (k, _) = entries.remove(0);
            keys.push(k);
        }
        proof {
            assert(keys@.map_values(|k: String| k@) =~= names_of(v));
        }
        keys
    }

    /// The values, in the order of their names.
    pub fn into_values(self) -> (res: Vec<T>)
        ensures
            res@ == self@.map_values(|e: (Seq<char>, T)| e.1),
    {
        let ghost v = self@;
        let mut entries = self.entries;
        let mut values: Vec<T> = Vec::new();
        let n = entries.len();
        let ghost e0 = entries@;
        while entries.len() > 0
            invariant
                n == e0.len(),
                v == e0.map_values(|e: (String, T)| (e.0@, e.1)),
                entries@.len() <= n,
                entries@ == e0.subrange(n - entries@.len(), n as int),
                values@.len() == n - entries@.len(),
                forall|j: int| 0 <= j < values@.len() ==> #[trigger] values@[j] == v[j].1,
            decreases entries@.len(),
        {
            let (_, x) = entries.remove(0);
            values.push(x);
        }
        proof {
            assert(values@ =~= v.map_values(|e: (Seq<char>, T)| e.1));
        }
        values
    }

    /// Replaces the value of each name that `other` binds too by the one `other` binds it
    /// to; names that only `other` has are not added.
    pub fn override_with(&mut self, other: Destinations<T>)
        ensures
            final(self)@ == overridden(old(self)@, other@),
    {
        proof { use_type_invariant(&other); }
        let ghost d = self@;
        let ghost e = other@;
        let mut entries = other.entries;
        let n = entries.len();
        let ghost e0 = entries@;
        proof {
            assert(self@ =~= overridden(d, e.subrange(0, 0)));
        }
        while entries.len() > 0
            invariant
                n == e0.len() == e.len(),
                e == e0.map_values(|x: (String, T)| (x.0@, x.1)),
                distinct_names(e),
                entries@.len() <= n,
                entries@ == e0.subrange(n - entries@.len(), n as int),
                self@ == overridden(d, e.subrange(0, n - entries@.len())),
            decreases entries@.len(),
        {
            let ghost i = n - entries@.len();
            let ghost first = entries@[0];
            proof {
                assert(first == e0[i]);
                assert(e[i] == (first.0@, first.1));
            }
            let (k, x) = entries.remove(0);
            let ghost cur = self@;
            proof {
                assert(k@ == e[i].0 && x == e[i].1);
                assert forall|k2: Seq<char>| #[trigger] lookup(e.subrange(0, i + 1), k2)
                    == (if e[i].0 == k2 { Some(e[i].1) } else { lookup(e.subrange(0, i), k2) }) by {
                    lemma_lookup_prefix(e, i, k2);
                }
            }
            proof {
                lemma_find(cur, k@);
                use_type_invariant(&*self);
            }
            match self.position(k.as_str()) {
                Some(j) => {
                    self.replace_at(j, x);
                    proof {
                        assert forall|a: int| 0 <= a < d.len() && a != j implies d[a].0 != k@ by {
                            assert(cur[a].0 == d[a].0);
                            assert(cur[j as int].0 == k@);
                        }
                        assert(self@ =~= overridden(d, e.subrange(0, i + 1)));
                    }
                },
                None => {
                    proof {
                        assert forall|a: int| 0 <= a < d.len() implies d[a].0 != k@ by {
                            assert(cur[a].0 == d[a].0);
                        }
                        assert(self@ =~= overridden(d, e.subrange(0, i + 1)));
                    }
                },
            }
        }
        proof {
            assert(e.subrange(0, n as int) =~= e);
        }
    }
}

impl<T: Clone> Clone for Destinations<T> {
    /// The same names, in the same order, each with a clone of its value.
    fn clone(&self) -> (res: Self)
        ensures
            res@.len() == self@.len(),
            forall|i: int| 0 <= i < self@.len() ==> (#[trigger] res@[i]).0 == self@[i].0
                && cloned::<T>(self@[i].1, res@[i].1),
    {
        proof { use_type_invariant(self); }
        let mut entries: Vec<(String, T)> = Vec::new();
        let mut i: usize = 0;
        while i < self.entries.len()
            invariant
                i <= self.entries@.len(),
                distinct_names(self@),
                entries@.len() == i,
                forall|j: int| 0 <= j < i ==> (#[trigger] entries@[j]).0@ == self@[j].0
                    && cloned::<T>(self@[j].1, entries@[j].1),
            decreases self.entries@.len() - i,
        {
            let k = self.entries[i].0.clone();
            let v = self.entries[i].1.clone();
            entries.push((k, v));
            i = i + 1;
        }
        let res = Destinations { entries };
        proof {
            assert forall|a: int, b: int| 0 <= a < b < res@.len() implies
                #[trigger] res@[a].0 != #[trigger] res@[b].0 by {
                assert(self@[a].0 != self@[b].0);
            }
        }
        res
    }
}

} // verus!
