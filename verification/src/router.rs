//! Sending each request to the service of its origin.
use vstd::prelude::*;
use crate::destinations::{Destinations, lemma_find};

verus! {

/// The authority (`host:port`) of the URI `uri`, as `http::Uri` reads it, if it parses and
/// has one.
pub uninterp spec fn authority_of(uri: Seq<char>) -> Option<Seq<char>>;

/// The authority of the URI `uri`, by `http::Uri::authority`.
#[verifier::external_body]
fn uri_authority(uri: &str) -> (res: Option<String>)
    ensures
        match res {
            Some(a) => authority_of(uri@) == Some(a@),
            None => authority_of(uri@) is None,
        },
{
    uri.parse::<http::Uri>().ok().and_then(|u| u.authority().map(|a| a.as_str().to_string()))
}

/// `c` with an ASCII capital letter turned into its small letter.
pub open spec fn ascii_lower_char(c: char) -> char {
    if 'A' <= c && c <= 'Z' { ((c as u32) + 32) as char } else { c }
}

/// `s` with ASCII capital letters turned into small ones; authorities are compared so, as
/// `http::uri::Authority` compares them.
pub open spec fn ascii_lower(s: Seq<char>) -> Seq<char> {
    s.map_values(|c: char| ascii_lower_char(c))
}

/// The value of the first entry of `s` whose name is `a` but for the case of ASCII letters.
pub open spec fn lookup_folded<T>(s: Seq<(Seq<char>, T)>, a: Seq<char>) -> Option<T>
    decreases s.len(),
{
    if s.len() == 0 {
        None
    } else if ascii_lower(s[0].0) == ascii_lower(a) {
        Some(s[0].1)
    } else {
        lookup_folded(s.drop_first(), a)
    }
}

/// What `lookup_folded` finds is the value of the first entry whose name is `a` but for
/// the case of ASCII letters; it finds nothing when no name is.
pub proof fn lemma_lookup_folded<T>(s: Seq<(Seq<char>, T)>, a: Seq<char>)
    ensures
        match lookup_folded(s, a) {
            Some(v) => exists|k: int| #![trigger s[k]] 0 <= k < s.len() && s[k].1 == v
                && ascii_lower(s[k].0) == ascii_lower(a)
                && forall|j: int| 0 <= j < k ==> ascii_lower(#[trigger] s[j].0) != ascii_lower(a),
            None => forall|j: int| 0 <= j < s.len() ==> ascii_lower(#[trigger] s[j].0) != ascii_lower(a),
        },
    decreases s.len(),
{
    if s.len() > 0 && ascii_lower(s[0].0) != ascii_lower(a) {
        let t = s.drop_first();
        lemma_lookup_folded(t, a);
        match lookup_folded(t, a) {
            Some(v) => {
                let k = choose|k: int| #![trigger t[k]] 0 <= k < t.len() && t[k].1 == v
                    && ascii_lower(t[k].0) == ascii_lower(a)
                    && forall|j: int| 0 <= j < k ==> ascii_lower(#[trigger] t[j].0) != ascii_lower(a);
                assert(s[k + 1] == t[k]);
                assert forall|j: int| 0 <= j < k + 1 implies ascii_lower(#[trigger] s[j].0) != ascii_lower(a) by {
                    if j > 0 {
                        assert(s[j] == t[j - 1]);
                    }
                }
            },
            None => {
                assert forall|j: int| 0 <= j < s.len() implies ascii_lower(#[trigger] s[j].0) != ascii_lower(a) by {
                    if j > 0 {
                        assert(s[j] == t[j - 1]);
                    }
                }
            },
        }
    } else if s.len() > 0 {
        assert(s[0] == s[0]);
    }
}

fn lower_char(c: char) -> (res: char)
    ensures
        res == ascii_lower_char(c),
{
    if 'A' <= c && c <= 'Z' {
        let b: u8 = (c as u32) as u8;
        let r: char = (b + 32) as char;
        proof {
            assert(r == ((c as u32) + 32) as char);
        }
        r
    } else {
        c
    }
}

/// Whether `a` and `b` are the same text but for the case of ASCII letters.
pub fn eq_ignore_ascii_case(a: &str, b: &str) -> (res: bool)
    ensures
        res == (ascii_lower(a@) == ascii_lower(b@)),
{
    let x = crate::text::chars_of(a);
    let y = crate::text::chars_of(b);
    if x.len() != y.len() {
        proof {
            assert(ascii_lower(a@).len() != ascii_lower(b@).len());
        }
        return false;
    }
    let mut i: usize = 0;
    while i < x.len()
        invariant
            x@ == a@,
            y@ == b@,
            x@.len() == y@.len(),
            i <= x@.len(),
            forall|j: int| 0 <= j < i ==> ascii_lower_char(#[trigger] x@[j]) == ascii_lower_char(y@[j]),
        decreases x@.len() - i,
    {
        if lower_char(x[i]) != lower_char(y[i]) {
            proof {
                assert(ascii_lower(a@)[i as int] != ascii_lower(b@)[i as int]);
            }
            return false;
        }
        i = i + 1;
    }
    proof {
        assert(ascii_lower(a@) =~= ascii_lower(b@));
    }
    true
}

/// Why a request cannot be sent.
#[derive(Debug, Clone, PartialEq, Eq)]
pub enum AssaultError {
    /// No service answers for the origin of the request.
    CannotSpecifyService,
}

impl AssaultError {
    /// The text of the error, as it is displayed.
    pub fn message(&self) -> (res: String)
        ensures
            res@ == "cannot specify service"@,
    {
        String::from_str("cannot specify service")
    }
}

/// A service for each origin, found by the authority of a request's URI.
#[derive(Debug)]
pub struct OriginRouter<S> {
    origins: Destinations<usize>,
    services: Vec<S>,
}

impl<S> OriginRouter<S> {
    /// The authorities, each with the position of its service.
    pub closed spec fn origins_view(&self) -> Seq<(Seq<char>, usize)> {
        self.origins@
    }

    /// The services, in order.
    pub closed spec fn services_view(&self) -> Seq<S> {
        self.services@
    }

    /// The service of each authority of `map`.
    pub fn new(map: Destinations<S>) -> (res: Self)
        ensures
            crate::destinations::names_of(res.origins_view()) == crate::destinations::names_of(map@),
            res.services_view() == map@.map_values(|e: (Seq<char>, S)| e.1),
            forall|i: int| 0 <= i < res.origins_view().len() ==> (#[trigger] res.origins_view()[i]).1 == i,
    {
        let ghost m = map@;
        let n = map.len();
        let entries = map.into_vec();
        let mut entries = entries;
        let mut origins: Destinations<usize> = Destinations::new();
        let mut services: Vec<S> = Vec::new();
        let ghost e0 = entries@;
        let mut i: usize = 0;
        while entries.len() > 0
            invariant
                n == e0.len() == m.len(),
                m == e0.map_values(|x: (String, S)| (x.0@, x.1)),
                crate::destinations::distinct_names(m),
                entries@.len() <= n,
                i == n - entries@.len(),
                entries@ == e0.subrange(i as int, n as int),
                origins@.len() == i,
                services@.len() == i,
                forall|j: int| 0 <= j < i ==> (#[trigger] origins@[j]).0 == m[j].0 && origins@[j].1 == j,
                forall|j: int| 0 <= j < i ==> #[trigger] services@[j] == m[j].1,
            decreases entries@.len(),
        {
            let ghost first = entries@[0];
            proof {
                assert(first == e0[i as int]);
                assert(m[i as int] == (first.0@, first.1));
            }
            let (k, s) = entries.remove(0);
            let ghost pre = origins@;
            proof {
                lemma_find(pre, k@);
                assert forall|j: int| 0 <= j < pre.len() implies pre[j].0 != k@ by {
                    assert(m[j].0 != m[i as int].0);
                }
            }
            origins.insert(k, i);
            proof {
                assert(origins@ == pre.push((k@, i)));
            }
            services.push(s);
            i = i + 1;
        }
        proof {
            assert(crate::destinations::names_of(origins@) =~= crate::destinations::names_of(m));
            assert(services@ =~= m.map_values(|e: (Seq<char>, S)| e.1));
        }
        OriginRouter { origins, services }
    }

    /// The position of the service for the origin of `uri`: the one bound to its
    /// authority, whose ASCII letters may differ in case; none when the URI has no authority
    /// or no service is bound to it.
    pub fn route(&self, uri: &str) -> (res: Result<usize, AssaultError>)
        ensures
            match authority_of(uri@) {
                Some(a) => match lookup_folded(self.origins_view(), a) {
                    Some(i) => res == Ok::<usize, AssaultError>(i),
                    None => res == Err::<usize, AssaultError>(AssaultError::CannotSpecifyService),
                },
                None => res == Err::<usize, AssaultError>(AssaultError::CannotSpecifyService),
            },
    {
        match uri_authority(uri) {
            Some(a) => {
                let ghost o = self.origins_view();
                let mut i: usize = 0;
                proof {
                    assert(o.subrange(0, o.len() as int) =~= o);
                }
                while i < self.origins.len()
                    invariant
                        o == self.origins@,
                        o == self.origins_view(),
                        authority_of(uri@) == Some(a@),
                        i <= o.len(),
                        lookup_folded(o, a@) == lookup_folded(o.subrange(i as int, o.len() as int), a@),
                    decreases o.len() - i,
                {
                    proof {
                        assert(o.subrange(i as int, o.len() as int).drop_first() =~= o.subrange(i + 1, o.len() as int));
                    }
                    if eq_ignore_ascii_case(self.origins.name_at(i).as_str(), a.as_str()) {
                        proof {
                            let sub = o.subrange(i as int, o.len() as int);
                            assert(sub[0] == o[i as int]);
                            assert(ascii_lower(sub[0].0) == ascii_lower(a@));
                            assert(lookup_folded(sub, a@) == Some(o[i as int].1));
                        }
                        return Ok(*self.origins.value_at(i));
                    }
                    i = i + 1;
                }
                proof {
                    assert(o.subrange(i as int, o.len() as int).len() == 0);
                }
                Err(AssaultError::CannotSpecifyService)
            },
            None => Err(AssaultError::CannotSpecifyService),
        }
    }

    /// The number of services.
    pub fn len(&self) -> (n: usize)
        ensures
            n == self.services_view().len(),
    {
        self.services.len()
    }

    /// The `i`-th service, to use.
    pub fn service_mut(&mut self, i: usize) -> (res: &mut S)
        requires
            i < old(self).services_view().len(),
        ensures
            *res == old(self).services_view()[i as int],
            final(self).services_view() == old(self).services_view().update(i as int, *final(res)),
            final(self).origins_view() == old(self).origins_view(),
    {
        &mut self.services[i]
    }
}

} // verus!
