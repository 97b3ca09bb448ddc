//! The runners of configurations, testcases and their repeats, and the requests they make.
use vstd::prelude::*;
use crate::config::Setting;
use crate::destinations::{Destinations, lookup, names_of};
use crate::metrics::RequestResult;
use crate::request::{HttpRequest, PreparedRequest, RequestFactory, ProduceError, built_uri};
use crate::template::{Template, string_map};

verus! {

/// Runs every configuration with one client.
#[derive(Debug, Clone)]
pub struct Control<S> {
    client: S,
}

impl<S> Control<S> {
    pub closed spec fn client_view(&self) -> S {
        self.client
    }

    pub fn new(client: S) -> (res: Self)
        ensures
            res.client_view() == client,
    {
        Control { client }
    }

    /// The client.
    pub fn client(&self) -> (res: &S)
        ensures
            *res == self.client_view(),
    {
        &self.client
    }
}

/// Runs the testcases of one configuration.
#[derive(Debug, Clone)]
pub struct Worker<S> {
    client: S,
}

impl<S> Worker<S> {
    pub closed spec fn client_view(&self) -> S {
        self.client
    }

    pub fn new(client: S) -> (res: Self)
        ensures
            res.client_view() == client,
    {
        Worker { client }
    }

    /// The client.
    pub fn client(&self) -> (res: &S)
        ensures
            *res == self.client_view(),
    {
        &self.client
    }
}

/// Runs the repeats of one testcase.
#[derive(Debug, Clone)]
pub struct Case<S> {
    client: S,
}

/// The template values for the destination `name`: its own template, or none.
pub open spec fn template_for(templates: Seq<(Seq<char>, Template)>, name: Seq<char>) -> Seq<(Seq<char>, Seq<char>)> {
    match lookup(templates, name) {
        Some(t) => string_map(t@),
        None => Seq::empty(),
    }
}

/// `r` is what `HttpRequest::produce` gives for the destination at `uri`, the target, the
/// template values `vars` and the environment `env`.
pub open spec fn produced(
    request: HttpRequest,
    uri: Seq<char>,
    target: Seq<char>,
    vars: Seq<(Seq<char>, Seq<char>)>,
    env: Seq<(Seq<char>, Seq<char>)>,
    r: Result<PreparedRequest, ProduceError>,
) -> bool {
    match crate::template::render_spec(target, vars, env) {
        Err(f) => r matches Err(ProduceError::Template(e)) && crate::template::error_is(e, f),
        Ok(t) => match built_uri(uri, t) {
            None => r matches Err(ProduceError::InvalidUri(_)),
            Some(u) => r matches Ok(p) && p.destination@ == uri && p.path_and_query@ == t && p.uri@ == u
                && p.method@ == (match request.method { Some(m) => m@, None => "GET"@ })
                && p.body@ == request.body.bytes_spec(vars, env)
                && p.headers@ == sent_headers(request, p.body@.len()),
        },
    }
}

/// The header fields a request with a body of `len` bytes is sent with: those given,
/// followed by those that go with the body unless they are left out.
pub open spec fn sent_headers(request: HttpRequest, len: nat) -> Map<Seq<char>, Seq<Seq<u8>>> {
    let given = match request.headers {
        Some(h) => h@,
        None => Map::empty(),
    };
    if request.no_additional_headers {
        given
    } else {
        given.union_prefer_right(crate::request::body_headers(crate::request::content_type_of(request.body), len))
    }
}

/// What a request gave: a response, a timeout when the timeout ran out, else the error.
pub open spec fn outcome_of<Res>(res: Result<Res, (bool, String)>, timeout: Option<u64>) -> RequestResult<Res> {
    match res {
        Ok(r) => RequestResult::Response(r),
        Err((elapsed, e)) => if elapsed {
            RequestResult::Timeout(timeout.unwrap())
        } else {
            RequestResult::RequestError(e)
        },
    }
}

impl<S> Case<S> {
    pub closed spec fn client_view(&self) -> S {
        self.client
    }

    pub fn new(client: S) -> (res: Self)
        ensures
            res.client_view() == client,
    {
        Case { client }
    }

    /// The client.
    pub fn client(&self) -> (res: &S)
        ensures
            *res == self.client_view(),
    {
        &self.client
    }

    /// The requests of each repeat: for each destination, the request its URI, the target
    /// and its own template make.
    pub fn request_stream<P>(
        destinations: &Destinations<String>,
        target: &str,
        setting: &Setting<HttpRequest, P>,
        env: &Destinations<String>,
    ) -> (res: Vec<Destinations<Result<PreparedRequest, ProduceError>>>)
        ensures
            res@.len() == setting.repeat.spec_times(),
            forall|r: int| 0 <= r < res@.len() ==> names_of(#[trigger] res@[r]@) == names_of(destinations@),
            forall|r: int, i: int| 0 <= r < res@.len() && 0 <= i < destinations@.len() ==> produced(
                setting.request,
                destinations@[i].1@,
                target@,
                template_for(setting.template@, destinations@[i].0),
                string_map(env@),
                #[trigger] res@[r]@[i].1,
            ),
    {
        let times = setting.repeat.times();
        let mut res: Vec<Destinations<Result<PreparedRequest, ProduceError>>> = Vec::new();
        let mut r: usize = 0;
        while r < times
            invariant
                times == setting.repeat.spec_times(),
                r <= times,
                res@.len() == r,
                forall|q: int| 0 <= q < res@.len() ==> names_of(#[trigger] res@[q]@) == names_of(destinations@),
                forall|q: int, i: int| 0 <= q < res@.len() && 0 <= i < destinations@.len() ==> produced(
                    setting.request,
                    destinations@[i].1@,
                    target@,
                    template_for(setting.template@, destinations@[i].0),
                    string_map(env@),
                    #[trigger] res@[q]@[i].1,
                ),
            decreases times - r,
        {
            let one = Self::requests_once(destinations, target, setting, env);
            res.push(one);
            r = r + 1;
        }
        res
    }

    /// The requests of one repeat.
    fn requests_once<P>(
        destinations: &Destinations<String>,
        target: &str,
        setting: &Setting<HttpRequest, P>,
        env: &Destinations<String>,
    ) -> (res: Destinations<Result<PreparedRequest, ProduceError>>)
        ensures
            names_of(res@) == names_of(destinations@),
            forall|i: int| 0 <= i < destinations@.len() ==> produced(
                setting.request,
                destinations@[i].1@,
                target@,
                template_for(setting.template@, destinations@[i].0),
                string_map(env@),
                #[trigger] res@[i].1,
            ),
    {
        let n = destinations.len();
        let empty = Template::new();
        let mut out: Destinations<Result<PreparedRequest, ProduceError>> = Destinations::new();
        let mut i: usize = 0;
        while i < n
            invariant
                n == destinations@.len(),
                crate::destinations::distinct_names(destinations@),
                empty@ == Seq::<(Seq<char>, String)>::empty(),
                i <= n,
                out@.len() == i,
                forall|j: int| 0 <= j < i ==> (#[trigger] out@[j]).0 == destinations@[j].0,
                forall|j: int| 0 <= j < i ==> produced(
                    setting.request,
                    destinations@[j].1@,
                    target@,
                    template_for(setting.template@, destinations@[j].0),
                    string_map(env@),
                    #[trigger] out@[j].1,
                ),
            decreases n - i,
        {
            let name = destinations.name_at(i);
            let uri = destinations.value_at(i);
            let template = match setting.template.get(name.as_str()) {
                Some(t) => t,
                None => &empty,
            };
            proof {
                assert(string_map(template@) == template_for(setting.template@, destinations@[i as int].0));
            }
            let req = setting.request.produce(uri.as_str(), target, template, env);
            let ghost pre = out@;
            proof {
                crate::destinations::lemma_find(pre, name@);
                assert forall|j: int| 0 <= j < pre.len() implies pre[j].0 != name@ by {
                    assert(destinations@[j].0 != destinations@[i as int].0);
                }
            }
            out.insert(name.clone(), req);
            proof {
                assert(out@ == pre.push((name@, req)));
            }
            i = i + 1;
        }
        proof {
            assert(names_of(out@) =~= names_of(destinations@));
        }
        out
    }

    /// What a request gave: its response; a timeout, for the setting's timeout, when the
    /// error says the timeout ran out; else the error.
    pub fn outcome<Res>(res: Result<Res, (bool, String)>, timeout: Option<u64>) -> (out: RequestResult<Res>)
        requires
            res matches Err((elapsed, _)) && elapsed ==> timeout is Some,
        ensures
            out == outcome_of(res, timeout),
    {
        match res {
            Ok(r) => RequestResult::Response(r),
            Err((elapsed, e)) => {
                if elapsed {
                    match timeout {
                        Some(t) => RequestResult::Timeout(t),
                        None => RequestResult::RequestError(e),
                    }
                } else {
                    RequestResult::RequestError(e)
                }
            },
        }
    }
}

} // verus!
