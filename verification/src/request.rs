//! What each request carries, built from the configuration and the templates.
use vstd::prelude::*;
use crate::config::Coalesce;
use crate::destinations::{Destinations, distinct_names, has_name, lookup, lemma_find, lemma_lookup_prefix};
use crate::evaluate::{HeaderMap, byte_lists};
use crate::template::{Template, TemplateError, render_spec, string_map};
use crate::text::decimal;

verus! {

#[verifier::external_type_specification]
#[verifier::external_body]
#[verifier::reject_recursive_types(K)]
#[verifier::reject_recursive_types(V)]
pub struct ExJsonMap<K, V>(serde_json::Map<K, V>);

/// A JSON object.
pub type JsonObject = serde_json::Map<String, serde_json::Value>;

/// The names of a JSON object, each with the string it binds.
pub uninterp spec fn json_object_strings(m: JsonObject) -> Map<Seq<char>, Seq<char>>;

/// The text of a JSON object that binds each name of `m` to its string, as
/// `serde_json::to_vec` writes it.
pub uninterp spec fn json_object_text(m: Map<Seq<char>, Seq<char>>) -> Seq<u8>;

/// `serde_json::Map::new`: an object that binds nothing.
#[verifier::external_body]
fn json_object_new() -> (res: JsonObject)
    ensures
        json_object_strings(res).dom() == Set::<Seq<char>>::empty(),
{
    serde_json::Map::new()
}

/// `serde_json::Map::insert`: binds `k` to the string `v`, in place of what it bound.
#[verifier::external_body]
fn json_object_insert(m: &mut JsonObject, k: String, v: String)
    ensures
        json_object_strings(*final(m)) == json_object_strings(*old(m)).insert(k@, v@),
{
    m.insert(k, serde_json::Value::String(v));
}

/// `serde_json::to_vec` of the object `m`, which binds strings to strings and so always
/// serializes.
#[verifier::external_body]
fn json_object_to_vec(m: &JsonObject) -> (res: Vec<u8>)
    ensures
        res@ == json_object_text(json_object_strings(*m)),
{
    serde_json::to_vec(m).unwrap_or_default()
}

/// The names of `s`, each with the string it is bound to.
pub open spec fn pairs_map(s: Seq<(Seq<char>, Seq<char>)>) -> Map<Seq<char>, Seq<char>> {
    Map::new(|k: Seq<char>| has_name(s, k), |k: Seq<char>| lookup(s, k).unwrap())
}

/// The JSON object that binds each name of `pairs` to its string, serialized.
fn json_object_bytes(pairs: &Destinations<String>) -> (res: Vec<u8>)
    ensures
        res@ == json_object_text(pairs_map(string_map(pairs@))),
{
    let n = pairs.len();
    let ghost sv = string_map(pairs@);
    proof {
        assert forall|a: int, b: int| 0 <= a < b < sv.len() implies #[trigger] sv[a].0 != #[trigger] sv[b].0 by {
            assert(pairs@[a].0 != pairs@[b].0);
        }
    }
    let mut m = json_object_new();
    let mut i: usize = 0;
    proof {
        assert(pairs_map(sv.subrange(0, 0)) =~= json_object_strings(m)) by {
            assert forall|k: Seq<char>| !has_name(sv.subrange(0, 0), k) by {
                lemma_find(sv.subrange(0, 0), k);
            }
        }
    }
    while i < n
        invariant
            n == pairs@.len() == sv.len(),
            sv == string_map(pairs@),
            distinct_names(sv),
            i <= n,
            json_object_strings(m) == pairs_map(sv.subrange(0, i as int)),
        decreases n - i,
    {
        let k = pairs.name_at(i).clone();
        let v = pairs.value_at(i).clone();
        let ghost before = json_object_strings(m);
        json_object_insert(&mut m, k, v);
        proof {
            let key = sv[i as int].0;
            assert(pairs_map(sv.subrange(0, i + 1)) =~= before.insert(key, sv[i as int].1)) by {
                assert forall|x: Seq<char>| #[trigger] pairs_map(sv.subrange(0, i + 1)).dom().contains(x)
                    == before.insert(key, sv[i as int].1).dom().contains(x) by {
                    lemma_lookup_prefix(sv, i as int, x);
                }
                assert forall|x: Seq<char>| pairs_map(sv.subrange(0, i + 1)).dom().contains(x) implies
                    #[trigger] pairs_map(sv.subrange(0, i + 1))[x] == before.insert(key, sv[i as int].1)[x] by {
                    lemma_lookup_prefix(sv, i as int, x);
                }
            }
        }
        i = i + 1;
    }
    proof { assert(sv.subrange(0, n as int) =~= sv); }
    json_object_to_vec(&m)
}

/// `mime::APPLICATION_JSON` as `Display` writes it: its source text.
#[verifier::external_body]
fn json_media_type() -> (res: String)
    ensures
        res@ == "application/json"@,
{
    mime::APPLICATION_JSON.to_string()
}

/// `mime::TEXT_PLAIN` as `Display` writes it: its source text.
#[verifier::external_body]
fn text_media_type() -> (res: String)
    ensures
        res@ == "text/plain"@,
{
    mime::TEXT_PLAIN.to_string()
}

/// The UTF-8 bytes of the text `s`.
pub open spec fn utf8_bytes(s: Seq<char>) -> Seq<u8> {
    vstd::utf8::encode_utf8(s)
}

/// The UTF-8 bytes of `s`.
fn bytes_of(s: &str) -> (res: Vec<u8>)
    ensures
        res@ == utf8_bytes(s@),
{
    s.as_bytes_vec()
}

/// The body a request carries.
#[derive(Debug, Clone)]
pub enum HttpBody {
    Empty,
    /// Text, with placeholders rendered by the template.
    Plaintext(String),
    /// A JSON object of strings.
    Json(Destinations<String>),
}

impl Default for HttpBody {
    fn default() -> (res: Self)
        ensures
            res is Empty,
    {
        HttpBody::Empty
    }
}

impl Coalesce for HttpBody {
    /// `other` when `self` is empty, else `self`.
    open spec fn coalesces(self, other: HttpBody, res: HttpBody) -> bool {
        res == (if self is Empty { other } else { self })
    }

    fn coalesce(self, other: HttpBody) -> (res: HttpBody) {
        let r = match self {
            HttpBody::Empty => other,
            _ => self,
        };
        proof { assert(self.coalesces(other, r)); }
        r
    }
}

/// The media type of a body.
pub open spec fn content_type_of(b: HttpBody) -> Option<Seq<char>> {
    match b {
        HttpBody::Empty => None,
        HttpBody::Plaintext(_) => Some("text/plain"@),
        HttpBody::Json(_) => Some("application/json"@),
    }
}

impl HttpBody {
    /// The bytes of the body: nothing; the text rendered, or the text itself when it does
    /// not render; the JSON object.
    pub open spec fn bytes_spec(&self, vars: Seq<(Seq<char>, Seq<char>)>, env: Seq<(Seq<char>, Seq<char>)>) -> Seq<u8> {
        match self {
            HttpBody::Empty => Seq::empty(),
            HttpBody::Plaintext(s) => match render_spec(s@, vars, env) {
                Ok(t) => utf8_bytes(t),
                Err(_) => utf8_bytes(s@),
            },
            HttpBody::Json(m) => json_object_text(pairs_map(string_map(m@))),
        }
    }

    /// The media type of the body, if it has one.
    pub fn content_type(&self) -> (res: Option<String>)
        ensures
            match content_type_of(*self) {
                Some(t) => res matches Some(r) && r@ == t,
                None => res is None,
            },
    {
        match self {
            HttpBody::Empty => None,
            HttpBody::Plaintext(_) => Some(text_media_type()),
            HttpBody::Json(_) => Some(json_media_type()),
        }
    }

    /// The bytes of the body, placeholders rendered with `template` and `env`.
    pub fn produce(&self, template: &Template, env: &Destinations<String>) -> (res: Vec<u8>)
        ensures
            res@ == self.bytes_spec(string_map(template@), string_map(env@)),
    {
        match self {
            HttpBody::Empty => Vec::new(),
            HttpBody::Plaintext(s) => match template.render(s.as_str(), env) {
                Ok(t) => bytes_of(t.as_str()),
                Err(_) => bytes_of(s.as_str()),
            },
            HttpBody::Json(m) => json_object_bytes(m),
        }
    }

    /// The bytes of the body, and the header fields that go with it: its media type, and
    /// its length when it is not empty.
    pub fn body_with_headers(&self, template: &Template, env: &Destinations<String>) -> (res: (Vec<u8>, HeaderMap))
        ensures
            res.0@ == self.bytes_spec(string_map(template@), string_map(env@)),
            res.1@ == body_headers(content_type_of(*self), res.0@.len()),
    {
        let mut headers = HeaderMap::new();
        match self.content_type() {
            Some(t) => {
                let mut vs: Vec<Vec<u8>> = Vec::new();
                vs.push(bytes_of(t.as_str()));
                proof { assert(byte_lists(vs@) =~= seq![utf8_bytes(t@)]); }
                headers.set(crate::text::owned("content-type"), vs);
            },
            None => {},
        }
        let body = self.produce(template, env);
        if body.len() > 0 {
            let len_text = crate::text::u64_to_string(body.len() as u64);
            let mut vs: Vec<Vec<u8>> = Vec::new();
            vs.push(bytes_of(len_text.as_str()));
            proof { assert(byte_lists(vs@) =~= seq![utf8_bytes(decimal(body@.len()))]); }
            headers.set(crate::text::owned("content-length"), vs);
        }
        proof {
            reveal_strlit("content-type");
            reveal_strlit("content-length");
            assert(headers@ =~= body_headers(content_type_of(*self), body@.len()));
        }
        (body, headers)
    }
}

/// The header fields for a body of media type `t` and `len` bytes.
pub open spec fn body_headers(t: Option<Seq<char>>, len: nat) -> Map<Seq<char>, Seq<Seq<u8>>> {
    let with_type = match t {
        Some(t) => Map::empty().insert("content-type"@, seq![utf8_bytes(t)]),
        None => Map::empty(),
    };
    if len > 0 {
        with_type.insert("content-length"@, seq![utf8_bytes(decimal(len))])
    } else {
        with_type
    }
}

/// What a request is made of: method, header fields, body.
#[derive(Debug, Clone)]
pub struct HttpRequest {
    /// Leave out the header fields that go with the body.
    pub no_additional_headers: bool,
    pub method: Option<String>,
    pub headers: Option<HeaderMap>,
    pub body: HttpBody,
}

impl Default for HttpRequest {
    fn default() -> (res: Self)
        ensures
            !res.no_additional_headers,
            res.method is None,
            res.headers is None,
            res.body is Empty,
    {
        HttpRequest { no_additional_headers: false, method: None, headers: None, body: HttpBody::Empty }
    }
}

impl Coalesce for HttpRequest {
    /// The flag set in either; method and header fields of `self` when given, else those
    /// of `other`; the body by its own rule.
    open spec fn coalesces(self, other: HttpRequest, res: HttpRequest) -> bool {
        &&& res.no_additional_headers == (self.no_additional_headers || other.no_additional_headers)
        &&& res.method == (if self.method is Some { self.method } else { other.method })
        &&& res.headers == (if self.headers is Some { self.headers } else { other.headers })
        &&& self.body.coalesces(other.body, res.body)
    }

    fn coalesce(self, other: HttpRequest) -> (res: HttpRequest) {
        let HttpRequest { no_additional_headers, method, headers, body } = self;
        let HttpRequest { no_additional_headers: o_flag, method: o_method, headers: o_headers, body: o_body } = other;
        HttpRequest {
            no_additional_headers: no_additional_headers || o_flag,
            method: match method {
                Some(m) => Some(m),
                None => o_method,
            },
            headers: match headers {
                Some(h) => Some(h),
                None => o_headers,
            },
            body: body.coalesce(o_body),
        }
    }
}

/// The URI that `http::uri::Builder` builds from the URI `destination` with the path and
/// query `path_and_query`, as it is displayed; none when either does not parse.
pub uninterp spec fn built_uri(destination: Seq<char>, path_and_query: Seq<char>) -> Option<Seq<char>>;

/// Builds the URI of `destination` with `path_and_query` by `http::uri::Builder`; the
/// message of the http crate when it fails.
#[verifier::external_body]
fn build_uri(destination: &str, path_and_query: &str) -> (res: Result<String, String>)
    ensures
        match res {
            Ok(u) => built_uri(destination@, path_and_query@) == Some(u@),
            Err(_) => built_uri(destination@, path_and_query@) is None,
        },
{
    http::Uri::try_from(destination)
        .map_err(|e| e.to_string())
        .and_then(|d| http::uri::Builder::from(d).path_and_query(path_and_query).build().map_err(|e| e.to_string()))
        .map(|u| u.to_string())
}

/// Why a request cannot be made.
#[derive(Debug, Clone, PartialEq, Eq)]
pub enum ProduceError {
    /// The target does not render.
    Template(TemplateError),
    /// The destination and the rendered target make no URI; the message of the http crate.
    InvalidUri(String),
}

impl ProduceError {
    /// The text of the error, as it is displayed.
    pub fn message(&self) -> (res: String)
        ensures
            res@ == match self {
                ProduceError::Template(t) => t.message_view(),
                ProduceError::InvalidUri(s) => s@,
            },
    {
        match self {
            ProduceError::Template(t) => t.message(),
            ProduceError::InvalidUri(s) => s.clone(),
        }
    }
}

/// A request ready to be sent: to the destination, the rendered target, with method,
/// header fields and body.
#[derive(Debug, Clone)]
pub struct PreparedRequest {
    /// The URI of the destination.
    pub destination: String,
    /// The target, its placeholders rendered, as path and query.
    pub path_and_query: String,
    /// The URI of the destination with that path and query.
    pub uri: String,
    pub method: String,
    pub headers: HeaderMap,
    pub body: Vec<u8>,
}

/// Something that makes the request for a destination and a target.
pub trait RequestFactory<R> {
    type Error;

    fn produce(&self, destination: &str, target: &str, template: &Template, env: &Destinations<String>) -> Result<R, Self::Error>;
}

impl RequestFactory<PreparedRequest> for HttpRequest {
    type Error = ProduceError;

    /// The request for `destination`: the target rendered with the template, the method
    /// (`GET` when not given), the header fields given, followed by those that go with the
    /// body unless they are left out, and the body. A target that does not render fails it,
    /// and so does one that makes no URI with the destination.
    fn produce(&self, destination: &str, target: &str, template: &Template, env: &Destinations<String>) -> (res: Result<PreparedRequest, ProduceError>)
        ensures
            match render_spec(target@, string_map(template@), string_map(env@)) {
                Err(f) => res matches Err(ProduceError::Template(e)) && crate::template::error_is(e, f),
                Ok(t) => match built_uri(destination@, t) {
                    None => res matches Err(ProduceError::InvalidUri(_)),
                    Some(u) => res matches Ok(r) && {
                    &&& r.destination@ == destination@
                    &&& r.path_and_query@ == t
                    &&& r.uri@ == u
                    &&& r.method@ == (match self.method { Some(m) => m@, None => "GET"@ })
                    &&& r.body@ == self.body.bytes_spec(string_map(template@), string_map(env@))
                    &&& r.headers@ == {
                        let given = match self.headers { Some(h) => h@, None => Map::empty() };
                        if self.no_additional_headers {
                            given
                        } else {
                            given.union_prefer_right(body_headers(content_type_of(self.body), r.body@.len()))
                        }
                    }
                    },
                },
            },
    {
        let path = match template.render(target, env) {
            Ok(p) => p,
            Err(e) => return Err(ProduceError::Template(e)),
        };
        let uri = match build_uri(destination, path.as_str()) {
            Ok(u) => u,
            Err(m) => return Err(ProduceError::InvalidUri(m)),
        };
        let method = match &self.method {
            Some(m) => m.clone(),
            None => crate::text::owned("GET"),
        };
        proof { reveal_strlit("GET"); }
        let mut headers = match &self.headers {
            Some(h) => h.clone(),
            None => HeaderMap::new(),
        };
        let (body, additional) = self.body.body_with_headers(template, env);
        if !self.no_additional_headers {
            headers.extend(additional);
        }
        Ok(PreparedRequest { destination: crate::text::owned(destination), path_and_query: path, uri, method, headers, body })
    }
}

} // verus!
