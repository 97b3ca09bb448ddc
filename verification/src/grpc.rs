//! The plain parts of gRPC testcases: where method descriptors come from, how a target
//! names a service and a method, how the metadata and extensions of responses are judged,
//! and why a request or a response fails.
use vstd::prelude::*;
use crate::config::Coalesce;
use crate::destinations::Destinations;
use crate::evaluate::{Acceptable, HeaderMap, JsonEvaluateError, all_equal, compare_all, value_views, values_of, views_of};
use crate::messages::Messages;
use crate::metrics::RequestError;
use crate::text::{owned, split_at_first, split_once};

verus! {

/// Why a gRPC request cannot be made.
#[derive(Debug, Clone, PartialEq, Eq)]
pub enum GrpcRequestError {
    /// The target is not `service/method`.
    FailToParse(String),
    NoService(String),
    NoMethod(String),
    UnexpectedReflectionResponse,
}

impl GrpcRequestError {
    /// The text of the error, as it is displayed.
    pub fn message(&self) -> (res: String)
        ensures
            res@ == match self {
                GrpcRequestError::FailToParse(s) => "cannot parse target "@ + s@,
                GrpcRequestError::NoService(s) => "cannot find service "@ + s@,
                GrpcRequestError::NoMethod(s) => "cannot find method "@ + s@,
                GrpcRequestError::UnexpectedReflectionResponse => "unexpected reflection response"@,
            },
    {
        match self {
            GrpcRequestError::FailToParse(s) => {
                let mut m = String::from_str("cannot parse target ");
                m.append(s.as_str());
                m
            },
            GrpcRequestError::NoService(s) => {
                let mut m = String::from_str("cannot find service ");
                m.append(s.as_str());
                m
            },
            GrpcRequestError::NoMethod(s) => {
                let mut m = String::from_str("cannot find method ");
                m.append(s.as_str());
                m
            },
            GrpcRequestError::UnexpectedReflectionResponse => String::from_str("unexpected reflection response"),
        }
    }
}

/// Why a gRPC response is not acceptable.
#[derive(Debug, Clone, PartialEq, Eq)]
pub enum GrpcEvaluateError {
    RequestError(RequestError),
    UnacceptableMetadataMap,
    UnacceptableExtension,
    JsonEvaluateError(JsonEvaluateError),
}

impl GrpcEvaluateError {
    /// The text of the error, as it is displayed.
    pub fn message(&self) -> (res: String)
        ensures
            res@ == match self {
                GrpcEvaluateError::RequestError(r) => r.message_view(),
                GrpcEvaluateError::UnacceptableMetadataMap => "metadata map is not acceptable"@,
                GrpcEvaluateError::UnacceptableExtension => "extension is not acceptable"@,
                GrpcEvaluateError::JsonEvaluateError(j) => j.message_view(),
            },
    {
        match self {
            GrpcEvaluateError::RequestError(r) => r.message(),
            GrpcEvaluateError::UnacceptableMetadataMap => String::from_str("metadata map is not acceptable"),
            GrpcEvaluateError::UnacceptableExtension => String::from_str("extension is not acceptable"),
            GrpcEvaluateError::JsonEvaluateError(j) => j.message(),
        }
    }
}

/// The service and the method that a target `service/method` names: what stands before
/// the first `/`, and what stands after it.
pub fn service_and_method(target: &str) -> (res: Result<(String, String), GrpcRequestError>)
    ensures
        match split_at_first(target@, '/') {
            Some((s, m)) => res matches Ok((a, b)) && a@ == s && b@ == m,
            None => res matches Err(GrpcRequestError::FailToParse(t)) && t@ == target@,
        },
{
    match split_once(target, '/') {
        Some(sm) => Ok(sm),
        None => Err(GrpcRequestError::FailToParse(owned(target))),
    }
}

/// The path of a method call: `/`, the full name of the service, `/`, the method.
pub fn method_path(service: &str, method: &str) -> (res: String)
    ensures
        res@ == "/"@ + service@ + "/"@ + method@,
{
    let mut p = String::from_str("/");
    p.append(service);
    p.append("/");
    p.append(method);
    p
}

/// Where the descriptors of the services come from.
#[derive(Debug, Clone, PartialEq, Eq)]
pub enum DescriptorFrom {
    /// `.proto` files, compiled with the given import paths.
    Protos { protos: Vec<String>, import_path: Vec<String> },
    /// A file of encoded descriptors.
    Bin(String),
    /// The reflection service of the destination.
    Reflection,
}

impl Default for DescriptorFrom {
    fn default() -> (res: Self)
        ensures
            res is Reflection,
    {
        DescriptorFrom::Reflection
    }
}

impl Coalesce for DescriptorFrom {
    /// `other` when `self` is the default, else `self`.
    open spec fn coalesces(self, other: DescriptorFrom, res: DescriptorFrom) -> bool {
        res == (if self is Reflection { other } else { self })
    }

    fn coalesce(self, other: DescriptorFrom) -> (res: DescriptorFrom) {
        match self {
            DescriptorFrom::Reflection => other,
            _ => self,
        }
    }
}

/// What the metadata of responses is held to.
#[derive(Debug, Clone, Copy, PartialEq, Eq)]
pub enum GrpcMetadataMap {
    /// Anything for a single destination; the same metadata from all of several.
    AnyOrEqual,
    Ignore,
}

impl Default for GrpcMetadataMap {
    fn default() -> (res: Self)
        ensures
            res is AnyOrEqual,
    {
        GrpcMetadataMap::AnyOrEqual
    }
}

impl Coalesce for GrpcMetadataMap {
    /// `other` when `self` is the default, else `self`.
    open spec fn coalesces(self, other: GrpcMetadataMap, res: GrpcMetadataMap) -> bool {
        res == (if self is AnyOrEqual { other } else { self })
    }

    fn coalesce(self, other: GrpcMetadataMap) -> (res: GrpcMetadataMap) {
        match self {
            GrpcMetadataMap::AnyOrEqual => other,
            _ => self,
        }
    }
}

impl GrpcMetadataMap {
    /// Whether the metadata `m` of the destinations is acceptable.
    pub open spec fn acceptable(&self, m: Seq<(Seq<char>, Map<Seq<char>, Seq<Seq<u8>>>)>) -> bool {
        match self {
            GrpcMetadataMap::AnyOrEqual => m.len() == 1 || all_equal(values_of(m)),
            GrpcMetadataMap::Ignore => true,
        }
    }
}

impl Acceptable<HeaderMap> for GrpcMetadataMap {
    type Message = GrpcEvaluateError;

    open spec fn can_judge(&self, dest: Seq<(Seq<char>, HeaderMap)>) -> bool {
        true
    }

    /// Whether the metadata is acceptable; when not, the message says so.
    fn accept(&self, maps: &Destinations<HeaderMap>, msg: &mut Messages<GrpcEvaluateError>) -> (res: bool)
        ensures
            res == self.acceptable(views_of(maps@)),
            final(msg)@ == (if res { old(msg)@ } else { old(msg)@.push(GrpcEvaluateError::UnacceptableMetadataMap) }),
    {
        let acceptable = match self {
            GrpcMetadataMap::AnyOrEqual => {
                proof { assert(value_views(maps@) =~= values_of(views_of(maps@))); }
                if maps.len() == 1 { true } else { compare_all(maps) }
            },
            GrpcMetadataMap::Ignore => true,
        };
        if !acceptable {
            msg.push_err(GrpcEvaluateError::UnacceptableMetadataMap);
        }
        acceptable
    }
}

#[verifier::external_type_specification]
#[verifier::external_body]
pub struct ExExtensions(http::Extensions);

/// What the extensions of responses are held to. Neither variant looks into them yet.
#[derive(Debug, Clone, Copy, PartialEq, Eq)]
pub enum GrpcExtensions {
    AnyOrEqual,
    Ignore,
}

impl Default for GrpcExtensions {
    fn default() -> (res: Self)
        ensures
            res is AnyOrEqual,
    {
        GrpcExtensions::AnyOrEqual
    }
}

impl Coalesce for GrpcExtensions {
    /// `other` when `self` is the default, else `self`.
    open spec fn coalesces(self, other: GrpcExtensions, res: GrpcExtensions) -> bool {
        res == (if self is AnyOrEqual { other } else { self })
    }

    fn coalesce(self, other: GrpcExtensions) -> (res: GrpcExtensions) {
        match self {
            GrpcExtensions::AnyOrEqual => other,
            _ => self,
        }
    }
}

impl Acceptable<http::Extensions> for GrpcExtensions {
    type Message = GrpcEvaluateError;

    open spec fn can_judge(&self, dest: Seq<(Seq<char>, http::Extensions)>) -> bool {
        true
    }

    /// Any extensions are acceptable, and no message is added.
    fn accept(&self, extensions: &Destinations<http::Extensions>, msg: &mut Messages<GrpcEvaluateError>) -> (res: bool)
        ensures
            res,
            final(msg)@ == old(msg)@,
    {
        true
    }
}

} // verus!
