use relentless::config::Coalesce;
use relentless::destinations::Destinations;
use relentless::evaluate::{Acceptable, HeaderMap};
use relentless::grpc::{
    method_path, service_and_method, DescriptorFrom, GrpcEvaluateError, GrpcExtensions, GrpcMetadataMap,
    GrpcRequestError,
};
use relentless::messages::Messages;

fn metadata(entries: Vec<(&str, &str)>) -> HeaderMap {
    let mut h = HeaderMap::new();
    for (k, v) in entries {
        h.append(k.to_string(), v.as_bytes().to_vec());
    }
    h
}

#[test]
fn grpc_target_names_service_and_method() {
    let (s, m) = service_and_method("helloworld.Greeter/SayHello").unwrap();
    assert_eq!(s, "helloworld.Greeter");
    assert_eq!(m, "SayHello");
    let (s, m) = service_and_method("a/b/c").unwrap();
    assert_eq!((s.as_str(), m.as_str()), ("a", "b/c"));
    match service_and_method("no-method") {
        Err(e) => {
            assert_eq!(e, GrpcRequestError::FailToParse("no-method".to_string()));
            assert_eq!(e.message(), "cannot parse target no-method");
        }
        Ok(_) => panic!("a target without `/` names no method"),
    }
}

#[test]
fn grpc_error_messages() {
    assert_eq!(GrpcRequestError::NoService("x".to_string()).message(), "cannot find service x");
    assert_eq!(GrpcRequestError::NoMethod("y".to_string()).message(), "cannot find method y");
    assert_eq!(GrpcRequestError::UnexpectedReflectionResponse.message(), "unexpected reflection response");
}

#[test]
fn grpc_method_path() {
    assert_eq!(method_path("helloworld.Greeter", "SayHello"), "/helloworld.Greeter/SayHello");
}

#[test]
fn grpc_descriptor_coalesce() {
    let bin = DescriptorFrom::Bin("descriptor.bin".to_string());
    assert_eq!(DescriptorFrom::Reflection.coalesce(bin.clone()), bin);
    assert_eq!(bin.clone().coalesce(DescriptorFrom::Reflection), bin);
    assert_eq!(DescriptorFrom::default(), DescriptorFrom::Reflection);
    assert_eq!(GrpcMetadataMap::AnyOrEqual.coalesce(GrpcMetadataMap::Ignore), GrpcMetadataMap::Ignore);
    assert_eq!(GrpcExtensions::Ignore.coalesce(GrpcExtensions::AnyOrEqual), GrpcExtensions::Ignore);
}

#[test]
fn grpc_metadata_equal_or_not() {
    let mut same = Destinations::new();
    same.insert("actual".to_string(), metadata(vec![("content-type", "application/grpc")]));
    same.insert("expect".to_string(), metadata(vec![("content-type", "application/grpc")]));
    let mut msg = Messages::new();
    assert!(GrpcMetadataMap::AnyOrEqual.accept(&same, &mut msg));
    assert!(msg.is_empty());

    let mut differ = Destinations::new();
    differ.insert("actual".to_string(), metadata(vec![("content-type", "application/grpc")]));
    differ.insert("expect".to_string(), metadata(vec![]));
    assert!(!GrpcMetadataMap::AnyOrEqual.accept(&differ, &mut msg));
    assert_eq!(msg.as_slice(), &[GrpcEvaluateError::UnacceptableMetadataMap]);
    assert!(GrpcMetadataMap::Ignore.accept(&differ, &mut msg));
    assert_eq!(msg.len(), 1);
}

#[test]
fn grpc_extensions_always_acceptable() {
    let mut d = Destinations::new();
    d.insert("actual".to_string(), http::Extensions::new());
    let mut msg = Messages::new();
    assert!(GrpcExtensions::AnyOrEqual.accept(&d, &mut msg));
    assert!(GrpcExtensions::Ignore.accept(&d, &mut msg));
    assert!(msg.is_empty());
}
