use relentless::command::InterfaceError;
use relentless::config::FormatError;
use relentless::evaluate::{HttpEvaluateError, JsonEvaluateError, PlaintextEvaluateError};
use relentless::grpc::GrpcEvaluateError;
use relentless::metrics::RequestError;
use relentless::router::AssaultError;

#[test]
fn request_error_messages() {
    assert_eq!(RequestError::Timeout(1_000_000_000).message(), "request timeout: 1s");
    assert_eq!(RequestError::Timeout(500_000_000).message(), "request timeout: 500ms");
    assert_eq!(RequestError::Timeout(1_500).message(), "request timeout: 1.5µs");
    assert_eq!(RequestError::NoReady("not ready".to_string()).message(), "not ready");
}

#[test]
fn evaluate_error_messages() {
    assert_eq!(HttpEvaluateError::UnacceptableStatus.message(), "status is not acceptable");
    assert_eq!(HttpEvaluateError::UnacceptableHeaderMap.message(), "header map is not acceptable");
    assert_eq!(
        HttpEvaluateError::PlaintextEvaluateError(PlaintextEvaluateError::FailToMatch("a+".to_string(), "bbb".to_string()))
            .message(),
        "regex `a+` does not match `bbb`"
    );
    assert_eq!(HttpEvaluateError::JsonEvaluateError(JsonEvaluateError::Diff("/uri".to_string())).message(), "diff in `/uri`");
    assert_eq!(
        HttpEvaluateError::RequestError(RequestError::Timeout(2_000_000_000)).message(),
        "request timeout: 2s"
    );
    assert_eq!(GrpcEvaluateError::UnacceptableMetadataMap.message(), "metadata map is not acceptable");
    assert_eq!(GrpcEvaluateError::UnacceptableExtension.message(), "extension is not acceptable");
}

#[test]
fn interface_error_messages() {
    assert_eq!(
        InterfaceError::KeyValueFormat("key-value".to_string()).message(),
        "should be KEY=VALUE format, but `key-value` has no `=`"
    );
    assert_eq!(InterfaceError::InvalidUri("::".to_string()).message(), "`::` is no valid URI");
    assert_eq!(FormatError::UnknownFormatExtension("ini".to_string()).message(), "`ini` is unknown extension format");
    assert_eq!(FormatError::CannotSpecifyFormat.message(), "cannot specify format");
    assert_eq!(AssaultError::CannotSpecifyService.message(), "cannot specify service");
}
