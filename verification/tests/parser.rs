use s3_proxy::error::ParserError;
use s3_proxy::host::HostDomains;
use s3_proxy::input::{ActionKind, ObjectStorageInput};
use s3_proxy::request::{HttpRequest, Method};

fn req(method: Method, host: &str, pq: &str) -> HttpRequest {
    HttpRequest {
        method,
        path_and_query: pq.to_string(),
        host: Some(host.to_string()),
        authorization: None,
        headers: vec![],
        uri_authority: None,
    }
}

fn hosts() -> HostDomains {
    HostDomains { domains: vec!["s3-proxy.dev".to_string()] }
}

#[test]
fn parse_list_buckets() {
    let input = ObjectStorageInput::parse(&req(Method::Get, "s3-proxy.dev", "/"), &hosts()).unwrap();
    assert_eq!(input.kind, ActionKind::ListBuckets);
    assert!(input.bucket.is_none());
    assert!(input.key.is_none());
}

#[test]
fn parse_get_object() {
    let input =
        ObjectStorageInput::parse(&req(Method::Get, "b.s3-proxy.dev", "/image/x.jpg"), &hosts())
            .unwrap();
    assert_eq!(input.kind, ActionKind::GetObject);
    assert_eq!(input.bucket.as_deref(), Some("b"));
    assert_eq!(input.key.as_deref(), Some("image/x.jpg"));
}

#[test]
fn parse_list_objects() {
    let input = ObjectStorageInput::parse(&req(Method::Get, "b.s3-proxy.dev", "/"), &hosts()).unwrap();
    assert_eq!(input.kind, ActionKind::ListObjects);
    assert_eq!(input.bucket.as_deref(), Some("b"));
}

#[test]
fn parse_put_and_copy_object() {
    let input = ObjectStorageInput::parse(&req(Method::Put, "b.s3-proxy.dev", "/k"), &hosts()).unwrap();
    assert_eq!(input.kind, ActionKind::PutObject);
    let mut copy = req(Method::Put, "b.s3-proxy.dev", "/k");
    copy.headers.push(("x-amz-copy-source".to_string(), "src/k".to_string()));
    let input = ObjectStorageInput::parse(&copy, &hosts()).unwrap();
    assert_eq!(input.kind, ActionKind::CopyObject);
}

#[test]
fn parse_head_variants() {
    let input = ObjectStorageInput::parse(&req(Method::Head, "b.s3-proxy.dev", "/k"), &hosts()).unwrap();
    assert_eq!(input.kind, ActionKind::HeadObject);
    let input = ObjectStorageInput::parse(&req(Method::Head, "b.s3-proxy.dev", "/"), &hosts()).unwrap();
    assert_eq!(input.kind, ActionKind::HeadBucket);
}

#[test]
fn parse_delete_object() {
    let input =
        ObjectStorageInput::parse(&req(Method::Delete, "b.s3-proxy.dev", "/k"), &hosts()).unwrap();
    assert_eq!(input.kind, ActionKind::DeleteObject);
}

#[test]
fn parse_multipart_kinds() {
    let input =
        ObjectStorageInput::parse(&req(Method::Post, "b.s3-proxy.dev", "/k?uploads"), &hosts())
            .unwrap();
    assert_eq!(input.kind, ActionKind::CreateMultipartUpload);
    let input =
        ObjectStorageInput::parse(&req(Method::Get, "b.s3-proxy.dev", "/?uploads"), &hosts())
            .unwrap();
    assert_eq!(input.kind, ActionKind::ListMultipartUploads);
    let input =
        ObjectStorageInput::parse(&req(Method::Put, "b.s3-proxy.dev", "/k?uploadId=7"), &hosts())
            .unwrap();
    assert_eq!(input.kind, ActionKind::UploadPart);
    let input =
        ObjectStorageInput::parse(&req(Method::Get, "b.s3-proxy.dev", "/k?uploadId=7"), &hosts())
            .unwrap();
    assert_eq!(input.kind, ActionKind::ListParts);
    let input =
        ObjectStorageInput::parse(&req(Method::Post, "b.s3-proxy.dev", "/k?uploadId=7"), &hosts())
            .unwrap();
    assert_eq!(input.kind, ActionKind::CompleteMultipartUpload);
    let input =
        ObjectStorageInput::parse(&req(Method::Delete, "b.s3-proxy.dev", "/k?uploadId=7"), &hosts())
            .unwrap();
    assert_eq!(input.kind, ActionKind::AbortMultipartUpload);
}

#[test]
fn parse_query_parameter_needs_exact_name() {
    // `uploadsfoo` is not the `uploads` parameter.
    let input =
        ObjectStorageInput::parse(&req(Method::Get, "b.s3-proxy.dev", "/?uploadsfoo"), &hosts())
            .unwrap();
    assert_eq!(input.kind, ActionKind::ListObjects);
    // ...but a valued `uploads=` is.
    let input =
        ObjectStorageInput::parse(&req(Method::Get, "b.s3-proxy.dev", "/?x=1&uploads=2"), &hosts())
            .unwrap();
    assert_eq!(input.kind, ActionKind::ListMultipartUploads);
}

#[test]
fn parse_unsupported_shape_is_rejected() {
    // A POST with neither `uploads` nor `uploadId` is no known action.
    let err =
        ObjectStorageInput::parse(&req(Method::Post, "b.s3-proxy.dev", "/k"), &hosts()).unwrap_err();
    assert!(matches!(err, ParserError::OperationNotSupported(_)));
    // PUT on the bucket root is no known action either.
    let err =
        ObjectStorageInput::parse(&req(Method::Put, "b.s3-proxy.dev", "/"), &hosts()).unwrap_err();
    assert!(matches!(err, ParserError::OperationNotSupported(_)));
}

#[test]
fn parse_host_without_dot_before_proxy_host_is_malformed() {
    let err =
        ObjectStorageInput::parse(&req(Method::Get, "xs3-proxy.dev", "/"), &hosts()).unwrap_err();
    assert!(matches!(err, ParserError::MalformedProtocol(_)));
}

#[test]
fn parse_unknown_host_is_malformed() {
    let err =
        ObjectStorageInput::parse(&req(Method::Get, "b.example.com", "/"), &hosts()).unwrap_err();
    assert!(matches!(err, ParserError::MalformedProtocol(_)));
}

#[test]
fn parse_missing_host_is_malformed() {
    let mut r = req(Method::Get, "b.s3-proxy.dev", "/");
    r.host = None;
    let err = ObjectStorageInput::parse(&r, &hosts()).unwrap_err();
    assert!(matches!(err, ParserError::MalformedProtocol(_)));
}

#[test]
fn parse_domain_style_bucket_names() {
    let input = ObjectStorageInput::parse(
        &req(Method::Get, "api.patsnap.info.s3-proxy.dev", "/index.html"),
        &hosts(),
    )
    .unwrap();
    assert_eq!(input.bucket.as_deref(), Some("api.patsnap.info"));
    assert_eq!(input.key.as_deref(), Some("index.html"));
}
