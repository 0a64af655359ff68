use s3_proxy::config::S3Config;
use s3_proxy::error::ProxyError;
use s3_proxy::host::HostDomains;
use s3_proxy::request::{HttpRequest, Method};

fn path_style_req(host: &str, pq: &str) -> HttpRequest {
    HttpRequest {
        method: Method::Get,
        path_and_query: pq.to_string(),
        host: Some(host.to_string()),
        authorization: None,
        headers: vec![],
        uri_authority: None,
    }
}

#[test]
fn adapt_path_style_moves_bucket_to_host() {
    let mut req = path_style_req("s3-proxy.dev", "/anniversary/image/x.jpg");
    let hosts = vec!["s3-proxy.dev".to_string()];
    req.adapt_path_style("anniversary/image/x.jpg", &hosts).unwrap();
    assert_eq!(req.host.as_deref(), Some("anniversary.s3-proxy.dev"));
    assert_eq!(req.path_and_query, "/image/x.jpg");
}

#[test]
fn adapt_path_style_bucket_only_path_becomes_root() {
    let mut req = path_style_req("s3-proxy.dev", "/mybucket");
    let hosts = vec!["s3-proxy.dev".to_string()];
    req.adapt_path_style("mybucket", &hosts).unwrap();
    assert_eq!(req.host.as_deref(), Some("mybucket.s3-proxy.dev"));
    assert_eq!(req.path_and_query, "/");
}

#[test]
fn adapt_path_style_keeps_query() {
    let mut req = path_style_req("s3-proxy.dev", "/b/k?uploads");
    let hosts = vec!["s3-proxy.dev".to_string()];
    req.adapt_path_style("b/k", &hosts).unwrap();
    assert_eq!(req.path_and_query, "/k?uploads");
}

#[test]
fn adapt_path_style_passes_virtual_hosted_through() {
    let mut req = path_style_req("bucket.s3-proxy.dev", "/k");
    let hosts = vec!["s3-proxy.dev".to_string()];
    req.adapt_path_style("k", &hosts).unwrap();
    assert_eq!(req.host.as_deref(), Some("bucket.s3-proxy.dev"));
    assert_eq!(req.path_and_query, "/k");
}

#[test]
fn adapt_path_style_twice_is_idempotent() {
    let mut req = path_style_req("s3-proxy.dev", "/b/k");
    let hosts = vec!["s3-proxy.dev".to_string()];
    req.adapt_path_style("b/k", &hosts).unwrap();
    let host_once = req.host.clone();
    let pq_once = req.path_and_query.clone();
    req.adapt_path_style("k", &hosts).unwrap();
    assert_eq!(req.host, host_once);
    assert_eq!(req.path_and_query, pq_once);
}

#[test]
fn adapt_path_style_missing_host_is_malformed() {
    let mut req = path_style_req("s3-proxy.dev", "/b/k");
    req.host = None;
    let hosts = vec!["s3-proxy.dev".to_string()];
    let err = req.adapt_path_style("b/k", &hosts).unwrap_err();
    assert!(matches!(err, ProxyError::MalformedProtocol(_)));
}

#[test]
fn adapt_path_style_path_mismatch_is_malformed() {
    let mut req = path_style_req("s3-proxy.dev", "/other/k");
    let hosts = vec!["s3-proxy.dev".to_string()];
    let err = req.adapt_path_style("bucket/k", &hosts).unwrap_err();
    assert!(matches!(err, ProxyError::MalformedProtocol(_)));
}

#[test]
fn adapt_path_style_rejects_invalid_remainder() {
    // A space is not a legal path-and-query character.
    let mut req = path_style_req("s3-proxy.dev", "/b/a b");
    let hosts = vec!["s3-proxy.dev".to_string()];
    let err = req.adapt_path_style("b/a b", &hosts).unwrap_err();
    assert!(matches!(err, ProxyError::MalformedProtocol(_)));
}

#[test]
fn set_host_rejects_illegal_header_value() {
    let mut req = path_style_req("s3-proxy.dev", "/");
    let err = req.set_host("bad\nhost").unwrap_err();
    assert!(matches!(err, ProxyError::MalformedProtocol(_)));
    assert_eq!(req.host.as_deref(), Some("s3-proxy.dev"));
}

#[test]
fn set_host_replaces_the_header() {
    let mut req = path_style_req("s3-proxy.dev", "/");
    req.set_host("bucket.s3-proxy.dev").unwrap();
    assert_eq!(req.host.as_deref(), Some("bucket.s3-proxy.dev"));
}

#[test]
fn set_actual_host_rewrites_towards_the_region() {
    let config = S3Config {
        proxy_hosts: HostDomains { domains: vec!["s3-proxy.dev".to_string()] },
        uni_key_info: None,
    };
    let mut req = path_style_req("anniversary.s3-proxy.dev", "/image/x.jpg");
    req.set_actual_host(&config, "cn-northwest-1").unwrap();
    assert_eq!(req.host.as_deref(), Some("anniversary.s3.cn-northwest-1.amazonaws.com.cn"));
    assert_eq!(req.uri_authority.as_deref(), Some("s3.cn-northwest-1.amazonaws.com.cn"));
    assert_eq!(req.path_and_query, "/image/x.jpg");
}

#[test]
fn set_actual_host_unknown_region_is_invalid_endpoint() {
    let config = S3Config {
        proxy_hosts: HostDomains { domains: vec!["s3-proxy.dev".to_string()] },
        uni_key_info: None,
    };
    let mut req = path_style_req("b.s3-proxy.dev", "/k");
    let err = req.set_actual_host(&config, "mars-central-1").unwrap_err();
    assert!(matches!(err, ProxyError::InvalidEndpoint(_)));
}

#[test]
fn set_actual_host_rejects_invalid_rewritten_uri() {
    let config = S3Config {
        proxy_hosts: HostDomains { domains: vec!["s3-proxy.dev".to_string()] },
        uni_key_info: None,
    };
    // The path survives header validation but poisons the rewritten URI.
    let mut req = path_style_req("b.s3-proxy.dev", "a b");
    let err = req.set_actual_host(&config, "us-east-1").unwrap_err();
    assert!(matches!(err, ProxyError::MalformedProtocol(_)));
}

#[test]
fn set_actual_host_without_proxy_suffix_is_parser_error() {
    let config = S3Config {
        proxy_hosts: HostDomains { domains: vec!["s3-proxy.dev".to_string()] },
        uni_key_info: None,
    };
    let mut req = path_style_req("bucket.example.com", "/k");
    let err = req.set_actual_host(&config, "us-east-1").unwrap_err();
    assert!(matches!(err, ProxyError::ParserError(_)));
}
