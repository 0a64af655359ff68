use s3_proxy::config::{IdentityMode, S3Config};
use s3_proxy::effect::Effect;
use s3_proxy::error::ProxyError;
use s3_proxy::host::HostDomains;
use s3_proxy::iam::{
    AwsAccount, Group, IamContainer, Policy, PolicyMatch, PolicyScope, User,
};
use s3_proxy::handler::{manage_debug_param, process_request};
use s3_proxy::iam::find_input_effects;
use s3_proxy::input::{ActionKind, ObjectStorageInput};
use s3_proxy::request::{HttpRequest, HttpResponse, Method};
use s3_proxy::uni_key::{AccessInfo, UniKeyInfo};

fn account(id: &str, code: &str) -> AwsAccount {
    AwsAccount {
        id: id.to_string(),
        code: code.to_string(),
        access_key: format!("AK-{}", code),
        secret_key: format!("SK-{}", code),
    }
}

fn allow_policies(account_id: &str, region: &str) -> Vec<Policy> {
    vec![
        Policy {
            group_id: "g1".to_string(),
            account_id: account_id.to_string(),
            region: region.to_string(),
            scope: PolicyScope::Condition,
            matcher: PolicyMatch::Any,
            effects: vec![],
        },
        Policy {
            group_id: "g1".to_string(),
            account_id: account_id.to_string(),
            region: region.to_string(),
            scope: PolicyScope::UserInput,
            matcher: PolicyMatch::Any,
            effects: vec![],
        },
    ]
}

fn container(account_id: &str, code: &str, base_key: &str, region: &str) -> IamContainer {
    IamContainer {
        accounts: vec![account(account_id, code)],
        users: vec![User { base_access_key: base_key.to_string(), group_ids: vec!["g1".to_string()] }],
        groups: vec![Group { id: "g1".to_string() }],
        policies: allow_policies(account_id, region),
    }
}

fn sigv4(key: &str, region: &str) -> String {
    format!(
        "AWS4-HMAC-SHA256 Credential={}/20221115/{}/s3/aws4_request, SignedHeaders=host, Signature=abc",
        key, region
    )
}

fn request(method: Method, host: &str, pq: &str, auth: &str) -> HttpRequest {
    HttpRequest {
        method,
        path_and_query: pq.to_string(),
        host: Some(host.to_string()),
        authorization: Some(auth.to_string()),
        headers: vec![],
        uri_authority: None,
    }
}

#[test]
fn path_style_get_reaches_the_real_upstream() {
    // Path-style GET: the bucket moves from the path to the host, the
    // upstream sees the bare key, and the request is signed for the real
    // account in the signed region.
    let config = S3Config {
        proxy_hosts: HostDomains { domains: vec!["s3-proxy.dev".to_string()] },
        uni_key_info: None,
    };
    let iam = container("cn_aws_acme", "acme", "AKPSSVCSPROXYDEV", "cn-northwest-1");
    let mut req = request(
        Method::Get,
        "s3-proxy.dev",
        "/anniversary/image/x.jpg",
        &sigv4("AKPSSVCSPROXYDEV_acme", "cn-northwest-1"),
    );
    req.adapt_path_style("anniversary/image/x.jpg", &config.proxy_hosts.domains).unwrap();
    let (out, params) = process_request(
        IdentityMode::AccountSuffix,
        &iam,
        &config,
        "10.0.0.1:9000".to_string(),
        req,
    )
    .unwrap();
    assert_eq!(out.host.as_deref(), Some("anniversary.s3.cn-northwest-1.amazonaws.com.cn"));
    assert_eq!(out.path_and_query, "/image/x.jpg");
    assert!(out.authorization.is_none());
    assert_eq!(params.service, "s3");
    assert_eq!(params.region, "cn-northwest-1");
    assert_eq!(params.account.access_key, "AK-acme");
    assert_eq!(params.account.secret_key, "SK-acme");
}

#[test]
fn virtual_hosted_head_keeps_the_path() {
    let config = S3Config {
        proxy_hosts: HostDomains {
            domains: vec!["cn-northwest-1.s3-proxy.patsnap.info".to_string()],
        },
        uni_key_info: None,
    };
    let iam = container("cn_aws_ops", "ops", "AKPSOPS", "cn-northwest-1");
    let req = request(
        Method::Head,
        "ops-9554.cn-northwest-1.s3-proxy.patsnap.info",
        "/foo",
        &sigv4("AKPSOPS_ops", "cn-northwest-1"),
    );
    let (out, params) = process_request(
        IdentityMode::AccountSuffix,
        &iam,
        &config,
        "10.0.0.1:9000".to_string(),
        req,
    )
    .unwrap();
    assert_eq!(out.host.as_deref(), Some("ops-9554.s3.cn-northwest-1.amazonaws.com.cn"));
    assert_eq!(out.path_and_query, "/foo");
    assert_eq!(params.region, "cn-northwest-1");
}

fn uni_key_config(bucket: &str, infos: Vec<AccessInfo>) -> S3Config {
    S3Config {
        proxy_hosts: HostDomains { domains: vec!["s3-proxy.dev".to_string()] },
        uni_key_info: Some(UniKeyInfo { inner: vec![(bucket.to_string(), infos)] }),
    }
}

#[test]
fn uni_key_routes_to_the_tencent_endpoint() {
    // The bucket resolves to ap-shanghai with a COS endpoint; the upstream
    // host is the bucket label before the COS host, and the signing region
    // is ap-shanghai with service s3.
    let t = account("cn_tencent_t", "t");
    let config = uni_key_config(
        "tbucket",
        vec![AccessInfo {
            account: t,
            region: "ap-shanghai".to_string(),
            endpoint: Some("cos.ap-shanghai.myqcloud.com".to_string()),
        }],
    );
    let iam = container("cn_tencent_t", "t", "AKPSUNI", "ap-shanghai");
    let req = request(
        Method::Get,
        "tbucket.s3-proxy.dev",
        "/k",
        &sigv4("AKPSUNI", "ap-shanghai"),
    );
    let (out, params) =
        process_request(IdentityMode::UniKey, &iam, &config, "10.0.0.1:9000".to_string(), req)
            .unwrap();
    assert_eq!(out.host.as_deref(), Some("tbucket.cos.ap-shanghai.myqcloud.com"));
    assert_eq!(params.region, "ap-shanghai");
    assert_eq!(params.service, "s3");
    assert_eq!(params.account.access_key, "AK-t");
}

#[test]
fn uni_key_list_buckets_is_rejected() {
    let config = uni_key_config(
        "b",
        vec![AccessInfo {
            account: account("cn_aws_a", "a"),
            region: "cn-northwest-1".to_string(),
            endpoint: None,
        }],
    );
    let iam = container("cn_aws_a", "a", "AKPSUNI", "cn-northwest-1");
    let req = request(Method::Get, "s3-proxy.dev", "/", &sigv4("AKPSUNI", "cn-northwest-1"));
    let err =
        process_request(IdentityMode::UniKey, &iam, &config, "10.0.0.1:9000".to_string(), req)
            .unwrap_err();
    assert!(matches!(err, ProxyError::OperationNotSupported(_)));
}

#[test]
fn uni_key_mismatched_region_is_not_silently_misrouted() {
    let config = uni_key_config(
        "shared",
        vec![
            AccessInfo {
                account: account("cn_aws_a", "A"),
                region: "cn-northwest-1".to_string(),
                endpoint: None,
            },
            AccessInfo {
                account: account("us_aws_b", "B"),
                region: "us-east-1".to_string(),
                endpoint: None,
            },
        ],
    );
    let iam = container("cn_aws_a", "A", "AKPSUNI", "cn-northwest-1");
    let req = request(Method::Get, "shared.s3-proxy.dev", "/k", &sigv4("AKPSUNI", "eu-west-1"));
    let err =
        process_request(IdentityMode::UniKey, &iam, &config, "10.0.0.1:9000".to_string(), req)
            .unwrap_err();
    assert!(matches!(err, ProxyError::ResourceNotFound(_)));
}

#[test]
fn unknown_account_code_is_resource_not_found() {
    let config = S3Config {
        proxy_hosts: HostDomains { domains: vec!["s3-proxy.dev".to_string()] },
        uni_key_info: None,
    };
    let iam = container("cn_aws_acme", "acme", "AKPS", "cn-northwest-1");
    let req = request(Method::Get, "b.s3-proxy.dev", "/k", &sigv4("AKPS_ghost", "cn-northwest-1"));
    let err = process_request(
        IdentityMode::AccountSuffix,
        &iam,
        &config,
        "10.0.0.1:9000".to_string(),
        req,
    )
    .unwrap_err();
    assert!(matches!(err, ProxyError::ResourceNotFound(_)));
}

#[test]
fn user_outside_every_group_is_denied() {
    let config = S3Config {
        proxy_hosts: HostDomains { domains: vec!["s3-proxy.dev".to_string()] },
        uni_key_info: None,
    };
    let mut iam = container("cn_aws_acme", "acme", "AKPS", "cn-northwest-1");
    iam.users[0].group_ids.clear();
    let req = request(Method::Get, "b.s3-proxy.dev", "/k", &sigv4("AKPS_acme", "cn-northwest-1"));
    let err = process_request(
        IdentityMode::AccountSuffix,
        &iam,
        &config,
        "10.0.0.1:9000".to_string(),
        req,
    )
    .unwrap_err();
    assert!(matches!(err, ProxyError::AccessDenied(_)));
}

#[test]
fn deny_effect_refuses_the_request() {
    let config = S3Config {
        proxy_hosts: HostDomains { domains: vec!["s3-proxy.dev".to_string()] },
        uni_key_info: None,
    };
    let mut iam = container("cn_aws_acme", "acme", "AKPS", "cn-northwest-1");
    iam.policies[1].effects = vec![Effect::Deny("bucket is off limits".to_string())];
    let req = request(Method::Get, "b.s3-proxy.dev", "/k", &sigv4("AKPS_acme", "cn-northwest-1"));
    let err = process_request(
        IdentityMode::AccountSuffix,
        &iam,
        &config,
        "10.0.0.1:9000".to_string(),
        req,
    )
    .unwrap_err();
    match err {
        ProxyError::AccessDenied(m) => assert_eq!(m, "bucket is off limits"),
        other => panic!("expected AccessDenied, got {:?}", other.message()),
    }
}

#[test]
fn effects_apply_in_declared_order() {
    let req = HttpRequest {
        method: Method::Get,
        path_and_query: "/k".to_string(),
        host: Some("b.s3-proxy.dev".to_string()),
        authorization: None,
        headers: vec![],
        uri_authority: None,
    };
    let effects = vec![
        Effect::AddHeader("x-first".to_string(), "1".to_string()),
        Effect::AddHeader("x-second".to_string(), "2".to_string()),
        Effect::RewriteHost("alias.s3-proxy.dev".to_string()),
    ];
    let out = req.apply_effects(&effects).unwrap();
    assert_eq!(out.headers[0], ("x-first".to_string(), "1".to_string()));
    assert_eq!(out.headers[1], ("x-second".to_string(), "2".to_string()));
    assert_eq!(out.host.as_deref(), Some("alias.s3-proxy.dev"));
}

#[test]
fn rewrite_host_effect_with_illegal_value_fails() {
    let req = HttpRequest {
        method: Method::Get,
        path_and_query: "/k".to_string(),
        host: Some("b.s3-proxy.dev".to_string()),
        authorization: None,
        headers: vec![],
        uri_authority: None,
    };
    let effects = vec![Effect::RewriteHost("bad\nhost".to_string())];
    let err = req.apply_effects(&effects).unwrap_err();
    assert!(matches!(err, ProxyError::MalformedProtocol(_)));
}

#[test]
fn first_matching_policy_wins() {
    let first = Policy {
        group_id: "g1".to_string(),
        account_id: "a".to_string(),
        region: "r".to_string(),
        scope: PolicyScope::UserInput,
        matcher: PolicyMatch::BucketEquals("b".to_string()),
        effects: vec![Effect::AddHeader("x-from".to_string(), "first".to_string())],
    };
    let second = Policy {
        group_id: "g1".to_string(),
        account_id: "a".to_string(),
        region: "r".to_string(),
        scope: PolicyScope::UserInput,
        matcher: PolicyMatch::Any,
        effects: vec![Effect::AddHeader("x-from".to_string(), "second".to_string())],
    };
    let list = vec![&first, &second];
    let input = ObjectStorageInput {
        bucket: Some("b".to_string()),
        key: None,
        kind: ActionKind::ListObjects,
    };
    let effects = find_input_effects(&list, &input).unwrap();
    assert!(matches!(&effects[0], Effect::AddHeader(_, v) if v == "first"));
    let other_input = ObjectStorageInput {
        bucket: Some("other".to_string()),
        key: None,
        kind: ActionKind::ListObjects,
    };
    let effects = find_input_effects(&list, &other_input).unwrap();
    assert!(matches!(&effects[0], Effect::AddHeader(_, v) if v == "second"));
}

#[test]
fn response_gains_the_tracing_header() {
    let mut resp = HttpResponse { status: 200, headers: vec![("content-type".to_string(), "text/plain".to_string())] };
    resp.add_piam_headers_with_id("id-123".to_string());
    assert_eq!(resp.headers.len(), 2);
    assert_eq!(resp.headers[1], ("x-piam-id".to_string(), "id-123".to_string()));
    let mut resp2 = HttpResponse { status: 200, headers: vec![] };
    resp2.add_piam_headers_with_id("id-456".to_string());
    assert_ne!(resp.headers.last(), resp2.headers.last());
}

#[test]
fn manage_endpoint_reads_the_debug_parameter() {
    let params = vec![("debug".to_string(), "on".to_string())];
    assert_eq!(manage_debug_param(&params).map(|s| s.as_str()), Some("on"));
    let params = vec![("verbose".to_string(), "on".to_string())];
    assert!(manage_debug_param(&params).is_none());
}
