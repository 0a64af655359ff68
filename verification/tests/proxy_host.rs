use s3_proxy::config::S3Config;
use s3_proxy::error::ParserError;
use s3_proxy::host::HostDomains;

#[test]
fn find_proxy_host() {
    let config = S3Config {
        proxy_hosts: HostDomains {
            domains: vec!["cn-northwest-1.s3-proxy.patsnap.info".into()],
        },
        uni_key_info: None,
    };
    let result = config.proxy_hosts.find_proxy_host(
        "datalake-internal.patsnap.com-cn-northwest-1.cn-northwest-1.s3-proxy.patsnap.info",
    );
    assert!(result.is_ok())
}

#[test]
fn find_proxy_host_returns_the_matching_domain() {
    let hosts = HostDomains {
        domains: vec!["s3-proxy.dev".to_string(), "cn-northwest-1.s3-proxy.patsnap.info".to_string()],
    };
    let found = hosts.find_proxy_host("bucket.cn-northwest-1.s3-proxy.patsnap.info").unwrap();
    assert_eq!(found, "cn-northwest-1.s3-proxy.patsnap.info");
}

#[test]
fn find_proxy_host_unknown_host_is_malformed() {
    let hosts = HostDomains { domains: vec!["s3-proxy.dev".to_string()] };
    let err = hosts.find_proxy_host("bucket.example.com").unwrap_err();
    assert!(matches!(err, ParserError::MalformedProtocol(_)));
}

#[test]
fn find_proxy_host_empty_set_finds_nothing() {
    let hosts = HostDomains { domains: vec![] };
    assert!(hosts.find_proxy_host("anything").is_err());
}

#[test]
fn well_formed_host_sets_have_no_suffix_pairs() {
    let good = HostDomains {
        domains: vec!["s3-proxy.dev".to_string(), "cn-northwest-1.s3-proxy.patsnap.info".to_string()],
    };
    assert!(good.check_wf());
    let bad = HostDomains {
        domains: vec!["s3-proxy.dev".to_string(), "proxy.dev".to_string()],
    };
    assert!(!bad.check_wf());
    let dup = HostDomains {
        domains: vec!["s3-proxy.dev".to_string(), "s3-proxy.dev".to_string()],
    };
    assert!(!dup.check_wf());
}
