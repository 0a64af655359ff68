use s3_proxy::config::{features, IdentityMode, S3Config};
use s3_proxy::error::ProxyError;
use s3_proxy::host::HostDomains;
use s3_proxy::iam::AwsAccount;
use s3_proxy::region::{from_region_to_endpoint, from_region_to_host};
use s3_proxy::uni_key::{
    build_access_info_vec, buckets_from_listing, list_buckets_error, sanitize_ip_text,
    AccessInfo, UniKeyInfo,
};

fn account(id: &str, code: &str) -> AwsAccount {
    AwsAccount {
        id: id.to_string(),
        code: code.to_string(),
        access_key: format!("AK-{}", code),
        secret_key: format!("SK-{}", code),
    }
}

#[test]
fn probes_follow_account_id_prefixes() {
    let accounts = vec![
        account("cn_aws_data", "a"),
        account("us_aws_data", "b"),
        account("cn_tencent_data", "c"),
        account("us_tencent_data", "d"),
    ];
    let probes = build_access_info_vec(&accounts).unwrap();
    assert_eq!(probes[0].region, "cn-northwest-1");
    assert!(probes[0].endpoint.is_none());
    assert_eq!(probes[1].region, "us-east-1");
    assert!(probes[1].endpoint.is_none());
    assert_eq!(probes[2].region, "ap-shanghai");
    assert_eq!(probes[2].endpoint.as_deref(), Some("cos.ap-shanghai.myqcloud.com"));
    assert_eq!(probes[3].region, "na-ashburn");
    assert_eq!(probes[3].endpoint.as_deref(), Some("cos.na-ashburn.myqcloud.com"));
    assert_eq!(probes[0].account.code, "a");
}

#[test]
fn probe_exception_for_the_cas_account() {
    let probes = build_access_info_vec(&vec![account("us_aws_cas_1549", "cas")]).unwrap();
    assert_eq!(probes[0].region, "us-east-2");
}

#[test]
fn probe_unknown_account_id_fails_the_derivation() {
    let err =
        build_access_info_vec(&vec![account("eu_azure_data", "x")]).unwrap_err();
    assert!(matches!(err, ProxyError::AssertFail(_)));
}

fn info(code: &str, region: &str) -> AccessInfo {
    AccessInfo {
        account: account(&format!("{}_{}", "cn_aws", code), code),
        region: region.to_string(),
        endpoint: None,
    }
}

fn entry_for<'a>(uki: &'a UniKeyInfo, bucket: &str) -> Option<&'a Vec<AccessInfo>> {
    uki.inner.iter().find(|e| e.0 == bucket).map(|e| &e.1)
}

#[test]
fn index_collects_listings_in_order() {
    let listings = vec![
        (info("a", "cn-northwest-1"), vec!["b1".to_string(), "b2".to_string()]),
        (info("b", "us-east-1"), vec!["b2".to_string(), "b3".to_string()]),
    ];
    let uki = UniKeyInfo::new_from_listings(&listings);
    assert_eq!(entry_for(&uki, "b1").unwrap().len(), 1);
    let b2 = entry_for(&uki, "b2").unwrap();
    assert_eq!(b2.len(), 2);
    assert_eq!(b2[0].region, "cn-northwest-1");
    assert_eq!(b2[1].region, "us-east-1");
    assert_eq!(entry_for(&uki, "b3").unwrap()[0].region, "us-east-1");
}

#[test]
fn tencent_dedup_drops_na_ashburn_buckets_from_ap_shanghai() {
    let listings = vec![
        (info("na", "na-ashburn"), vec!["b1".to_string(), "b2".to_string()]),
        (info("sh", "ap-shanghai"), vec!["b1".to_string(), "b3".to_string()]),
    ];
    let uki = UniKeyInfo::new_from_listings(&listings);
    let b1 = entry_for(&uki, "b1").unwrap();
    assert_eq!(b1.len(), 1);
    assert_eq!(b1[0].region, "na-ashburn");
    let b3 = entry_for(&uki, "b3").unwrap();
    assert_eq!(b3.len(), 1);
    assert_eq!(b3[0].region, "ap-shanghai");
}

#[test]
fn one_region_records_a_bucket_once() {
    // Two accounts probed in the same region reporting one bucket name
    // yield a single entry for that region.
    let listings = vec![
        (info("a", "cn-northwest-1"), vec!["b1".to_string()]),
        (info("b", "cn-northwest-1"), vec!["b1".to_string()]),
    ];
    let uki = UniKeyInfo::new_from_listings(&listings);
    let b1 = entry_for(&uki, "b1").unwrap();
    assert_eq!(b1.len(), 1);
    assert_eq!(b1[0].account.code, "a");
}

#[test]
fn ap_shanghai_without_na_cache_keeps_its_buckets() {
    let listings = vec![(info("sh", "ap-shanghai"), vec!["b1".to_string()])];
    let uki = UniKeyInfo::new_from_listings(&listings);
    assert_eq!(entry_for(&uki, "b1").unwrap()[0].region, "ap-shanghai");
}

#[test]
fn region_to_host_mapping() {
    assert_eq!(
        from_region_to_host("cn-northwest-1").unwrap(),
        "s3.cn-northwest-1.amazonaws.com.cn"
    );
    assert_eq!(from_region_to_host("us-east-1").unwrap(), "s3.us-east-1.amazonaws.com");
    assert_eq!(from_region_to_host("us-east-2").unwrap(), "s3.us-east-2.amazonaws.com");
    assert_eq!(from_region_to_host("ap-shanghai").unwrap(), "cos.ap-shanghai.myqcloud.com");
    assert_eq!(from_region_to_host("na-ashburn").unwrap(), "cos.na-ashburn.myqcloud.com");
    assert!(matches!(
        from_region_to_host("eu-west-1").unwrap_err(),
        ProxyError::InvalidEndpoint(_)
    ));
}

#[test]
fn region_to_endpoint_mapping() {
    assert_eq!(from_region_to_endpoint("ap-shanghai").unwrap(), "cos.ap-shanghai.myqcloud.com");
    assert_eq!(from_region_to_endpoint("na-ashburn").unwrap(), "cos.na-ashburn.myqcloud.com");
    assert!(matches!(
        from_region_to_endpoint("cn-northwest-1").unwrap_err(),
        ProxyError::InvalidEndpoint(_)
    ));
}

#[test]
fn sanitize_ip_text_strips_newlines_and_tabs() {
    assert_eq!(sanitize_ip_text("1.2.3.4\n\tchina\n"), "1.2.3.4china");
    assert_eq!(sanitize_ip_text("plain"), "plain");
}

#[test]
fn listing_without_buckets_is_an_invariant_violation() {
    assert!(matches!(
        buckets_from_listing(None).unwrap_err(),
        ProxyError::AssertFail(_)
    ));
    assert_eq!(buckets_from_listing(Some(vec!["b".to_string()])).unwrap(), vec!["b".to_string()]);
}

#[test]
fn listing_error_names_the_account_and_ip() {
    let e = list_buckets_error("acme", "AK", "us-east-1", "denied", "1.2.3.4");
    assert!(matches!(e, ProxyError::OtherInternal(_)));
    assert_eq!(
        e.message().as_str(),
        "failed to get buckets for account: acme access_key: AK region: us-east-1 \
         Error: denied, normally it is caused by permissions not configured for the account, \
         try check the IP whitelist on peer, ip_info: 1.2.3.4"
    );
}

#[test]
fn features_names_the_active_mode() {
    assert_eq!(features(IdentityMode::UniKey), "[uni-key]");
    assert_eq!(features(IdentityMode::AccountSuffix), "[]");
}

#[test]
fn config_new_from_adds_dev_host_in_dev_mode() {
    let base = S3Config {
        proxy_hosts: HostDomains { domains: vec!["cn-northwest-1.s3-proxy.patsnap.info".to_string()] },
        uni_key_info: None,
    };
    let c = S3Config::new_from(base, true).unwrap();
    assert_eq!(c.proxy_hosts.domains.len(), 2);
    assert_eq!(c.proxy_hosts.domains[1], "s3-proxy.dev");
    let base = S3Config {
        proxy_hosts: HostDomains { domains: vec!["cn-northwest-1.s3-proxy.patsnap.info".to_string()] },
        uni_key_info: None,
    };
    let c = S3Config::new_from(base, false).unwrap();
    assert_eq!(c.proxy_hosts.domains.len(), 1);
}

#[test]
fn config_new_from_refuses_ambiguous_host_sets() {
    let base = S3Config {
        proxy_hosts: HostDomains {
            domains: vec!["s3-proxy.dev".to_string(), "proxy.dev".to_string()],
        },
        uni_key_info: None,
    };
    let err = S3Config::new_from(base, false).unwrap_err();
    assert!(matches!(err, ProxyError::OtherInternal(_)));
    // The development hostname may itself collide with a configured one.
    let base = S3Config {
        proxy_hosts: HostDomains { domains: vec!["proxy.dev".to_string()] },
        uni_key_info: None,
    };
    let err = S3Config::new_from(base, true).unwrap_err();
    assert!(matches!(err, ProxyError::OtherInternal(_)));
}

#[test]
fn config_without_uni_key_info_cannot_serve_uni_key() {
    let c = S3Config {
        proxy_hosts: HostDomains { domains: vec![] },
        uni_key_info: None,
    };
    assert!(matches!(c.get_uni_key_info().unwrap_err(), ProxyError::AssertFail(_)));
}
