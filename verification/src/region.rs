//! Pure mappings from a region name to the real cloud endpoint serving it.

use vstd::prelude::*;

use crate::error::ProxyError;
use crate::strutil::{concat2, str_eq};

verus! {

broadcast use vstd::string::group_string_axioms;

/// The real endpoint hostname serving `region`, when the region is known:
/// AWS regions map to their S3 hosts, Tencent regions to their COS hosts.
pub open spec fn region_host(region: Seq<char>) -> Option<Seq<char>> {
    if region == "cn-northwest-1"@ {
        Some("s3.cn-northwest-1.amazonaws.com.cn"@)
    } else if region == "us-east-1"@ {
        Some("s3.us-east-1.amazonaws.com"@)
    } else if region == "us-east-2"@ {
        Some("s3.us-east-2.amazonaws.com"@)
    } else if region == "ap-shanghai"@ {
        Some("cos.ap-shanghai.myqcloud.com"@)
    } else if region == "na-ashburn"@ {
        Some("cos.na-ashburn.myqcloud.com"@)
    } else {
        None
    }
}

/// The endpoint override needed for `region`, when one is needed: only the
/// Tencent COS regions require an explicit endpoint.
pub open spec fn region_endpoint(region: Seq<char>) -> Option<Seq<char>> {
    if region == "ap-shanghai"@ {
        Some("cos.ap-shanghai.myqcloud.com"@)
    } else if region == "na-ashburn"@ {
        Some("cos.na-ashburn.myqcloud.com"@)
    } else {
        None
    }
}

/// The real host to route requests for `region` to.
pub fn from_region_to_host(region: &str) -> (r: Result<String, ProxyError>)
    ensures
        match r {
            Ok(h) => region_host(region@) == Some(h@),
            Err(e) => region_host(region@) is None && e is InvalidEndpoint,
        },
{
    if str_eq(region, "cn-northwest-1") {
        Ok(String::from_str("s3.cn-northwest-1.amazonaws.com.cn"))
    } else if str_eq(region, "us-east-1") {
        Ok(String::from_str("s3.us-east-1.amazonaws.com"))
    } else if str_eq(region, "us-east-2") {
        Ok(String::from_str("s3.us-east-2.amazonaws.com"))
    } else if str_eq(region, "ap-shanghai") {
        Ok(String::from_str("cos.ap-shanghai.myqcloud.com"))
    } else if str_eq(region, "na-ashburn") {
        Ok(String::from_str("cos.na-ashburn.myqcloud.com"))
    } else {
        Err(ProxyError::InvalidEndpoint(concat2("unknown region: ", region)))
    }
}

/// The endpoint override for `region`, for the regions that need one.
pub fn from_region_to_endpoint(region: &str) -> (r: Result<String, ProxyError>)
    ensures
        match r {
            Ok(h) => region_endpoint(region@) == Some(h@),
            Err(e) => region_endpoint(region@) is None && e is InvalidEndpoint,
        },
{
    if str_eq(region, "ap-shanghai") {
        Ok(String::from_str("cos.ap-shanghai.myqcloud.com"))
    } else if str_eq(region, "na-ashburn") {
        Ok(String::from_str("cos.na-ashburn.myqcloud.com"))
    } else {
        Err(ProxyError::InvalidEndpoint(concat2("no endpoint for region: ", region)))
    }
}

/// Law: every region that carries an endpoint override also has a real
/// host, and the two agree.
pub proof fn lemma_endpoint_region_has_host(region: Seq<char>)
    requires
        region_endpoint(region) is Some,
    ensures
        region_host(region) == region_endpoint(region),
{
    reveal_strlit("cn-northwest-1");
    reveal_strlit("us-east-1");
    reveal_strlit("us-east-2");
    reveal_strlit("ap-shanghai");
    reveal_strlit("na-ashburn");
    assert(("ap-shanghai"@).len() == 11);
    assert(("cn-northwest-1"@).len() == 14);
    assert(("na-ashburn"@).len() == 10);
    assert(("us-east-1"@).len() == 9);
    assert("ap-shanghai"@ != "cn-northwest-1"@);
}

} // verus!
