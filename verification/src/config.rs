//! The proxy's own configuration: its hostnames, the optional uni-key
//! bucket index, and the deployment-time identity mode.

use vstd::prelude::*;

use crate::error::ProxyError;
use crate::host::HostDomains;
use crate::uni_key::UniKeyInfo;

verus! {

/// Seconds allowed per configuration-fetching call against a non-AWS
/// endpoint.
pub const CONFIG_FETCHING_TIMEOUT: u64 = 10;

/// The proxy hostname added in development mode.
pub const DEV_PROXY_HOST: &'static str = "s3-proxy.dev";

/// The service name requests are signed for.
pub const SERVICE: &'static str = "s3";

/// The two identity-resolution modes, chosen at deployment time.
#[derive(Clone, Copy, PartialEq, Eq, Structural, Debug)]
pub enum IdentityMode {
    /// The client's access-key ID carries an account-code suffix.
    AccountSuffix,
    /// A single access-key ID is valid across accounts; the bucket
    /// plus the client region disambiguate.
    UniKey,
}

/// Human-readable list of the optional features active for a mode.
pub fn features(mode: IdentityMode) -> (r: String)
    ensures
        mode is UniKey ==> r@ == "[uni-key]"@,
        mode is AccountSuffix ==> r@ == "[]"@,
{
    match mode {
        IdentityMode::UniKey => String::from_str("[uni-key]"),
        IdentityMode::AccountSuffix => String::from_str("[]"),
    }
}

/// The extended configuration of the S3 proxy: the hostnames it answers
/// under and, in uni-key mode, the bucket index.
#[derive(Debug)]
pub struct S3Config {
    pub proxy_hosts: HostDomains,
    pub uni_key_info: Option<UniKeyInfo>,
}

/// The views of the hostnames `new_from` leaves in a configuration: the
/// loaded set, with the development hostname appended in development mode.
pub open spec fn new_from_domains(extended_config: &S3Config, dev: bool) -> Seq<Seq<char>> {
    let loaded = extended_config.proxy_hosts.domains@.map_values(|s: String| s@);
    if dev {
        loaded.push(DEV_PROXY_HOST@)
    } else {
        loaded
    }
}

impl S3Config {
    /// Takes a loaded configuration over; in development mode the
    /// development hostname answers too. A set in which one hostname is a
    /// suffix of another would make proxy-host lookup ambiguous and is
    /// refused.
    pub fn new_from(extended_config: S3Config, dev: bool) -> (r: Result<S3Config, ProxyError>)
        ensures
            match r {
                Ok(c) => {
                    &&& c.proxy_hosts.wf()
                    &&& c.uni_key_info == extended_config.uni_key_info
                    &&& if dev {
                        &&& c.proxy_hosts.domains@.len()
                            == extended_config.proxy_hosts.domains@.len() + 1
                        &&& c.proxy_hosts.domains@.drop_last()
                            == extended_config.proxy_hosts.domains@
                        &&& c.proxy_hosts.domains@.last()@ == DEV_PROXY_HOST@
                    } else {
                        c.proxy_hosts.domains == extended_config.proxy_hosts.domains
                    }
                },
                Err(e) => e is OtherInternal && !crate::host::views_wf(
                    new_from_domains(&extended_config, dev),
                ),
            },
    {
        let mut config = extended_config;
        if dev {
            config.proxy_hosts.domains.push(String::from_str(DEV_PROXY_HOST));
            proof {
                assert(config.proxy_hosts.domains@.drop_last()
                    =~= extended_config.proxy_hosts.domains@);
            }
        }
        proof {
            assert(config.proxy_hosts.domains@.map_values(|s: String| s@) =~= new_from_domains(
                &extended_config,
                dev,
            ));
            crate::host::lemma_wf_is_views_wf(&config.proxy_hosts);
        }
        if !config.proxy_hosts.check_wf() {
            return Err(
                ProxyError::OtherInternal(
                    String::from_str("a proxy hostname is a suffix of another"),
                ),
            );
        }
        Ok(config)
    }

    /// The bucket index; running uni-key mode without one is an invariant
    /// violation.
    pub fn get_uni_key_info(&self) -> (r: Result<&UniKeyInfo, ProxyError>)
        ensures
            match r {
                Ok(u) => self.uni_key_info == Some(*u),
                Err(e) => self.uni_key_info is None && e is AssertFail,
            },
    {
        match &self.uni_key_info {
            Some(u) => Ok(u),
            None => Err(ProxyError::AssertFail(String::from_str("UniKeyInfo not found"))),
        }
    }
}

} // verus!
