//! Reading the client's SigV4 `Authorization` header: the access-key ID
//! and the region from the credential scope, and the account-code suffix
//! carried by the access-key ID in account-suffix mode.

use vstd::prelude::*;

use crate::error::ProxyError;
use crate::request::HttpRequest;
use crate::strutil::{
    concat2, find_char, first_index_of, last_index_of, lemma_first_index_of_unique,
    lemma_last_index_of_unique, rfind_char, strip_prefix_str,
};

verus! {

/// The access key and the region of a SigV4 `Authorization` header:
/// `AWS4-HMAC-SHA256 Credential=<key>/<date>/<region>/...`, when the
/// header has that shape.
pub open spec fn parsed_credential(auth: Seq<char>) -> Option<(Seq<char>, Seq<char>)> {
    let p = "AWS4-HMAC-SHA256 Credential="@;
    if !p.is_prefix_of(auth) {
        None
    } else {
        let rest = auth.skip(p.len() as int);
        let i = first_index_of(rest, '/');
        if i == rest.len() {
            None
        } else {
            let ak = rest.take(i);
            let rest2 = rest.skip(i + 1);
            let j = first_index_of(rest2, '/');
            if j == rest2.len() {
                None
            } else {
                let rest3 = rest2.skip(j + 1);
                let k = first_index_of(rest3, '/');
                if k == rest3.len() {
                    None
                } else {
                    Some((ak, rest3.take(k)))
                }
            }
        }
    }
}

/// The base access key and the account code of an access-key ID of the
/// form `<base>_<code>`: the split is at the last underscore.
pub open spec fn split_base_code(ak: Seq<char>) -> Option<(Seq<char>, Seq<char>)> {
    let i = last_index_of(ak, '_');
    if i < 0 {
        None
    } else {
        Some((ak.take(i), ak.skip(i + 1)))
    }
}

impl HttpRequest {
    /// The client's access-key ID and signing region, from the SigV4
    /// `Authorization` header.
    pub fn extract_access_key_and_region(&self) -> (r: Result<(String, String), ProxyError>)
        ensures
            match r {
                Ok(p) => self.authorization is Some && parsed_credential(self.authorization->0@)
                    == Some((p.0@, p.1@)),
                Err(e) => e is MalformedProtocol && (self.authorization is None
                    || parsed_credential(self.authorization->0@) is None),
            },
    {
        let auth = match &self.authorization {
            Some(a) => a,
            None => {
                return Err(
                    ProxyError::MalformedProtocol(
                        String::from_str("authorization header should not be empty"),
                    ),
                );
            },
        };
        let rest = match strip_prefix_str(auth.as_str(), "AWS4-HMAC-SHA256 Credential=") {
            Some(t) => t,
            None => {
                return Err(
                    ProxyError::MalformedProtocol(
                        concat2("authorization header is not sigv4: ", auth.as_str()),
                    ),
                );
            },
        };
        let i = match find_char(rest, '/') {
            Some(i) => i,
            None => {
                proof {
                    lemma_first_index_of_unique(rest@, '/', rest@.len() as int);
                }
                return Err(
                    ProxyError::MalformedProtocol(
                        concat2("authorization header has no credential scope: ", auth.as_str()),
                    ),
                );
            },
        };
        proof {
            lemma_first_index_of_unique(rest@, '/', i as int);
        }
        let access_key = rest.substring_char(0, i);
        let rest_len = rest.unicode_len();
        let rest2 = rest.substring_char(i + 1, rest_len);
        proof {
            assert(rest2@ =~= rest@.skip(i + 1));
        }
        let j = match find_char(rest2, '/') {
            Some(j) => j,
            None => {
                proof {
                    lemma_first_index_of_unique(rest2@, '/', rest2@.len() as int);
                }
                return Err(
                    ProxyError::MalformedProtocol(
                        concat2("authorization header has no region: ", auth.as_str()),
                    ),
                );
            },
        };
        proof {
            lemma_first_index_of_unique(rest2@, '/', j as int);
        }
        let rest2_len = rest2.unicode_len();
        let rest3 = rest2.substring_char(j + 1, rest2_len);
        proof {
            assert(rest3@ =~= rest2@.skip(j + 1));
        }
        let k = match find_char(rest3, '/') {
            Some(k) => k,
            None => {
                proof {
                    lemma_first_index_of_unique(rest3@, '/', rest3@.len() as int);
                }
                return Err(
                    ProxyError::MalformedProtocol(
                        concat2("authorization header has no service: ", auth.as_str()),
                    ),
                );
            },
        };
        proof {
            lemma_first_index_of_unique(rest3@, '/', k as int);
        }
        let region = rest3.substring_char(0, k);
        Ok((String::from_str(access_key), String::from_str(region)))
    }
}

/// Splits an access-key ID of the form `<base>_<code>` at its last
/// underscore; the suffix names the account.
pub fn split_to_base_and_account_code(access_key: &str) -> (r: Result<(String, String), ProxyError>)
    ensures
        match r {
            Ok(p) => split_base_code(access_key@) == Some((p.0@, p.1@)),
            Err(e) => split_base_code(access_key@) is None && e is AccessDenied,
        },
{
    match rfind_char(access_key, '_') {
        Some(i) => {
            proof {
                lemma_last_index_of_unique(access_key@, '_', i as int);
            }
            let base = access_key.substring_char(0, i);
            let ak_len = access_key.unicode_len();
            let code = access_key.substring_char(i + 1, ak_len);
            proof {
                assert(code@ =~= access_key@.skip(i + 1));
            }
            Ok((String::from_str(base), String::from_str(code)))
        },
        None => {
            proof {
                lemma_last_index_of_unique(access_key@, '_', -1);
            }
            Err(
                ProxyError::AccessDenied(
                    concat2("access key has no account code: ", access_key),
                ),
            )
        },
    }
}

} // verus!
