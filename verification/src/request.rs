//! The proxy's view of an HTTP request, and the URL-style transformations
//! applied to it: path-style to virtual-hosted-style conversion, and the
//! rewrite towards the real upstream host.

use vstd::prelude::*;

use crate::error::ProxyError;
use crate::httpx::{
    header_value_accepted, header_value_ok, path_and_query_accepted, path_and_query_ok,
};
use crate::strutil::{
    concat2, concat3, contains_str, find_char, first_index_of, lemma_first_index_of_unique,
    strip_prefix_str, vec_contains_str,
};

verus! {

broadcast use vstd::string::group_string_axioms;

/// The HTTP method of a request.
#[derive(Clone, Copy, PartialEq, Eq, Structural, Debug)]
pub enum Method {
    Get,
    Put,
    Post,
    Delete,
    Head,
    Options,
    Patch,
}

/// The parts of an HTTP request that the pipeline reads and rewrites.
/// Bodies are streamed unmodified and are not modelled here.
#[derive(Debug)]
pub struct HttpRequest {
    pub method: Method,
    /// Path and optional query, e.g. `/key?uploads`.
    pub path_and_query: String,
    /// The `Host` header, when present.
    pub host: Option<String>,
    /// The `Authorization` header, when present.
    pub authorization: Option<String>,
    /// Remaining headers, lowercase names.
    pub headers: Vec<(String, String)>,
    /// The authority of the request URI, once rewritten to an absolute form.
    pub uri_authority: Option<String>,
}

/// The spec-level value of a request: every field by its view.
#[verifier::ext_equal]
pub struct ReqView {
    pub method: Method,
    pub path_and_query: Seq<char>,
    pub host: Option<Seq<char>>,
    pub authorization: Option<Seq<char>>,
    pub headers: Seq<(Seq<char>, Seq<char>)>,
    pub uri_authority: Option<Seq<char>>,
}

impl View for HttpRequest {
    type V = ReqView;

    open spec fn view(&self) -> ReqView {
        ReqView {
            method: self.method,
            path_and_query: self.path_and_query@,
            host: match self.host {
                None => None,
                Some(h) => Some(h@),
            },
            authorization: match self.authorization {
                None => None,
                Some(a) => Some(a@),
            },
            headers: self.headers@.map_values(|p: (String, String)| (p.0@, p.1@)),
            uri_authority: match self.uri_authority {
                None => None,
                Some(u) => Some(u@),
            },
        }
    }
}

/// The bucket taken from a router path parameter: everything before the
/// first `/`.
pub open spec fn path_bucket(path: Seq<char>) -> Seq<char> {
    path.take(first_index_of(path, '/'))
}

/// The path-and-query after the leading `/<bucket>` is stripped; an empty
/// remainder becomes `/`.
pub open spec fn adapted_pq(pq: Seq<char>, bucket: Seq<char>) -> Seq<char> {
    let rest = pq.skip(1 + bucket.len() as int);
    if rest.len() == 0 {
        seq!['/']
    } else {
        rest
    }
}

/// The virtual-hosted-style host: `<bucket>.<host>`.
pub open spec fn adapted_host(bucket: Seq<char>, host: Seq<char>) -> Seq<char> {
    bucket + seq!['.'] + host
}

/// The value of the first header named `name`, if any.
pub open spec fn spec_header_value(headers: Seq<(String, String)>, name: Seq<char>) -> Option<
    Seq<char>,
>
    decreases headers.len(),
{
    if headers.len() == 0 {
        None
    } else if headers[0].0@ == name {
        Some(headers[0].1@)
    } else {
        spec_header_value(headers.skip(1), name)
    }
}

impl HttpRequest {
    /// Whether the `Host` header is present and views as `h`.
    pub open spec fn host_is(&self, h: Seq<char>) -> bool {
        &&& self.host is Some
        &&& self.host->0@ == h
    }

    /// Whether everything except the `Host` header and the path-and-query
    /// agrees with `other`.
    pub open spec fn eq_except_host_pq(&self, other: &HttpRequest) -> bool {
        &&& self.method == other.method
        &&& self.authorization == other.authorization
        &&& self.headers == other.headers
        &&& self.uri_authority == other.uri_authority
    }

    /// The `Host` header; its absence is a protocol violation.
    pub fn get_host(&self) -> (r: Result<&String, ProxyError>)
        ensures
            match r {
                Ok(h) => self.host == Some(*h),
                Err(e) => self.host is None && e is MalformedProtocol,
            },
    {
        match &self.host {
            Some(h) => Ok(h),
            None => Err(
                ProxyError::MalformedProtocol(String::from_str("host should not be empty")),
            ),
        }
    }

    /// Replaces the `Host` header, after checking that the new value is a
    /// legal header value.
    pub fn set_host(&mut self, host: &str) -> (r: Result<(), ProxyError>)
        ensures
            match r {
                Ok(()) => {
                    &&& header_value_accepted(host@)
                    &&& final(self).host_is(host@)
                    &&& final(self).path_and_query == old(self).path_and_query
                    &&& final(self).eq_except_host_pq(old(self))
                },
                Err(e) => {
                    &&& !header_value_accepted(host@)
                    &&& e is MalformedProtocol
                    &&& *final(self) == *old(self)
                },
            },
    {
        if header_value_ok(host) {
            self.host = Some(String::from_str(host));
            Ok(())
        } else {
            Err(
                ProxyError::MalformedProtocol(
                    concat2("host should be valid, but got ", host),
                ),
            )
        }
    }

    /// The value of the first header named `name`, if any.
    pub fn get_header(&self, name: &str) -> (r: Option<&String>)
        ensures
            match r {
                Some(v) => spec_header_value(self.headers@, name@) == Some(v@),
                None => spec_header_value(self.headers@, name@) is None,
            },
    {
        let n = self.headers.len();
        let mut i: usize = 0;
        proof {
            assert(self.headers@.skip(0) =~= self.headers@);
        }
        while i < n
            invariant
                n == self.headers@.len(),
                i <= n,
                spec_header_value(self.headers@, name@) == spec_header_value(
                    self.headers@.skip(i as int),
                    name@,
                ),
            decreases n - i,
        {
            proof {
                assert(self.headers@.skip(i as int)[0] == self.headers@[i as int]);
                assert(self.headers@.skip(i as int).skip(1) =~= self.headers@.skip(i + 1));
            }
            if crate::strutil::str_eq(self.headers[i].0.as_str(), name) {
                return Some(&self.headers[i].1);
            }
            i = i + 1;
        }
        None
    }

    /// Drops the inbound `Authorization` header before re-signing.
    pub fn remove_authorization(&mut self)
        ensures
            final(self).authorization is None,
            final(self).host == old(self).host,
            final(self).path_and_query == old(self).path_and_query,
            final(self).method == old(self).method,
            final(self).headers == old(self).headers,
            final(self).uri_authority == old(self).uri_authority,
    {
        self.authorization = None;
    }

    /// Converts a path-style request into virtual-hosted style. When the
    /// `Host` header is one of the proxy's own hostnames, the first segment
    /// of the router path parameter is the bucket: it is stripped from the
    /// path and prepended to the host. Requests already in virtual-hosted
    /// style (host not a proxy hostname) pass through unchanged.
    pub fn adapt_path_style(&mut self, path: &str, proxy_hosts: &Vec<String>) -> (r: Result<
        (),
        ProxyError,
    >)
        ensures
            match r {
                Ok(()) => old(self).host is Some && {
                    let host0 = old(self).host->0@;
                    if contains_str(proxy_hosts@, host0) {
                        let bucket = path_bucket(path@);
                        let newpq = adapted_pq(old(self).path_and_query@, bucket);
                        &&& (seq!['/'] + bucket).is_prefix_of(old(self).path_and_query@)
                        &&& path_and_query_accepted(newpq)
                        &&& header_value_accepted(adapted_host(bucket, host0))
                        &&& final(self).path_and_query@ == newpq
                        &&& final(self).host_is(adapted_host(bucket, host0))
                        &&& final(self).eq_except_host_pq(old(self))
                    } else {
                        *final(self) == *old(self)
                    }
                },
                Err(e) => {
                    &&& *final(self) == *old(self)
                    &&& e is MalformedProtocol
                    &&& (old(self).host is None || {
                        let host0 = old(self).host->0@;
                        let bucket = path_bucket(path@);
                        &&& contains_str(proxy_hosts@, host0)
                        &&& (!(seq!['/'] + bucket).is_prefix_of(old(self).path_and_query@)
                            || !path_and_query_accepted(
                            adapted_pq(old(self).path_and_query@, bucket),
                        ) || !header_value_accepted(adapted_host(bucket, host0)))
                    })
                },
            },
    {
        let host = match &self.host {
            Some(h) => h.clone(),
            None => {
                return Err(
                    ProxyError::MalformedProtocol(String::from_str("host should not be empty")),
                );
            },
        };
        if !vec_contains_str(proxy_hosts, host.as_str()) {
            return Ok(());
        }
        // The bucket is the part of the path parameter before the first '/'.
        let bucket_end = match find_char(path, '/') {
            Some(i) => i,
            None => path.unicode_len(),
        };
        proof {
            lemma_first_index_of_unique(path@, '/', bucket_end as int);
        }
        let bucket = path.substring_char(0, bucket_end);
        let slash_bucket = concat2("/", bucket);
        proof {
            reveal_strlit("/");
            assert("/"@ =~= seq!['/']);
        }
        let rest = match strip_prefix_str(self.path_and_query.as_str(), slash_bucket.as_str()) {
            Some(t) => t,
            None => {
                return Err(
                    ProxyError::MalformedProtocol(
                        concat2("path_and_query should start with ", slash_bucket.as_str()),
                    ),
                );
            },
        };
        let new_pq = if rest.is_empty() {
            String::from_str("/")
        } else {
            String::from_str(rest)
        };
        proof {
            assert(rest@ =~= old(self).path_and_query@.skip(1 + bucket@.len() as int));
        }
        if !path_and_query_ok(new_pq.as_str()) {
            return Err(
                ProxyError::MalformedProtocol(
                    concat2("path_and_query should be valid, but got ", new_pq.as_str()),
                ),
            );
        }
        let new_host = concat3(bucket, ".", host.as_str());
        proof {
            reveal_strlit(".");
            assert("."@ =~= seq!['.']);
        }
        if !header_value_ok(new_host.as_str()) {
            return Err(
                ProxyError::MalformedProtocol(
                    concat2("host should be valid, but got ", new_host.as_str()),
                ),
            );
        }
        self.path_and_query = new_pq;
        self.host = Some(new_host);
        Ok(())
    }
}

impl HttpRequest {
    /// Rewrites the request towards the real upstream: the proxy hostname
    /// suffix of the `Host` header gives the bucket label, the region gives
    /// the real endpoint host, and the URI gains that host as authority.
    /// The path and query are untouched.
    pub fn set_actual_host(&mut self, config: &crate::config::S3Config, region: &str) -> (r:
        Result<(), ProxyError>)
        ensures
            match r {
                Ok(()) => old(self).host is Some && {
                    let host0 = old(self).host->0@;
                    let domains = config.proxy_hosts.domains@;
                    &&& crate::host::first_match(domains, host0) is Some
                    &&& crate::region::region_host(region@) is Some
                    &&& {
                        let d = crate::host::matched_host(domains, host0);
                        let actual = crate::region::region_host(region@)->0;
                        let new_host = host0.take(host0.len() - d.len()) + actual;
                        &&& header_value_accepted(new_host)
                        &&& crate::httpx::uri_accepted(
                            "http://"@ + actual + old(self).path_and_query@,
                        )
                        &&& final(self).host_is(new_host)
                        &&& final(self).uri_authority is Some
                        &&& final(self).uri_authority->0@ == actual
                        &&& final(self).path_and_query == old(self).path_and_query
                        &&& final(self).method == old(self).method
                        &&& final(self).authorization == old(self).authorization
                        &&& final(self).headers == old(self).headers
                    }
                },
                Err(e) => *final(self) == *old(self) && {
                    ||| (old(self).host is None && e is MalformedProtocol)
                    ||| (old(self).host is Some && {
                        let host0 = old(self).host->0@;
                        let domains = config.proxy_hosts.domains@;
                        ||| (crate::host::first_match(domains, host0) is None && e is ParserError)
                        ||| (crate::host::first_match(domains, host0) is Some && {
                            let d = crate::host::matched_host(domains, host0);
                            ||| (crate::region::region_host(region@) is None
                                && e is InvalidEndpoint)
                            ||| (crate::region::region_host(region@) is Some && {
                                let actual = crate::region::region_host(region@)->0;
                                let new_host = host0.take(host0.len() - d.len()) + actual;
                                ||| (!header_value_accepted(new_host) && e is MalformedProtocol)
                                ||| (header_value_accepted(new_host) && !crate::httpx::uri_accepted(
                                    "http://"@ + actual + old(self).path_and_query@,
                                ) && e is MalformedProtocol)
                            })
                        })
                    })
                },
            },
    {
        let host = match &self.host {
            Some(h) => h.clone(),
            None => {
                return Err(
                    ProxyError::MalformedProtocol(String::from_str("host should not be empty")),
                );
            },
        };
        let proxy_host = match config.proxy_hosts.find_proxy_host(host.as_str()) {
            Ok(d) => d,
            Err(e) => {
                return Err(crate::error::from_parser_into_proxy_error(e));
            },
        };
        proof {
            crate::host::lemma_first_match_bounds(config.proxy_hosts.domains@, host@);
        }
        let host_len = host.as_str().unicode_len();
        let d_len = proxy_host.as_str().unicode_len();
        let bucket_dot = host.as_str().substring_char(0, host_len - d_len);
        let actual_host = crate::region::from_region_to_host(region)?;
        let new_host = concat2(bucket_dot, actual_host.as_str());
        if !header_value_ok(new_host.as_str()) {
            return Err(
                ProxyError::MalformedProtocol(
                    concat2("host should be valid, but got ", new_host.as_str()),
                ),
            );
        }
        let uri = crate::strutil::concat3(
            "http://",
            actual_host.as_str(),
            self.path_and_query.as_str(),
        );
        if !crate::httpx::uri_ok(uri.as_str()) {
            return Err(ProxyError::MalformedProtocol(concat2("uri not valid: ", uri.as_str())));
        }
        self.host = Some(new_host);
        self.uri_authority = Some(actual_host);
        Ok(())
    }
}

/// Law: `adapt_path_style` is idempotent. Under a well-formed proxy-host
/// set, the host written by a successful path-style conversion is itself
/// no proxy host, so a second conversion takes the pass-through branch and
/// leaves the request unchanged.
pub proof fn lemma_adapt_path_style_idempotent(
    hosts: &crate::host::HostDomains,
    host0: Seq<char>,
    bucket: Seq<char>,
)
    requires
        hosts.wf(),
        contains_str(hosts.domains@, host0),
    ensures
        !contains_str(hosts.domains@, adapted_host(bucket, host0)),
{
    let grown = adapted_host(bucket, host0);
    if contains_str(hosts.domains@, grown) {
        let i = choose|i: int| 0 <= i < hosts.domains@.len() && hosts.domains@[i]@ == host0;
        let j = choose|j: int| 0 <= j < hosts.domains@.len() && hosts.domains@[j]@ == grown;
        assert(host0 =~= grown.subrange(grown.len() - host0.len(), grown.len() as int));
        assert(host0.is_suffix_of(grown));
        assert(i != j);
    }
}

/// The parts of an HTTP response that the pipeline augments before it is
/// returned to the client.
#[derive(Debug)]
pub struct HttpResponse {
    pub status: u16,
    pub headers: Vec<(String, String)>,
}

impl HttpResponse {
    /// Appends the tracing header `x-piam-id` carrying `id`. Callers pass a
    /// freshly generated random identifier.
    pub fn add_piam_headers_with_id(&mut self, id: String)
        ensures
            final(self).status == old(self).status,
            final(self).headers@.len() == old(self).headers@.len() + 1,
            final(self).headers@.subrange(0, old(self).headers@.len() as int) == old(
                self,
            ).headers@,
            final(self).headers@.last().0@ == "x-piam-id"@,
            final(self).headers@.last().1 == id,
    {
        let name = String::from_str("x-piam-id");
        self.headers.push((name, id));
        proof {
            assert(self.headers@.subrange(0, old(self).headers@.len() as int) =~= old(
                self,
            ).headers@);
        }
    }
}

} // verus!
