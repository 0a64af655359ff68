//! The protocol parser: from an HTTP request to an `ObjectStorageInput`,
//! the bucket, key and action kind that the policy engine and the
//! identity resolver work with.

use vstd::prelude::*;

use crate::error::ParserError;
use crate::host::{first_match, matched_host, HostDomains};
use crate::request::{spec_header_value, HttpRequest, Method};
use crate::strutil::{
    concat2, find_char, first_index_of, lemma_first_index_of_unique, str_eq, str_starts_with,
};

verus! {

/// The S3 operation a request asks for.
#[derive(Clone, Copy, PartialEq, Eq, Structural, Debug)]
pub enum ActionKind {
    ListBuckets,
    ListObjects,
    HeadBucket,
    GetObject,
    PutObject,
    CopyObject,
    HeadObject,
    DeleteObject,
    CreateMultipartUpload,
    ListMultipartUploads,
    UploadPart,
    ListParts,
    CompleteMultipartUpload,
    AbortMultipartUpload,
}

/// What the parser extracted from a request: the bucket (absent only for
/// `ListBuckets`), the object key, and the action kind.
#[derive(Debug)]
pub struct ObjectStorageInput {
    pub bucket: Option<String>,
    pub key: Option<String>,
    pub kind: ActionKind,
}

/// The view of an optional string.
pub open spec fn opt_str_view(o: Option<String>) -> Option<Seq<char>> {
    match o {
        None => None,
        Some(s) => Some(s@),
    }
}

impl ObjectStorageInput {
    /// A bucket is required for every action except `ListBuckets`.
    pub open spec fn wf(&self) -> bool {
        !(self.kind is ListBuckets) ==> self.bucket is Some
    }

    /// The action kind of the input.
    pub fn action_kind(&self) -> (r: ActionKind)
        ensures
            r == self.kind,
    {
        self.kind
    }

    /// The bucket of the input; every action except `ListBuckets` has one.
    pub fn bucket(&self) -> (r: &String)
        requires
            self.bucket is Some,
        ensures
            *r == self.bucket->0,
    {
        match &self.bucket {
            Some(b) => b,
            None => unreached(),
        }
    }
}

/// The bucket label of a virtual-hosted-style host, relative to the proxy
/// hostname `d` it ends with: the host `d` itself carries no bucket, a
/// host `<bucket>.<d>` carries one, and anything else is malformed.
pub open spec fn spec_host_bucket(host: Seq<char>, d: Seq<char>) -> Result<Option<Seq<char>>, ()> {
    if host.len() == d.len() {
        Ok(None)
    } else if host[host.len() - d.len() - 1] == '.' {
        Ok(Some(host.take(host.len() - d.len() - 1)))
    } else {
        Err(())
    }
}

/// The path part of a path-and-query: everything before the first `?`.
pub open spec fn path_of(pq: Seq<char>) -> Seq<char> {
    pq.take(first_index_of(pq, '?'))
}

/// The query part of a path-and-query: everything after the first `?`, or
/// empty when there is none.
pub open spec fn query_of(pq: Seq<char>) -> Seq<char> {
    if first_index_of(pq, '?') == pq.len() {
        Seq::empty()
    } else {
        pq.skip(first_index_of(pq, '?') + 1)
    }
}

/// Whether the query string carries a parameter named `name`, either bare
/// (`?uploads`) or with a value (`?uploadId=7`).
pub open spec fn query_has_param(query: Seq<char>, name: Seq<char>) -> bool
    decreases query.len(),
    via query_has_param_decreases
{
    let i = first_index_of(query, '&');
    let seg = query.take(i);
    if seg == name || (name + seq!['=']).is_prefix_of(seg) {
        true
    } else if i == query.len() {
        false
    } else {
        query_has_param(query.skip(i + 1), name)
    }
}

#[via_fn]
proof fn query_has_param_decreases(query: Seq<char>, name: Seq<char>) {
    crate::strutil::lemma_first_index_of_bounds(query, '&');
}

/// The action asked for, classified by method, presence of bucket and
/// key, the multipart query parameters, and the copy-source header.
pub open spec fn spec_classify(
    method: Method,
    has_bucket: bool,
    has_key: bool,
    uploads: bool,
    upload_id: bool,
    copy_src: bool,
) -> Option<ActionKind> {
    if !has_bucket {
        if method is Get && !has_key {
            Some(ActionKind::ListBuckets)
        } else {
            None
        }
    } else if uploads {
        if method is Post && has_key {
            Some(ActionKind::CreateMultipartUpload)
        } else if method is Get && !has_key {
            Some(ActionKind::ListMultipartUploads)
        } else {
            None
        }
    } else if upload_id {
        if !has_key {
            None
        } else {
            match method {
                Method::Put => Some(ActionKind::UploadPart),
                Method::Get => Some(ActionKind::ListParts),
                Method::Post => Some(ActionKind::CompleteMultipartUpload),
                Method::Delete => Some(ActionKind::AbortMultipartUpload),
                _ => None,
            }
        }
    } else {
        match method {
            Method::Get => if has_key {
                Some(ActionKind::GetObject)
            } else {
                Some(ActionKind::ListObjects)
            },
            Method::Head => if has_key {
                Some(ActionKind::HeadObject)
            } else {
                Some(ActionKind::HeadBucket)
            },
            Method::Put => if has_key {
                if copy_src {
                    Some(ActionKind::CopyObject)
                } else {
                    Some(ActionKind::PutObject)
                }
            } else {
                None
            },
            Method::Delete => if has_key {
                Some(ActionKind::DeleteObject)
            } else {
                None
            },
            _ => None,
        }
    }
}

/// What `parse` yields for a request: the bucket from the host, the key
/// from the path, the kind from the classification — or a parse failure.
pub open spec fn spec_parse(
    method: Method,
    host: Seq<char>,
    pq: Seq<char>,
    copy_src: bool,
    domains: Seq<String>,
) -> Result<(Option<Seq<char>>, Option<Seq<char>>, ActionKind), ()> {
    if first_match(domains, host) is None {
        Err(())
    } else {
        let d = matched_host(domains, host);
        match spec_host_bucket(host, d) {
            Err(()) => Err(()),
            Ok(bucket) => {
                let path = path_of(pq);
                if path.len() == 0 || path[0] != '/' {
                    Err(())
                } else {
                    let key = if path.len() > 1 {
                        Some(path.skip(1))
                    } else {
                        None
                    };
                    let q = query_of(pq);
                    match spec_classify(
                        method,
                        bucket is Some,
                        key is Some,
                        query_has_param(q, "uploads"@),
                        query_has_param(q, "uploadId"@),
                        copy_src,
                    ) {
                        None => Err(()),
                        Some(kind) => Ok((bucket, key, kind)),
                    }
                }
            },
        }
    }
}

/// Whether the request reached classification and no action fits it.
pub open spec fn spec_action_unknown(
    method: Method,
    host: Seq<char>,
    pq: Seq<char>,
    copy_src: bool,
    domains: Seq<String>,
) -> bool {
    &&& first_match(domains, host) is Some
    &&& spec_host_bucket(host, matched_host(domains, host)) is Ok
    &&& path_of(pq).len() > 0
    &&& path_of(pq)[0] == '/'
    &&& {
        let bucket = spec_host_bucket(host, matched_host(domains, host))->Ok_0;
        let key_present = path_of(pq).len() > 1;
        spec_classify(
            method,
            bucket is Some,
            key_present,
            query_has_param(query_of(pq), "uploads"@),
            query_has_param(query_of(pq), "uploadId"@),
            copy_src,
        ) is None
    }
}

/// In a successful parse, the action is `ListBuckets` exactly when there
/// is no bucket: the classification yields `ListBuckets` only without one.
pub proof fn lemma_parse_kind_bucket(
    method: Method,
    host: Seq<char>,
    pq: Seq<char>,
    copy_src: bool,
    domains: Seq<String>,
)
    requires
        spec_parse(method, host, pq, copy_src, domains) is Ok,
    ensures
        ({
            let t = spec_parse(method, host, pq, copy_src, domains)->Ok_0;
            t.2 is ListBuckets <==> t.0 is None
        }),
{
}

/// Law (round trip): rewriting towards the real endpoint preserves what
/// the S3 upstream observes. The bucket the parser read off the host is
/// exactly the label the upstream reads before the real endpoint host; the
/// key is untouched because the rewrite keeps the path and query.
pub proof fn lemma_parse_rewrite_round_trip(
    host: Seq<char>,
    domains: Seq<String>,
    region: Seq<char>,
    b: Seq<char>,
)
    requires
        first_match(domains, host) is Some,
        spec_host_bucket(host, matched_host(domains, host)) == Ok::<Option<Seq<char>>, ()>(
            Some(b),
        ),
        crate::region::region_host(region) is Some,
    ensures
        ({
            let d = matched_host(domains, host);
            let actual = crate::region::region_host(region)->0;
            let new_host = host.take(host.len() - d.len()) + actual;
            spec_host_bucket(new_host, actual) == Ok::<Option<Seq<char>>, ()>(Some(b))
        }),
{
    crate::host::lemma_first_match_bounds(domains, host);
    let d = matched_host(domains, host);
    let actual = crate::region::region_host(region)->0;
    let bucket_dot = host.take(host.len() - d.len());
    let new_host = bucket_dot + actual;
    assert(new_host[new_host.len() - actual.len() - 1] == host[host.len() - d.len() - 1]);
    assert(new_host.take(new_host.len() - actual.len() - 1) =~= b);
}

/// Whether the request carries the `x-amz-copy-source` header.
pub open spec fn spec_has_copy_source(req: &HttpRequest) -> bool {
    spec_header_value(req.headers@, "x-amz-copy-source"@) is Some
}

/// Whether the query string carries a parameter named `name`.
pub fn query_has_param_exec(query: &str, name: &str) -> (r: bool)
    ensures
        r == query_has_param(query@, name@),
{
    let name_eq = concat2(name, "=");
    proof {
        reveal_strlit("=");
        assert("="@ =~= seq!['=']);
    }
    let mut cur: &str = query;
    loop
        invariant
            name_eq@ == name@ + seq!['='],
            query_has_param(query@, name@) == query_has_param(cur@, name@),
        decreases cur@.len(),
    {
        let cur_len = cur.unicode_len();
        let segend = match find_char(cur, '&') {
            Some(i) => i,
            None => cur_len,
        };
        proof {
            lemma_first_index_of_unique(cur@, '&', segend as int);
        }
        let seg = cur.substring_char(0, segend);
        if str_eq(seg, name) || str_starts_with(seg, name_eq.as_str()) {
            return true;
        }
        if segend == cur_len {
            return false;
        }
        let next = cur.substring_char(segend + 1, cur_len);
        proof {
            assert(next@ =~= cur@.skip(segend + 1));
        }
        cur = next;
    }
}

/// Classifies the action; mirrors `spec_classify`.
fn classify(
    method: Method,
    has_bucket: bool,
    has_key: bool,
    uploads: bool,
    upload_id: bool,
    copy_src: bool,
) -> (r: Option<ActionKind>)
    ensures
        r == spec_classify(method, has_bucket, has_key, uploads, upload_id, copy_src),
{
    if !has_bucket {
        if matches!(method, Method::Get) && !has_key {
            Some(ActionKind::ListBuckets)
        } else {
            None
        }
    } else if uploads {
        if matches!(method, Method::Post) && has_key {
            Some(ActionKind::CreateMultipartUpload)
        } else if matches!(method, Method::Get) && !has_key {
            Some(ActionKind::ListMultipartUploads)
        } else {
            None
        }
    } else if upload_id {
        if !has_key {
            None
        } else {
            match method {
                Method::Put => Some(ActionKind::UploadPart),
                Method::Get => Some(ActionKind::ListParts),
                Method::Post => Some(ActionKind::CompleteMultipartUpload),
                Method::Delete => Some(ActionKind::AbortMultipartUpload),
                _ => None,
            }
        }
    } else {
        match method {
            Method::Get => if has_key {
                Some(ActionKind::GetObject)
            } else {
                Some(ActionKind::ListObjects)
            },
            Method::Head => if has_key {
                Some(ActionKind::HeadObject)
            } else {
                Some(ActionKind::HeadBucket)
            },
            Method::Put => if has_key {
                if copy_src {
                    Some(ActionKind::CopyObject)
                } else {
                    Some(ActionKind::PutObject)
                }
            } else {
                None
            },
            Method::Delete => if has_key {
                Some(ActionKind::DeleteObject)
            } else {
                None
            },
            _ => None,
        }
    }
}

impl ObjectStorageInput {
    /// Parses a virtual-hosted-style request: the bucket is the host label
    /// before the proxy hostname, the key is the path after `/`, and the
    /// action kind follows from method and query parameters.
    pub fn parse(req: &HttpRequest, proxy_hosts: &HostDomains) -> (r: Result<
        ObjectStorageInput,
        ParserError,
    >)
        ensures
            match r {
                Ok(input) => req.host is Some && spec_parse(
                    req.method,
                    req.host->0@,
                    req.path_and_query@,
                    spec_has_copy_source(req),
                    proxy_hosts.domains@,
                ) == Ok::<_, ()>(
                    (opt_str_view(input.bucket), opt_str_view(input.key), input.kind),
                ) && input.wf(),
                Err(e) => {
                    &&& (req.host is None || spec_parse(
                        req.method,
                        req.host->0@,
                        req.path_and_query@,
                        spec_has_copy_source(req),
                        proxy_hosts.domains@,
                    ) is Err)
                    &&& (e is OperationNotSupported <==> (req.host is Some
                        && spec_action_unknown(
                        req.method,
                        req.host->0@,
                        req.path_and_query@,
                        spec_has_copy_source(req),
                        proxy_hosts.domains@,
                    )))
                },
            },
    {
        let host = match &req.host {
            Some(h) => h,
            None => {
                return Err(
                    ParserError::MalformedProtocol(String::from_str("host should not be empty")),
                );
            },
        };
        let d = proxy_hosts.find_proxy_host(host.as_str())?;
        proof {
            crate::host::lemma_first_match_bounds(proxy_hosts.domains@, host@);
        }
        let host_len = host.as_str().unicode_len();
        let d_len = d.as_str().unicode_len();
        let bucket: Option<String> = if host_len == d_len {
            None
        } else if host.as_str().get_char(host_len - d_len - 1) == '.' {
            Some(String::from_str(host.as_str().substring_char(0, host_len - d_len - 1)))
        } else {
            return Err(
                ParserError::MalformedProtocol(
                    concat2("host is not virtual-hosted for proxy host: ", host.as_str()),
                ),
            );
        };
        let pq = req.path_and_query.as_str();
        let pq_len = pq.unicode_len();
        let qpos = match find_char(pq, '?') {
            Some(i) => i,
            None => pq_len,
        };
        proof {
            lemma_first_index_of_unique(pq@, '?', qpos as int);
        }
        let path = pq.substring_char(0, qpos);
        let query: &str = if qpos == pq_len {
            proof {
                reveal_strlit("");
                assert(""@ =~= Seq::<char>::empty());
            }
            ""
        } else {
            let q = pq.substring_char(qpos + 1, pq_len);
            proof {
                assert(q@ =~= pq@.skip(qpos + 1));
            }
            q
        };
        let path_len = path.unicode_len();
        if path_len == 0 || path.get_char(0) != '/' {
            return Err(
                ParserError::MalformedProtocol(concat2("path should start with /, but got ", path)),
            );
        }
        let key: Option<String> = if path_len > 1 {
            let k = path.substring_char(1, path_len);
            proof {
                assert(k@ =~= path@.skip(1));
            }
            Some(String::from_str(k))
        } else {
            None
        };
        let uploads = query_has_param_exec(query, "uploads");
        let upload_id = query_has_param_exec(query, "uploadId");
        let copy_src = req.get_header("x-amz-copy-source").is_some();
        match classify(req.method, bucket.is_some(), key.is_some(), uploads, upload_id, copy_src) {
            Some(kind) => Ok(ObjectStorageInput { bucket, key, kind }),
            None => Err(
                ParserError::OperationNotSupported(
                    String::from_str("no action of this shape is supported"),
                ),
            ),
        }
    }
}

} // verus!
