//! Error taxonomy of the proxy pipeline.

use vstd::prelude::*;

verus! {

/// An error surfaced by the request pipeline. Parser, normaliser and
/// identity errors become 4xx responses; upstream transport failures
/// become `UpstreamUnavailable`; invariant violations become
/// `AssertFail` or `OtherInternal`.
#[derive(Debug)]
pub enum ProxyError {
    /// Bad URL, missing or invalid `Host`, unparseable path.
    MalformedProtocol(String),
    /// Unrecognised S3 action shape.
    ParserError(String),
    /// Region with no known real host.
    InvalidEndpoint(String),
    /// Unknown bucket (uni-key) or account code.
    ResourceNotFound(String),
    /// Operation refused by the active mode, e.g. `ListBuckets` under uni-key.
    OperationNotSupported(String),
    /// Unknown user or access key, or no matching policy.
    AccessDenied(String),
    /// Transport failure towards the real cloud.
    UpstreamUnavailable(String),
    /// Invariant violation.
    AssertFail(String),
    /// Unexpected internal state.
    OtherInternal(String),
}

impl ProxyError {
    /// The diagnostic text carried by the error.
    pub fn message(&self) -> (r: &String)
        ensures
            r == self.spec_message(),
    {
        match self {
            ProxyError::MalformedProtocol(m) => m,
            ProxyError::ParserError(m) => m,
            ProxyError::InvalidEndpoint(m) => m,
            ProxyError::ResourceNotFound(m) => m,
            ProxyError::OperationNotSupported(m) => m,
            ProxyError::AccessDenied(m) => m,
            ProxyError::UpstreamUnavailable(m) => m,
            ProxyError::AssertFail(m) => m,
            ProxyError::OtherInternal(m) => m,
        }
    }

    /// The message, as a spec-level value.
    pub open spec fn spec_message(&self) -> &String {
        match self {
            ProxyError::MalformedProtocol(m) => m,
            ProxyError::ParserError(m) => m,
            ProxyError::InvalidEndpoint(m) => m,
            ProxyError::ResourceNotFound(m) => m,
            ProxyError::OperationNotSupported(m) => m,
            ProxyError::AccessDenied(m) => m,
            ProxyError::UpstreamUnavailable(m) => m,
            ProxyError::AssertFail(m) => m,
            ProxyError::OtherInternal(m) => m,
        }
    }
}

/// Outcome of a pipeline step.
pub type ProxyResult<T> = Result<T, ProxyError>;

/// An error raised while classifying an S3 request.
#[derive(Debug)]
pub enum ParserError {
    /// The request does not parse as any known S3 operation.
    MalformedProtocol(String),
    /// The operation is recognised but not accepted.
    OperationNotSupported(String),
}

impl ParserError {
    /// The diagnostic text carried by the error.
    pub fn message(&self) -> (r: &String)
        ensures
            r == self.spec_message(),
    {
        match self {
            ParserError::MalformedProtocol(m) => m,
            ParserError::OperationNotSupported(m) => m,
        }
    }

    /// The message, as a spec-level value.
    pub open spec fn spec_message(&self) -> &String {
        match self {
            ParserError::MalformedProtocol(m) => m,
            ParserError::OperationNotSupported(m) => m,
        }
    }
}

/// Lifts a parser error into the pipeline's error type.
pub fn from_parser_into_proxy_error(e: ParserError) -> (r: ProxyError)
    ensures
        r is ParserError,
        r.spec_message()@ == e.spec_message()@,
{
    match e {
        ParserError::MalformedProtocol(m) => ProxyError::ParserError(m),
        ParserError::OperationNotSupported(m) => ProxyError::ParserError(m),
    }
}

} // verus!
