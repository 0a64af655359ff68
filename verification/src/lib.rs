//! Verified core of an S3-compatible reverse proxy: host/URL normalization,
//! protocol parsing, identity resolution, bucket indexing, request rewriting.

pub mod config;
pub mod effect;
pub mod error;
pub mod handler;
pub mod host;
pub mod httpx;
pub mod iam;
pub mod input;
pub mod region;
pub mod request;
pub mod sig;
pub mod strutil;
pub mod uni_key;
