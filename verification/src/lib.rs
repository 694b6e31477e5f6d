//! A small abstraction layer that lets one set of request handlers run
//! unmodified behind two HTTP hosting environments: a serverless
//! function-invocation runtime and a self-hosted long-running server.
//!
//! The crate holds the backend-agnostic core: a normalized request
//! representation, a polymorphic response with a three-variant body,
//! a per-method route table keyed by exact path, and the dispatch and
//! render steps that both backends share. The transport shims that feed
//! requests in and carry replies out live outside this crate.
#![allow(unused_imports)]

pub mod assoc;
pub mod headers;
pub mod json;
pub mod json_parse;
pub mod json_text;
pub mod request;
pub mod response;
pub mod routes;
pub mod server;

use vstd::prelude::*;
