//! A concurrent, breadth-bounded web crawler core: per-host request
//! serialization with a minimum inter-request delay, bounded-parallelism
//! page scheduling with a depth-first-resistant priority queue, and a
//! content-addressed cache that memoizes failed fetches.
//!
//! This crate holds the verified scheduling logic. The surrounding
//! process (argument handling, HTTP transport, the async event loop,
//! progress rendering) drives it from outside.

use vstd::prelude::*;

pub mod cache;
pub mod client;
pub mod dispatch;
pub mod dom;
pub mod node;
pub mod page;
pub mod pattern;
pub mod request;
pub mod urls;

verus! {

/// The hard ceiling on a response body, in bytes. A response whose
/// declared content length reaches this limit is turned into a terminal
/// error instead of being downloaded.
pub const BODY_SIZE_LIMIT: u64 = 104857600;

/// A completed task from the shared task set: either a page task's
/// ticket or a request task's ticket, routed to its runner's `redeem`.
pub enum TaskResult {
    Page(crate::page::RunTicket),
    Request(crate::request::RunTicket),
}

} // verus!
