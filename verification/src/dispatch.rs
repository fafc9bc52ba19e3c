//! Seed routing.
//!
//! Before the crawl starts, each seed URL is held against the cache: a
//! cached body becomes a root page to parse, a cached terminal error
//! counts as an already-completed page, and an unknown URL goes to the
//! Request Runner. The event loop that drains the task set lives with
//! the caller; the decisions it routes by are made here and by the two
//! runners' `redeem`.

use vstd::prelude::*;

use crate::cache::Cache;
use crate::client::{Body, Response};
use crate::node::PageNode;
use crate::page::Page;

verus! {

/// Where a seed URL goes.
pub enum SeedRoute {
    /// The cache holds a body: parse this root page, no request needed.
    StartPage(PageNode),
    /// The cache holds a terminal error: the page is already complete.
    AlreadyFailed,
    /// No cached outcome: a network request is needed.
    NeedsRequest,
}

/// Route one seed URL by its cached outcome.
pub fn route_seed(cache: &Cache, url: &str) -> (r: SeedRoute)
    ensures
        (match cache.spec_get(url@) {
            Some(Result::<Body, String>::Ok(b)) => r matches SeedRoute::StartPage(n)
                && n.spec_depth() == 0 && n.page.url@ == url@ && n.page.body == b,
            Some(Result::<Body, String>::Err(_)) => r is AlreadyFailed,
            None => r is NeedsRequest,
        }),
{
    match cache.get(url) {
        Some(outcome) => match outcome {
            Ok(body) => SeedRoute::StartPage(PageNode::new(None, Page::new(url.to_owned(), body))),
            Err(_) => SeedRoute::AlreadyFailed,
        },
        None => SeedRoute::NeedsRequest,
    }
}

/// The page for a completed fetch: a node for a body, the message for a
/// terminal error.
pub fn page_from_outcome(parent: Option<&PageNode>, url: String, outcome: Response) -> (r: Result<
    PageNode,
    String,
>)
    ensures
        (match outcome {
            Ok(b) => r matches Ok(n) && n.page.url == url && n.page.body == b && (match parent {
                Some(p) => n.ancestors@.map_values(|s: String| s@) == p.spec_path_urls()
                    && n.spec_depth() == p.spec_depth() + 1,
                None => n.spec_depth() == 0,
            }),
            Err(e) => r == Result::<PageNode, String>::Err(e),
        }),
{
    match outcome {
        Ok(body) => Ok(PageNode::new(parent, Page::new(url, body))),
        Err(e) => Err(e),
    }
}

/// Record a freshly fetched outcome — success or terminal error — so
/// that every later discovery of the URL is a cache hit, and build its
/// page as for any outcome.
pub fn record_and_build(
    cache: &mut Cache,
    parent: Option<&PageNode>,
    url: String,
    outcome: Response,
) -> (r: Result<PageNode, String>)
    ensures
        final(cache).spec_get(url@) == Some(outcome),
        forall|k: Seq<char>| k != url@ ==> final(cache).spec_get(k) == old(cache).spec_get(k),
        (match outcome {
            Ok(b) => r matches Ok(n) && n.page.url == url && n.page.body == b && (match parent {
                Some(p) => n.ancestors@.map_values(|s: String| s@) == p.spec_path_urls()
                    && n.spec_depth() == p.spec_depth() + 1,
                None => n.spec_depth() == 0,
            }),
            Err(e) => r == Result::<PageNode, String>::Err(e),
        }),
{
    cache.set(url.as_str(), &outcome);
    page_from_outcome(parent, url, outcome)
}

} // verus!
