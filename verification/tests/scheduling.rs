//! The schedulers: request pacing, the cache, the two runners, and seed
//! routing.

use webgrep::cache::Cache;
use webgrep::client::{within_body_limit, Body, SlowClient};
use webgrep::dispatch::{page_from_outcome, record_and_build, route_seed, SeedRoute};
use webgrep::node::PageNode;
use webgrep::page::Page;

#[test]
fn time_remaining_before_any_request_is_zero() {
    let c = SlowClient::new();
    assert_eq!(c.time_remaining(0), 0);
    assert_eq!(c.time_remaining(123456), 0);
}

#[test]
fn time_remaining_counts_down_from_a_finished_request() {
    let mut c = SlowClient::new();
    c.record_finished(1000);
    assert_eq!(c.time_remaining(1000), 1000);
    assert_eq!(c.time_remaining(1300), 700);
    assert_eq!(c.time_remaining(1999), 1);
    assert_eq!(c.time_remaining(2000), 0);
    assert_eq!(c.time_remaining(5000), 0);
}

#[test]
fn consecutive_request_starts_are_spaced_a_second_apart() {
    // three requests to one host: each start waits out time_remaining
    let mut c = SlowClient::new();
    let mut now: u64 = 40;
    let mut starts: Vec<u64> = Vec::new();
    for _ in 0..3 {
        let start = now + c.time_remaining(now);
        starts.push(start);
        // the request itself takes 10 ms
        now = start + 10;
        c.record_finished(now);
    }
    assert!(starts[1] >= starts[0] + 1000);
    assert!(starts[2] >= starts[1] + 1000);
}

#[test]
fn body_size_ceiling() {
    assert!(within_body_limit(None));
    assert!(within_body_limit(Some(0)));
    assert!(within_body_limit(Some(104857599)));
    assert!(!within_body_limit(Some(104857600)));
    assert!(!within_body_limit(Some(u64::MAX)));
}

#[test]
fn oversize_message_has_the_exact_shape() {
    assert_eq!(webgrep::client::too_long_message(0), "Response too long: 0");
    assert_eq!(webgrep::client::too_long_message(907), "Response too long: 907");
    assert_eq!(
        webgrep::client::too_long_message(104857600),
        "Response too long: 104857600"
    );
}

#[test]
fn cache_misses_then_hits() {
    let mut cache = Cache::new();
    assert!(cache.get("http://a/x").is_none());
    cache.set("http://a/x", &Ok(Body::Plain(String::from("hi"))));
    match cache.get("http://a/x") {
        Some(Ok(Body::Plain(s))) => assert_eq!(s, "hi"),
        _ => panic!("expected the cached plain body"),
    }
    assert!(cache.get("http://a/y").is_none());
}

#[test]
fn cache_keeps_terminal_errors_and_last_write_wins() {
    let mut cache = Cache::new();
    cache.set("http://a/bad", &Err(String::from("boom")));
    match cache.get("http://a/bad") {
        Some(Err(e)) => assert_eq!(e, "boom"),
        _ => panic!("expected the cached error"),
    }
    cache.set("http://a/bad", &Ok(Body::Html(String::from("<p>ok</p>"))));
    match cache.get("http://a/bad") {
        Some(Ok(Body::Html(s))) => assert_eq!(s, "<p>ok</p>"),
        _ => panic!("expected the overwriting body"),
    }
}

#[test]
fn route_seed_by_cached_outcome() {
    let mut cache = Cache::new();
    cache.set("http://a/ok", &Ok(Body::Plain(String::from("text"))));
    cache.set("http://a/bad", &Err(String::from("gone")));
    match route_seed(&cache, "http://a/ok") {
        SeedRoute::StartPage(n) => {
            assert_eq!(n.depth(), 0);
            assert_eq!(n.page.url, "http://a/ok");
        },
        _ => panic!("a cached body must start a page"),
    }
    assert!(matches!(
        route_seed(&cache, "http://a/bad"),
        SeedRoute::AlreadyFailed
    ));
    assert!(matches!(
        route_seed(&cache, "http://a/new"),
        SeedRoute::NeedsRequest
    ));
}

#[test]
fn outcomes_become_pages_or_errors() {
    let mut cache = Cache::new();
    let r = record_and_build(
        &mut cache,
        None,
        String::from("http://a/x"),
        Ok(Body::Plain(String::from("t"))),
    );
    let n = r.expect("a body builds a node");
    assert_eq!(n.page.url, "http://a/x");
    assert_eq!(n.depth(), 0);
    // the outcome was recorded: a later discovery is a cache hit
    assert!(cache.get("http://a/x").is_some());
    let e = page_from_outcome(None, String::from("http://a/y"), Err(String::from("down")));
    assert_eq!(e.err().as_deref(), Some("down"));
}

#[test]
fn request_runner_reports_in_flight_hosts() {
    let mut runner = webgrep::request::Runner::new();
    assert!(!runner.is_busy(&String::from("h")));
    let s = runner.push(None, String::from("http://h/1")).expect("a new host spawns");
    assert!(runner.is_busy(&String::from("h")));
    assert!(!runner.is_busy(&String::from("k")));
    let ticket = webgrep::request::RunTicket {
        result: Err(String::from("x")),
        host: s.host,
        client: s.client,
    };
    let (_, next) = runner.redeem(ticket);
    assert!(next.is_none());
    assert!(!runner.is_busy(&String::from("h")));
}

fn plain_node(url: &str) -> PageNode {
    PageNode::new(None, Page::new(String::from(url), Body::Plain(String::from("x"))))
}

fn child_of(parent: &PageNode, url: &str) -> PageNode {
    PageNode::new(Some(parent), Page::new(String::from(url), Body::Plain(String::from("x"))))
}

#[test]
fn lineage_depth_and_path() {
    let a = plain_node("http://a/root");
    let b = child_of(&a, "http://a/mid");
    let c = child_of(&b, "http://a/leaf");
    assert_eq!(a.depth(), 0);
    assert_eq!(b.depth(), 1);
    assert_eq!(c.depth(), 2);
    assert_eq!(a.path_from_root(), "http://a/root");
    assert_eq!(c.path_from_root(), "http://a/root > http://a/mid > http://a/leaf");
    assert!(c.lineage_contains(&String::from("http://a/root")));
    assert!(c.lineage_contains(&String::from("http://a/leaf")));
    assert!(!c.lineage_contains(&String::from("http://a/other")));
}

#[test]
fn request_runner_serializes_one_host() {
    let mut runner = webgrep::request::Runner::new();
    // first URL of a host spawns at once
    let s1 = runner.push(None, String::from("http://h/1"));
    let s1 = s1.expect("a new host must spawn");
    assert_eq!(s1.url, "http://h/1");
    assert_eq!(s1.host, "h");
    // while that request is in flight, the host's URLs wait
    assert!(runner.push(None, String::from("http://h/2")).is_none());
    assert!(runner.push(None, String::from("http://h/3")).is_none());
    // another host is independent
    let other = runner.push(None, String::from("http://k/1"));
    assert!(other.is_some());
    // redeeming the completed request hands the fetcher to a waiter
    let node = plain_node("http://h/1");
    let ticket = webgrep::request::RunTicket {
        result: Ok(node),
        host: s1.host,
        client: s1.client,
    };
    let (outcome, next) = runner.redeem(ticket);
    assert!(outcome.is_ok());
    let next = next.expect("a waiter must leave with the fetcher");
    assert_eq!(next.host, "h");
    assert!(next.url == "http://h/2" || next.url == "http://h/3");
    // the second completion frees the last waiter, the third parks the fetcher
    let t2 = webgrep::request::RunTicket {
        result: Err(String::from("whatever")),
        host: next.host,
        client: next.client,
    };
    let (_, next2) = runner.redeem(t2);
    let next2 = next2.expect("one URL still waits");
    let t3 = webgrep::request::RunTicket {
        result: Err(String::from("whatever")),
        host: next2.host,
        client: next2.client,
    };
    let (_, next3) = runner.redeem(t3);
    assert!(next3.is_none());
    // with the fetcher idle again, a new push spawns at once
    assert!(runner.push(None, String::from("http://h/4")).is_some());
}

#[test]
fn subdomains_share_one_fetcher() {
    let mut runner = webgrep::request::Runner::new();
    // both hosts key to example.com, so the second request waits
    let first = runner.push(None, String::from("http://a.example.com/1"));
    let first = first.expect("a new host key must spawn");
    assert_eq!(first.host, "example.com");
    assert!(runner.push(None, String::from("http://b.example.com/2")).is_none());
}

fn depth_node(url: &str, depth: usize) -> PageNode {
    let mut n = plain_node(url);
    for i in 0..depth {
        let parent = n;
        n = child_of(&parent, &format!("{}/{}", url, i));
    }
    n
}

#[test]
fn page_runner_bounds_parallelism_and_pops_shallowest() {
    let re = webgrep::pattern::Pattern::new("needle", false).expect("pattern compiles");
    let mut runner = webgrep::page::Runner::new(5, re, None, 2);
    // two slots: the first two pages start, the third waits
    assert!(runner.push(depth_node("http://a/1", 2)).is_some());
    assert!(runner.push(depth_node("http://a/2", 2)).is_some());
    assert!(runner.push(depth_node("http://a/3", 2)).is_none());
    assert!(runner.push(depth_node("http://a/4", 0)).is_none());
    // a leaf completion starts the shallowest waiting page
    let (out, starts) = runner.redeem(webgrep::page::RunTicket(None, None));
    assert!(out.0.is_none());
    assert_eq!(starts.len(), 1);
    assert_eq!(starts[0].depth(), 0);
    // the next completion starts the remaining page
    let (_, starts) = runner.redeem(webgrep::page::RunTicket(None, None));
    assert_eq!(starts.len(), 1);
    assert_eq!(starts[0].depth(), 2);
    // now the queue is empty: a completion frees a slot
    let (_, starts) = runner.redeem(webgrep::page::RunTicket(None, None));
    assert_eq!(starts.len(), 0);
}

#[test]
fn page_runner_queues_children_beyond_saturation() {
    let re = webgrep::pattern::Pattern::new("needle", false).expect("pattern compiles");
    let mut runner = webgrep::page::Runner::new(5, re, None, 2);
    assert!(runner.push(plain_node("http://a/s1")).is_some());
    assert!(runner.push(plain_node("http://a/s2")).is_some());
    // one task completes with three children: only the freed slot starts one
    let parent = plain_node("http://a/s1");
    let children = vec![
        child_of(&parent, "http://a/c1"),
        child_of(&parent, "http://a/c2"),
        child_of(&parent, "http://a/c3"),
    ];
    let ticket = webgrep::page::RunTicket(None, Some((children, 0, (parent, Vec::new()))));
    let (_, starts) = runner.redeem(ticket);
    assert_eq!(starts.len(), 1);
    // the two queued children leave one by one as leaves complete
    let (_, s2) = runner.redeem(webgrep::page::RunTicket(None, None));
    assert_eq!(s2.len(), 1);
    let (_, s3) = runner.redeem(webgrep::page::RunTicket(None, None));
    assert_eq!(s3.len(), 1);
    let (_, s4) = runner.redeem(webgrep::page::RunTicket(None, None));
    assert_eq!(s4.len(), 0);
}

#[test]
fn page_runner_admits_children_up_to_saturation() {
    let re = webgrep::pattern::Pattern::new("needle", false).expect("pattern compiles");
    let mut runner = webgrep::page::Runner::new(5, re, None, 3);
    assert!(runner.push(plain_node("http://a/seed")).is_some());
    // the seed's ticket brings three children: two start, one queues
    let parent = plain_node("http://a/seed");
    let children = vec![
        child_of(&parent, "http://a/c1"),
        child_of(&parent, "http://a/c2"),
        child_of(&parent, "http://a/c3"),
    ];
    let ticket = webgrep::page::RunTicket(
        None,
        Some((children, 0, (parent, Vec::new()))),
    );
    let (out, starts) = runner.redeem(ticket);
    let (good, bad, (_, urls)) = out.1.expect("expansion data is passed through");
    assert_eq!(good, 3);
    assert_eq!(bad, 0);
    assert!(urls.is_empty());
    assert_eq!(starts.len(), 3);
}
