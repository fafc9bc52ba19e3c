//! URL keys, pattern matching, the document tree, and the page parser.

use webgrep::cache::Cache;
use webgrep::client::Body;
use webgrep::dom::{inner_text, links, DomNode};
use webgrep::node::PageNode;
use webgrep::page::{parse_page, Page};
use webgrep::pattern::Pattern;
use webgrep::urls::small_host_name;

fn text(s: &str) -> DomNode {
    DomNode::Text(String::from(s))
}

fn element(name: &str, attrs: &[(&str, &str)], children: Vec<DomNode>) -> DomNode {
    DomNode::Element {
        name: String::from(name),
        attrs: attrs.iter().map(|(k, v)| (String::from(*k), String::from(*v))).collect(),
        children,
    }
}

#[test]
fn host_key_takes_the_registrable_suffix() {
    assert_eq!(small_host_name("http://a.b.example.co.uk/x"), "co.uk");
    assert_eq!(small_host_name("http://www.example.com/"), "example.com");
    assert_eq!(small_host_name("http://example.com/"), "example.com");
    assert_eq!(small_host_name("http://localhost:8080/x"), "localhost");
}

#[test]
fn host_key_of_ip_literals_is_the_literal() {
    assert_eq!(small_host_name("http://127.0.0.1:8000/x"), "127.0.0.1");
    assert_eq!(small_host_name("http://[::1]/x"), "[::1]");
}

#[test]
fn host_key_of_hostless_urls_is_empty() {
    assert_eq!(small_host_name("data:text/plain,hello"), "");
    assert_eq!(small_host_name("not a url at all"), "");
}

#[test]
fn pattern_compiles_and_matches() {
    let p = Pattern::new("need.e", false).expect("a valid pattern compiles");
    assert!(p.is_match("hay needle stack"));
    assert!(!p.is_match("hay Needle stack"));
    let ci = Pattern::new("need.e", true).expect("a valid pattern compiles");
    assert!(ci.is_match("hay NEEDLE stack"));
    assert!(Pattern::new("(", false).is_none());
}

#[test]
fn inner_text_concatenates_visible_text() {
    let dom = element(
        "body",
        &[],
        vec![text("hello "), element("b", &[], vec![text("needle")]), text(" world")],
    );
    assert_eq!(inner_text(&dom), "hello needle world");
}

#[test]
fn inner_text_elides_head_and_script() {
    let dom = element(
        "html",
        &[],
        vec![
            element("head", &[], vec![element("title", &[], vec![text("needle")])]),
            element("body", &[], vec![text("ok"), element("script", &[], vec![text("var needle;")])]),
        ],
    );
    assert_eq!(inner_text(&dom), "ok");
}

#[test]
fn links_resolve_against_the_page_url() {
    let dom = element(
        "body",
        &[],
        vec![
            element("a", &[("href", "/child")], vec![text("x")]),
            element("a", &[("href", "other")], vec![text("y")]),
        ],
    );
    let ls = links("http://a/root/page", &dom);
    assert_eq!(ls.len(), 2);
    assert_eq!(ls[0], "http://a/child");
    assert_eq!(ls[1], "http://a/root/other");
}

#[test]
fn links_take_the_first_href_and_deduplicate() {
    let dom = element(
        "body",
        &[],
        vec![
            element("a", &[("id", "one"), ("href", "/b"), ("href", "/zzz")], vec![text("1")]),
            element("a", &[("href", "/a")], vec![text("2")]),
            element("a", &[("href", "/b")], vec![text("3")]),
        ],
    );
    let ls = links("http://h/", &dom);
    assert_eq!(ls.len(), 2);
    assert_eq!(ls[0], "http://h/b");
    assert_eq!(ls[1], "http://h/a");
}

fn html_node(url: &str, html: &str) -> PageNode {
    PageNode::new(None, Page::new(String::from(url), Body::Html(String::from(html))))
}

#[test]
fn immediate_seed_match_prints_the_seed_alone() {
    let cache = Cache::new();
    let re = Pattern::new("needle", false).unwrap();
    let node = html_node("http://a/root", "<html><body>hello needle world</body></html>");
    let t = parse_page(&cache, 1, &re, &None, node);
    assert_eq!(t.0.as_deref(), Some("http://a/root"));
}

#[test]
fn one_hop_match_prints_the_two_step_path() {
    let mut cache = Cache::new();
    cache.set(
        "http://a/child",
        &Ok(Body::Html(String::from("<html><body>needle</body></html>"))),
    );
    let re = Pattern::new("needle", false).unwrap();
    let root = html_node("http://a/root", "<html><body><a href=\"/child\">go</a></body></html>");
    let t = parse_page(&cache, 1, &re, &None, root);
    assert!(t.0.is_none());
    let (children, bad, (_, urls)) = t.1.expect("the root is expanded at depth 0");
    assert_eq!(bad, 0);
    assert!(urls.is_empty());
    assert_eq!(children.len(), 1);
    let child = children.into_iter().next().unwrap();
    assert_eq!(child.depth(), 1);
    let t2 = parse_page(&cache, 1, &re, &None, child);
    assert_eq!(t2.0.as_deref(), Some("http://a/root > http://a/child"));
    // at the depth bound, the child is not expanded further
    assert!(t2.1.is_none());
}

#[test]
fn depth_cutoff_stops_expansion() {
    let mut cache = Cache::new();
    cache.set(
        "http://a/child",
        &Ok(Body::Html(String::from(
            "<html><body><a href=\"/grand\">on</a></body></html>",
        ))),
    );
    let re = Pattern::new("needle", false).unwrap();
    let root = html_node("http://a/root", "<html><body><a href=\"/child\">go</a></body></html>");
    let t = parse_page(&cache, 1, &re, &None, root);
    let (children, _, (_, urls)) = t.1.expect("the root is expanded");
    assert!(urls.is_empty());
    let child = children.into_iter().next().expect("the cached child is built");
    // depth 1 reaches max_depth 1: /grand is never collected
    let t2 = parse_page(&cache, 1, &re, &None, child);
    assert!(t2.0.is_none());
    assert!(t2.1.is_none());
}

#[test]
fn cycles_are_suppressed() {
    let mut cache = Cache::new();
    cache.set(
        "http://h/b",
        &Ok(Body::Html(String::from("<html><body><a href=\"/a\">back</a></body></html>"))),
    );
    let re = Pattern::new("needle", false).unwrap();
    let a = html_node("http://h/a", "<html><body><a href=\"/b\">to b</a></body></html>");
    let t = parse_page(&cache, 5, &re, &None, a);
    let (children, bad, (_, urls)) = t.1.expect("expanded");
    assert_eq!(children.len(), 1);
    assert_eq!(bad, 0);
    assert!(urls.is_empty());
    let b = children.into_iter().next().unwrap();
    // b links only back to its ancestor: nothing survives
    let t2 = parse_page(&cache, 5, &re, &None, b);
    let (children2, bad2, (_, urls2)) = t2.1.expect("expanded");
    assert!(children2.is_empty());
    assert_eq!(bad2, 0);
    assert!(urls2.is_empty());
}

#[test]
fn cached_errors_short_circuit() {
    let mut cache = Cache::new();
    cache.set("http://a/bad", &Err(String::from("gone")));
    let re = Pattern::new("needle", false).unwrap();
    let root = html_node(
        "http://a/root",
        "<html><body><a href=\"/bad\">x</a><a href=\"/fresh\">y</a></body></html>",
    );
    let t = parse_page(&cache, 1, &re, &None, root);
    let (children, bad, (_, urls)) = t.1.expect("expanded");
    assert!(children.is_empty());
    assert_eq!(bad, 1);
    assert_eq!(urls.len(), 1);
    assert_eq!(urls[0], "http://a/fresh");
}

#[test]
fn excluded_urls_are_not_enqueued() {
    let cache = Cache::new();
    let re = Pattern::new("needle", false).unwrap();
    let ex = Some(Pattern::new("/skip", false).unwrap());
    let root = html_node(
        "http://a/root",
        "<html><body><a href=\"/skip/this\">x</a><a href=\"/keep\">y</a></body></html>",
    );
    let t = parse_page(&cache, 1, &re, &ex, root);
    let (children, bad, (_, urls)) = t.1.expect("expanded");
    assert!(children.is_empty());
    // an excluded URL neither fetches nor counts as a bad cache hit
    assert_eq!(bad, 0);
    assert_eq!(urls.len(), 1);
    assert_eq!(urls[0], "http://a/keep");
}

#[test]
fn head_title_matches_are_not_matches() {
    let cache = Cache::new();
    let re = Pattern::new("needle", false).unwrap();
    let node = html_node(
        "http://a/root",
        "<html><head><title>needle</title></head><body>ok</body></html>",
    );
    let t = parse_page(&cache, 1, &re, &None, node);
    assert!(t.0.is_none());
}

#[test]
fn pdf_and_plain_bodies_match_verbatim() {
    let cache = Cache::new();
    let re = Pattern::new("needle", false).unwrap();
    let plain = PageNode::new(
        None,
        Page::new(String::from("http://a/t"), Body::Plain(String::from("a needle here"))),
    );
    let t = parse_page(&cache, 3, &re, &None, plain);
    assert_eq!(t.0.as_deref(), Some("http://a/t"));
    assert!(t.1.is_none());
    let pdf = PageNode::new(
        None,
        Page::new(String::from("http://a/p"), Body::Pdf(String::from("no match"))),
    );
    let t2 = parse_page(&cache, 3, &re, &None, pdf);
    assert!(t2.0.is_none());
    assert!(t2.1.is_none());
}
