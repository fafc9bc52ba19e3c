//! The document tree and what the crawler reads from it.
//!
//! HTML parsing is delegated; the parser's output is carried over into
//! `DomNode`, the library's own tree, and everything the crawler reads
//! from a page — its visible inner text and its outgoing links — is
//! computed here, verified against recursive specifications.

use vstd::prelude::*;
use vstd::string::StrSliceExecFns;

use crate::urls::join_of;
use html5ever::tendril::TendrilSink;
use markup5ever_rcdom::NodeData;

verus! {

/// A node of a parsed document: a text run, an element with its
/// attributes, or a container (the document root and the node kinds the
/// crawler does not read). A `<template>` element's contents appear as
/// its first child.
pub enum DomNode {
    Text(String),
    Element { name: String, attrs: Vec<(String, String)>, children: Vec<DomNode> },
    Container { children: Vec<DomNode> },
}

/// The parser's own node type, opaque to the library; values of it only
/// pass from `parse_html` into the carry-over below.
#[verifier::external_type_specification]
#[verifier::external_body]
pub struct ExRcdomNode(markup5ever_rcdom::Node);

/// What the HTML parser yields for the given text: `None` when the
/// document cannot be read at all. A function of the text alone.
pub uninterp spec fn dom_of(html: Seq<char>) -> Option<DomNode>;

/// Relies on html5ever::parse_document with markup5ever_rcdom: the tree
/// built from the text depends on the text alone, and is carried over
/// into `DomNode` one node for one.
#[verifier::external_body]
pub(crate) fn parse_html(body: &str) -> (r: Option<DomNode>)
    ensures
        r == dom_of(body@),
{
    html5ever::parse_document(markup5ever_rcdom::RcDom::default(), Default::default())
        .from_utf8()
        .read_from(&mut body.as_bytes())
        .ok()
        .map(|dom| dom_of_handle(&dom.document))
}

/// Relies on markup5ever_rcdom::NodeData: each node's kind, tag name,
/// attributes and children are moved over one for one; a template's
/// contents become its element's first child.
#[verifier::external_body]
fn dom_of_handle(h: &markup5ever_rcdom::Handle) -> DomNode {
    let mut children: Vec<DomNode> = Vec::new();
    if let NodeData::Element { template_contents, .. } = &h.data {
        if let Some(t) = template_contents.borrow().as_ref() {
            children.push(dom_of_handle(t));
        }
    }
    children.extend(h.children.borrow().iter().map(dom_of_handle));
    match &h.data {
        NodeData::Text { contents } => DomNode::Text(contents.borrow().to_string()),
        NodeData::Element { name, attrs, .. } => DomNode::Element {
            name: name.local.to_string(),
            attrs: attrs.borrow().iter().map(|a| (a.name.local.to_string(), a.value.to_string())).collect(),
            children },
        _ => DomNode::Container { children },
    }
}

/// Whether an element's subtree is invisible to a reader and therefore
/// skipped when the page's text is gathered.
pub open spec fn spec_elided(name: Seq<char>) -> bool {
    name == "head"@ || name == "script"@
}

/// The text a reader sees in a subtree: text runs concatenated in
/// document order, with `head` and `script` subtrees skipped.
pub open spec fn spec_inner_text(n: DomNode) -> Seq<char>
    decreases n,
{
    match n {
        DomNode::Text(s) => s@,
        DomNode::Element { name, children, .. } => {
            if spec_elided(name@) {
                Seq::empty()
            } else {
                spec_inner_text_seq(children@)
            }
        },
        DomNode::Container { children } => spec_inner_text_seq(children@),
    }
}

/// The visible text of a forest, in order.
pub open spec fn spec_inner_text_seq(cs: Seq<DomNode>) -> Seq<char>
    decreases cs,
{
    if cs.len() == 0 {
        Seq::empty()
    } else {
        spec_inner_text(cs.first()) + spec_inner_text_seq(cs.drop_first())
    }
}

/// The first `href` attribute value, if any.
pub open spec fn spec_first_href(attrs: Seq<(String, String)>) -> Option<Seq<char>>
    decreases attrs,
{
    if attrs.len() == 0 {
        None
    } else if attrs.first().0@ == "href"@ {
        Some(attrs.first().1@)
    } else {
        spec_first_href(attrs.drop_first())
    }
}

/// The links a subtree contributes: for every `a` element, its first
/// `href` resolved against `base` (dropped when resolution fails), in
/// document order, duplicates included.
pub open spec fn spec_links(base: Seq<char>, n: DomNode) -> Seq<Seq<char>>
    decreases n,
{
    match n {
        DomNode::Text(_) => Seq::empty(),
        DomNode::Element { name, attrs, children } => {
            let own: Seq<Seq<char>> = if name@ == "a"@ {
                match spec_first_href(attrs@) {
                    Some(h) => match join_of(base, h) {
                        Some(u) => seq![u],
                        None => Seq::empty(),
                    },
                    None => Seq::empty(),
                }
            } else {
                Seq::empty()
            };
            own + spec_links_seq(base, children@)
        },
        DomNode::Container { children } => spec_links_seq(base, children@),
    }
}

/// The links of a forest, in order.
pub open spec fn spec_links_seq(base: Seq<char>, cs: Seq<DomNode>) -> Seq<Seq<char>>
    decreases cs,
{
    if cs.len() == 0 {
        Seq::empty()
    } else {
        spec_links(base, cs.first()) + spec_links_seq(base, cs.drop_first())
    }
}

/// `s` with every element that already occurred earlier removed: the
/// first occurrences, in order.
pub open spec fn spec_dedup(s: Seq<Seq<char>>) -> Seq<Seq<char>>
    decreases s,
{
    if s.len() == 0 {
        s
    } else if s.drop_last().contains(s.last()) {
        spec_dedup(s.drop_last())
    } else {
        spec_dedup(s.drop_last()).push(s.last())
    }
}

/// Deduplication keeps membership.
pub proof fn lemma_dedup_contains(s: Seq<Seq<char>>, x: Seq<char>)
    ensures
        spec_dedup(s).contains(x) <==> s.contains(x),
    decreases s,
{
    if s.len() > 0 {
        lemma_dedup_contains(s.drop_last(), x);
        vstd::seq_lib::lemma_seq_contains_after_push(spec_dedup(s.drop_last()), s.last(), x);
        assert(s.contains(x) <==> (s.drop_last().contains(x) || s.last() == x)) by {
            if s.contains(x) {
                let i = choose|i: int| 0 <= i < s.len() && s[i] == x;
                if i < s.len() - 1 {
                    assert(s.drop_last()[i] == x);
                }
            }
            if s.drop_last().contains(x) {
                let i = choose|i: int| 0 <= i < s.drop_last().len() && s.drop_last()[i] == x;
                assert(s[i] == x);
            }
            if s.last() == x {
                assert(s[s.len() - 1] == x);
            }
        }
    }
}

/// Whether the character sequences of `a` and `b` are equal.
pub fn str_eq_chars(a: &str, b: &str) -> (r: bool)
    ensures
        r == (a@ == b@),
{
    let n = a.unicode_len();
    let m = b.unicode_len();
    if n != m {
        return false;
    }
    let mut i: usize = 0;
    while i < n
        invariant
            i <= n,
            n == a@.len(),
            n == b@.len(),
            forall|k: int| 0 <= k < i ==> a@[k] == b@[k],
        decreases n - i,
    {
        if a.get_char(i) != b.get_char(i) {
            return false;
        }
        i = i + 1;
    }
    proof {
        assert(a@ =~= b@);
    }
    true
}

/// Append the visible text of `n` to `out`.
fn push_inner_text(n: &DomNode, out: &mut String)
    ensures
        final(out)@ == old(out)@ + spec_inner_text(*n),
    decreases *n,
{
    match n {
        DomNode::Text(s) => {
            out.append(s.as_str());
        },
        DomNode::Element { name, attrs, children } => {
            let elided = str_eq_chars(name.as_str(), "head") || str_eq_chars(
                name.as_str(),
                "script",
            );
            if !elided {
                push_inner_text_seq(children, out);
            } else {
                proof {
                    assert(old(out)@ + spec_inner_text(*n) =~= old(out)@);
                }
            }
        },
        DomNode::Container { children } => {
            push_inner_text_seq(children, out);
        },
    }
}

/// Append the visible text of each node of `cs`, in order, to `out`.
fn push_inner_text_seq(cs: &Vec<DomNode>, out: &mut String)
    ensures
        final(out)@ == old(out)@ + spec_inner_text_seq(cs@),
    decreases cs@,
{
    let n = cs.len();
    proof {
        assert(cs@.skip(0) =~= cs@);
    }
    let mut i: usize = 0;
    while i < n
        invariant
            i <= n,
            n == cs@.len(),
            out@ + spec_inner_text_seq(cs@.skip(i as int)) == old(out)@ + spec_inner_text_seq(
                cs@,
            ),
        decreases n - i,
    {
        proof {
            assert(cs@.skip(i as int).first() == cs@[i as int]);
            assert(cs@.skip(i as int).drop_first() =~= cs@.skip(i + 1));
            assert(decreases_to!(cs@ => cs@[i as int]));
        }
        let ghost prev = out@;
        push_inner_text(&cs[i], out);
        proof {
            assert(prev + (spec_inner_text(cs@[i as int]) + spec_inner_text_seq(cs@.skip(i + 1)))
                =~= (prev + spec_inner_text(cs@[i as int])) + spec_inner_text_seq(cs@.skip(i + 1)));
        }
        i = i + 1;
    }
    proof {
        assert(cs@.skip(n as int) =~= Seq::<DomNode>::empty());
        assert(out@ + Seq::<char>::empty() =~= out@);
    }
}

/// The text a reader sees on the page: text runs concatenated in
/// document order, `head` and `script` subtrees skipped.
pub fn inner_text(n: &DomNode) -> (r: String)
    ensures
        r@ == spec_inner_text(*n),
{
    let mut out = String::new();
    push_inner_text(n, &mut out);
    proof {
        assert(Seq::<char>::empty() + spec_inner_text(*n) =~= spec_inner_text(*n));
    }
    out
}

/// The first `href` attribute value of an element, if any.
fn first_href(attrs: &Vec<(String, String)>) -> (r: Option<&String>)
    ensures
        (match r {
            Some(v) => Some(v@),
            None => None,
        }) == spec_first_href(attrs@),
{
    let n = attrs.len();
    proof {
        assert(attrs@.skip(0) =~= attrs@);
    }
    let mut i: usize = 0;
    while i < n
        invariant
            i <= n,
            n == attrs@.len(),
            spec_first_href(attrs@) == spec_first_href(attrs@.skip(i as int)),
        decreases n - i,
    {
        proof {
            assert(attrs@.skip(i as int).first() == attrs@[i as int]);
            assert(attrs@.skip(i as int).drop_first() =~= attrs@.skip(i + 1));
        }
        if str_eq_chars(attrs[i].0.as_str(), "href") {
            return Some(&attrs[i].1);
        }
        i = i + 1;
    }
    proof {
        assert(attrs@.skip(n as int) =~= Seq::<(String, String)>::empty());
    }
    None
}

/// Append the resolved links of `n`'s subtree, in document order, to
/// `out`.
fn push_links(base: &str, n: &DomNode, out: &mut Vec<String>)
    ensures
        final(out)@.map_values(|s: String| s@) == old(out)@.map_values(|s: String| s@)
            + spec_links(base@, *n),
    decreases *n,
{
    let ghost gbase = base@;
    match n {
        DomNode::Text(_) => {
            proof {
                assert(out@.map_values(|s: String| s@) + spec_links(gbase, *n) =~= out@.map_values(
                    |s: String| s@,
                ));
            }
        },
        DomNode::Element { name, attrs, children } => {
            let ghost before = out@;
            if str_eq_chars(name.as_str(), "a") {
                match first_href(attrs) {
                    Some(h) => {
                        match crate::urls::join_url(base, h.as_str()) {
                            Some(u) => {
                                out.push(u);
                            },
                            None => {},
                        }
                    },
                    None => {},
                }
            }
            proof {
                let own: Seq<Seq<char>> = if name@ == "a"@ {
                    match spec_first_href(attrs@) {
                        Some(h) => match join_of(gbase, h) {
                            Some(u) => seq![u],
                            None => Seq::empty(),
                        },
                        None => Seq::empty(),
                    }
                } else {
                    Seq::empty()
                };
                assert(out@.map_values(|s: String| s@) =~= before.map_values(|s: String| s@)
                    + own);
            }
            push_links_seq(base, children, out);
            proof {
                assert(out@.map_values(|s: String| s@) =~= before.map_values(|s: String| s@)
                    + spec_links(gbase, *n));
            }
        },
        DomNode::Container { children } => {
            push_links_seq(base, children, out);
        },
    }
}

/// Append the resolved links of a forest, in order, to `out`.
fn push_links_seq(base: &str, cs: &Vec<DomNode>, out: &mut Vec<String>)
    ensures
        final(out)@.map_values(|s: String| s@) == old(out)@.map_values(|s: String| s@)
            + spec_links_seq(base@, cs@),
    decreases cs@,
{
    let ghost gbase = base@;
    let n = cs.len();
    proof {
        assert(cs@.skip(0) =~= cs@);
    }
    let mut i: usize = 0;
    while i < n
        invariant
            i <= n,
            n == cs@.len(),
            gbase == base@,
            out@.map_values(|s: String| s@) + spec_links_seq(gbase, cs@.skip(i as int)) == old(
                out,
            )@.map_values(|s: String| s@) + spec_links_seq(gbase, cs@),
        decreases n - i,
    {
        proof {
            assert(cs@.skip(i as int).first() == cs@[i as int]);
            assert(cs@.skip(i as int).drop_first() =~= cs@.skip(i + 1));
            assert(decreases_to!(cs@ => cs@[i as int]));
        }
        let ghost prev = out@.map_values(|s: String| s@);
        push_links(base, &cs[i], out);
        proof {
            assert(prev + (spec_links(gbase, cs@[i as int]) + spec_links_seq(
                gbase,
                cs@.skip(i + 1),
            )) =~= (prev + spec_links(gbase, cs@[i as int])) + spec_links_seq(
                gbase,
                cs@.skip(i + 1),
            ));
        }
        i = i + 1;
    }
    proof {
        assert(cs@.skip(n as int) =~= Seq::<DomNode>::empty());
        assert(out@.map_values(|s: String| s@) + Seq::<Seq<char>>::empty() =~= out@.map_values(
            |s: String| s@,
        ));
    }
}

/// The page's outgoing links: for each `a` element its first `href`
/// resolved against `base`, first occurrences only, in document order.
pub fn links(base: &str, n: &DomNode) -> (r: Vec<String>)
    ensures
        r@.map_values(|s: String| s@) == spec_dedup(spec_links(base@, *n)),
{
    let mut all: Vec<String> = Vec::new();
    push_links(base, n, &mut all);
    proof {
        assert(Seq::<Seq<char>>::empty() + spec_links(base@, *n) =~= spec_links(base@, *n));
    }
    let mut out: Vec<String> = Vec::new();
    let n_all = all.len();
    let mut i: usize = 0;
    while i < n_all
        invariant
            i <= n_all,
            n_all == all@.len(),
            all@.map_values(|s: String| s@) == spec_links(base@, *n),
            out@.map_values(|s: String| s@) =~= spec_dedup(
                all@.map_values(|s: String| s@).take(i as int),
            ),
        decreases n_all - i,
    {
        let ghost seen = all@.map_values(|s: String| s@).take(i as int);
        let mut dup = false;
        let n_out = out.len();
        let mut j: usize = 0;
        while j < n_out
            invariant
                j <= n_out,
                n_out == out@.len(),
                i < n_all,
                n_all == all@.len(),
                dup ==> out@.map_values(|s: String| s@).contains(all@[i as int]@),
                !dup ==> forall|k: int| 0 <= k < j ==> out@[k]@ != all@[i as int]@,
            decreases n_out - j,
        {
            if out[j] == all[i] {
                proof {
                    assert(out@.map_values(|s: String| s@)[j as int] == all@[i as int]@);
                }
                dup = true;
            }
            j = j + 1;
        }
        proof {
            if !dup {
                assert(!out@.map_values(|s: String| s@).contains(all@[i as int]@)) by {
                    let mv = out@.map_values(|s: String| s@);
                    if mv.contains(all@[i as int]@) {
                        let k = mv.index_of(all@[i as int]@);
                        assert(out@[k]@ == all@[i as int]@);
                    }
                }
            }
            lemma_dedup_contains(seen, all@[i as int]@);
            assert(all@.map_values(|s: String| s@).take(i + 1).drop_last() =~= seen);
            assert(all@.map_values(|s: String| s@).take(i + 1).last() == all@[i as int]@);
        }
        if !dup {
            out.push(all[i].clone());
            proof {
                assert(out@.map_values(|s: String| s@) =~= spec_dedup(
                    all@.map_values(|s: String| s@).take(i + 1),
                ));
            }
        } else {
            proof {
                assert(out@.map_values(|s: String| s@).contains(all@[i as int]@));
                assert(seen.contains(all@[i as int]@));
                assert(out@.map_values(|s: String| s@) =~= spec_dedup(
                    all@.map_values(|s: String| s@).take(i + 1),
                ));
            }
        }
        i = i + 1;
    }
    proof {
        assert(all@.map_values(|s: String| s@).take(n_all as int) =~= all@.map_values(
            |s: String| s@,
        ));
    }
    out
}

} // verus!
