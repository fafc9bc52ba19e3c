//! The Page Runner: bounded-parallelism page scheduling, and the page
//! parser it drives.
//!
//! At most `max_tasks` page tasks run at once. A page pushed while a
//! task slot is free starts immediately; otherwise it waits in a
//! priority queue from which the shallowest page leaves first. The
//! admission rule keeps the queue non-empty only while every slot is
//! taken. `parse_page` does a task's work: it tests the pattern against
//! the page's visible text, and — within the depth bound — extracts the
//! page's links, suppresses cycles and excluded URLs, and partitions the
//! rest by their cached outcome.

use vstd::prelude::*;

use crate::cache::Cache;
use crate::client::Body;
use crate::dom::{
    inner_text, links, parse_html, spec_dedup, spec_inner_text, spec_links,
};
use crate::node::{spec_joined_path, PageNode};
use crate::pattern::{re_matches, Pattern};

verus! {

broadcast use vstd::seq_lib::group_to_multiset_ensures;

/// A page that was fetched or found in the cache.
pub struct Page {
    pub url: String,
    pub body: Body,
}

impl Page {
    /// A page with the given URL and body.
    pub fn new(url: String, body: Body) -> (p: Self)
        ensures
            p.url == url,
            p.body == body,
    {
        Self { url, body }
    }

    /// An owned copy of this page.
    pub fn duplicate(&self) -> (p: Page)
        ensures
            p == *self,
    {
        Page { url: self.url.clone(), body: self.body.duplicate() }
    }
}

/// The printed path of a matching page, when it matched.
pub type MatchData = Option<String>;

/// Links that were satisfied from the cache.
pub type GoodCacheHits = usize;

/// Links whose cached outcome was a terminal error.
pub type BadCacheHits = usize;

/// The shared parent and the URLs that need network requests.
pub type RequestData = (PageNode, Vec<String>);

/// What a completed page task carries back: the match, and — when the
/// page was expanded — its cache-hit children, error-hit count and
/// network-needed URLs.
pub struct RunTicket(pub MatchData, pub Option<(Vec<PageNode>, BadCacheHits, RequestData)>);

/// What `redeem` reports to the dispatcher.
pub type RunOutput = (MatchData, Option<(GoodCacheHits, BadCacheHits, RequestData)>);

/// Whether `u` matches the configured exclusion pattern.
pub open spec fn spec_excluded(ex: Option<Pattern>, u: Seq<char>) -> bool {
    match ex {
        Some(p) => re_matches(p.spec_source(), p.spec_ignore_case(), u),
        None => false,
    }
}

/// Whether the link `u` survives cycle suppression and the exclusion
/// filter at `node`.
pub open spec fn spec_kept(node: PageNode, ex: Option<Pattern>, u: Seq<char>) -> bool {
    !node.spec_path_urls().contains(u) && !spec_excluded(ex, u)
}

/// Whether the pattern matches `text`.
pub open spec fn spec_matched(re: Pattern, text: Seq<char>) -> bool {
    re_matches(re.spec_source(), re.spec_ignore_case(), text)
}

/// Of the candidate links `cs`, the surviving ones with no cached
/// outcome, in order: these need network requests.
pub open spec fn spec_pending_urls(
    cache: Cache,
    node: PageNode,
    ex: Option<Pattern>,
    cs: Seq<Seq<char>>,
) -> Seq<Seq<char>>
    decreases cs,
{
    if cs.len() == 0 {
        Seq::empty()
    } else {
        let rest = spec_pending_urls(cache, node, ex, cs.drop_last());
        if spec_kept(node, ex, cs.last()) && cache.spec_get(cs.last()) is None {
            rest.push(cs.last())
        } else {
            rest
        }
    }
}

/// Of the candidate links `cs`, the surviving ones with a cached body,
/// in order: these become children at once.
pub open spec fn spec_child_urls(
    cache: Cache,
    node: PageNode,
    ex: Option<Pattern>,
    cs: Seq<Seq<char>>,
) -> Seq<Seq<char>>
    decreases cs,
{
    if cs.len() == 0 {
        Seq::empty()
    } else {
        let rest = spec_child_urls(cache, node, ex, cs.drop_last());
        if spec_kept(node, ex, cs.last()) && (cache.spec_get(cs.last()) matches Some(
            Result::<Body, String>::Ok(_),
        )) {
            rest.push(cs.last())
        } else {
            rest
        }
    }
}

/// How many of the candidate links `cs` survive the filters but carry a
/// cached terminal error: these complete with no further work.
pub open spec fn spec_bad_hits(
    cache: Cache,
    node: PageNode,
    ex: Option<Pattern>,
    cs: Seq<Seq<char>>,
) -> nat
    decreases cs,
{
    if cs.len() == 0 {
        0
    } else {
        let rest = spec_bad_hits(cache, node, ex, cs.drop_last());
        if spec_kept(node, ex, cs.last()) && (cache.spec_get(cs.last()) matches Some(
            Result::<Body, String>::Err(_),
        )) {
            rest + 1
        } else {
            rest
        }
    }
}

/// Cycle suppression: every candidate link that becomes a child
/// survived the filters, so its URL equals no URL in the lineage of the
/// page it came from.
pub proof fn lemma_child_urls_acyclic(
    cache: Cache,
    node: PageNode,
    ex: Option<Pattern>,
    cs: Seq<Seq<char>>,
)
    ensures
        forall|j: int|
            0 <= j < spec_child_urls(cache, node, ex, cs).len() ==> !node.spec_path_urls().contains(
                #[trigger] spec_child_urls(cache, node, ex, cs)[j],
            ),
    decreases cs,
{
    if cs.len() > 0 {
        lemma_child_urls_acyclic(cache, node, ex, cs.drop_last());
        let all = spec_child_urls(cache, node, ex, cs);
        let rest = spec_child_urls(cache, node, ex, cs.drop_last());
        assert forall|j: int| 0 <= j < all.len() implies !node.spec_path_urls().contains(
            all[j],
        ) by {
            if all == rest.push(cs.last()) && j == all.len() - 1 {
                assert(all[j] == cs.last());
            } else {
                assert(all[j] == rest[j]);
            }
        }
    }
}

/// Cache idempotence, request side: every URL handed on for a network
/// request had no cached outcome, so no cached URL is ever fetched
/// again.
pub proof fn lemma_pending_urls_uncached(
    cache: Cache,
    node: PageNode,
    ex: Option<Pattern>,
    cs: Seq<Seq<char>>,
)
    ensures
        forall|j: int|
            0 <= j < spec_pending_urls(cache, node, ex, cs).len() ==> cache.spec_get(
                #[trigger] spec_pending_urls(cache, node, ex, cs)[j],
            ) is None,
    decreases cs,
{
    if cs.len() > 0 {
        lemma_pending_urls_uncached(cache, node, ex, cs.drop_last());
        let all = spec_pending_urls(cache, node, ex, cs);
        let rest = spec_pending_urls(cache, node, ex, cs.drop_last());
        assert forall|j: int| 0 <= j < all.len() implies cache.spec_get(all[j]) is None by {
            if all == rest.push(cs.last()) && j == all.len() - 1 {
                assert(all[j] == cs.last());
            } else {
                assert(all[j] == rest[j]);
            }
        }
    }
}

/// Run one page task: test the pattern against the page, and expand the
/// page's links when its depth allows.
pub fn parse_page(
    cache: &Cache,
    max_depth: usize,
    re: &Pattern,
    exclude_urls_re: &Option<Pattern>,
    node: PageNode,
) -> (t: RunTicket)
    ensures
        (t.0 matches Some(s) ==> s@ == spec_joined_path(node.spec_path_urls())),
        (match node.page.body {
            Body::Pdf(raw) => (t.0 is Some <==> spec_matched(*re, raw@)) && t.1 is None,
            Body::Plain(tx) => (t.0 is Some <==> spec_matched(*re, tx@)) && t.1 is None,
            Body::Html(b) => (match crate::dom::dom_of(b@) {
                None => t.0 is None && t.1 is None,
                Some(dom) => {
                    &&& (t.0 is Some <==> spec_matched(*re, spec_inner_text(dom)))
                    &&& (node.spec_depth() >= max_depth ==> t.1 is None)
                    &&& (node.spec_depth() < max_depth ==> (t.1 matches Some(
                        (children, bad, rd),
                    ) && {
                        let candidates = spec_dedup(spec_links(node.page.url@, dom));
                        &&& children@.map_values(|c: PageNode| c.page.url@) == spec_child_urls(
                            *cache,
                            node,
                            *exclude_urls_re,
                            candidates,
                        )
                        &&& (forall|j: int|
                            0 <= j < children@.len() ==> (#[trigger] children@[j]).spec_depth()
                                == node.spec_depth() + 1 && children@[j].ancestors@.map_values(
                                |s: String| s@,
                            ) == node.spec_path_urls() && cache.spec_get(children@[j].page.url@)
                                == Some(Result::<Body, String>::Ok(children@[j].page.body)))
                        &&& bad == spec_bad_hits(*cache, node, *exclude_urls_re, candidates)
                        &&& rd.1@.map_values(|s: String| s@) == spec_pending_urls(
                            *cache,
                            node,
                            *exclude_urls_re,
                            candidates,
                        )
                        &&& rd.0.page == node.page && rd.0.ancestors@ == node.ancestors@
                    }))
                },
            }),
        }),
{
    let dom = match &node.page.body {
        Body::Html(b) => {
            match parse_html(b.as_str()) {
                Some(d) => d,
                None => {
                    return RunTicket(None, None);
                },
            }
        },
        Body::Pdf(raw) => {
            let m = re.is_match(raw.as_str());
            let md = if m {
                Some(node.path_from_root())
            } else {
                None
            };
            return RunTicket(md, None);
        },
        Body::Plain(tx) => {
            let m = re.is_match(tx.as_str());
            let md = if m {
                Some(node.path_from_root())
            } else {
                None
            };
            return RunTicket(md, None);
        },
    };
    // matches may span text nodes, so the page's text is matched whole
    let text = inner_text(&dom);
    let m = re.is_match(text.as_str());
    let match_data = if m {
        Some(node.path_from_root())
    } else {
        None
    };
    let depth = node.depth();
    if depth >= max_depth {
        return RunTicket(match_data, None);
    }
    let ls = links(node.page.url.as_str(), &dom);
    let ghost candidates = spec_dedup(spec_links(node.page.url@, dom));
    let mut children: Vec<PageNode> = Vec::new();
    let mut bad: usize = 0;
    let mut urls: Vec<String> = Vec::new();
    let n = ls.len();
    proof {
        assert(candidates.take(0) =~= Seq::<Seq<char>>::empty());
    }
    let mut i: usize = 0;
    while i < n
        invariant
            i <= n,
            n == ls@.len(),
            ls@.map_values(|s: String| s@) == candidates,
            children@.map_values(|c: PageNode| c.page.url@) =~= spec_child_urls(
                *cache,
                node,
                *exclude_urls_re,
                candidates.take(i as int),
            ),
            forall|j: int|
                0 <= j < children@.len() ==> (#[trigger] children@[j]).spec_depth()
                    == node.spec_depth() + 1 && children@[j].ancestors@.map_values(|s: String| s@)
                    == node.spec_path_urls() && cache.spec_get(children@[j].page.url@) == Some(
                    Result::<Body, String>::Ok(children@[j].page.body),
                ),
            bad == spec_bad_hits(*cache, node, *exclude_urls_re, candidates.take(i as int)),
            bad <= i,
            urls@.map_values(|s: String| s@) =~= spec_pending_urls(
                *cache,
                node,
                *exclude_urls_re,
                candidates.take(i as int),
            ),
        decreases n - i,
    {
        let u = ls[i].clone();
        proof {
            assert(ls@.map_values(|s: String| s@)[i as int] == ls@[i as int]@);
            assert(candidates.take(i + 1).drop_last() =~= candidates.take(i as int));
            assert(candidates.take(i + 1).last() == candidates[i as int]);
            assert(u@ == candidates[i as int]);
        }
        let mut keep = !node.lineage_contains(&u);
        if keep {
            match exclude_urls_re {
                Some(p) => {
                    if p.is_match(u.as_str()) {
                        keep = false;
                    }
                },
                None => {},
            }
        }
        if keep {
            match cache.get(u.as_str()) {
                Some(outcome) => {
                    match outcome {
                        Ok(body) => {
                            let child = PageNode::new(Some(&node), Page::new(u, body));
                            children.push(child);
                        },
                        Err(_) => {
                            bad = bad + 1;
                        },
                    }
                },
                None => {
                    urls.push(u);
                },
            }
        }
        proof {
            assert(children@.map_values(|c: PageNode| c.page.url@) =~= spec_child_urls(
                *cache,
                node,
                *exclude_urls_re,
                candidates.take(i + 1),
            ));
            assert(urls@.map_values(|s: String| s@) =~= spec_pending_urls(
                *cache,
                node,
                *exclude_urls_re,
                candidates.take(i + 1),
            ));
        }
        i = i + 1;
    }
    proof {
        assert(candidates.take(n as int) =~= candidates);
    }
    RunTicket(match_data, Some((children, bad, (node, urls))))
}

/// The bounded-parallelism scheduler.
pub struct Runner {
    pub max_depth: usize,
    pub re: Pattern,
    pub exclude_urls_re: Option<Pattern>,
    pub max_tasks: usize,
    pub num_tasks: usize,
    pub queue: Vec<PageNode>,
}

impl Runner {
    /// The scheduler invariant: never more tasks than slots, and pages
    /// wait only while every slot is taken.
    pub open spec fn wf(&self) -> bool {
        &&& self.num_tasks <= self.max_tasks
        &&& self.queue@.len() > 0 ==> self.num_tasks == self.max_tasks
    }

    /// Whether two states share their configuration.
    pub open spec fn same_config(&self, other: &Self) -> bool {
        &&& self.max_depth == other.max_depth
        &&& self.re == other.re
        &&& self.exclude_urls_re == other.exclude_urls_re
        &&& self.max_tasks == other.max_tasks
    }

    /// An idle scheduler with `max_tasks` slots.
    pub fn new(
        max_depth: usize,
        re: Pattern,
        exclude_urls_re: Option<Pattern>,
        max_tasks: usize,
    ) -> (r: Self)
        ensures
            r.wf(),
            r.max_depth == max_depth,
            r.re == re,
            r.exclude_urls_re == exclude_urls_re,
            r.max_tasks == max_tasks,
            r.num_tasks == 0,
            r.queue@.len() == 0,
    {
        Self { max_depth, re, exclude_urls_re, max_tasks, num_tasks: 0, queue: Vec::new() }
    }

    /// Remove and return a page of minimal depth; among equals, the
    /// earliest queued leaves first.
    fn pop_min(&mut self) -> (r: PageNode)
        requires
            old(self).queue@.len() > 0,
        ensures
            final(self).max_depth == old(self).max_depth,
            final(self).re == old(self).re,
            final(self).exclude_urls_re == old(self).exclude_urls_re,
            final(self).max_tasks == old(self).max_tasks,
            final(self).num_tasks == old(self).num_tasks,
            final(self).queue@.len() == old(self).queue@.len() - 1,
            exists|i: int|
                0 <= i < old(self).queue@.len() && r == old(self).queue@[i] && final(self).queue@
                    =~= old(self).queue@.remove(i),
            forall|j: int|
                0 <= j < old(self).queue@.len() ==> r.spec_depth() <= (#[trigger] old(self).queue@[j]).spec_depth(),
    {
        let n = self.queue.len();
        let mut best: usize = 0;
        let mut best_depth = self.queue[0].depth();
        let mut j: usize = 1;
        while j < n
            invariant
                1 <= j <= n,
                n == self.queue@.len(),
                best < j,
                best_depth == self.queue@[best as int].spec_depth(),
                forall|k: int|
                    0 <= k < j ==> best_depth <= (#[trigger] self.queue@[k]).spec_depth(),
            decreases n - j,
        {
            let d = self.queue[j].depth();
            if d < best_depth {
                best = j;
                best_depth = d;
            }
            j = j + 1;
        }
        let r = self.queue.remove(best);
        proof {
            assert(0 <= best < old(self).queue@.len() && r == old(self).queue@[best as int]
                && self.queue@ =~= old(self).queue@.remove(best as int));
        }
        r
    }

    /// Admit `page`: start it at once when a slot is free (the queue is
    /// then empty by the invariant), otherwise queue it.
    pub fn push(&mut self, page: PageNode) -> (r: Option<PageNode>)
        requires
            old(self).wf(),
        ensures
            final(self).wf(),
            final(self).same_config(old(self)),
            r is Some <==> old(self).num_tasks < old(self).max_tasks,
            (r matches Some(p) ==> p == page && final(self).num_tasks == old(self).num_tasks + 1
                && final(self).queue@ == old(self).queue@),
            (r is None ==> final(self).queue@ == old(self).queue@.push(page) && final(self).num_tasks == old(self).num_tasks),
    {
        if self.num_tasks < self.max_tasks {
            self.num_tasks = self.num_tasks + 1;
            Some(page)
        } else {
            self.queue.push(page);
            None
        }
    }

    /// Admit a batch of child pages: start as many as the free slots
    /// allow — draining the queue first is never needed below
    /// saturation — and queue the rest. The started and queued pages
    /// are exactly the given ones together with the old queue, and no
    /// started page is deeper than any page left waiting. Afterwards
    /// the queue is non-empty only at saturation.
    fn extend(&mut self, pages: Vec<PageNode>) -> (starts: Vec<PageNode>)
        requires
            old(self).num_tasks <= old(self).max_tasks,
        ensures
            final(self).wf(),
            final(self).same_config(old(self)),
            final(self).num_tasks == old(self).num_tasks + starts@.len(),
            starts@.len() + final(self).queue@.len() == pages@.len() + old(self).queue@.len(),
            starts@.to_multiset().add(final(self).queue@.to_multiset()) == pages@.to_multiset().add(
                old(self).queue@.to_multiset(),
            ),
            forall|j: int, k: int|
                0 <= j < starts@.len() && 0 <= k < final(self).queue@.len() ==> (
                #[trigger] starts@[j]).spec_depth() <= (#[trigger] final(self).queue@[k]).spec_depth(),
            ({
                let free = old(self).max_tasks - old(self).num_tasks;
                &&& (old(self).queue@.len() == 0 && pages@.len() <= free ==> starts@ == pages@
                    && final(self).queue@.len() == 0)
                &&& (pages@.len() + old(self).queue@.len() <= free ==> final(self).queue@.len()
                    == 0)
                &&& (pages@.len() + old(self).queue@.len() > free ==> final(self).num_tasks == old(self).max_tasks && final(self).queue@.len() > 0)
            }),
    {
        let free = self.max_tasks - self.num_tasks;
        if self.queue.len() == 0 && pages.len() <= free {
            self.num_tasks = self.num_tasks + pages.len();
            pages
        } else if pages.len() <= free && self.queue.len() <= free - pages.len() {
            let total = pages.len() + self.queue.len();
            let mut starts = pages;
            while self.queue.len() > 0
                invariant
                    self.same_config(old(self)),
                    self.num_tasks == old(self).num_tasks,
                    self.num_tasks <= self.max_tasks,
                    starts@.len() + self.queue@.len() == total,
                    total <= old(self).max_tasks - old(self).num_tasks,
                    total == pages@.len() + old(self).queue@.len(),
                    starts@.to_multiset().add(self.queue@.to_multiset()) == pages@.to_multiset().add(
                        old(self).queue@.to_multiset(),
                    ),
                decreases self.queue@.len(),
            {
                let ghost q = self.queue@;
                let ghost s0 = starts@;
                let p = self.pop_min();
                starts.push(p);
                proof {
                    let i = choose|i: int|
                        0 <= i < q.len() && p == q[i] && self.queue@ =~= q.remove(i);
                    assert(q.contains(p));
                    assert(starts@.to_multiset().add(self.queue@.to_multiset()) =~= s0.to_multiset().add(q.to_multiset()));
                }
            }
            self.num_tasks = self.num_tasks + total;
            starts
        } else {
            let mut rest = pages;
            let ghost p0 = rest@;
            proof {
                assert(p0.len() + old(self).queue@.len() > free);
            }
            while rest.len() > 0
                invariant
                    self.num_tasks == old(self).num_tasks,
                    self.same_config(old(self)),
                    rest@.len() + self.queue@.len() == p0.len() + old(self).queue@.len(),
                    rest@.to_multiset().add(self.queue@.to_multiset()) == p0.to_multiset().add(
                        old(self).queue@.to_multiset(),
                    ),
                decreases rest@.len(),
            {
                let ghost r0 = rest@;
                let ghost q0 = self.queue@;
                match rest.pop() {
                    Some(p) => {
                        self.queue.push(p);
                        proof {
                            assert(r0.drop_last().push(r0.last()) =~= r0);
                            assert(rest@.to_multiset().add(self.queue@.to_multiset())
                                =~= r0.to_multiset().add(q0.to_multiset()));
                        }
                    },
                    None => {},
                }
            }
            let mut starts: Vec<PageNode> = Vec::new();
            let mut k: usize = 0;
            while k < free
                invariant
                    k <= free,
                    free == old(self).max_tasks - old(self).num_tasks,
                    self.num_tasks == old(self).num_tasks,
                    self.same_config(old(self)),
                    starts@.len() == k,
                    self.queue@.len() + k == p0.len() + old(self).queue@.len(),
                    p0.len() + old(self).queue@.len() > free,
                    starts@.to_multiset().add(self.queue@.to_multiset()) == p0.to_multiset().add(
                        old(self).queue@.to_multiset(),
                    ),
                    forall|j1: int, k1: int|
                        0 <= j1 < starts@.len() && 0 <= k1 < self.queue@.len() ==> (
                        #[trigger] starts@[j1]).spec_depth() <= (
                        #[trigger] self.queue@[k1]).spec_depth(),
                decreases free - k,
            {
                let ghost q = self.queue@;
                let ghost s0 = starts@;
                let p = self.pop_min();
                starts.push(p);
                k = k + 1;
                proof {
                    let i = choose|i: int|
                        0 <= i < q.len() && p == q[i] && self.queue@ =~= q.remove(i);
                    assert(q.contains(p));
                    assert(starts@.to_multiset().add(self.queue@.to_multiset()) =~= s0.to_multiset().add(q.to_multiset()));
                    assert forall|j1: int, k1: int|
                        0 <= j1 < starts@.len() && 0 <= k1 < self.queue@.len() implies starts@[j1].spec_depth() <= self.queue@[k1].spec_depth() by {
                        assert(self.queue@[k1] == if k1 < i {
                            q[k1]
                        } else {
                            q[k1 + 1]
                        });
                        if j1 < s0.len() {
                            assert(starts@[j1] == s0[j1]);
                        } else {
                            assert(starts@[j1] == p);
                        }
                    }
                }
            }
            self.num_tasks = self.max_tasks;
            starts
        }
    }

    /// Take back a completed page task. An expansion ticket's children
    /// are admitted through the batch rule; a leaf ticket frees a slot,
    /// refilled with a shallowest queued page when pages are waiting.
    /// The started and still-queued pages are exactly the ticket's
    /// children together with the old queue, and no started page is
    /// deeper than any page left waiting.
    pub fn redeem(&mut self, ticket: RunTicket) -> (out: (RunOutput, Vec<PageNode>))
        requires
            old(self).wf(),
            old(self).num_tasks >= 1,
        ensures
            final(self).wf(),
            final(self).same_config(old(self)),
            out.0.0 == ticket.0,
            forall|j: int, k: int|
                0 <= j < out.1@.len() && 0 <= k < final(self).queue@.len() ==> (
                #[trigger] out.1@[j]).spec_depth() <= (#[trigger] final(self).queue@[k]).spec_depth(),
            (match ticket.1 {
                Some((pages, bad, rd)) => {
                    &&& (out.0.1 matches Some((g, b, rd2)) && g == pages@.len() && b == bad && rd2
                        == rd)
                    &&& final(self).num_tasks == old(self).num_tasks - 1 + out.1@.len()
                    &&& out.1@.len() + final(self).queue@.len() == pages@.len() + old(self).queue@.len()
                    &&& out.1@.to_multiset().add(final(self).queue@.to_multiset())
                        == pages@.to_multiset().add(old(self).queue@.to_multiset())
                },
                None => {
                    &&& out.0.1 is None
                    &&& (old(self).queue@.len() > 0 ==> out.1@.len() == 1 && final(self).num_tasks
                        == old(self).num_tasks && (exists|i: int|
                        0 <= i < old(self).queue@.len() && out.1@[0] == old(self).queue@[i] && final(self).queue@ =~= old(self).queue@.remove(i)))
                    &&& (old(self).queue@.len() == 0 ==> out.1@.len() == 0 && final(self).num_tasks
                        == old(self).num_tasks - 1 && final(self).queue@.len() == 0)
                },
            }),
    {
        self.num_tasks = self.num_tasks - 1;
        match ticket.1 {
            Some((pages, bad, rd)) => {
                let good = pages.len();
                let starts = self.extend(pages);
                ((ticket.0, Some((good, bad, rd))), starts)
            },
            None => {
                if self.queue.len() > 0 {
                    let ghost q = self.queue@;
                    let p = self.pop_min();
                    self.num_tasks = self.num_tasks + 1;
                    let mut starts: Vec<PageNode> = Vec::new();
                    starts.push(p);
                    proof {
                        let i = choose|i: int|
                            0 <= i < q.len() && p == q[i] && self.queue@ =~= q.remove(i);
                        assert forall|k: int| 0 <= k < self.queue@.len() implies p.spec_depth()
                            <= self.queue@[k].spec_depth() by {
                            assert(self.queue@[k] == if k < i {
                                q[k]
                            } else {
                                q[k + 1]
                            });
                        }
                    }
                    ((ticket.0, None), starts)
                } else {
                    ((ticket.0, None), Vec::new())
                }
            },
        }
    }
}

} // verus!
