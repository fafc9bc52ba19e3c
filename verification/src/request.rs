//! The Request Runner: the per-host scheduler.
//!
//! One fetcher exists per host key. At any instant it is in exactly one
//! of two places: idle in its host's slot, or moved out into the single
//! in-flight request for that host. `push` hands out a spawn only when
//! the host is not busy; a busy host's URLs wait in its pending list and
//! leave one at a time as completed requests are redeemed. The caller
//! performs the spawned fetches and reports each completion back through
//! `redeem` with the fetcher it carried.

use vstd::prelude::*;

use crate::client::SlowClient;
use crate::node::PageNode;
use crate::urls::{host_of, small_host_name, spec_small_host_name};

verus! {

/// A request the caller must now start: fetch `url` with `client`, and
/// hand the fetcher back with the host key when it completes.
pub struct SpawnRequest {
    pub host: String,
    pub client: SlowClient,
    pub parent: Option<PageNode>,
    pub url: String,
}

/// One host's scheduling state: the URLs waiting for the fetcher, and
/// the fetcher itself when it is idle. An empty slot means the fetcher
/// is out with an in-flight request.
pub struct HostEntry {
    pub key: String,
    pub pending: Vec<(Option<PageNode>, String)>,
    pub slot: Option<SlowClient>,
}

/// A completed request: its outcome, and the host key and fetcher the
/// in-flight task carried.
pub struct RunTicket {
    pub result: Result<PageNode, String>,
    pub host: String,
    pub client: SlowClient,
}

/// The per-host resource table.
pub struct Runner {
    pub hosts: Vec<HostEntry>,
}

/// Whether the spawned request carries the same parent lineage that was
/// handed in.
pub open spec fn spec_same_parent(a: Option<PageNode>, b: Option<&PageNode>) -> bool {
    match (a, b) {
        (Some(n), Some(q)) => n.ancestors@ == q.ancestors@ && n.page == q.page,
        (None, None) => true,
        _ => false,
    }
}

/// Whether `k` has an entry in the table.
pub open spec fn spec_has_key(hosts: Seq<HostEntry>, k: Seq<char>) -> bool {
    exists|i: int| 0 <= i < hosts.len() && hosts[i].key@ == k
}

/// The index of `k`'s entry.
pub open spec fn spec_index_of(hosts: Seq<HostEntry>, k: Seq<char>) -> int {
    choose|i: int| 0 <= i < hosts.len() && hosts[i].key@ == k
}

/// Whether `k`'s fetcher is out with an in-flight request.
pub open spec fn spec_busy(hosts: Seq<HostEntry>, k: Seq<char>) -> bool {
    spec_has_key(hosts, k) && hosts[spec_index_of(hosts, k)].slot is None
}

/// How many requests sit on pending lists over the whole table.
pub open spec fn spec_total_pending(hosts: Seq<HostEntry>) -> nat
    decreases hosts,
{
    if hosts.len() == 0 {
        0
    } else {
        spec_total_pending(hosts.drop_last()) + hosts.last().pending@.len()
    }
}

/// Tables with pointwise equal pending lengths pend equally much.
proof fn lemma_total_pending_same(a: Seq<HostEntry>, b: Seq<HostEntry>)
    requires
        a.len() == b.len(),
        forall|j: int| 0 <= j < a.len() ==> a[j].pending@.len() == b[j].pending@.len(),
    ensures
        spec_total_pending(a) == spec_total_pending(b),
    decreases a,
{
    if a.len() > 0 {
        lemma_total_pending_same(a.drop_last(), b.drop_last());
    }
}

/// One entry's pending list one longer: the table pends one more.
proof fn lemma_total_pending_one_more(a: Seq<HostEntry>, b: Seq<HostEntry>, i: int)
    requires
        a.len() == b.len(),
        0 <= i < a.len(),
        forall|j: int| 0 <= j < a.len() && j != i ==> a[j].pending@.len() == b[j].pending@.len(),
        b[i].pending@.len() == a[i].pending@.len() + 1,
    ensures
        spec_total_pending(b) == spec_total_pending(a) + 1,
    decreases a,
{
    if a.len() > 0 {
        if i == a.len() - 1 {
            lemma_total_pending_same(a.drop_last(), b.drop_last());
        } else {
            lemma_total_pending_one_more(a.drop_last(), b.drop_last(), i);
        }
    }
}

/// Whether each spawned request takes its URL from the given list, in
/// admission order: `picks` names the strictly increasing positions.
pub open spec fn spec_spawns_follow(
    spawns: Seq<SpawnRequest>,
    urls: Seq<String>,
    picks: Seq<int>,
) -> bool {
    &&& picks.len() == spawns.len()
    &&& forall|j: int|
        0 <= j < picks.len() ==> 0 <= #[trigger] picks[j] < urls.len() && spawns[j].url@
            == urls[picks[j]]@
    &&& forall|j1: int, j2: int| 0 <= j1 < j2 < picks.len() ==> picks[j1] < picks[j2]
}

impl Runner {
    /// The table invariant: one entry per host key, and a host whose
    /// fetcher is idle has nothing pending. Hence the pending list is
    /// non-empty only while its host's one fetcher is in flight.
    pub open spec fn wf(&self) -> bool {
        &&& forall|i: int, j: int|
            0 <= i < j < self.hosts@.len() ==> self.hosts@[i].key@ != self.hosts@[j].key@
        &&& forall|i: int|
            0 <= i < self.hosts@.len() ==> (self.hosts@[i].slot is Some ==> self.hosts@[i].pending@.len() == 0)
    }

    /// An empty table.
    pub fn new() -> (r: Self)
        ensures
            r.wf(),
            r.hosts@.len() == 0,
    {
        Self { hosts: Vec::new() }
    }

    /// The index of `k`'s entry, if the table has one.
    fn find(&self, k: &String) -> (r: Option<usize>)
        ensures
            (match r {
                Some(i) => spec_has_key(self.hosts@, k@) && 0 <= i < self.hosts@.len()
                    && self.hosts@[i as int].key@ == k@,
                None => !spec_has_key(self.hosts@, k@),
            }),
    {
        let n = self.hosts.len();
        let mut i: usize = 0;
        while i < n
            invariant
                i <= n,
                n == self.hosts@.len(),
                forall|j: int| 0 <= j < i ==> self.hosts@[j].key@ != k@,
            decreases n - i,
        {
            if self.hosts[i].key == *k {
                return Some(i);
            }
            i = i + 1;
        }
        None
    }

    /// Admit `url` for fetching on behalf of `parent`. When `url`'s host
    /// is new, or its fetcher is idle, the request is handed out to be
    /// started — never while another request for that host is in flight.
    /// Otherwise the request joins the host's pending list.
    pub fn push(&mut self, parent: Option<&PageNode>, url: String) -> (r: Option<SpawnRequest>)
        requires
            old(self).wf(),
        ensures
            final(self).wf(),
            ({
                let k = spec_small_host_name(host_of(url@));
                &&& (r is Some <==> !spec_busy(old(self).hosts@, k))
                &&& (r matches Some(s) ==> s.host@ == k && s.url@ == url@ && spec_same_parent(
                    s.parent,
                    parent,
                ))
                &&& spec_busy(final(self).hosts@, k)
                &&& (r is Some && spec_has_key(old(self).hosts@, k) ==> {
                    let i = spec_index_of(old(self).hosts@, k);
                    &&& final(self).hosts@.len() == old(self).hosts@.len()
                    &&& forall|j: int|
                        0 <= j < old(self).hosts@.len() && j != i ==> final(self).hosts@[j]
                            == old(self).hosts@[j]
                    &&& final(self).hosts@[i].key@ == k
                    &&& final(self).hosts@[i].pending@ == old(self).hosts@[i].pending@
                })
                &&& (r is Some && !spec_has_key(old(self).hosts@, k) ==> final(self).hosts@.len()
                    == old(self).hosts@.len() + 1 && final(self).hosts@.last().key@ == k
                    && final(self).hosts@.last().pending@.len() == 0 && forall|j: int|
                    0 <= j < old(self).hosts@.len() ==> final(self).hosts@[j]
                        == old(self).hosts@[j])
                &&& (r is None ==> {
                    let i = spec_index_of(old(self).hosts@, k);
                    &&& final(self).hosts@.len() == old(self).hosts@.len()
                    &&& forall|j: int|
                        0 <= j < old(self).hosts@.len() && j != i ==> final(self).hosts@[j]
                            == old(self).hosts@[j]
                    &&& final(self).hosts@[i].key@ == k
                    &&& final(self).hosts@[i].slot is None
                    &&& final(self).hosts@[i].pending@.len() == old(self).hosts@[i].pending@.len()
                        + 1
                    &&& final(self).hosts@[i].pending@.last().1@ == url@
                    &&& spec_same_parent(final(self).hosts@[i].pending@.last().0, parent)
                    &&& forall|j: int|
                        0 <= j < old(self).hosts@[i].pending@.len()
                            ==> final(self).hosts@[i].pending@[j]
                            == old(self).hosts@[i].pending@[j]
                })
            }),
    {
        let k = small_host_name(url.as_str());
        match self.find(&k) {
            Some(i) => {
                let ghost gi = i as int;
                let mut entry = self.hosts.remove(i);
                let taken = entry.slot.take();
                let r = match taken {
                    Some(c) => {
                        Some(
                            SpawnRequest {
                                host: k,
                                client: c,
                                parent: duplicate_parent(parent),
                                url,
                            },
                        )
                    },
                    None => {
                        entry.pending.push((duplicate_parent(parent), url));
                        None
                    },
                };
                self.hosts.insert(i, entry);
                proof {
                    assert(self.hosts@[gi].key@ == k@);
                    assert(spec_index_of(old(self).hosts@, k@) == gi) by {
                        let j = spec_index_of(old(self).hosts@, k@);
                        assert(old(self).hosts@[gi].key@ == k@);
                        if j != gi {
                            assert(old(self).hosts@[j].key@ == k@);
                        }
                    }
                    assert(spec_index_of(self.hosts@, k@) == gi) by {
                        let j = spec_index_of(self.hosts@, k@);
                        if j != gi {
                            assert(self.hosts@[j].key@ == k@);
                            assert(old(self).hosts@[j].key@ == k@);
                        }
                    }
                    assert(self.hosts@ =~= old(self).hosts@.update(gi, self.hosts@[gi]));
                }
                r
            },
            None => {
                let entry = HostEntry { key: k.clone(), pending: Vec::new(), slot: None };
                self.hosts.push(entry);
                proof {
                    let gi = self.hosts@.len() - 1;
                    assert(self.hosts@[gi].key@ == k@);
                    assert(spec_index_of(self.hosts@, k@) == gi) by {
                        let j = spec_index_of(self.hosts@, k@);
                        if j != gi {
                            assert(old(self).hosts@[j] == self.hosts@[j]);
                        }
                    }
                }
                Some(
                    SpawnRequest {
                        host: k,
                        client: SlowClient::new(),
                        parent: duplicate_parent(parent),
                        url,
                    },
                )
            },
        }
    }

    /// Take back a completed request's fetcher and outcome. When the
    /// host has pending URLs, the most recently queued one leaves with
    /// the fetcher as the host's next in-flight request; otherwise the
    /// fetcher is deposited back into the slot.
    pub fn redeem(&mut self, ticket: RunTicket) -> (out: (
        Result<PageNode, String>,
        Option<SpawnRequest>,
    ))
        requires
            old(self).wf(),
            spec_busy(old(self).hosts@, ticket.host@),
        ensures
            final(self).wf(),
            out.0 == ticket.result,
            ({
                let i = spec_index_of(old(self).hosts@, ticket.host@);
                let entry = old(self).hosts@[i];
                &&& (out.1 is Some <==> entry.pending@.len() > 0)
                &&& (out.1 matches Some(s) ==> s.host@ == ticket.host@ && s.url@
                    == entry.pending@.last().1@ && s.parent == entry.pending@.last().0
                    && spec_busy(final(self).hosts@, ticket.host@)
                    && final(self).hosts@[i].pending@ =~= entry.pending@.drop_last())
                &&& (out.1 is None ==> !spec_busy(final(self).hosts@, ticket.host@)
                    && final(self).hosts@[i].slot == Some(ticket.client))
            }),
    {
        let RunTicket { result, host, client } = ticket;
        match self.find(&host) {
            Some(i) => {
                let ghost gi = i as int;
                proof {
                    assert(spec_index_of(old(self).hosts@, host@) == gi) by {
                        let j = spec_index_of(old(self).hosts@, host@);
                        assert(old(self).hosts@[gi].key@ == host@);
                        if j != gi {
                            assert(old(self).hosts@[j].key@ == host@);
                        }
                    }
                }
                let mut entry = self.hosts.remove(i);
                let r = match entry.pending.pop() {
                    Some((p, u)) => {
                        Some(SpawnRequest { host, client, parent: p, url: u })
                    },
                    None => {
                        entry.slot = Some(client);
                        None
                    },
                };
                self.hosts.insert(i, entry);
                proof {
                    assert(self.hosts@[gi].key@ == old(self).hosts@[gi].key@);
                    assert(spec_index_of(self.hosts@, old(self).hosts@[gi].key@) == gi) by {
                        let k = old(self).hosts@[gi].key@;
                        let j = spec_index_of(self.hosts@, k);
                        assert(self.hosts@[gi].key@ == k);
                        if j != gi {
                            assert(self.hosts@[j].key@ == k);
                            assert(old(self).hosts@[j].key@ == k);
                        }
                    }
                }
                (result, r)
            },
            None => {
                // unreachable under the precondition: the ticket's host
                // was busy, so its entry exists
                proof {
                    assert(false);
                }
                (result, None)
            },
        }
    }

    /// Admit every URL of `urls`, in order, on behalf of one shared
    /// parent. Each URL is either handed out as a spawned request — in
    /// admission order, carrying the shared parent — or joins its busy
    /// host's pending list: none is dropped.
    pub fn extend(&mut self, parent: &PageNode, urls: Vec<String>) -> (spawns: Vec<
        SpawnRequest,
    >)
        requires
            old(self).wf(),
        ensures
            final(self).wf(),
            spawns@.len() + spec_total_pending(final(self).hosts@) == urls@.len()
                + spec_total_pending(old(self).hosts@),
            forall|j: int|
                0 <= j < spawns@.len() ==> spec_same_parent(
                    (#[trigger] spawns@[j]).parent,
                    Some(parent),
                ),
            exists|picks: Seq<int>| spec_spawns_follow(spawns@, urls@, picks),
            final(self).hosts@.len() >= old(self).hosts@.len(),
            forall|j: int|
                0 <= j < old(self).hosts@.len() ==> (#[trigger] final(self).hosts@[j]).key@ == old(
                    self,
                ).hosts@[j].key@,
            forall|j: int|
                0 <= j < old(self).hosts@.len() && old(self).hosts@[j].slot is Some && (
                #[trigger] final(self).hosts@[j]).slot is None ==> exists|m: int|
                    0 <= m < spawns@.len() && spawns@[m].host@ == old(self).hosts@[j].key@,
            forall|j: int|
                old(self).hosts@.len() <= j < final(self).hosts@.len() ==> exists|m: int|
                    0 <= m < spawns@.len() && spawns@[m].host@ == (
                    #[trigger] final(self).hosts@[j]).key@,
    {
        let mut spawns: Vec<SpawnRequest> = Vec::new();
        let ghost mut picks: Seq<int> = Seq::empty();
        let n = urls.len();
        let mut i: usize = 0;
        while i < n
            invariant
                i <= n,
                n == urls@.len(),
                self.wf(),
                spawns@.len() + spec_total_pending(self.hosts@) == i + spec_total_pending(
                    old(self).hosts@,
                ),
                forall|j: int|
                    0 <= j < spawns@.len() ==> spec_same_parent(
                        (#[trigger] spawns@[j]).parent,
                        Some(parent),
                    ),
                spec_spawns_follow(spawns@, urls@, picks),
                forall|j: int| 0 <= j < picks.len() ==> #[trigger] picks[j] < i,
                self.hosts@.len() >= old(self).hosts@.len(),
                forall|j: int|
                    0 <= j < old(self).hosts@.len() ==> (#[trigger] self.hosts@[j]).key@ == old(
                        self,
                    ).hosts@[j].key@,
                forall|j: int|
                    0 <= j < old(self).hosts@.len() && old(self).hosts@[j].slot is Some && (
                    #[trigger] self.hosts@[j]).slot is None ==> exists|m: int|
                        0 <= m < spawns@.len() && spawns@[m].host@ == old(self).hosts@[j].key@,
                forall|j: int|
                    old(self).hosts@.len() <= j < self.hosts@.len() ==> exists|m: int|
                        0 <= m < spawns@.len() && spawns@[m].host@ == (
                        #[trigger] self.hosts@[j]).key@,
            decreases n - i,
        {
            let u = urls[i].clone();
            let ghost pre = self.hosts@;
            let ghost sp0 = spawns@;
            let r = self.push(Some(parent), u);
            let ghost rg = r;
            proof {
                let k = spec_small_host_name(host_of(urls@[i as int]@));
                let gi = spec_index_of(pre, k);
                match r {
                    Some(_) => {
                        if spec_has_key(pre, k) {
                            assert forall|j: int| 0 <= j < pre.len() implies pre[j].pending@.len()
                                == self.hosts@[j].pending@.len() by {
                                if j != gi {
                                    assert(self.hosts@[j] == pre[j]);
                                }
                            }
                            lemma_total_pending_same(pre, self.hosts@);
                        } else {
                            assert(self.hosts@.drop_last() =~= pre);
                            assert(spec_total_pending(self.hosts@) == spec_total_pending(pre));
                        }
                    },
                    None => {
                        lemma_total_pending_one_more(pre, self.hosts@, gi);
                    },
                }
                assert forall|j: int| 0 <= j < pre.len() implies (#[trigger] self.hosts@[j]).key@
                    == pre[j].key@ by {
                    if rg is Some && !spec_has_key(pre, k) {
                        assert(self.hosts@[j] == pre[j]);
                    } else if j != gi {
                        assert(self.hosts@[j] == pre[j]);
                    } else {
                        assert(self.hosts@[gi].key@ == k && pre[gi].key@ == k);
                    }
                }
            }
            match r {
                Some(s) => {
                    spawns.push(s);
                    proof {
                        picks = picks.push(i as int);
                    }
                },
                None => {},
            }
            proof {
                let k = spec_small_host_name(host_of(urls@[i as int]@));
                let gi = spec_index_of(pre, k);
                assert forall|j: int|
                    0 <= j < old(self).hosts@.len() && old(self).hosts@[j].slot is Some && (
                    #[trigger] self.hosts@[j]).slot is None implies exists|m: int|
                        0 <= m < spawns@.len() && spawns@[m].host@
                        == old(self).hosts@[j].key@ by {
                    if pre[j].slot is None {
                        let m0 = choose|m: int|
                            0 <= m < sp0.len() && sp0[m].host@ == old(self).hosts@[j].key@;
                        assert(spawns@[m0] == sp0[m0]);
                        assert(spawns@[m0].host@ == old(self).hosts@[j].key@);
                    } else {
                        // this push took the slot: only the key's entry changed
                        assert(rg is Some && spec_has_key(pre, k) && j == gi);
                        assert(spawns@.last().host@ == k);
                        assert(old(self).hosts@[j].key@ == pre[gi].key@);
                        assert(spawns@[spawns@.len() - 1].host@ == old(self).hosts@[j].key@);
                    }
                }
                assert forall|j: int|
                    old(self).hosts@.len() <= j < self.hosts@.len() implies exists|m: int|
                        0 <= m < spawns@.len() && spawns@[m].host@ == (
                        #[trigger] self.hosts@[j]).key@ by {
                    if j < pre.len() {
                        let m0 = choose|m: int| 0 <= m < sp0.len() && sp0[m].host@ == pre[j].key@;
                        assert(spawns@[m0] == sp0[m0]);
                        assert(spawns@[m0].host@ == self.hosts@[j].key@);
                    } else {
                        // this push created the entry and handed out its spawn
                        assert(rg is Some && !spec_has_key(pre, k));
                        assert(j == self.hosts@.len() - 1);
                        assert(self.hosts@[j].key@ == k);
                        assert(spawns@.last().host@ == k);
                        assert(spawns@[spawns@.len() - 1].host@ == self.hosts@[j].key@);
                    }
                }
            }
            i = i + 1;
        }
        spawns
    }

    /// Whether `host`'s one fetcher is currently out with an in-flight
    /// request.
    pub fn is_busy(&self, host: &String) -> (r: bool)
        requires
            self.wf(),
        ensures
            r == spec_busy(self.hosts@, host@),
    {
        match self.find(host) {
            Some(i) => {
                proof {
                    let j = spec_index_of(self.hosts@, host@);
                    assert(self.hosts@[i as int].key@ == host@);
                    if j != i {
                        assert(self.hosts@[j].key@ == host@);
                    }
                }
                self.hosts[i].slot.is_none()
            },
            None => false,
        }
    }
}

/// Single flight per host: a well-formed table has at most one entry
/// per host key, so a host's in-flight state is a single bit — `push`
/// hands a request out only while it is clear, and it stays set until
/// `redeem` parks the fetcher back in the slot.
pub proof fn lemma_single_flight(r: Runner, k: Seq<char>, i: int, j: int)
    requires
        r.wf(),
        0 <= i < r.hosts@.len(),
        0 <= j < r.hosts@.len(),
        r.hosts@[i].key@ == k,
        r.hosts@[j].key@ == k,
    ensures
        i == j,
{
}

/// An owned copy of an optional parent node.
fn duplicate_parent(p: Option<&PageNode>) -> (r: Option<PageNode>)
    ensures
        (match r {
            Some(n) => (p matches Some(q) && n.ancestors@ == q.ancestors@ && n.page == q.page),
            None => p is None,
        }),
{
    match p {
        Some(n) => Some(n.duplicate()),
        None => None,
    }
}

} // verus!
