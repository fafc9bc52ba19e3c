//! Page lineage.
//!
//! Every visited page records the chain of URLs through which it was
//! reached, root-first. The chain gives a node its depth, the ancestor
//! set used for cycle suppression, and the `" > "`-joined path printed
//! when a page matches.

use vstd::prelude::*;

use crate::page::Page;

verus! {

/// The separator between URLs in a printed path.
pub open spec fn path_sep() -> Seq<char> {
    " > "@
}

/// The URLs of a lineage joined root-first by `" > "`.
pub open spec fn spec_joined_path(urls: Seq<Seq<char>>) -> Seq<char>
    decreases urls.len(),
{
    if urls.len() == 0 {
        Seq::empty()
    } else if urls.len() == 1 {
        urls[0]
    } else {
        spec_joined_path(urls.drop_last()) + path_sep() + urls.last()
    }
}

/// A visited page together with the URLs of its proper ancestors,
/// root-first. A seed has no ancestors.
pub struct PageNode {
    pub ancestors: Vec<String>,
    pub page: Page,
}

impl PageNode {
    /// Link depth: 0 for a seed, one more than the parent otherwise.
    pub open spec fn spec_depth(&self) -> nat {
        self.ancestors@.len()
    }

    /// The lineage URLs root-first, this page's URL last.
    pub open spec fn spec_path_urls(&self) -> Seq<Seq<char>> {
        self.ancestors@.map_values(|s: String| s@).push(self.page.url@)
    }

    /// A node for `page` reached from `parent` (or a seed, without one).
    pub fn new(parent: Option<&PageNode>, page: Page) -> (n: PageNode)
        ensures
            n.page == page,
            match parent {
                Some(p) => n.ancestors@.map_values(|s: String| s@) == p.spec_path_urls(),
                None => n.ancestors@.len() == 0,
            },
            match parent {
                Some(p) => n.spec_depth() == p.spec_depth() + 1,
                None => n.spec_depth() == 0,
            },
    {
        match parent {
            None => PageNode { ancestors: Vec::new(), page },
            Some(p) => {
                let mut chain = clone_urls(&p.ancestors);
                chain.push(p.page.url.clone());
                proof {
                    assert(chain@.map_values(|s: String| s@) =~= p.spec_path_urls());
                }
                PageNode { ancestors: chain, page }
            },
        }
    }

    /// An owned copy of this node.
    pub fn duplicate(&self) -> (n: PageNode)
        ensures
            n.ancestors@ == self.ancestors@,
            n.page == self.page,
    {
        PageNode { ancestors: clone_urls(&self.ancestors), page: self.page.duplicate() }
    }

    /// The node's link depth.
    pub fn depth(&self) -> (d: usize)
        ensures
            d == self.spec_depth(),
    {
        self.ancestors.len()
    }

    /// Whether `u` appears in this node's lineage (itself included).
    pub fn lineage_contains(&self, u: &String) -> (r: bool)
        ensures
            r == self.spec_path_urls().contains(u@),
    {
        if self.page.url == *u {
            proof {
                assert(self.spec_path_urls().last() == u@);
            }
            return true;
        }
        let n = self.ancestors.len();
        let mut i: usize = 0;
        while i < n
            invariant
                i <= n,
                n == self.ancestors@.len(),
                self.page.url@ != u@,
                forall|k: int| 0 <= k < i ==> self.ancestors@[k]@ != u@,
            decreases n - i,
        {
            if self.ancestors[i] == *u {
                proof {
                    assert(self.spec_path_urls()[i as int] == u@);
                }
                return true;
            }
            i = i + 1;
        }
        proof {
            assert forall|k: int| 0 <= k < self.spec_path_urls().len() implies self.spec_path_urls()[k]
                != u@ by {
                if k < self.ancestors@.len() {
                    assert(self.spec_path_urls()[k] == self.ancestors@[k]@);
                } else {
                    assert(self.spec_path_urls()[k] == self.page.url@);
                }
            }
        }
        false
    }

    /// The printed path for this node: its lineage URLs root-first,
    /// joined by `" > "`.
    pub fn path_from_root(&self) -> (s: String)
        ensures
            s@ == spec_joined_path(self.spec_path_urls()),
    {
        let ghost path = self.spec_path_urls();
        let mut out = String::new();
        let n = self.ancestors.len();
        let mut i: usize = 0;
        while i < n
            invariant
                i <= n,
                n == self.ancestors@.len(),
                path == self.spec_path_urls(),
                path.len() == n + 1,
                forall|k: int| 0 <= k < n ==> path[k] == self.ancestors@[k]@,
                out@ == if i == 0 {
                    Seq::<char>::empty()
                } else {
                    spec_joined_path(path.take(i as int)) + path_sep()
                },
            decreases n - i,
        {
            out.append(self.ancestors[i].as_str());
            out.append(" > ");
            proof {
                assert(path.take(i + 1).last() == path[i as int]);
                assert(path.take(i + 1).drop_last() =~= path.take(i as int));
                if i == 0 {
                    assert(out@ =~= spec_joined_path(path.take(1)) + path_sep());
                } else {
                    assert(out@ =~= spec_joined_path(path.take(i + 1)) + path_sep());
                }
            }
            i = i + 1;
        }
        out.append(self.page.url.as_str());
        proof {
            assert(path.last() == self.page.url@);
            if n == 0 {
                assert(out@ =~= spec_joined_path(path));
            } else {
                assert(path.drop_last() =~= path.take(n as int));
                assert(out@ =~= spec_joined_path(path));
            }
        }
        out
    }
}

/// An owned copy of a vector of strings.
pub fn clone_urls(v: &Vec<String>) -> (r: Vec<String>)
    ensures
        r@ == v@,
{
    let mut r: Vec<String> = Vec::new();
    let n = v.len();
    let mut i: usize = 0;
    while i < n
        invariant
            i <= n,
            n == v@.len(),
            r@ =~= v@.take(i as int),
        decreases n - i,
    {
        r.push(v[i].clone());
        i = i + 1;
    }
    proof {
        assert(r@ =~= v@);
    }
    r
}

} // verus!
