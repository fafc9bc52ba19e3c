//! The fetch-outcome cache.
//!
//! A mapping from URL to fetch outcome. Successes and terminal errors
//! are both recorded, so a URL that failed once is never fetched again
//! within a run. Lookups are last-write-wins; `set` never fails
//! observably.

use vstd::prelude::*;

use crate::client::{duplicate_response, Response};

verus! {

/// A recorded mapping from URL strings to fetch outcomes.
pub struct Cache {
    pub entries: Vec<(String, Response)>,
}

/// The outcome most recently recorded for `u` in `entries`.
pub open spec fn seq_lookup(entries: Seq<(String, Response)>, u: Seq<char>) -> Option<Response>
    decreases entries.len(),
{
    if entries.len() == 0 {
        None
    } else if entries.last().0@ == u {
        Some(entries.last().1)
    } else {
        seq_lookup(entries.drop_last(), u)
    }
}

impl Cache {
    /// The recorded outcome for `u`, if any.
    pub open spec fn spec_get(&self, u: Seq<char>) -> Option<Response> {
        seq_lookup(self.entries@, u)
    }

    /// An empty cache.
    pub fn new() -> (c: Self)
        ensures
            forall|u: Seq<char>| c.spec_get(u) is None,
    {
        Self { entries: Vec::new() }
    }

    /// Look up the recorded outcome for `u`. Never blocks, never fails.
    pub fn get(&self, u: &str) -> (r: Option<Response>)
        ensures
            r == self.spec_get(u@),
    {
        let key: String = u.to_owned();
        let n = self.entries.len();
        proof {
            assert(self.entries@.take(n as int) =~= self.entries@);
        }
        let mut j: usize = n;
        while j > 0
            invariant
                j <= n,
                n == self.entries@.len(),
                key@ == u@,
                seq_lookup(self.entries@, u@) == seq_lookup(self.entries@.take(j as int), u@),
            decreases j,
        {
            let entry = &self.entries[j - 1];
            proof {
                assert(self.entries@.take(j as int).len() == j);
                assert(self.entries@.take(j as int).last() == self.entries@[j - 1]);
                assert(self.entries@.take(j as int).drop_last() =~= self.entries@.take(j - 1));
            }
            if entry.0 == key {
                proof {
                    assert(seq_lookup(self.entries@.take(j as int), u@) == Some(
                        self.entries@[j - 1].1,
                    ));
                }
                return Some(duplicate_response(&entry.1));
            }
            proof {
                assert(seq_lookup(self.entries@.take(j as int), u@) == seq_lookup(
                    self.entries@.take(j - 1),
                    u@,
                ));
            }
            j = j - 1;
        }
        proof {
            assert(self.entries@.take(0) =~= Seq::<(String, Response)>::empty());
        }
        None
    }

    /// Record the outcome for `u`. Later lookups of `u` see `v`; every
    /// other URL keeps its recorded outcome.
    pub fn set(&mut self, u: &str, v: &Response)
        ensures
            final(self).spec_get(u@) == Some(*v),
            forall|k: Seq<char>| k != u@ ==> final(self).spec_get(k) == old(self).spec_get(k),
    {
        let owned: String = u.to_owned();
        let copy = duplicate_response(v);
        self.entries.push((owned, copy));
        proof {
            assert(self.entries@.last().0@ == u@);
            assert(self.entries@.drop_last() =~= old(self).entries@);
        }
    }
}

} // verus!
