//! The set of fully resolved URLs whose fetch has been enqueued and has not
//! completed yet.
//!
//! Reserving a URL is the single deduplication gate of the pipeline: a
//! fetch may be enqueued only when the reservation succeeds, and every
//! completion — success or failure — releases the reservation so the URL can
//! be retried by a later render pass. The tracker guards network efficiency
//! only; it never affects what the cache serves.

use vstd::prelude::*;
use vstd::string::*;

use crate::text::str_eq;

verus! {

/// The in-flight set; its view is the set of reserved URL strings.
pub struct InFlightTracker {
    urls: Vec<String>,
}

spec fn has_url(urls: Seq<String>, u: Seq<char>) -> bool {
    exists|i: int| 0 <= i < urls.len() && #[trigger] urls[i]@ == u
}

impl View for InFlightTracker {
    type V = Set<Seq<char>>;

    closed spec fn view(&self) -> Set<Seq<char>> {
        Set::new(|u: Seq<char>| has_url(self.urls@, u))
    }
}

impl InFlightTracker {
    /// Each reserved URL is recorded once.
    pub closed spec fn wf(self) -> bool {
        forall|i: int, j: int| 0 <= i < j < self.urls@.len() ==> #[trigger] self.urls@[i]@ != #[trigger] self.urls@[j]@
    }

    /// Nothing is in flight at the start.
    pub fn new() -> (r: Self)
        ensures
            r.wf(),
            r@ == Set::<Seq<char>>::empty(),
    {
        let t = InFlightTracker { urls: Vec::new() };
        proof {
            assert(t@ =~= Set::<Seq<char>>::empty());
        }
        t
    }

    /// Reserves `url` for fetching. Returns true — and the caller may
    /// enqueue — only when the URL was not already in flight; either way the
    /// URL is in flight afterwards.
    pub fn try_reserve(&mut self, url: &str) -> (r: bool)
        requires
            old(self).wf(),
        ensures
            final(self).wf(),
            r == !old(self)@.contains(url@),
            final(self)@ == old(self)@.insert(url@),
    {
        let n = self.urls.len();
        let mut i: usize = 0;
        while i < n
            invariant
                i <= n,
                old(self).wf(),
                self.urls@ == old(self).urls@,
                n == self.urls@.len(),
                forall|k: int| 0 <= k < i ==> #[trigger] self.urls@[k]@ != url@,
            decreases n - i,
        {
            if str_eq(self.urls[i].as_str(), url) {
                proof {
                    assert(has_url(self.urls@, url@));
                    assert(self@ =~= self@.insert(url@));
                }
                return false;
            }
            i += 1;
        }
        let ghost o = self.urls@;
        self.urls.push(url.to_owned());
        proof {
            assert(!has_url(o, url@));
            let f = self.urls@;
            assert(forall|k: int| 0 <= k < o.len() ==> #[trigger] f[k] == o[k]);
            assert(f[o.len() as int]@ == url@);
            assert forall|u: Seq<char>| #[trigger] has_url(f, u) implies has_url(o, u) || u == url@ by {
                let k = choose|k: int| 0 <= k < f.len() && #[trigger] f[k]@ == u;
                if k < o.len() {
                    assert(o[k]@ == u);
                }
            }
            assert forall|u: Seq<char>| has_url(o, u) || u == url@ implies #[trigger] has_url(f, u) by {
                if u == url@ {
                    assert(f[o.len() as int]@ == u);
                } else {
                    let k = choose|k: int| 0 <= k < o.len() && #[trigger] o[k]@ == u;
                    assert(f[k]@ == u);
                }
            }
            assert forall|p: int, q: int| 0 <= p < q < f.len() implies #[trigger] f[p]@
                != #[trigger] f[q]@ by {
                if q < o.len() {
                    assert(o[p]@ != o[q]@);
                } else {
                    assert(f[p]@ == o[p]@ && o[p]@ != url@);
                }
            }
            assert(self@ =~= old(self)@.insert(url@));
        }
        true
    }

    /// Releases `url` after its fetch completed, successfully or not, so a
    /// later miss can enqueue it again. Releasing a URL that is not in
    /// flight changes nothing.
    pub fn release(&mut self, url: &str)
        requires
            old(self).wf(),
        ensures
            final(self).wf(),
            final(self)@ == old(self)@.remove(url@),
    {
        let n = self.urls.len();
        let mut i: usize = 0;
        while i < n
            invariant
                i <= n,
                old(self).wf(),
                self.urls@ == old(self).urls@,
                n == self.urls@.len(),
                forall|k: int| 0 <= k < i ==> #[trigger] self.urls@[k]@ != url@,
            decreases n - i,
        {
            if str_eq(self.urls[i].as_str(), url) {
                let ghost o = self.urls@;
                let ghost at = i as int;
                self.urls.remove(i);
                proof {
                    let f = self.urls@;
                    assert forall|u: Seq<char>| #[trigger] has_url(f, u) implies has_url(o, u) && u
                        != url@ by {
                        let k = choose|k: int| 0 <= k < f.len() && #[trigger] f[k]@ == u;
                        let k0: int = if k < at {
                            k
                        } else {
                            k + 1
                        };
                        assert(o[k0]@ == u);
                        if k0 < at {
                            assert(o[k0]@ != o[at]@);
                        } else if at < k0 {
                            assert(o[at]@ != o[k0]@);
                        }
                    }
                    assert forall|u: Seq<char>| has_url(o, u) && u != url@ implies #[trigger] has_url(
                        f,
                        u,
                    ) by {
                        let k0 = choose|k0: int| 0 <= k0 < o.len() && #[trigger] o[k0]@ == u;
                        if k0 < at {
                            assert(f[k0]@ == u);
                        } else {
                            assert(k0 != at);
                            assert(f[k0 - 1]@ == u);
                        }
                    }
                    assert forall|p: int, q: int| 0 <= p < q < f.len() implies #[trigger] f[p]@
                        != #[trigger] f[q]@ by {
                        let p0: int = if p < at {
                            p
                        } else {
                            p + 1
                        };
                        let q0: int = if q < at {
                            q
                        } else {
                            q + 1
                        };
                        assert(f[p] == o[p0] && f[q] == o[q0]);
                    }
                    assert(self@ =~= old(self)@.remove(url@));
                }
                return ;
            }
            i += 1;
        }
        proof {
            if has_url(self.urls@, url@) {
                let k = choose|k: int| 0 <= k < self.urls@.len() && #[trigger] self.urls@[k]@ == url@;
            }
            assert(self@ =~= old(self)@.remove(url@));
        }
    }
}

} // verus!
