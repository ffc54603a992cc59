//! The in-memory multi-resolution variant cache.
//!
//! For every base resource (a cover URL stripped of size parameters) the
//! cache keeps the decoded variants by rank. Its abstract state is a map
//! from `(base, rank)` pairs to handles; entries are inserted or overwritten
//! and never evicted within a session. Lookups are ceiling-first: the
//! blurriest variant at or above the requested rank wins, and when nothing
//! that sharp exists the sharpest variant below is served instead, so a
//! render pass always gets *something* once any variant has arrived.

use vstd::prelude::*;
use vstd::string::*;

use crate::text::str_eq;

verus! {

/// An opaque reference to one decoded, renderable image. The pipeline never
/// looks inside a handle; the embedding application keeps the actual pixel
/// data and hands the pipeline a fresh identifier for each decode.
#[derive(Debug, Clone, Copy, PartialEq, Eq, Structural)]
pub struct ImageHandle {
    pub id: u64,
}

/// A decoded variant: a handle together with the rank it was fetched at.
#[derive(Debug, Clone, Copy, PartialEq, Eq, Structural)]
pub struct Variant {
    pub rank: u32,
    pub handle: ImageHandle,
}

struct CacheRow {
    base: String,
    rank: u32,
    handle: ImageHandle,
}

/// The variant cache; see the module doc. Its view is the map from
/// `(base, rank)` pairs to the handles stored for them.
pub struct VariantCache {
    rows: Vec<CacheRow>,
}

spec fn row_matches(row: CacheRow, b: Seq<char>, r: u32) -> bool {
    row.base@ == b && row.rank == r
}

spec fn has_row(rows: Seq<CacheRow>, b: Seq<char>, r: u32) -> bool {
    exists|i: int| 0 <= i < rows.len() && row_matches(#[trigger] rows[i], b, r)
}

spec fn no_dup(rows: Seq<CacheRow>) -> bool {
    forall|i: int, j: int|
        0 <= i < j < rows.len() ==> !row_matches(
            #[trigger] rows[i],
            #[trigger] rows[j].base@,
            rows[j].rank,
        )
}

impl View for VariantCache {
    type V = Map<(Seq<char>, u32), ImageHandle>;

    closed spec fn view(&self) -> Map<(Seq<char>, u32), ImageHandle> {
        Map::new(
            |k: (Seq<char>, u32)| has_row(self.rows@, k.0, k.1),
            |k: (Seq<char>, u32)| self.spec_at(k.0, k.1),
        )
    }
}

impl VariantCache {
    /// No two rows describe the same `(base, rank)` pair.
    pub closed spec fn wf(self) -> bool {
        no_dup(self.rows@)
    }

    spec fn spec_at(self, b: Seq<char>, r: u32) -> ImageHandle {
        let i = choose|i: int|
            0 <= i < self.rows@.len() && row_matches(#[trigger] self.rows@[i], b, r);
        self.rows@[i].handle
    }

    proof fn lemma_at_is(self, b: Seq<char>, r: u32, i: int)
        requires
            self.wf(),
            0 <= i < self.rows@.len(),
            row_matches(self.rows@[i], b, r),
        ensures
            self@.dom().contains((b, r)),
            self@[(b, r)] == self.rows@[i].handle,
    {
        assert(has_row(self.rows@, b, r));
        let j = choose|j: int|
            0 <= j < self.rows@.len() && row_matches(#[trigger] self.rows@[j], b, r);
        if i < j {
            assert(!row_matches(self.rows@[i], self.rows@[j].base@, self.rows@[j].rank));
        } else if j < i {
            assert(!row_matches(self.rows@[j], self.rows@[i].base@, self.rows@[i].rank));
        }
    }

    /// A fresh cache holds nothing.
    pub fn new() -> (r: Self)
        ensures
            r.wf(),
            r@ == Map::<(Seq<char>, u32), ImageHandle>::empty(),
    {
        let c = VariantCache { rows: Vec::new() };
        proof {
            assert(c@ =~= Map::<(Seq<char>, u32), ImageHandle>::empty());
        }
        c
    }

    /// Stores `handle` as the variant of `base` at `rank`, overwriting any
    /// previous variant at that exact rank and leaving every other entry as
    /// it was.
    pub fn insert(&mut self, base: &str, rank: u32, handle: ImageHandle)
        requires
            old(self).wf(),
        ensures
            final(self).wf(),
            final(self)@ == old(self)@.insert((base@, rank), handle),
    {
        let ghost o = self.rows@;
        let n = self.rows.len();
        let mut i: usize = 0;
        let mut found: Option<usize> = None;
        while i < n
            invariant
                i <= n,
                n == self.rows@.len(),
                self.rows@ == o,
                match found {
                    Some(j) => j < i && row_matches(o[j as int], base@, rank),
                    None => forall|k: int| 0 <= k < i ==> !row_matches(#[trigger] o[k], base@, rank),
                },
            decreases n - i,
        {
            if found.is_none() && str_eq(self.rows[i].base.as_str(), base)
                && self.rows[i].rank == rank {
                found = Some(i);
            }
            i += 1;
        }
        let row = CacheRow { base: base.to_owned(), rank, handle };
        let ghost at: int;
        match found {
            Some(j) => {
                self.rows[j] = row;
                proof {
                    at = j as int;
                    assert(self.rows@ =~= o.update(at, self.rows@[at]));
                }
            },
            None => {
                self.rows.push(row);
                proof {
                    at = o.len() as int;
                }
            },
        }
        proof {
            let f = self.rows@;
            // The new row sits at `at`; everything else is the old row with
            // the same index, and no old row outside `at` describes
            // `(base, rank)`.
            assert(row_matches(f[at], base@, rank));
            assert(forall|k: int| 0 <= k < f.len() && k != at ==> #[trigger] f[k] == o[k]);
            assert forall|k: int| 0 <= k < f.len() && k != at implies !row_matches(
                #[trigger] f[k],
                base@,
                rank,
            ) by {
                match found {
                    Some(j) => {
                        if k < at {
                            assert(!row_matches(o[k], o[at].base@, o[at].rank));
                        } else {
                            assert(!row_matches(o[at], o[k].base@, o[k].rank));
                        }
                        assert(row_matches(o[at], base@, rank));
                    },
                    None => {},
                }
            }
            assert forall|p: int, q: int| 0 <= p < q < f.len() implies !row_matches(
                #[trigger] f[p],
                #[trigger] f[q].base@,
                f[q].rank,
            ) by {
                if p != at && q != at {
                    assert(!row_matches(o[p], o[q].base@, o[q].rank));
                } else if p == at {
                    assert(!row_matches(f[q], base@, rank));
                } else {
                    assert(!row_matches(f[p], base@, rank));
                }
            }
            let m0 = old(self)@;
            let m1 = self@;
            let mi = m0.insert((base@, rank), handle);
            assert forall|k: (Seq<char>, u32)| #[trigger] m1.dom().contains(k) implies mi.dom().contains(k)
                && m1[k] == mi[k] by {
                let (b2, r2) = k;
                let i1 = choose|i1: int| 0 <= i1 < f.len() && row_matches(#[trigger] f[i1], b2, r2);
                self.lemma_at_is(b2, r2, i1);
                if b2 == base@ && r2 == rank {
                    self.lemma_at_is(base@, rank, at);
                } else {
                    assert(i1 != at);
                    assert(o[i1] == f[i1]);
                    old(self).lemma_at_is(b2, r2, i1);
                }
            }
            assert forall|k: (Seq<char>, u32)| #[trigger] mi.dom().contains(k) implies m1.dom().contains(
                k,
            ) by {
                let (b2, r2) = k;
                if b2 == base@ && r2 == rank {
                    assert(row_matches(f[at], b2, r2));
                    assert(has_row(f, b2, r2));
                } else {
                    let i0 = choose|i0: int| 0 <= i0 < o.len() && row_matches(#[trigger] o[i0], b2, r2);
                    assert(i0 != at || !row_matches(o[i0], base@, rank));
                    if i0 == at {
                        match found {
                            Some(j) => {
                                assert(row_matches(o[at], base@, rank));
                            },
                            None => {},
                        }
                        assert(false);
                    }
                    assert(row_matches(f[i0], b2, r2));
                    assert(has_row(f, b2, r2));
                }
            }
            assert(m1 =~= mi);
        }
    }

    /// Whether a variant at exactly `rank` is present for `base`. This, not
    /// "is anything displayable", decides whether a fetch is still needed.
    pub fn has_exact(&self, base: &str, rank: u32) -> (r: bool)
        requires
            self.wf(),
        ensures
            r == self@.dom().contains((base@, rank)),
    {
        let n = self.rows.len();
        let mut i: usize = 0;
        while i < n
            invariant
                i <= n,
                self.wf(),
                n == self.rows@.len(),
                forall|k: int| 0 <= k < i ==> !row_matches(#[trigger] self.rows@[k], base@, rank),
            decreases n - i,
        {
            if str_eq(self.rows[i].base.as_str(), base) && self.rows[i].rank == rank {
                proof {
                    self.lemma_at_is(base@, rank, i as int);
                }
                return true;
            }
            i += 1;
        }
        proof {
            if self@.dom().contains((base@, rank)) {
                let k = choose|k: int|
                    0 <= k < self.rows@.len() && row_matches(#[trigger] self.rows@[k], base@, rank);
            }
        }
        false
    }

    /// The best variant stored for `base` relative to `target`: the lowest
    /// rank at or above `target` when one exists, otherwise the highest rank
    /// below it, otherwise nothing.
    pub fn best_available(&self, base: &str, target: u32) -> (r: Option<Variant>)
        requires
            self.wf(),
        ensures
            r == spec_best(self@, base@, target),
    {
        let n = self.rows.len();
        let mut i: usize = 0;
        let mut ceil: Option<Variant> = None;
        let mut floor: Option<Variant> = None;
        while i < n
            invariant
                i <= n,
                self.wf(),
                n == self.rows@.len(),
                match ceil {
                    Some(v) => v.rank >= target && self@.dom().contains((base@, v.rank))
                        && v.handle == self@[(base@, v.rank)] && forall|k: int|
                        0 <= k < i && #[trigger] self.rows@[k].base@ == base@
                            && self.rows@[k].rank >= target ==> self.rows@[k].rank >= v.rank,
                    None => forall|k: int|
                        0 <= k < i && #[trigger] self.rows@[k].base@ == base@
                            ==> self.rows@[k].rank < target,
                },
                match floor {
                    Some(v) => v.rank < target && self@.dom().contains((base@, v.rank))
                        && v.handle == self@[(base@, v.rank)] && forall|k: int|
                        0 <= k < i && #[trigger] self.rows@[k].base@ == base@
                            && self.rows@[k].rank < target ==> self.rows@[k].rank <= v.rank,
                    None => forall|k: int|
                        0 <= k < i && #[trigger] self.rows@[k].base@ == base@
                            ==> self.rows@[k].rank >= target,
                },
            decreases n - i,
        {
            if str_eq(self.rows[i].base.as_str(), base) {
                let rk = self.rows[i].rank;
                let h = self.rows[i].handle;
                proof {
                    self.lemma_at_is(base@, rk, i as int);
                }
                if rk >= target {
                    match ceil {
                        Some(v) => {
                            if rk < v.rank {
                                ceil = Some(Variant { rank: rk, handle: h });
                            }
                        },
                        None => {
                            ceil = Some(Variant { rank: rk, handle: h });
                        },
                    }
                } else {
                    match floor {
                        Some(v) => {
                            if rk > v.rank {
                                floor = Some(Variant { rank: rk, handle: h });
                            }
                        },
                        None => {
                            floor = Some(Variant { rank: rk, handle: h });
                        },
                    }
                }
            }
            i += 1;
        }
        proof {
            let m = self@;
            let b = base@;
            match ceil {
                Some(v) => {
                    assert forall|r2: u32| m.dom().contains((b, r2)) && r2 >= target implies v.rank
                        <= r2 by {
                        let k = choose|k: int|
                            0 <= k < self.rows@.len() && row_matches(#[trigger] self.rows@[k], b, r2);
                    }
                    lemma_best_is_ceiling(m, b, target, v);
                },
                None => {
                    assert forall|r2: u32| #[trigger] m.dom().contains((b, r2)) implies r2 < target by {
                        let k = choose|k: int|
                            0 <= k < self.rows@.len() && row_matches(#[trigger] self.rows@[k], b, r2);
                    }
                    match floor {
                        Some(v) => {
                            assert forall|r2: u32| #[trigger] m.dom().contains((b, r2)) implies r2
                                <= v.rank by {
                                let k = choose|k: int|
                                    0 <= k < self.rows@.len() && row_matches(
                                        #[trigger] self.rows@[k],
                                        b,
                                        r2,
                                    );
                            }
                            lemma_best_is_floor(m, b, target, v);
                        },
                        None => {
                            lemma_best_is_none(m, b, target);
                        },
                    }
                },
            }
        }
        match ceil {
            Some(v) => Some(v),
            None => floor,
        }
    }
}

/// Ceiling semantics: when `v` is stored for `b`, has rank at or above the
/// target, and no stored rank at or above the target is below `v`'s, the
/// cache serves exactly `v` — a sharper-or-equal variant always beats a
/// blurrier one.
pub proof fn lemma_best_is_ceiling(
    m: Map<(Seq<char>, u32), ImageHandle>,
    b: Seq<char>,
    target: u32,
    v: Variant,
)
    requires
        m.dom().contains((b, v.rank)),
        m[(b, v.rank)] == v.handle,
        v.rank >= target,
        forall|r2: u32| m.dom().contains((b, r2)) && r2 >= target ==> v.rank <= r2,
    ensures
        spec_best(m, b, target) == Some(v),
{
    assert(m.dom().contains((b, v.rank)) && v.rank >= target);
    let r = choose|r: u32|
        #![auto]
        m.dom().contains((b, r)) && r >= target && (forall|r2: u32|
            m.dom().contains((b, r2)) && r2 >= target ==> r <= r2);
    assert(r <= v.rank && v.rank <= r);
}

/// Graceful degradation: when every stored rank for `b` is below the target
/// and `v` is the highest of them, the cache serves `v` — something is
/// always shown once anything is cached.
pub proof fn lemma_best_is_floor(
    m: Map<(Seq<char>, u32), ImageHandle>,
    b: Seq<char>,
    target: u32,
    v: Variant,
)
    requires
        m.dom().contains((b, v.rank)),
        m[(b, v.rank)] == v.handle,
        v.rank < target,
        forall|r2: u32| m.dom().contains((b, r2)) ==> r2 <= v.rank,
    ensures
        spec_best(m, b, target) == Some(v),
{
    assert(forall|r: u32| !(#[trigger] m.dom().contains((b, r)) && r >= target));
    assert(m.dom().contains((b, v.rank)));
    let r = choose|r: u32|
        #![auto]
        m.dom().contains((b, r)) && (forall|r2: u32| m.dom().contains((b, r2)) ==> r2 <= r);
    assert(r <= v.rank && v.rank <= r);
}

/// A base with no stored variants yields nothing.
pub proof fn lemma_best_is_none(m: Map<(Seq<char>, u32), ImageHandle>, b: Seq<char>, target: u32)
    requires
        forall|r: u32| !(#[trigger] m.dom().contains((b, r))),
    ensures
        spec_best(m, b, target) is None,
{
}

/// Insertion is the only source of exactness: after storing a variant for
/// `(b, r)`, exactly the pairs that were present before plus `(b, r)` are
/// present, and a fresh cache has none at all — so `has_exact` answers true
/// precisely when a variant was inserted at that pair and nothing (and
/// nothing can) removed it.
pub proof fn lemma_exact_only_by_insert(
    m: Map<(Seq<char>, u32), ImageHandle>,
    b: Seq<char>,
    r: u32,
    h: ImageHandle,
    b2: Seq<char>,
    r2: u32,
)
    ensures
        m.insert((b, r), h).dom().contains((b2, r2)) <==> ((b2 == b && r2 == r)
            || m.dom().contains((b2, r2))),
        !Map::<(Seq<char>, u32), ImageHandle>::empty().dom().contains((b2, r2)),
{
}

/// The best variant the cache can serve for base `b` at rank `target`: the
/// ceiling variant (lowest stored rank at or above `target`) when one
/// exists, else the floor variant (highest stored rank), else nothing.
pub open spec fn spec_best(
    m: Map<(Seq<char>, u32), ImageHandle>,
    b: Seq<char>,
    target: u32,
) -> Option<Variant> {
    if exists|r: u32| #[trigger] m.dom().contains((b, r)) && r >= target {
        let r = choose|r: u32|
            #![auto]
            m.dom().contains((b, r)) && r >= target && (forall|r2: u32|
                m.dom().contains((b, r2)) && r2 >= target ==> r <= r2);
        Some(Variant { rank: r, handle: m[(b, r)] })
    } else if exists|r: u32| #[trigger] m.dom().contains((b, r)) {
        let r = choose|r: u32|
            #![auto]
            m.dom().contains((b, r)) && (forall|r2: u32| m.dom().contains((b, r2)) ==> r2 <= r);
        Some(Variant { rank: r, handle: m[(b, r)] })
    } else {
        None
    }
}

} // verus!
