//! The image-loading pipeline: the render-facing façade and the loader
//! transitions, tied together over one abstract model.
//!
//! A render pass calls [`ImagePipeline::resolve`] once per visible image.
//! The call never blocks and never fails: it answers with the best variant
//! the cache can serve right now (or a placeholder), and — when the exact
//! tier is missing and its resolved URL is not already in flight — enqueues
//! exactly one fetch. A worker pool drains the queue with
//! [`ImagePipeline::next_fetch`] and reports every completion through
//! [`ImagePipeline::on_fetch_decoded`] or [`ImagePipeline::on_fetch_failed`];
//! both release the in-flight reservation, and only a successful decode
//! stores a variant. Errors are absorbed here: a failed fetch leaves no
//! trace but the continued absence of the variant, and the next render pass
//! naturally retries.

use vstd::prelude::*;
use vstd::string::*;

use crate::fetch_queue::FetchQueue;
use crate::image_size::ImageSize;
use crate::image_size::rank_of;
use crate::image_size::spec_apply_to_url;
use crate::in_flight::InFlightTracker;
use crate::url::is_param_segment;
use crate::url::lemma_resolved_round_trip;
use crate::url::spec_base_of;
use crate::url::spec_param_value;
use crate::url::spec_query_of;
use crate::url::spec_tier_of;
use crate::url::split_resolved;
use crate::variant_cache::ImageHandle;
use crate::variant_cache::VariantCache;
use crate::variant_cache::spec_best;

verus! {

/// What a render pass should draw for a requested image.
#[derive(Debug, Clone, Copy, PartialEq, Eq, Structural)]
pub enum DisplayDecision {
    /// Draw this decoded variant (possibly a lower tier than asked for).
    ShowVariant(ImageHandle),
    /// Nothing is cached yet; draw the placeholder.
    ShowPlaceholder,
}

/// The one outbound notification: a variant became available, re-query the
/// façade.
#[derive(Debug, Clone, Copy, PartialEq, Eq, Structural)]
pub enum ImageLoaderEvent {
    ImageLoaded,
}

/// The abstract state of the pipeline: the variant cache, the in-flight
/// set, and the fetch queue.
pub struct PipelineModel {
    pub cache: Map<(Seq<char>, u32), ImageHandle>,
    pub in_flight: Set<Seq<char>>,
    pub queue: Seq<Seq<char>>,
}

/// How `resolve` changes the pipeline state: when the exact tier is cached
/// nothing happens; otherwise the resolved URL is reserved and enqueued
/// unless it is already in flight.
pub open spec fn step_resolve(m: PipelineModel, base: Seq<char>, tier: ImageSize) -> PipelineModel {
    if m.cache.dom().contains((base, rank_of(tier))) {
        m
    } else {
        let full = spec_apply_to_url(base, tier);
        if m.in_flight.contains(full) {
            m
        } else {
            PipelineModel {
                cache: m.cache,
                in_flight: m.in_flight.insert(full),
                queue: m.queue.push(full),
            }
        }
    }
}

/// What `resolve` answers: the ceiling-or-floor best variant, else the
/// placeholder. The answer depends only on the cache, never on what was
/// enqueued.
pub open spec fn spec_decision(m: PipelineModel, base: Seq<char>, tier: ImageSize) -> DisplayDecision {
    match spec_best(m.cache, base, rank_of(tier)) {
        Some(v) => DisplayDecision::ShowVariant(v.handle),
        None => DisplayDecision::ShowPlaceholder,
    }
}

/// How a successful fetch-and-decode of `full` changes the state: the base
/// resource and tier are recovered from the resolved URL alone, the variant
/// is stored at that rank, and the reservation is released.
pub open spec fn step_fetched(m: PipelineModel, full: Seq<char>, h: ImageHandle) -> PipelineModel {
    PipelineModel {
        cache: m.cache.insert((spec_base_of(full), rank_of(spec_tier_of(full))), h),
        in_flight: m.in_flight.remove(full),
        queue: m.queue,
    }
}

/// How a failed fetch changes the state: only the reservation is released,
/// so a later render pass can retry; the cache keeps serving what it had.
pub open spec fn step_failed(m: PipelineModel, full: Seq<char>) -> PipelineModel {
    PipelineModel { cache: m.cache, in_flight: m.in_flight.remove(full), queue: m.queue }
}

/// The pipeline state shared by the render loop and the worker pool.
pub struct ImagePipeline {
    cache: VariantCache,
    in_flight: InFlightTracker,
    queue: FetchQueue,
}

impl View for ImagePipeline {
    type V = PipelineModel;

    closed spec fn view(&self) -> PipelineModel {
        PipelineModel { cache: self.cache@, in_flight: self.in_flight@, queue: self.queue@ }
    }
}

impl ImagePipeline {
    /// The component invariants hold.
    pub closed spec fn wf(self) -> bool {
        self.cache.wf() && self.in_flight.wf()
    }

    /// A pipeline with nothing cached, nothing in flight and nothing
    /// queued.
    pub fn new() -> (r: Self)
        ensures
            r.wf(),
            r@.cache == Map::<(Seq<char>, u32), ImageHandle>::empty(),
            r@.in_flight == Set::<Seq<char>>::empty(),
            r@.queue == Seq::<Seq<char>>::empty(),
    {
        ImagePipeline {
            cache: VariantCache::new(),
            in_flight: InFlightTracker::new(),
            queue: FetchQueue::new(),
        }
    }

    /// Serves the best variant currently cached for `base` relative to
    /// `tier` — a placeholder when nothing is cached — and, when the exact
    /// tier is missing, schedules at most one deduplicated fetch of the
    /// resolved URL. Never blocks, never fails.
    pub fn resolve(&mut self, base: &str, tier: ImageSize) -> (r: DisplayDecision)
        requires
            old(self).wf(),
        ensures
            final(self).wf(),
            final(self)@ == step_resolve(old(self)@, base@, tier),
            r == spec_decision(old(self)@, base@, tier),
    {
        let target = tier.to_rank();
        let decision = match self.cache.best_available(base, target) {
            Some(v) => DisplayDecision::ShowVariant(v.handle),
            None => DisplayDecision::ShowPlaceholder,
        };
        if !self.cache.has_exact(base, target) {
            let full = tier.apply_to_url(base);
            if self.in_flight.try_reserve(full.as_str()) {
                self.queue.push_back(full);
            } else {
                proof {
                    assert(old(self)@.in_flight.insert(full@) =~= old(self)@.in_flight);
                }
            }
        }
        decision
    }

    /// How many fetches are waiting for a worker.
    pub fn queue_len(&self) -> (r: usize)
        ensures
            r == self@.queue.len(),
    {
        self.queue.len()
    }

    /// A worker takes the oldest queued fetch; the cache and the in-flight
    /// set are untouched.
    pub fn next_fetch(&mut self) -> (r: Option<String>)
        requires
            old(self).wf(),
        ensures
            final(self).wf(),
            final(self)@.cache == old(self)@.cache,
            final(self)@.in_flight == old(self)@.in_flight,
            old(self)@.queue.len() == 0 ==> r is None && final(self)@.queue == old(self)@.queue,
            old(self)@.queue.len() > 0 ==> (r matches Some(u) && u@ == old(self)@.queue[0]
                && final(self)@.queue == old(self)@.queue.drop_first()),
    {
        self.queue.pop_front()
    }

    /// A fetch of `full_url` came back and its bytes decoded: the variant
    /// is stored under the base resource and rank recovered from the URL,
    /// the reservation is released, and the returned event tells the render
    /// loop to re-query. Both state changes happen before the event exists,
    /// so a listener that re-queries on the event observes the new variant.
    pub fn on_fetch_decoded(&mut self, full_url: &str, handle: ImageHandle) -> (ev: ImageLoaderEvent)
        requires
            old(self).wf(),
        ensures
            final(self).wf(),
            final(self)@ == step_fetched(old(self)@, full_url@, handle),
            ev == ImageLoaderEvent::ImageLoaded,
    {
        let (base, tier) = split_resolved(full_url);
        let rank = tier.to_rank();
        self.cache.insert(base.as_str(), rank, handle);
        self.in_flight.release(full_url);
        ImageLoaderEvent::ImageLoaded
    }

    /// A fetch of `full_url` failed (network or decode): only the
    /// reservation is released. No variant appears, nothing propagates to
    /// the render loop, and the next miss re-enqueues the URL.
    pub fn on_fetch_failed(&mut self, full_url: &str)
        requires
            old(self).wf(),
        ensures
            final(self).wf(),
            final(self)@ == step_failed(old(self)@, full_url@),
    {
        self.in_flight.release(full_url);
    }
}

/// One `resolve` call enqueues at most one fetch — the queue either stays
/// as it is or grows by exactly the resolved URL — and it certainly stays
/// as it is when the exact tier is already cached or the URL is already in
/// flight.
pub proof fn lemma_resolve_enqueues_at_most_one(m: PipelineModel, base: Seq<char>, tier: ImageSize)
    ensures
        step_resolve(m, base, tier).queue == m.queue || step_resolve(m, base, tier).queue
            == m.queue.push(spec_apply_to_url(base, tier)),
        m.cache.dom().contains((base, rank_of(tier))) ==> step_resolve(m, base, tier) == m,
        m.in_flight.contains(spec_apply_to_url(base, tier)) ==> step_resolve(m, base, tier) == m,
{
}

/// A successful fetch lands where the request looked: for a base URL
/// without a query string of its own, completing the fetch of the URL that
/// `resolve` enqueued for `(base, tier)` stores the decoded handle exactly
/// at `(base, rank(tier))`, releases the reservation, and touches nothing
/// else — so the next `resolve` of the same request serves it and enqueues
/// nothing.
pub proof fn lemma_fetch_completes_request(
    m: PipelineModel,
    base: Seq<char>,
    tier: ImageSize,
    h: ImageHandle,
)
    requires
        !base.contains('?'),
    ensures
        ({
            let full = spec_apply_to_url(base, tier);
            let m1 = step_fetched(m, full, h);
            m1.cache == m.cache.insert((base, rank_of(tier)), h) && m1.in_flight
                == m.in_flight.remove(full) && m1.queue == m.queue && step_resolve(m1, base, tier)
                == m1
        }),
{
    base.index_of_first_ensures('?');
    assert(spec_query_of(base) == Seq::<char>::empty());
    lemma_empty_query_has_no_param();
    lemma_resolved_round_trip(base, tier);
    assert(spec_base_of(base) == base);
}

/// An empty query string carries no size parameter.
proof fn lemma_empty_query_has_no_param()
    ensures
        spec_param_value(Seq::<char>::empty()) is None,
{
    reveal_strlit("param=");
    let q = Seq::<char>::empty();
    q.index_of_first_ensures('&');
    match q.index_of_first('&') {
        Some(i) => {
            assert(q.contains('&'));
            let k = choose|k: int| 0 <= k < q.len() && q[k] == '&';
        },
        None => {
            assert(!is_param_segment(q));
        },
    }
}

/// Resolving the same request twice in immediate succession enqueues at
/// most one fetch in total: the first call's reservation makes the second
/// call change nothing.
pub proof fn lemma_resolve_idempotent(m: PipelineModel, base: Seq<char>, tier: ImageSize)
    ensures
        step_resolve(step_resolve(m, base, tier), base, tier) == step_resolve(m, base, tier),
{
    let m1 = step_resolve(m, base, tier);
    if m.cache.dom().contains((base, rank_of(tier))) {
    } else {
        let full = spec_apply_to_url(base, tier);
        if m.in_flight.contains(full) {
        } else {
            assert(m1.in_flight.contains(full));
        }
    }
}

} // verus!
