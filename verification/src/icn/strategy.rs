//! Forwarding strategies.

use crate::icn::data::{Data, DataView};
use crate::icn::face::FaceId;
use crate::icn::interest;
use crate::icn::interest::{Interest, InterestSelector, InterestView, SelectorView};
use crate::icn::pit::{PitEntry, PitView};
use crate::wire;
use vstd::prelude::*;

verus! {

/// What to do with an Interest.
#[derive(Debug, Clone, PartialEq, Eq)]
pub enum StrategyDecision {
    /// Forward it to a face.
    ForwardTo(FaceId),
    /// Forward it to several faces.
    Multicast(Vec<FaceId>),
    /// Wait for the answer to a pending Interest.
    SuppressAggregate,
    /// Answer it from the content store.
    ServeFromCache,
    /// Give up.
    NoRoute,
}

/// A decision over sequences.
pub enum DecisionView {
    ForwardTo(FaceId),
    Multicast(Seq<FaceId>),
    SuppressAggregate,
    ServeFromCache,
    NoRoute,
}

impl View for StrategyDecision {
    type V = DecisionView;

    open spec fn view(&self) -> DecisionView {
        match *self {
            StrategyDecision::ForwardTo(f) => DecisionView::ForwardTo(f),
            StrategyDecision::Multicast(fs) => DecisionView::Multicast(fs@),
            StrategyDecision::SuppressAggregate => DecisionView::SuppressAggregate,
            StrategyDecision::ServeFromCache => DecisionView::ServeFromCache,
            StrategyDecision::NoRoute => DecisionView::NoRoute,
        }
    }
}

/// A pending Interest that may be missing.
pub open spec fn pending_view(p: Option<&PitEntry>) -> Option<PitView> {
    match p {
        Some(e) => Some(e@),
        None => None,
    }
}

/// Data that may be missing.
pub open spec fn cached_view(c: Option<&Data>) -> Option<DataView> {
    match c {
        Some(d) => Some(d@),
        None => None,
    }
}

/// Decides what to do with an Interest. Only what is in the content store can be served
/// from it.
pub trait Strategy {
    /// The decision.
    spec fn decision(
        &self,
        interest: InterestView,
        faces: Seq<(FaceId, u8)>,
        pending: Option<PitView>,
        cached: Option<DataView>,
    ) -> DecisionView;

    /// Decides, given the faces of the longest prefix with their costs, a pending
    /// Interest of that name, and what the content store has.
    fn decide(
        &self,
        interest: &Interest,
        fib_faces: &[(FaceId, u8)],
        pit_hit: Option<&PitEntry>,
        cs_hit: Option<&Data>,
    ) -> (d: StrategyDecision)
        ensures
            d@ == self.decision(
                interest@,
                fib_faces@,
                pending_view(pit_hit),
                cached_view(cs_hit),
            ),
            d is ServeFromCache ==> cs_hit is Some,
    ;
}

/// Whether a selector lets cached Data answer.
pub open spec fn allows(s: Option<SelectorView>, d: DataView) -> bool {
    match s {
        None => true,
        Some(s) => {
            &&& !s.must_be_fresh
            &&& (s.min_sequence matches Some(min) ==> (d.metadata.sequence matches Some(seq)
                && seq >= min))
            &&& (d.metadata.content_hash matches Some(h) ==> !s.exclude_hashes.contains(h))
        },
    }
}

/// The face of the lowest cost; of several the first.
pub open spec fn cheapest(faces: Seq<(FaceId, u8)>, i: int) -> bool {
    &&& 0 <= i < faces.len()
    &&& forall|j: int| 0 <= j < faces.len() ==> faces[i].1 <= (#[trigger] faces[j]).1
    &&& forall|j: int| 0 <= j < i ==> faces[i].1 < (#[trigger] faces[j]).1
}

/// From the content store where the selector allows it; with a pending Interest of the
/// same name; or to the cheapest face.
pub open spec fn best_route(
    interest: InterestView,
    faces: Seq<(FaceId, u8)>,
    pending: Option<PitView>,
    cached: Option<DataView>,
) -> DecisionView {
    if cached matches Some(d) && allows(interest.selector, d) {
        DecisionView::ServeFromCache
    } else if pending is Some {
        DecisionView::SuppressAggregate
    } else if faces.len() > 0 {
        DecisionView::ForwardTo(faces[choose|i: int| cheapest(faces, i)].0)
    } else {
        DecisionView::NoRoute
    }
}

/// Forwards to the cheapest face.
#[derive(Debug, Clone, Copy, PartialEq, Eq)]
pub struct BestRoute;

impl BestRoute {
    pub fn new() -> (b: Self)
        ensures
            b == BestRoute,
    {
        BestRoute
    }
}

/// Whether a hash is in a list.
fn lists_hash(hashes: &Vec<[u8; 32]>, h: &[u8; 32]) -> (r: bool)
    ensures
        r <==> interest::all_hashes(hashes@).contains(h@),
{
    let mut i: usize = 0;
    while i < hashes.len()
        invariant
            i <= hashes@.len(),
            forall|j: int| 0 <= j < i ==> #[trigger] interest::all_hashes(hashes@)[j] != h@,
        decreases hashes@.len() - i,
    {
        let listed: [u8; 32] = hashes[i];
        if wire::same_bytes(listed.as_slice(), h.as_slice()) {
            assert(interest::all_hashes(hashes@)[i as int] == h@);
            return true;
        }
        i = i + 1;
    }
    false
}

/// Whether a selector lets cached Data answer.
pub fn selector_allows(selector: &Option<InterestSelector>, d: &Data) -> (r: bool)
    ensures
        r <==> allows(
            (match *selector {
                Some(s) => Some(s@),
                None => None,
            }),
            d@,
        ),
{
    match selector {
        None => true,
        Some(s) => {
            if s.must_be_fresh {
                return false;
            }
            let new_enough: bool = match (s.min_sequence, d.metadata.sequence) {
                (Some(min), Some(seq)) => seq >= min,
                (Some(_), None) => false,
                (None, _) => true,
            };
            if !new_enough {
                return false;
            }
            match &d.metadata.content_hash {
                None => true,
                Some(h) => !lists_hash(&s.exclude_hashes, h),
            }
        },
    }
}

impl Strategy for BestRoute {
    open spec fn decision(
        &self,
        interest: InterestView,
        faces: Seq<(FaceId, u8)>,
        pending: Option<PitView>,
        cached: Option<DataView>,
    ) -> DecisionView {
        best_route(interest, faces, pending, cached)
    }

    fn decide(
        &self,
        interest: &Interest,
        fib_faces: &[(FaceId, u8)],
        pit_hit: Option<&PitEntry>,
        cs_hit: Option<&Data>,
    ) -> (d: StrategyDecision) {
        match cs_hit {
            Some(data) => {
                if selector_allows(&interest.selector, data) {
                    return StrategyDecision::ServeFromCache;
                }
            },
            None => {},
        }
        if pit_hit.is_some() {
            return StrategyDecision::SuppressAggregate;
        }
        if fib_faces.len() == 0 {
            return StrategyDecision::NoRoute;
        }
        let mut best: usize = 0;
        let mut i: usize = 1;
        while i < fib_faces.len()
            invariant
                best < i <= fib_faces@.len(),
                forall|j: int|
                    0 <= j < i ==> fib_faces@[best as int].1 <= (#[trigger] fib_faces@[j]).1,
                forall|j: int|
                    0 <= j < best ==> fib_faces@[best as int].1 < (#[trigger] fib_faces@[j]).1,
            decreases fib_faces@.len() - i,
        {
            if fib_faces[i].1 < fib_faces[best].1 {
                best = i;
            }
            i = i + 1;
        }
        proof {
            assert(cheapest(fib_faces@, best as int));
            let k = choose|k: int| cheapest(fib_faces@, k);
            assert(fib_faces@[k].1 == fib_faces@[best as int].1);
            assert(k == best);
        }
        StrategyDecision::ForwardTo(fib_faces[best].0)
    }
}

/// Cached Data answers every Interest without a selector.
pub proof fn law_cache_first(
    interest: InterestView,
    faces: Seq<(FaceId, u8)>,
    pending: Option<PitView>,
    d: DataView,
)
    requires
        interest.selector is None,
    ensures
        best_route(interest, faces, pending, Some(d)) == DecisionView::ServeFromCache,
{
}

/// An Interest that must be fresh is never served from the content store.
pub proof fn law_fresh_skips_cache(
    interest: InterestView,
    faces: Seq<(FaceId, u8)>,
    pending: Option<PitView>,
    cached: Option<DataView>,
)
    requires
        interest.selector matches Some(s) && s.must_be_fresh,
    ensures
        best_route(interest, faces, pending, cached) != DecisionView::ServeFromCache,
{
}

/// Cached Data that answers an Interest with a least sequence number has a sequence number
/// that is not below it; Data without one, or with a lower one, does not answer. Where a
/// selector asks for nothing else, cached Data with such a sequence number does answer.
pub proof fn law_least_sequence(
    interest: InterestView,
    faces: Seq<(FaceId, u8)>,
    pending: Option<PitView>,
    d: DataView,
    least: u64,
)
    requires
        interest.selector matches Some(s) && s.min_sequence == Some(least),
    ensures
        best_route(interest, faces, pending, Some(d)) is ServeFromCache ==> (
        d.metadata.sequence matches Some(seq) && least <= seq),
        interest.selector matches Some(s) && !s.must_be_fresh && s.exclude_hashes.len() == 0 && (
        d.metadata.sequence matches Some(seq) && least <= seq) ==> best_route(
            interest,
            faces,
            pending,
            Some(d),
        ) is ServeFromCache,
{
}

/// Cached Data whose hash an Interest excludes does not answer it. Where a selector asks
/// for nothing else, any other Data answers.
pub proof fn law_excluded_content(
    interest: InterestView,
    faces: Seq<(FaceId, u8)>,
    pending: Option<PitView>,
    d: DataView,
    hash: Seq<u8>,
    k: int,
)
    requires
        d.metadata.content_hash == Some(hash),
        interest.selector is Some,
    ensures
        0 <= k < interest.selector->0.exclude_hashes.len()
            && interest.selector->0.exclude_hashes[k] == hash ==> !(best_route(
            interest,
            faces,
            pending,
            Some(d),
        ) is ServeFromCache),
        (forall|j: int|
            0 <= j < interest.selector->0.exclude_hashes.len()
                ==> interest.selector->0.exclude_hashes[j] != hash)
            && !interest.selector->0.must_be_fresh && interest.selector->0.min_sequence is None
            ==> best_route(interest, faces, pending, Some(d)) is ServeFromCache,
{
}

/// Nothing but cached Data is served from the content store.
pub proof fn law_only_cached_is_served(
    interest: InterestView,
    faces: Seq<(FaceId, u8)>,
    pending: Option<PitView>,
)
    ensures
        !(best_route(interest, faces, pending, None) is ServeFromCache),
{
}

/// An Interest that the content store does not answer joins the pending Interest of its
/// name, and is not sent out again.
pub proof fn law_pending_is_joined(
    interest: InterestView,
    faces: Seq<(FaceId, u8)>,
    pending: PitView,
    cached: Option<DataView>,
)
    requires
        !(best_route(interest, faces, Some(pending), cached) is ServeFromCache),
    ensures
        best_route(interest, faces, Some(pending), cached) is SuppressAggregate,
        !(best_route(interest, faces, None, cached) is SuppressAggregate),
{
}

/// An Interest that the content store does not answer, and that is the only one of its
/// name, goes to one of the given faces, and none of them costs less. It is given up only
/// where there is no face.
pub proof fn law_cheapest_face(
    interest: InterestView,
    faces: Seq<(FaceId, u8)>,
    cached: Option<DataView>,
)
    requires
        !(best_route(interest, faces, None, cached) is ServeFromCache),
    ensures
        faces.len() == 0 ==> best_route(interest, faces, None, cached) is NoRoute,
        faces.len() > 0 ==> exists|i: int|
            0 <= i < faces.len() && best_route(interest, faces, None, cached)
                == DecisionView::ForwardTo((#[trigger] faces[i]).0) && (forall|j: int|
                0 <= j < faces.len() ==> faces[i].1 <= (#[trigger] faces[j]).1) && (forall|j: int|
                0 <= j < i ==> faces[i].1 != (#[trigger] faces[j]).1),
{
    if faces.len() > 0 {
        lemma_cheapest_exists(faces);
        let i = choose|i: int| cheapest(faces, i);
        assert(faces[i].0 == faces[i].0);
    }
}

/// Some face is the cheapest.
proof fn lemma_cheapest_exists(faces: Seq<(FaceId, u8)>)
    requires
        faces.len() > 0,
    ensures
        exists|i: int| cheapest(faces, i),
    decreases faces.len(),
{
    if faces.len() == 1 {
        assert(cheapest(faces, 0));
    } else {
        let rest = faces.drop_last();
        lemma_cheapest_exists(rest);
        let k = choose|i: int| cheapest(rest, i);
        let n = faces.len() - 1;
        assert(forall|j: int| 0 <= j < n ==> faces[j] == #[trigger] rest[j]);
        if faces[n].1 < faces[k].1 {
            assert forall|j: int| 0 <= j < faces.len() implies faces[n].1 <= (
            #[trigger] faces[j]).1 by {
                if j < n {
                    assert(rest[k].1 <= rest[j].1);
                }
            }
            assert forall|j: int| 0 <= j < n implies faces[n].1 < (#[trigger] faces[j]).1 by {
                assert(rest[k].1 <= rest[j].1);
            }
            assert(cheapest(faces, n));
        } else {
            assert forall|j: int| 0 <= j < faces.len() implies faces[k].1 <= (
            #[trigger] faces[j]).1 by {
                if j < n {
                    assert(rest[k].1 <= rest[j].1);
                }
            }
            assert forall|j: int| 0 <= j < k implies faces[k].1 < (#[trigger] faces[j]).1 by {
                assert(rest[k].1 < rest[j].1);
            }
            assert(cheapest(faces, k));
        }
    }
}

/// A selector lets Data answer exactly where it does not ask for fresh Data, the Data's
/// sequence number is not below the least one asked for, and its hash is not excluded.
pub proof fn law_selector_allows(selector: &Option<InterestSelector>, d: &Data, r: bool)
    requires
        call_ensures(selector_allows, (selector, d), r),
    ensures
        *selector is None ==> r,
        *selector matches Some(s) ==> (r <==> {
            &&& !s.must_be_fresh
            &&& (s.min_sequence matches Some(least) ==> (d.metadata.sequence matches Some(seq)
                && least <= seq))
            &&& (d.metadata.content_hash matches Some(h) ==> forall|i: int|
                0 <= i < s.exclude_hashes@.len() ==> (#[trigger] s.exclude_hashes@[i])@ != h@)
        }),
{
    if let Some(s) = *selector {
        if let Some(h) = d.metadata.content_hash {
            let all = interest::all_hashes(s.exclude_hashes@);
            if all.contains(h@) {
                let i = choose|i: int| 0 <= i < all.len() && all[i] == h@;
                assert(s.exclude_hashes@[i]@ == h@);
            }
            assert forall|i: int| 0 <= i < s.exclude_hashes@.len() && (
            #[trigger] s.exclude_hashes@[i])@ == h@ implies all.contains(h@) by {
                assert(all[i] == h@);
            }
        }
    }
}

} // verus!
