//! The forwarder: content store, forwarding table, pending Interests and strategy.
//!
//! An Interest is begun, decided on and acted on; what has to be waited for is named in
//! the resulting [`Step`]. Once a face has answered, the Interest is completed:
//!
//! ```text
//! Interest: loop check -> content store -> pending Interests -> routes -> strategy
//!           -> answer, wait, or forward and complete
//! Data:     proof check -> pending Interests -> waiters -> content store
//! ```
//!
//! Who waits for an answer is known by a number, which the caller hands in.

use crate::crypto::primitives;
use crate::icn::cs;
use crate::icn::cs::{CachedData, ContentStore};
use crate::icn::data;
use crate::icn::data::{Data, DataView};
use crate::icn::face::{FaceCapabilities, FaceId};
use crate::icn::fib;
use crate::icn::fib::Fib;
use crate::icn::interest::{Interest, InterestView};
use crate::icn::name::{Name, NameView};
use crate::icn::pit;
use crate::icn::pit::{Pit, PitEntry, PitView};
use crate::icn::strategy;
use crate::icn::strategy::{BestRoute, DecisionView, Strategy, StrategyDecision};
use crate::identity::Keys;
use crate::span;
use crate::span::TimeSpan;
use crate::table::Table;
use crate::text;
use crate::transport::proofs;
use crate::transport::proofs::ProofError;
use crate::wire;
use std::collections::HashMap;
use vstd::prelude::*;

verus! {

broadcast use vstd::std_specs::hash::group_hash_axioms;

// --- Waiters ---

/// Who waits for the answer to a pending Interest.
pub struct PitNotifier {
    pub waiters: Table<Name, Vec<u64>>,
}

/// The waiters of a name, in the order in which they came.
pub open spec fn waiting(m: Map<NameView, Seq<u64>>, n: NameView) -> Seq<u64> {
    if m.dom().contains(n) {
        m[n]
    } else {
        Seq::empty()
    }
}

impl View for PitNotifier {
    type V = Map<NameView, Seq<u64>>;

    open spec fn view(&self) -> Map<NameView, Seq<u64>> {
        Map::new(
            |k: NameView| self.waiters@.dom().contains(k),
            |k: NameView| self.waiters@[k]@,
        )
    }
}

impl PitNotifier {
    pub open spec fn wf(&self) -> bool {
        self.waiters.wf()
    }

    /// Nobody waits.
    pub fn new() -> (n: Self)
        ensures
            n.wf(),
            n@ == Map::<NameView, Seq<u64>>::empty(),
    {
        let n = PitNotifier { waiters: Table::new() };
        assert(n@ =~= Map::<NameView, Seq<u64>>::empty());
        n
    }

    /// Adds a waiter for a name.
    pub fn register(&mut self, name: &Name, waiter: u64)
        requires
            old(self).wf(),
        ensures
            final(self).wf(),
            final(self)@ == old(self)@.insert(name@, waiting(old(self)@, name@).push(waiter)),
    {
        let mut list: Vec<u64> = match self.waiters.remove(name) {
            Some(l) => l,
            None => Vec::new(),
        };
        assert(list@ =~= waiting(old(self)@, name@));
        list.push(waiter);
        self.waiters.insert(name.duplicate(), list);
        assert(self@ =~= old(self)@.insert(name@, waiting(old(self)@, name@).push(waiter)));
    }

    /// Takes out the waiters of a name, who are to be told the result.
    pub fn notify(&mut self, name: &Name) -> (woken: Vec<u64>)
        requires
            old(self).wf(),
        ensures
            final(self).wf(),
            final(self)@ == old(self)@.remove(name@),
            woken@ == waiting(old(self)@, name@),
    {
        let woken: Vec<u64> = match self.waiters.remove(name) {
            Some(l) => l,
            None => Vec::new(),
        };
        assert(woken@ =~= waiting(old(self)@, name@));
        assert(self@ =~= old(self)@.remove(name@));
        woken
    }
}

// --- Results ---

/// What comes of an Interest: Data, nothing in time, or an error.
pub type InterestResult = Result<Option<Data>, String>;

/// A result over byte sequences.
pub type ResultView = Result<Option<DataView>, Seq<char>>;

/// A result over byte sequences.
pub open spec fn result_view(r: InterestResult) -> ResultView {
    match r {
        Ok(Some(d)) => Ok(Some(d@)),
        Ok(None) => Ok(None),
        Err(e) => Err(e@),
    }
}

/// Data that may be missing, over byte sequences.
pub open spec fn data_view(d: Option<Data>) -> Option<DataView> {
    match d {
        Some(x) => Some(x@),
        None => None,
    }
}

/// What is to be done with an Interest.
pub enum Step {
    /// This is the result.
    Done(InterestResult),
    /// Wait until the pending Interest of that name is answered.
    Wait,
    /// Express the Interest on a face, and complete it with what comes back.
    Forward(FaceId),
    /// Express the Interest on several faces; the first Data completes it.
    Multicast(Vec<FaceId>),
}

/// A step over byte sequences.
pub enum StepView {
    Done(ResultView),
    Wait,
    Forward(FaceId),
    Multicast(Seq<FaceId>),
}

impl View for Step {
    type V = StepView;

    open spec fn view(&self) -> StepView {
        match *self {
            Step::Done(r) => StepView::Done(result_view(r)),
            Step::Wait => StepView::Wait,
            Step::Forward(f) => StepView::Forward(f),
            Step::Multicast(fs) => StepView::Multicast(fs@),
        }
    }
}

/// Those that Data goes to.
#[derive(Debug, Clone, PartialEq, Eq)]
pub struct Recipients {
    /// The faces that asked for it.
    pub faces: Vec<FaceId>,
    /// Those who wait for it here.
    pub waiters: Vec<u64>,
}

/// Whether an answer brings Data.
pub open spec fn brings_data(r: InterestResult) -> bool {
    r matches Ok(Some(_))
}

/// The Data of the first answer that brings some; of the answers of several faces, it
/// counts.
pub fn first_data(answers: &Vec<InterestResult>) -> (r: Option<Data>)
    ensures
        (match r {
            Some(d) => exists|i: int|
                0 <= i < answers@.len() && (#[trigger] answers@[i] matches Ok(Some(x)) && x@ == d@)
                    && forall|j: int| 0 <= j < i ==> !brings_data(#[trigger] answers@[j]),
            None => forall|i: int| 0 <= i < answers@.len() ==> !brings_data(#[trigger] answers@[i]),
        }),
{
    let mut i: usize = 0;
    while i < answers.len()
        invariant
            i <= answers@.len(),
            forall|j: int| 0 <= j < i ==> !brings_data(#[trigger] answers@[j]),
        decreases answers@.len() - i,
    {
        match &answers[i] {
            Ok(Some(d)) => {
                assert(brings_data(answers@[i as int]));
                return Some(d.duplicate());
            },
            _ => {
                assert(!brings_data(answers@[i as int]));
            },
        }
        i = i + 1;
    }
    None
}

// --- The forwarder ---

/// The forwarder.
pub struct Forwarder<S: Strategy> {
    pub cs: ContentStore,
    pub fib: Fib,
    pub pit: Pit,
    pub strategy: S,
    pub faces: HashMap<FaceId, FaceCapabilities>,
    pub notifier: PitNotifier,
    /// The keys of known producers, by producer hash.
    pub key_store: Table<Vec<u8>, Keys>,
}

/// The producer that a name starts with.
pub open spec fn producer(n: NameView) -> Seq<u8> {
    if n.0.len() > 0 {
        n.0[0]
    } else {
        Seq::empty()
    }
}

/// What is wrong with the proof of some Data, if anything: its producer must be known
/// and have signed name and content.
pub open spec fn complaint(keys: Map<Seq<u8>, Keys>, d: DataView) -> Option<Seq<char>> {
    let digest = data::signed_digest(d.name, d.content);
    if !keys.dom().contains(producer(d.name)) {
        Some("unknown producer: "@ + text::byte_list(producer(d.name)))
    } else if d.signature.packet_hash@ != primitives::sha256_digest(digest) {
        Some("signature verification failed: "@ + ProofError::HashMismatch.message())
    } else if !primitives::ed25519_accepts(
        keys[producer(d.name)].identity(),
        digest,
        d.signature.signature@,
    ) {
        Some("signature verification failed: "@ + ProofError::SignatureMismatch.message())
    } else {
        None
    }
}

/// What looking an Interest up does to a content store, and finds there.
pub open spec fn looked_up(
    before: ContentStore,
    after: ContentStore,
    interest: InterestView,
    cached: Option<DataView>,
) -> bool {
    let hit = cached is Some;
    &&& after.room() == before.room()
    &&& after.hits == (if hit {
        before.hits.wrapping_add(1)
    } else {
        before.hits
    })
    &&& after.misses == (if hit {
        before.misses
    } else {
        before.misses.wrapping_add(1)
    })
    &&& if interest.can_be_prefix {
        &&& after.contents() == before.contents()
        &&& (match cached {
            Some(d) => exists|i: int|
                #[trigger] cs::best_prefix(before.contents(), interest.name, i) && d
                    == before.contents()[i].1.data@,
            None => !cs::any_prefix(before.contents(), interest.name),
        })
    } else {
        &&& after.contents() == cs::used(before.contents(), interest.name)
        &&& cached == (match cs::found(before.contents(), interest.name) {
            Some(c) => Some(c.data@),
            None => None,
        })
    }
}

/// What putting Data in does to a content store.
pub open spec fn cached_as(
    before: ContentStore,
    after: ContentStore,
    d: DataView,
    now: TimeSpan,
) -> bool {
    &&& after.room() == before.room()
    &&& after.hits == before.hits
    &&& after.misses == before.misses
    &&& exists|c: CachedData|
        c.data@ == d && c.inserted_at == now.secs && after.contents() == #[trigger] cs::pushed(
            before.contents(),
            before.room(),
            d.name,
            c,
        )
}

/// How long an Interest stays pending on a face: its lifetime, or the disruption that
/// the face tolerates (four seconds for an unknown face) where that is longer.
pub open spec fn pending_time(
    faces: Map<FaceId, FaceCapabilities>,
    interest: InterestView,
    face: FaceId,
) -> TimeSpan {
    span::longer_span(
        interest.lifetime,
        if faces.dom().contains(face) {
            faces[face].disruption_tolerance
        } else {
            TimeSpan { secs: 4, nanos: 0 }
        },
    )
}

/// The faces of a list that are registered.
pub open spec fn registered(faces: Map<FaceId, FaceCapabilities>, ids: Seq<FaceId>) -> Seq<FaceId>
    decreases ids.len(),
{
    if ids.len() == 0 {
        ids
    } else if faces.dom().contains(ids.last()) {
        registered(faces, ids.drop_last()).push(ids.last())
    } else {
        registered(faces, ids.drop_last())
    }
}

impl<S: Strategy> Forwarder<S> {
    /// Every table is well-formed.
    pub open spec fn wf(&self) -> bool {
        &&& self.cs.wf()
        &&& self.fib.wf()
        &&& self.pit.wf()
        &&& self.notifier.wf()
        &&& self.key_store.wf()
    }

    /// A forwarder with a strategy, without faces and routes, that caches up to 1000
    /// Data.
    pub fn with_strategy(strategy: S) -> (f: Self)
        ensures
            f.wf(),
            f.strategy == strategy,
            f.cs.contents() == Seq::<(NameView, CachedData)>::empty(),
            f.cs.room() == 1000,
            f.cs.hits == 0,
            f.cs.misses == 0,
            f.fib@ == Seq::<(NameView, Seq<(FaceId, u8)>)>::empty(),
            f.pit.table() == Map::<NameView, PitView>::empty(),
            f.pit.nonces@.len() == 0,
            f.faces@ == Map::<FaceId, FaceCapabilities>::empty(),
            f.notifier@ == Map::<NameView, Seq<u64>>::empty(),
            f.key_store@ == Map::<Seq<u8>, Keys>::empty(),
    {
        Forwarder {
            cs: ContentStore::new(1000),
            fib: Fib::new(),
            pit: Pit::new(),
            strategy,
            faces: HashMap::new(),
            notifier: PitNotifier::new(),
            key_store: Table::new(),
        }
    }

    /// Registers a face.
    pub fn register_face(&mut self, id: FaceId, capabilities: FaceCapabilities)
        ensures
            final(self).faces@ == old(self).faces@.insert(id, capabilities),
            *final(self) == (Forwarder { faces: final(self).faces, ..*old(self) }),
    {
        self.faces.insert(id, capabilities);
    }

    /// Removes a face, and every route to it.
    pub fn unregister_face(&mut self, face_id: FaceId)
        requires
            old(self).wf(),
        ensures
            final(self).wf(),
            final(self).faces@ == old(self).faces@.remove(face_id),
            final(self).fib@ == fib::routes_without(old(self).fib@, face_id),
            *final(self) == (Forwarder {
                faces: final(self).faces,
                fib: final(self).fib,
                ..*old(self)
            }),
    {
        self.faces.remove(&face_id);
        self.fib.remove_face(face_id);
    }

    /// Adds a route.
    pub fn add_route(&mut self, prefix: Name, face_id: FaceId, cost: u8)
        requires
            old(self).wf(),
        ensures
            final(self).wf(),
            final(self).fib@ == fib::with_route(old(self).fib@, prefix@, face_id, cost),
            *final(self) == (Forwarder { fib: final(self).fib, ..*old(self) }),
    {
        self.fib.insert(prefix, face_id, cost);
    }

    /// Makes the keys of a producer known.
    pub fn register_keys(&mut self, producer_hash: [u8; 32], keys: Keys)
        requires
            old(self).wf(),
        ensures
            final(self).wf(),
            final(self).key_store@ == old(self).key_store@.insert(producer_hash@, keys),
            *final(self) == (Forwarder { key_store: final(self).key_store, ..*old(self) }),
    {
        self.key_store.insert(wire::copy_all(producer_hash.as_slice()), keys);
    }

    /// The content store.
    pub fn cs(&self) -> (c: &ContentStore)
        ensures
            *c == self.cs,
    {
        &self.cs
    }

    /// The content store, to put content in.
    pub fn cs_mut(&mut self) -> (c: &mut ContentStore)
        ensures
            *c == old(self).cs,
            *final(self) == (Forwarder { cs: *final(c), ..*old(self) }),
    {
        &mut self.cs
    }

    /// The forwarding table.
    pub fn fib(&self) -> (f: &Fib)
        ensures
            *f == self.fib,
    {
        &self.fib
    }

    /// The pending Interests.
    pub fn pit(&self) -> (p: &Pit)
        ensures
            *p == self.pit,
    {
        &self.pit
    }

    /// Checks the proof of some Data: the keys of its producer are looked up, and have
    /// to accept it.
    pub fn verify_data(&self, d: &Data) -> (r: Result<(), String>)
        requires
            self.wf(),
        ensures
            (match r {
                Ok(_) => complaint(self.key_store@, d@) is None,
                Err(e) => complaint(self.key_store@, d@) == Some(e@),
            }),
    {
        let producer_hash: Vec<u8> = wire::copy_all(d.name.producer_hash().as_slice());
        assert(producer_hash@ =~= producer(d.name@));
        match self.key_store.get(&producer_hash) {
            Some(keys) => {
                let digest: [u8; 32] = d.signed_hash();
                match proofs::verify_proof(keys, digest.as_slice(), &d.signature) {
                    Ok(_) => Ok(()),
                    Err(e) => Err(
                        text::join("signature verification failed: ", e.to_string().as_str()),
                    ),
                }
            },
            None => Err(
                text::join("unknown producer: ", text::list_bytes(producer_hash.as_slice()).as_str()),
            ),
        }
    }

    /// Whether a state follows another after an Interest was begun.
    pub open spec fn begun(
        before: Self,
        after: Self,
        interest: InterestView,
        nonce: [u8; 8],
        in_face: FaceId,
        cached: Option<DataView>,
    ) -> bool {
        &&& looked_up(before.cs, after.cs, interest, cached)
        &&& after.pit.nonces@ == before.pit.nonces@.push((in_face, nonce))
        &&& after.pit.entries == before.pit.entries
        &&& after == Forwarder { cs: after.cs, pit: after.pit, ..before }
    }

    /// Begins an Interest: one that came in before from the same face is refused;
    /// otherwise its nonce is remembered, and the content store is looked up.
    pub fn begin(&mut self, interest: &Interest, in_face: FaceId) -> (r: Result<
        Option<Data>,
        String,
    >)
        requires
            old(self).wf(),
        ensures
            final(self).wf(),
            (match r {
                Err(e) => pit::nonce_seen(old(self).pit.nonces@, in_face, interest.nonce@) && e@
                    == "loop detected"@ && *final(self) == *old(self),
                Ok(c) => !pit::nonce_seen(old(self).pit.nonces@, in_face, interest.nonce@)
                    && Self::begun(
                    *old(self),
                    *final(self),
                    interest@,
                    interest.nonce,
                    in_face,
                    data_view(c),
                ),
            }),
    {
        if self.pit.check_loop(in_face, interest.nonce) {
            return Err("loop detected".to_owned());
        }
        self.pit.record_nonce(in_face, interest.nonce);
        let hit: Option<&Data> = if interest.can_be_prefix {
            self.cs.get_prefix(&interest.name)
        } else {
            self.cs.get(&interest.name)
        };
        let cached: Option<Data> = match hit {
            Some(d) => Some(d.duplicate()),
            None => None,
        };
        Ok(cached)
    }

    /// The decision on an Interest that was begun.
    pub open spec fn decision_on(&self, interest: InterestView, cached: Option<DataView>) -> DecisionView {
        self.strategy.decision(
            interest,
            fib::faces_for(self.fib@, interest.name),
            pit::pending(self.pit.table(), interest.name),
            cached,
        )
    }

    /// Consults the strategy.
    pub fn decide(&self, interest: &Interest, cached: &Option<Data>) -> (d: StrategyDecision)
        requires
            self.wf(),
        ensures
            d@ == self.decision_on(interest@, data_view(*cached)),
            d is ServeFromCache ==> *cached is Some,
    {
        let faces: Vec<(FaceId, u8)> = match self.fib.lookup(&interest.name) {
            Some(f) => f,
            None => Vec::new(),
        };
        assert(faces@ =~= fib::faces_for(self.fib@, interest.name@));
        let hit: Option<&Data> = match cached {
            Some(d) => Some(d),
            None => None,
        };
        self.strategy.decide(interest, faces.as_slice(), self.pit.find(&interest.name), hit)
    }

    /// What a decision on an Interest leads to.
    pub open spec fn acted(
        before: Self,
        after: Self,
        decision: DecisionView,
        interest: InterestView,
        cached: Option<DataView>,
        in_face: FaceId,
        waiter: u64,
        now: TimeSpan,
        step: StepView,
    ) -> bool {
        let n = interest.name;
        match decision {
            DecisionView::ServeFromCache => {
                &&& step == StepView::Done(Ok(cached))
                &&& after == before
            },
            DecisionView::NoRoute => {
                &&& step == StepView::Done(Ok(None))
                &&& after == before
            },
            DecisionView::SuppressAggregate => {
                &&& step == StepView::Wait
                &&& after.notifier@ == before.notifier@.insert(
                    n,
                    waiting(before.notifier@, n).push(waiter),
                )
                &&& after == Forwarder { notifier: after.notifier, ..before }
            },
            DecisionView::ForwardTo(face) => {
                let lapse = span::sum_span(now, pending_time(before.faces@, interest, face));
                let held = pit::with_interest(before.pit.table(), n, in_face, interest, lapse);
                &&& after.pit.nonces == before.pit.nonces
                &&& after == Forwarder { pit: after.pit, ..before }
                &&& if before.faces@.dom().contains(face) {
                    &&& step == StepView::Forward(face)
                    &&& after.pit.table() == pit::with_out_face(held, n, face)
                } else {
                    &&& step == StepView::Done(Err("face not found"@))
                    &&& after.pit.table() == held.remove(n)
                }
            },
            DecisionView::Multicast(ids) => {
                let lapse = span::sum_span(now, interest.lifetime);
                &&& step == StepView::Multicast(registered(before.faces@, ids))
                &&& after.pit.nonces == before.pit.nonces
                &&& after.pit.table() == pit::with_interest(
                    before.pit.table(),
                    n,
                    in_face,
                    interest,
                    lapse,
                )
                &&& after == Forwarder { pit: after.pit, ..before }
            },
        }
    }

    /// Acts on a decision.
    pub fn act(
        &mut self,
        decision: StrategyDecision,
        interest: &Interest,
        cached: Option<Data>,
        in_face: FaceId,
        waiter: u64,
        now: TimeSpan,
    ) -> (step: Step)
        requires
            old(self).wf(),
            decision is ServeFromCache ==> cached is Some,
        ensures
            final(self).wf(),
            Self::acted(
                *old(self),
                *final(self),
                decision@,
                interest@,
                data_view(cached),
                in_face,
                waiter,
                now,
                step@,
            ),
    {
        match decision {
            StrategyDecision::ServeFromCache => Step::Done(Ok(cached)),
            StrategyDecision::NoRoute => Step::Done(Ok(None)),
            StrategyDecision::SuppressAggregate => {
                self.notifier.register(&interest.name, waiter);
                Step::Wait
            },
            StrategyDecision::ForwardTo(face) => {
                self.forward(interest, in_face, face, now)
            },
            StrategyDecision::Multicast(ids) => {
                let lapse: TimeSpan = now.plus(interest.lifetime);
                self.pit.insert_or_aggregate(
                    interest.name.duplicate(),
                    in_face,
                    interest.duplicate(),
                    lapse,
                );
                Step::Multicast(self.known_faces(&ids))
            },
        }
    }

    /// Puts an Interest among the pending ones and has it forwarded to a face.
    fn forward(
        &mut self,
        interest: &Interest,
        in_face: FaceId,
        face: FaceId,
        now: TimeSpan,
    ) -> (step: Step)
        requires
            old(self).wf(),
        ensures
            final(self).wf(),
            forall|cached: Option<DataView>, waiter: u64| #[trigger]
                Self::acted(
                    *old(self),
                    *final(self),
                    DecisionView::ForwardTo(face),
                    interest@,
                    cached,
                    in_face,
                    waiter,
                    now,
                    step@,
                ),
    {
        let tolerance: TimeSpan = match self.faces.get(&face) {
            Some(c) => c.disruption_tolerance,
            None => TimeSpan::from_secs(4),
        };
        let lapse: TimeSpan = now.plus(interest.lifetime.longer(tolerance));
        self.pit.insert_or_aggregate(
            interest.name.duplicate(),
            in_face,
            interest.duplicate(),
            lapse,
        );
        let ghost held = self.pit.table();
        self.pit.set_out_face(&interest.name, face);
        if self.faces.contains_key(&face) {
            return Step::Forward(face);
        }
        self.pit.satisfy(&interest.name);
        proof {
            assert(self.pit.table() =~= held.remove(interest.name@));
        }
        Step::Done(Err("face not found".to_owned()))
    }

    /// The faces of a list that are registered.
    fn known_faces(&self, ids: &Vec<FaceId>) -> (out: Vec<FaceId>)
        ensures
            out@ == registered(self.faces@, ids@),
    {
        let mut out: Vec<FaceId> = Vec::new();
        let mut i: usize = 0;
        assert(ids@.subrange(0, 0) =~= Seq::empty());
        while i < ids.len()
            invariant
                i <= ids@.len(),
                out@ == registered(self.faces@, ids@.subrange(0, i as int)),
            decreases ids@.len() - i,
        {
            proof {
                let now = ids@.subrange(0, i + 1);
                assert(now.drop_last() =~= ids@.subrange(0, i as int));
                assert(now.last() == ids@[i as int]);
            }
            let id: FaceId = ids[i];
            if self.faces.contains_key(&id) {
                out.push(id);
            }
            i = i + 1;
        }
        assert(ids@.subrange(0, i as int) =~= ids@);
        out
    }

    /// What an Interest that comes in from a face leads to.
    pub open spec fn expressed(
        before: Self,
        after: Self,
        interest: InterestView,
        nonce: [u8; 8],
        in_face: FaceId,
        waiter: u64,
        now: TimeSpan,
        step: StepView,
    ) -> bool {
        if pit::nonce_seen(before.pit.nonces@, in_face, nonce@) {
            step == StepView::Done(Err("loop detected"@)) && after == before
        } else {
            exists|mid: Self, cached: Option<DataView>|
                #[trigger] Self::begun(before, mid, interest, nonce, in_face, cached)
                    && Self::acted(
                    mid,
                    after,
                    mid.decision_on(interest, cached),
                    interest,
                    cached,
                    in_face,
                    waiter,
                    now,
                    step,
                )
        }
    }

    /// Takes an Interest in from a face: begins it, consults the strategy and acts on
    /// its decision.
    pub fn express(
        &mut self,
        interest: &Interest,
        in_face: FaceId,
        waiter: u64,
        now: TimeSpan,
    ) -> (step: Step)
        requires
            old(self).wf(),
        ensures
            final(self).wf(),
            Self::expressed(
                *old(self),
                *final(self),
                interest@,
                interest.nonce,
                in_face,
                waiter,
                now,
                step@,
            ),
    {
        match self.begin(interest, in_face) {
            Err(e) => Step::Done(Err(e)),
            Ok(cached) => {
                let ghost mid = *self;
                let ghost hit = data_view(cached);
                assert(Self::begun(*old(self), mid, interest@, interest.nonce, in_face, hit));
                let decision: StrategyDecision = self.decide(interest, &cached);
                self.act(decision, interest, cached, in_face, waiter, now)
            },
        }
    }

    /// What the answer of a face leads to. Data with a wrong proof is refused; nobody
    /// is told. Otherwise those who wait for the name are told the result, and Data is
    /// cached. In every case the Interest is no longer pending.
    pub open spec fn completed(
        before: Self,
        after: Self,
        n: NameView,
        answer: ResultView,
        now: TimeSpan,
        result: ResultView,
        woken: Seq<u64>,
    ) -> bool {
        let refused = if let Ok(Some(d)) = answer {
            complaint(before.key_store@, d)
        } else {
            None
        };
        &&& after.pit.nonces == before.pit.nonces
        &&& after == Forwarder {
            cs: after.cs,
            pit: after.pit,
            notifier: after.notifier,
            ..before
        }
        &&& match refused {
            Some(m) => {
                &&& result == Err::<Option<DataView>, Seq<char>>(
                    "signature verification failed: "@ + m,
                )
                &&& woken.len() == 0
                &&& after.pit.table() == before.pit.table().remove(n)
                &&& after.cs == before.cs
                &&& after.notifier == before.notifier
            },
            None => {
                &&& result == answer
                &&& woken == waiting(before.notifier@, n)
                &&& after.notifier@ == before.notifier@.remove(n)
                &&& after.pit.table() == pit::unexpired(before.pit.table().remove(n), now)
                &&& match answer {
                    Ok(Some(d)) => cached_as(before.cs, after.cs, d, now),
                    _ => after.cs == before.cs,
                }
            },
        }
    }

    /// Completes a pending Interest with what came back from the face or faces that it
    /// was forwarded to. Returns the result, and who else is to be told it.
    pub fn complete(&mut self, name: &Name, answer: InterestResult, now: TimeSpan) -> (out: (
        InterestResult,
        Vec<u64>,
    ))
        requires
            old(self).wf(),
        ensures
            final(self).wf(),
            Self::completed(
                *old(self),
                *final(self),
                name@,
                result_view(answer),
                now,
                result_view(out.0),
                out.1@,
            ),
    {
        match &answer {
            Ok(Some(d)) => {
                match self.verify_data(d) {
                    Ok(_) => {},
                    Err(e) => {
                        self.pit.satisfy(name);
                        return (
                            Err(text::join("signature verification failed: ", e.as_str())),
                            Vec::new(),
                        );
                    },
                }
                let copy: Data = d.duplicate();
                let ghost c = CachedData { data: copy, inserted_at: now.secs };
                self.cs.insert_at(d.name.duplicate(), copy, now.as_secs());
                assert(c.data@ == d@);
            },
            _ => {},
        }
        self.pit.satisfy(name);
        let woken: Vec<u64> = self.notifier.notify(name);
        self.pit.purge_expired(now);
        (answer, woken)
    }

    /// What incoming Data leads to: where an Interest of its name is pending, it goes to
    /// the faces that the Interest came from and to those who wait.
    pub open spec fn received(
        before: Self,
        after: Self,
        d: DataView,
        now: TimeSpan,
        told: Recipients,
    ) -> bool {
        let matched = before.pit.table().dom().contains(d.name);
        &&& cached_as(before.cs, after.cs, d, now)
        &&& after.pit.nonces == before.pit.nonces
        &&& after.pit.table() == pit::unexpired(before.pit.table().remove(d.name), now)
        &&& after == Forwarder {
            cs: after.cs,
            pit: after.pit,
            notifier: after.notifier,
            ..before
        }
        &&& if matched {
            &&& told.faces@ == before.pit.table()[d.name].in_faces
            &&& told.waiters@ == waiting(before.notifier@, d.name)
            &&& after.notifier@ == before.notifier@.remove(d.name)
        } else {
            &&& told.faces@.len() == 0
            &&& told.waiters@.len() == 0
            &&& after.notifier == before.notifier
        }
    }

    /// Takes Data in, asked for or not: its proof is checked, it is to be sent to the
    /// faces and told to the waiters of a pending Interest of that name, and it is cached.
    pub fn receive_data(&mut self, d: Data, now: TimeSpan) -> (r: Result<Recipients, String>)
        requires
            old(self).wf(),
        ensures
            final(self).wf(),
            (match r {
                Ok(told) => complaint(old(self).key_store@, d@) is None && Self::received(
                    *old(self),
                    *final(self),
                    d@,
                    now,
                    told,
                ),
                Err(e) => complaint(old(self).key_store@, d@) == Some(e@) && *final(self)
                    == *old(self),
            }),
    {
        match self.verify_data(&d) {
            Ok(_) => {},
            Err(e) => {
                return Err(e);
            },
        }
        let name: Name = d.name.duplicate();
        let matched: Option<PitEntry> = self.pit.satisfy(&name);
        let told: Recipients = match matched {
            Some(e) => Recipients { faces: e.in_faces, waiters: self.notifier.notify(&name) },
            None => Recipients { faces: Vec::new(), waiters: Vec::new() },
        };
        let ghost c = CachedData { data: d, inserted_at: now.secs };
        self.cs.insert_at(name, d, now.as_secs());
        assert(c.data@ == d@);
        self.pit.purge_expired(now);
        Ok(told)
    }
}

impl Forwarder<BestRoute> {
    /// A forwarder that forwards to the cheapest face, without faces and routes, that
    /// caches up to 1000 Data.
    pub fn new() -> (f: Self)
        ensures
            f.wf(),
            f.cs.contents() == Seq::<(NameView, CachedData)>::empty(),
            f.cs.room() == 1000,
            f.cs.hits == 0,
            f.cs.misses == 0,
            f.fib@ == Seq::<(NameView, Seq<(FaceId, u8)>)>::empty(),
            f.pit.table() == Map::<NameView, PitView>::empty(),
            f.pit.nonces@.len() == 0,
            f.faces@ == Map::<FaceId, FaceCapabilities>::empty(),
            f.notifier@ == Map::<NameView, Seq<u64>>::empty(),
            f.key_store@ == Map::<Seq<u8>, Keys>::empty(),
    {
        Forwarder::with_strategy(BestRoute::new())
    }
}

/// Data that its producer proved is accepted, once the producer's keys are known.
pub proof fn law_own_proof_accepted(keys: Map<Seq<u8>, Keys>, d: DataView)
    requires
        keys.dom().contains(producer(d.name)),
        proofs::proves(
            keys[producer(d.name)].identity(),
            data::signed_digest(d.name, d.content),
            d.signature.packet_hash@,
            d.signature.signature@,
        ),
    ensures
        complaint(keys, d) is None,
{
}

/// Data that came in is found in the content store by its name.
pub proof fn law_received_data_is_cached(
    before: ContentStore,
    after: ContentStore,
    d: DataView,
    now: TimeSpan,
)
    requires
        before.wf(),
        cached_as(before, after, d, now),
    ensures
        cs::found(after.contents(), d.name) matches Some(c) && c.data@ == d,
{
    let c = choose|c: CachedData|
        c.data@ == d && c.inserted_at == now.secs && after.contents() == #[trigger] cs::pushed(
            before.contents(),
            before.room(),
            d.name,
            c,
        );
    cs::law_insert_then_get(before.contents(), before.room(), d.name, c, d.name);
}

/// Data goes to every face whose Interest in its name is pending: to that of the Interest
/// that made the entry, and to those of Interests that joined it.
pub proof fn law_data_goes_to_askers(
    m: Map<NameView, PitView>,
    before: Forwarder<BestRoute>,
    after: Forwarder<BestRoute>,
    d: DataView,
    now: TimeSpan,
    told: Recipients,
    first: FaceId,
    second: FaceId,
    i1: InterestView,
    i2: InterestView,
    t1: TimeSpan,
    t2: TimeSpan,
)
    requires
        !m.dom().contains(d.name),
        before.pit.table() == pit::with_interest(
            pit::with_interest(m, d.name, first, i1, t1),
            d.name,
            second,
            i2,
            t2,
        ),
        Forwarder::received(before, after, d, now, told),
    ensures
        told.faces@.contains(first),
        told.faces@.contains(second),
        told.waiters@ == waiting(before.notifier@, d.name),
        !after.pit.table().dom().contains(d.name),
{
    pit::law_aggregation(m, d.name, first, second, i1, i2, t1, t2);
}

/// An Interest in the very name of cached Data, without a selector, is answered with
/// that Data at once, and is not pending.
pub proof fn law_cached_data_answers(
    before: Forwarder<BestRoute>,
    after: Forwarder<BestRoute>,
    interest: InterestView,
    nonce: [u8; 8],
    in_face: FaceId,
    waiter: u64,
    now: TimeSpan,
    step: StepView,
    d: DataView,
)
    requires
        cs::found(before.cs.contents(), interest.name) matches Some(c) && c.data@ == d,
        !interest.can_be_prefix,
        interest.selector is None,
        !pit::nonce_seen(before.pit.nonces@, in_face, nonce@),
        Forwarder::expressed(before, after, interest, nonce, in_face, waiter, now, step),
    ensures
        step == StepView::Done(Ok(Some(d))),
        after.pit.table() == before.pit.table(),
{
}

/// An Interest that came in is known from then on: should it come in again from the same
/// face, it is refused as a loop, and nothing changes.
pub proof fn law_loop_is_refused(
    before: Forwarder<BestRoute>,
    after: Forwarder<BestRoute>,
    again: Forwarder<BestRoute>,
    interest: InterestView,
    other: InterestView,
    nonce: [u8; 8],
    in_face: FaceId,
    waiter: u64,
    now: TimeSpan,
    later: TimeSpan,
    step: StepView,
    second: StepView,
)
    requires
        Forwarder::expressed(before, after, interest, nonce, in_face, waiter, now, step),
        Forwarder::expressed(after, again, other, nonce, in_face, waiter, later, second),
    ensures
        second == StepView::Done(Err("loop detected"@)),
        again == after,
{
    if !pit::nonce_seen(before.pit.nonces@, in_face, nonce@) {
        let nonces = before.pit.nonces@.push((in_face, nonce));
        assert(nonces[nonces.len() - 1] == (in_face, nonce));
        assert(pit::nonce_seen(nonces, in_face, nonce@));
    }
}

/// An Interest in a name that is neither cached nor pending goes to the cheapest face.
/// Data of that name that comes back, with a good proof, is the result; it is cached,
/// and the Interest is no longer pending.
pub proof fn law_fetched_by_name(
    before: Forwarder<BestRoute>,
    asked: Forwarder<BestRoute>,
    after: Forwarder<BestRoute>,
    interest: InterestView,
    nonce: [u8; 8],
    in_face: FaceId,
    waiter: u64,
    asked_at: TimeSpan,
    step: StepView,
    cheapest: int,
    d: DataView,
    answered_at: TimeSpan,
    result: ResultView,
    woken: Seq<u64>,
)
    requires
        asked.wf(),
        !interest.can_be_prefix,
        cs::found(before.cs.contents(), interest.name) is None,
        pit::pending(before.pit.table(), interest.name) is None,
        !pit::nonce_seen(before.pit.nonces@, in_face, nonce@),
        strategy::cheapest(fib::faces_for(before.fib@, interest.name), cheapest),
        before.faces@.dom().contains(fib::faces_for(before.fib@, interest.name)[cheapest].0),
        Forwarder::expressed(before, asked, interest, nonce, in_face, waiter, asked_at, step),
        d.name == interest.name,
        complaint(before.key_store@, d) is None,
        Forwarder::completed(
            asked,
            after,
            interest.name,
            Ok(Some(d)),
            answered_at,
            result,
            woken,
        ),
    ensures
        step == StepView::Forward(fib::faces_for(before.fib@, interest.name)[cheapest].0),
        asked.pit.table().dom().contains(interest.name),
        result == Ok::<Option<DataView>, Seq<char>>(Some(d)),
        cs::found(after.cs.contents(), interest.name) matches Some(c) && c.data@ == d,
        !after.pit.table().dom().contains(interest.name),
{
    let faces = fib::faces_for(before.fib@, interest.name);
    let chosen = choose|i: int| strategy::cheapest(faces, i);
    assert(chosen == cheapest) by {
        assert(faces[chosen].1 == faces[cheapest].1);
    }
    law_received_data_is_cached(asked.cs, after.cs, d, answered_at);
}

/// Content crosses from one forwarder to another by its name alone: where the content
/// store of a producer holds Data with a good proof, a consumer that has a route to the
/// producer and knows its keys gets that Data, and caches it.
pub proof fn law_content_crosses(
    before: Forwarder<BestRoute>,
    asked: Forwarder<BestRoute>,
    after: Forwarder<BestRoute>,
    producer: Forwarder<BestRoute>,
    producer_after: Forwarder<BestRoute>,
    interest: InterestView,
    nonce: [u8; 8],
    in_face: FaceId,
    producer_face: FaceId,
    waiter: u64,
    asked_at: TimeSpan,
    step: StepView,
    cheapest: int,
    d: DataView,
    answer: ResultView,
    answered_at: TimeSpan,
    result: ResultView,
    woken: Seq<u64>,
)
    requires
        asked.wf(),
        !interest.can_be_prefix,
        interest.selector is None,
        cs::found(before.cs.contents(), interest.name) is None,
        pit::pending(before.pit.table(), interest.name) is None,
        !pit::nonce_seen(before.pit.nonces@, in_face, nonce@),
        strategy::cheapest(fib::faces_for(before.fib@, interest.name), cheapest),
        before.faces@.dom().contains(fib::faces_for(before.fib@, interest.name)[cheapest].0),
        Forwarder::expressed(before, asked, interest, nonce, in_face, waiter, asked_at, step),
        cs::found(producer.cs.contents(), interest.name) matches Some(c) && c.data@ == d,
        !pit::nonce_seen(producer.pit.nonces@, producer_face, nonce@),
        Forwarder::expressed(
            producer,
            producer_after,
            interest,
            nonce,
            producer_face,
            waiter,
            answered_at,
            StepView::Done(answer),
        ),
        d.name == interest.name,
        complaint(before.key_store@, d) is None,
        Forwarder::completed(asked, after, interest.name, answer, answered_at, result, woken),
    ensures
        step == StepView::Forward(fib::faces_for(before.fib@, interest.name)[cheapest].0),
        result == Ok::<Option<DataView>, Seq<char>>(Some(d)),
        cs::found(after.cs.contents(), interest.name) matches Some(c) && c.data@ == d,
        !after.pit.table().dom().contains(interest.name),
{
    law_cached_data_answers(
        producer,
        producer_after,
        interest,
        nonce,
        producer_face,
        waiter,
        answered_at,
        StepView::Done(answer),
        d,
    );
    law_fetched_by_name(
        before,
        asked,
        after,
        interest,
        nonce,
        in_face,
        waiter,
        asked_at,
        step,
        cheapest,
        d,
        answered_at,
        result,
        woken,
    );
}

/// Data is taken exactly where the keys of the producer that its name begins with are
/// known, and they signed the digest of its name and content.
pub proof fn law_data_is_verified(keys: Map<Seq<u8>, Keys>, d: DataView)
    requires
        d.name.0.len() > 0,
    ensures
        complaint(keys, d) is None <==> {
            &&& keys.dom().contains(d.name.0[0])
            &&& d.signature.packet_hash@ == primitives::sha256_digest(
                primitives::blake3_digest(crate::icn::name::name_bytes(d.name) + d.content),
            )
            &&& primitives::ed25519_accepts(
                keys[d.name.0[0]].identity(),
                primitives::blake3_digest(crate::icn::name::name_bytes(d.name) + d.content),
                d.signature.signature@,
            )
        },
{
}

/// Data with a wrong proof that comes back is no result: it is not cached, nobody is told
/// it, and the Interest is no longer pending.
pub proof fn law_unproven_data_is_refused(
    before: Forwarder<BestRoute>,
    after: Forwarder<BestRoute>,
    n: NameView,
    d: DataView,
    now: TimeSpan,
    result: ResultView,
    woken: Seq<u64>,
)
    requires
        complaint(before.key_store@, d) is Some,
        Forwarder::completed(before, after, n, Ok(Some(d)), now, result, woken),
    ensures
        result is Err,
        woken.len() == 0,
        after.cs.contents() == before.cs.contents(),
        !after.pit.table().dom().contains(n),
        after.fib == before.fib,
{
}

/// What comes back without Data is told to everyone who waits for that name; nothing is
/// cached, and the Interest is no longer pending.
pub proof fn law_no_data_is_told(
    before: Forwarder<BestRoute>,
    after: Forwarder<BestRoute>,
    n: NameView,
    answer: ResultView,
    now: TimeSpan,
    result: ResultView,
    woken: Seq<u64>,
)
    requires
        !(answer matches Ok(Some(_))),
        Forwarder::completed(before, after, n, answer, now, result, woken),
    ensures
        result == answer,
        forall|w: u64|
            before.notifier@.dom().contains(n) && before.notifier@[n].contains(w)
                ==> #[trigger] woken.contains(w),
        after.cs.contents() == before.cs.contents(),
        !after.pit.table().dom().contains(n),
        !after.notifier@.dom().contains(n),
{
}

/// An Interest that joins a pending one waits; when Data of that name comes back, with a
/// good proof, it is told the Data.
pub proof fn law_joined_is_told(
    before: Forwarder<BestRoute>,
    joined: Forwarder<BestRoute>,
    after: Forwarder<BestRoute>,
    interest: InterestView,
    nonce: [u8; 8],
    in_face: FaceId,
    waiter: u64,
    now: TimeSpan,
    step: StepView,
    d: DataView,
    later: TimeSpan,
    result: ResultView,
    woken: Seq<u64>,
)
    requires
        !interest.can_be_prefix,
        cs::found(before.cs.contents(), interest.name) is None,
        before.pit.table().dom().contains(interest.name),
        !pit::nonce_seen(before.pit.nonces@, in_face, nonce@),
        Forwarder::expressed(before, joined, interest, nonce, in_face, waiter, now, step),
        complaint(before.key_store@, d) is None,
        Forwarder::completed(joined, after, interest.name, Ok(Some(d)), later, result, woken),
    ensures
        step is Wait,
        joined.pit.table() == before.pit.table(),
        woken.contains(waiter),
        forall|w: u64|
            before.notifier@.dom().contains(interest.name)
                && before.notifier@[interest.name].contains(w) ==> #[trigger] woken.contains(w),
        result == Ok::<Option<DataView>, Seq<char>>(Some(d)),
        !after.pit.table().dom().contains(interest.name),
{
    let list = waiting(before.notifier@, interest.name);
    assert(woken == list.push(waiter));
    assert(woken[list.len() as int] == waiter);
    assert forall|w: u64|
        before.notifier@.dom().contains(interest.name) && before.notifier@[interest.name].contains(
            w,
        ) implies #[trigger] woken.contains(w) by {
        let k = choose|k: int| 0 <= k < list.len() && list[k] == w;
        assert(woken[k] == w);
    }
}

/// Cached Data that is older than an Interest asks for does not answer it: the Interest,
/// where no other of its name is pending, goes to the face of a cheapest route.
pub proof fn law_stale_data_is_passed_by(
    before: Forwarder<BestRoute>,
    after: Forwarder<BestRoute>,
    interest: InterestView,
    nonce: [u8; 8],
    in_face: FaceId,
    waiter: u64,
    now: TimeSpan,
    step: StepView,
    d: DataView,
    least: u64,
    cheapest: int,
)
    requires
        cs::found(before.cs.contents(), interest.name) matches Some(c) && c.data@ == d,
        !interest.can_be_prefix,
        interest.selector matches Some(s) && s.min_sequence == Some(least),
        !(d.metadata.sequence matches Some(seq) && seq >= least),
        pit::pending(before.pit.table(), interest.name) is None,
        !pit::nonce_seen(before.pit.nonces@, in_face, nonce@),
        strategy::cheapest(fib::faces_for(before.fib@, interest.name), cheapest),
        before.faces@.dom().contains(fib::faces_for(before.fib@, interest.name)[cheapest].0),
        Forwarder::expressed(before, after, interest, nonce, in_face, waiter, now, step),
    ensures
        step == StepView::Forward(fib::faces_for(before.fib@, interest.name)[cheapest].0),
{
    let faces = fib::faces_for(before.fib@, interest.name);
    let chosen = choose|i: int| strategy::cheapest(faces, i);
    assert(chosen == cheapest) by {
        assert(faces[chosen].1 == faces[cheapest].1);
    }
}

/// Cached Data that is new enough answers an Interest that asks for nothing else.
pub proof fn law_new_data_answers(
    before: Forwarder<BestRoute>,
    after: Forwarder<BestRoute>,
    interest: InterestView,
    nonce: [u8; 8],
    in_face: FaceId,
    waiter: u64,
    now: TimeSpan,
    step: StepView,
    d: DataView,
    least: u64,
)
    requires
        cs::found(before.cs.contents(), interest.name) matches Some(c) && c.data@ == d,
        !interest.can_be_prefix,
        interest.selector matches Some(s) && s.min_sequence == Some(least) && !s.must_be_fresh
            && s.exclude_hashes.len() == 0,
        d.metadata.sequence matches Some(seq) && seq >= least,
        !pit::nonce_seen(before.pit.nonces@, in_face, nonce@),
        Forwarder::expressed(before, after, interest, nonce, in_face, waiter, now, step),
    ensures
        step == StepView::Done(Ok(Some(d))),
        after.pit.table() == before.pit.table(),
{
}

/// An Interest that is sent out is pending for the face that it came from, with the face
/// that it went to, for as long as it lives, or as the face tolerates disruption, if that
/// is longer. Nothing else that is pending changes.
pub proof fn law_forwarded_is_pending(
    before: Forwarder<BestRoute>,
    after: Forwarder<BestRoute>,
    interest: InterestView,
    nonce: [u8; 8],
    in_face: FaceId,
    waiter: u64,
    now: TimeSpan,
    face: FaceId,
)
    requires
        pit::pending(before.pit.table(), interest.name) is None,
        Forwarder::expressed(
            before,
            after,
            interest,
            nonce,
            in_face,
            waiter,
            now,
            StepView::Forward(face),
        ),
    ensures
        ({
            let m = after.pit.table();
            let e = m[interest.name];
            let tolerance = before.faces@[face].disruption_tolerance;
            &&& before.faces@.dom().contains(face)
            &&& m.dom() == before.pit.table().dom().insert(interest.name)
            &&& e.in_faces == seq![in_face]
            &&& e.out_face == Some(face)
            &&& e.interest == interest
            &&& (interest.lifetime.total() >= tolerance.total() && now.total()
                + interest.lifetime.total() < 0x1_0000_0000_0000_0000 * 1_000_000_000 && now.nanos
                < 1_000_000_000 && interest.lifetime.nanos < 1_000_000_000 && tolerance.nanos
                < 1_000_000_000 ==> e.expires_at.total() == now.total() + interest.lifetime.total())
            &&& (interest.lifetime.total() < tolerance.total() && now.total() + tolerance.total()
                < 0x1_0000_0000_0000_0000 * 1_000_000_000 && now.nanos < 1_000_000_000
                && interest.lifetime.nanos < 1_000_000_000 && tolerance.nanos < 1_000_000_000
                ==> e.expires_at.total() == now.total() + tolerance.total())
            &&& forall|k: NameView|
                k != interest.name && #[trigger] before.pit.table().dom().contains(k) ==> m[k]
                    == before.pit.table()[k]
        }),
{
    let tolerance = before.faces@[face].disruption_tolerance;
    span::law_longer(interest.lifetime, tolerance);
    let t = span::longer_span(interest.lifetime, tolerance);
    if now.nanos < 1_000_000_000 && interest.lifetime.nanos < 1_000_000_000 && tolerance.nanos
        < 1_000_000_000 {
        span::law_sum(now, t);
    }
    assert(after.pit.table().dom() =~= before.pit.table().dom().insert(interest.name));
    assert(after.pit.table()[interest.name].in_faces =~= seq![in_face]);
}

/// An Interest that no route is for ends without Data at once, and is not pending.
pub proof fn law_no_route_no_data(
    before: Forwarder<BestRoute>,
    after: Forwarder<BestRoute>,
    interest: InterestView,
    nonce: [u8; 8],
    in_face: FaceId,
    waiter: u64,
    now: TimeSpan,
    step: StepView,
)
    requires
        !interest.can_be_prefix,
        cs::found(before.cs.contents(), interest.name) is None,
        pit::pending(before.pit.table(), interest.name) is None,
        !pit::nonce_seen(before.pit.nonces@, in_face, nonce@),
        forall|i: int|
            0 <= i < before.fib@.len() ==> !crate::icn::name::is_prefix(
                (#[trigger] before.fib@[i]).0,
                interest.name,
            ),
        Forwarder::expressed(before, after, interest, nonce, in_face, waiter, now, step),
    ensures
        step == StepView::Done(Ok::<Option<DataView>, Seq<char>>(None)),
        after.pit.table() == before.pit.table(),
        after.notifier == before.notifier,
{
    fib::law_longest_route(before.fib@, interest.name);
}

/// Every lookup counts once, as a hit where it found Data and as a miss where not.
pub proof fn law_lookups_are_counted(
    before: ContentStore,
    after: ContentStore,
    interest: InterestView,
    cached: Option<DataView>,
)
    requires
        looked_up(before, after, interest, cached),
        before.hits < u64::MAX,
        before.misses < u64::MAX,
    ensures
        after.hits + after.misses == before.hits + before.misses + 1,
        cached is Some <==> after.hits == before.hits + 1,
        !interest.can_be_prefix ==> (cached is Some <==> cs::found(
            before.contents(),
            interest.name,
        ) is Some),
{
}

/// An Interest that may be answered by a prefix of its name is looked up among the names
/// that are such prefixes: what is found has one, and nothing is found only where there
/// is none.
pub proof fn law_prefix_is_looked_up(
    before: ContentStore,
    after: ContentStore,
    interest: InterestView,
    cached: Option<DataView>,
)
    requires
        interest.can_be_prefix,
        looked_up(before, after, interest, cached),
    ensures
        cached matches Some(d) ==> exists|i: int|
            0 <= i < before.contents().len() && (#[trigger] before.contents()[i]).1.data@ == d
                && before.contents()[i].0.0.is_prefix_of(interest.name.0),
        cached is None ==> forall|i: int|
            0 <= i < before.contents().len() ==> !(
            #[trigger] before.contents()[i]).0.0.is_prefix_of(interest.name.0),
{
    if let Some(d) = cached {
        let i = choose|i: int|
            #[trigger] cs::best_prefix(before.contents(), interest.name, i) && d
                == before.contents()[i].1.data@;
        assert(before.contents()[i].1.data@ == d);
    } else {
        assert forall|i: int| 0 <= i < before.contents().len() implies !(
        #[trigger] before.contents()[i]).0.0.is_prefix_of(interest.name.0) by {
            assert(!crate::icn::name::is_prefix(before.contents()[i].0, interest.name));
        }
    }
}

/// Of a list of faces the registered ones are kept, each and in order, and no other.
pub proof fn law_registered_faces(
    faces: Map<FaceId, FaceCapabilities>,
    ids: Seq<FaceId>,
    more: Seq<FaceId>,
)
    ensures
        registered(faces, ids + more) == registered(faces, ids) + registered(faces, more),
        (forall|i: int| 0 <= i < ids.len() ==> faces.dom().contains(#[trigger] ids[i]))
            ==> registered(faces, ids) == ids,
        (forall|i: int| 0 <= i < ids.len() ==> !faces.dom().contains(#[trigger] ids[i]))
            ==> registered(faces, ids).len() == 0,
    decreases ids.len() + more.len(),
{
    if more.len() > 0 {
        law_registered_faces(faces, ids, more.drop_last());
        assert((ids + more).drop_last() =~= ids + more.drop_last());
        assert((ids + more).last() == more.last());
        assert(registered(faces, ids + more) =~= registered(faces, ids) + registered(faces, more));
    } else {
        assert(ids + more =~= ids);
        assert(registered(faces, ids) + registered(faces, more) =~= registered(faces, ids));
        if ids.len() > 0 {
            law_registered_faces(faces, ids.drop_last(), more);
            assert(ids.last() == ids[ids.len() - 1]);
            assert forall|i: int| 0 <= i < ids.drop_last().len() implies ids.drop_last()[i]
                == #[trigger] ids[i] by {
            }
            assert(ids.drop_last().push(ids.last()) =~= ids);
        }
    }
}

/// An Interest that asks for a least sequence number is never answered from the content
/// store with Data that has a lower one, or none.
pub proof fn law_no_stale_answer(
    f: &mut Forwarder<BestRoute>,
    interest: &Interest,
    in_face: FaceId,
    waiter: u64,
    now: TimeSpan,
    step: Step,
    least: u64,
)
    requires
        call_ensures(Forwarder::<BestRoute>::express, (f, interest, in_face, waiter, now), step),
        interest.selector matches Some(s) && s.min_sequence == Some(least),
    ensures
        step matches Step::Done(Ok(Some(d))) ==> (d.metadata.sequence matches Some(seq) && least
            <= seq),
{
    if let Step::Done(Ok(Some(d))) = step {
        assert(step@ == StepView::Done(Ok(Some(d@))));
        assert(d@.metadata.sequence == d.metadata.sequence);
    }
}

/// Data that is put in the content store answers the next Interest in its name that has no
/// selector, whatever else the store holds.
pub proof fn law_inserted_answers(
    store: &mut ContentStore,
    name: Name,
    d: Data,
    at: u64,
    left: Option<CachedData>,
    f: &mut Forwarder<BestRoute>,
    interest: &Interest,
    in_face: FaceId,
    waiter: u64,
    now: TimeSpan,
    step: Step,
)
    requires
        old(store).wf(),
        call_ensures(ContentStore::insert_at, (store, name, d, at), left),
        old(f).cs == *final(store),
        call_ensures(Forwarder::<BestRoute>::express, (f, interest, in_face, waiter, now), step),
        interest@.name == name@,
        interest.selector is None,
        !interest.can_be_prefix,
        !pit::nonce_seen(old(f).pit.nonces@, in_face, interest.nonce@),
    ensures
        step@ == StepView::Done(Ok(Some(d@))),
{
    let c = CachedData { data: d, inserted_at: at };
    cs::law_insert_then_get(store.contents(), store.room(), name@, c, name@);
}

/// Who waits for a name is told when it is answered, in the order of waiting, and then no
/// longer waits; those who wait for other names are not told.
pub proof fn law_waiters_are_woken(
    n: &mut PitNotifier,
    name: &Name,
    waiter: u64,
    m: &mut PitNotifier,
    woken: Vec<u64>,
    other: NameView,
)
    requires
        old(n).wf(),
        call_ensures(PitNotifier::register, (n, name, waiter), ()),
        *old(m) == *final(n),
        call_ensures(PitNotifier::notify, (m, name), woken),
        other != name@,
    ensures
        woken@.len() > 0 && woken@.last() == waiter,
        old(n)@.dom().contains(name@) ==> woken@ == old(n)@[name@].push(waiter),
        !old(n)@.dom().contains(name@) ==> woken@ == seq![waiter],
        !final(m)@.dom().contains(name@),
        final(m)@.dom().contains(other) == old(n)@.dom().contains(other),
        old(n)@.dom().contains(other) ==> final(m)@[other] == old(n)@[other],
{
    if !old(n)@.dom().contains(name@) {
        assert(woken@ =~= seq![waiter]);
    }
}

/// A face that is taken away is not registered any more, and no route leads to it.
pub proof fn law_unregistered_face_is_gone(f: &mut Forwarder<BestRoute>, face: FaceId, n: NameView)
    requires
        old(f).wf(),
        call_ensures(Forwarder::<BestRoute>::unregister_face, (f, face), ()),
    ensures
        !final(f).faces@.dom().contains(face),
        forall|i: int|
            0 <= i < fib::faces_for(final(f).fib@, n).len() ==> (#[trigger] fib::faces_for(
                final(f).fib@,
                n,
            )[i]).0 != face,
        final(f).cs == old(f).cs && final(f).pit == old(f).pit,
{
    fib::law_removed_face_is_gone(f.fib@, face);
    fib::law_longest_route(final(f).fib@, n);
    let after = final(f).fib@;
    assert forall|i: int| 0 <= i < fib::faces_for(after, n).len() implies (
    #[trigger] fib::faces_for(after, n)[i]).0 != face by {
        if exists|j: int| 0 <= j < after.len() && crate::icn::name::is_prefix((#[trigger] after[j]).0, n) {
            let k = choose|k: int|
                0 <= k < after.len() && fib::faces_for(after, n) == (#[trigger] after[k]).1
                    && after[k].0.0.len() <= n.0.len() && (forall|j: int|
                    0 <= j < after[k].0.0.len() ==> after[k].0.0[j] == #[trigger] n.0[j]) && (
                forall|j: int|
                    0 <= j < after.len() && crate::icn::name::is_prefix((#[trigger] after[j]).0, n)
                        ==> after[j].0.0.len() <= after[k].0.0.len());
            assert(after[k].1.len() > 0 && !fib::has_face(after[k].1, face));
            assert(after[k].1[i].0 == fib::faces_for(after, n)[i].0);
        }
    }
}

/// A producer's keys that are registered are those that its Data is checked with.
pub proof fn law_registered_keys_are_used(
    f: &mut Forwarder<BestRoute>,
    producer_hash: [u8; 32],
    keys: Keys,
    after: &Forwarder<BestRoute>,
    d: &Data,
    r: Result<(), String>,
)
    requires
        old(f).wf(),
        call_ensures(Forwarder::<BestRoute>::register_keys, (f, producer_hash, keys), ()),
        *after == *final(f),
        call_ensures(Forwarder::<BestRoute>::verify_data, (after, d), r),
        producer(d@.name) == producer_hash@,
    ensures
        r is Ok <==> d@.signature.packet_hash@ == primitives::sha256_digest(
            data::signed_digest(d@.name, d@.content),
        ) && primitives::ed25519_accepts(
            keys.identity(),
            data::signed_digest(d@.name, d@.content),
            d@.signature.signature@,
        ),
{
}

/// Data that comes in and is accepted goes to the faces and those who wait for its name; it
/// is cached, and the Interest is answered. Data that is not accepted changes nothing.
pub proof fn law_received_data(
    f: &mut Forwarder<BestRoute>,
    d: Data,
    now: TimeSpan,
    r: Result<Recipients, String>,
)
    requires
        old(f).wf(),
        call_ensures(Forwarder::<BestRoute>::receive_data, (f, d, now), r),
    ensures
        r is Err <==> complaint(old(f).key_store@, d@) is Some,
        r is Err ==> *final(f) == *old(f),
        r matches Ok(told) ==> {
            &&& (cs::found(final(f).cs.contents(), d@.name) matches Some(c) && c.data@ == d@)
            &&& !final(f).pit.table().dom().contains(d@.name)
            &&& (old(f).pit.table().dom().contains(d@.name) ==> told.faces@ == old(
                f).pit.table()[d@.name].in_faces && (old(f).notifier@.dom().contains(d@.name)
                ==> told.waiters@ == old(f).notifier@[d@.name]))
            &&& (!old(f).pit.table().dom().contains(d@.name) ==> told.faces@.len() == 0
                && told.waiters@.len() == 0)
        },
{
    if r is Ok {
        law_received_data_is_cached(f.cs, final(f).cs, d@, now);
    }
}

/// Of several answers the first that brings Data counts.
pub proof fn law_first_answer_counts(answers: &Vec<InterestResult>, r: Option<Data>, i: int, d: Data)
    requires
        call_ensures(first_data, (answers,), r),
        0 <= i < answers@.len(),
        answers@[i] == Ok::<Option<Data>, String>(Some(d)),
        forall|j: int| 0 <= j < i ==> !(#[trigger] answers@[j] matches Ok(Some(_))),
    ensures
        r matches Some(x) && x@ == d@,
{
    assert(brings_data(answers@[i]));
    if let Some(x) = r {
        let k = choose|k: int|
            0 <= k < answers@.len() && (#[trigger] answers@[k] matches Ok(Some(y)) && y@ == x@)
                && forall|j: int| 0 <= j < k ==> !brings_data(#[trigger] answers@[j]);
        assert(brings_data(answers@[k]));
        if k < i {
            assert(!(answers@[k] matches Ok(Some(_))));
        } else if i < k {
            assert(!brings_data(answers@[i]));
        }
    }
}

} // verus!
