//! Resources: large data, transferred in segments.

use crate::codec;
use crate::crypto::primitives;
use crate::pieces;
use crate::text;
use crate::transport::error::{TransportError, TransportFault};
use crate::wire;
use std::collections::HashMap;
use vstd::prelude::*;

verus! {

broadcast use vstd::std_specs::hash::group_hash_axioms;

/// Default size of a segment.
pub const DEFAULT_SEGMENT_SIZE: usize = 1024;

/// Configuration of a transfer.
#[derive(Debug, Clone, Copy, PartialEq, Eq, Structural)]
pub struct ResourceConfig {
    /// Size of a segment in bytes.
    pub segment_size: usize,
    /// Maximum number of concurrent transfers.
    pub max_concurrent: usize,
}

impl Default for ResourceConfig {
    fn default() -> (c: Self)
        ensures
            c == (ResourceConfig { segment_size: DEFAULT_SEGMENT_SIZE, max_concurrent: 16 }),
    {
        ResourceConfig { segment_size: DEFAULT_SEGMENT_SIZE, max_concurrent: 16 }
    }
}

impl ResourceConfig {
    /// A builder in which nothing is set.
    pub fn builder() -> (b: ResourceConfigBuilder)
        ensures
            b == (ResourceConfigBuilder { segment_size: None, max_concurrent: None }),
    {
        ResourceConfigBuilder { segment_size: None, max_concurrent: None }
    }
}

/// Builder of a [`ResourceConfig`].
#[derive(Debug, Clone, Copy)]
pub struct ResourceConfigBuilder {
    pub segment_size: Option<usize>,
    pub max_concurrent: Option<usize>,
}

impl ResourceConfigBuilder {
    pub fn segment_size(self, size: usize) -> (b: Self)
        ensures
            b == (ResourceConfigBuilder { segment_size: Some(size), ..self }),
    {
        ResourceConfigBuilder { segment_size: Some(size), ..self }
    }

    pub fn max_concurrent(self, max: usize) -> (b: Self)
        ensures
            b == (ResourceConfigBuilder { max_concurrent: Some(max), ..self }),
    {
        ResourceConfigBuilder { max_concurrent: Some(max), ..self }
    }

    /// The configuration; what is not set has its default.
    pub fn build(self) -> (c: ResourceConfig)
        ensures
            c.segment_size == (match self.segment_size {
                Some(s) => s,
                None => DEFAULT_SEGMENT_SIZE,
            }),
            c.max_concurrent == (match self.max_concurrent {
                Some(m) => m,
                None => 16,
            }),
    {
        ResourceConfig {
            segment_size: self.segment_size.unwrap_or(DEFAULT_SEGMENT_SIZE),
            max_concurrent: self.max_concurrent.unwrap_or(16),
        }
    }
}

/// A segment of a resource.
#[derive(Debug, Clone, PartialEq, Eq)]
pub struct Segment {
    /// Identifies the resource.
    pub resource_hash: Vec<u8>,
    /// The number of the segment, from zero.
    pub index: u32,
    /// How many segments the resource has.
    pub total: u32,
    pub data: Vec<u8>,
    /// SHA-256 digest of the data.
    pub checksum: Vec<u8>,
}

/// A segment as a mathematical value.
#[verifier::ext_equal]
pub struct SegmentModel {
    pub resource_hash: Seq<u8>,
    pub index: u32,
    pub total: u32,
    pub data: Seq<u8>,
    pub checksum: Seq<u8>,
}

impl View for Segment {
    type V = SegmentModel;

    open spec fn view(&self) -> SegmentModel {
        SegmentModel {
            resource_hash: self.resource_hash@,
            index: self.index,
            total: self.total,
            data: self.data@,
            checksum: self.checksum@,
        }
    }
}

impl SegmentModel {
    /// Whether the checksum belongs to the data.
    pub open spec fn intact(&self) -> bool {
        self.checksum == primitives::sha256_digest(self.data)
    }

    /// The bytes of the segment.
    pub open spec fn record(&self) -> Seq<u8> {
        codec::segment_record(self.resource_hash, self.index, self.total, self.data, self.checksum)
    }
}

/// The segments as mathematical values.
pub open spec fn segment_models(v: Seq<Segment>) -> Seq<SegmentModel> {
    Seq::new(v.len(), |i: int| v[i]@)
}

/// A segment is read back from its bytes.
pub proof fn law_segment_roundtrip(s: Segment)
    ensures
        codec::segment_fields(s@.record()) == Some(
            (s@.resource_hash, s@.index as nat, s@.total as nat, s@.data, s@.checksum),
        ),
{
    assert(s.resource_hash.len() <= usize::MAX);
    assert(s.data.len() <= usize::MAX);
    assert(s.checksum.len() <= usize::MAX);
    codec::lemma_segment_record(
        s.resource_hash@,
        s.index,
        s.total,
        s.data@,
        s.checksum@,
    );
}

impl Segment {
    /// A segment with the checksum of its data.
    pub fn new(resource_hash: Vec<u8>, index: u32, total: u32, data: Vec<u8>) -> (s: Self)
        ensures
            s@ == (SegmentModel {
                resource_hash: resource_hash@,
                index,
                total,
                data: data@,
                checksum: primitives::sha256_digest(data@),
            }),
            s@.intact(),
    {
        let digest: [u8; 32] = primitives::sha256(data.as_slice());
        Segment { resource_hash, index, total, data, checksum: wire::copy_all(digest.as_slice()) }
    }

    /// Whether the checksum belongs to the data.
    pub fn verify_checksum(&self) -> (r: bool)
        ensures
            r <==> self@.intact(),
    {
        let digest: [u8; 32] = primitives::sha256(self.data.as_slice());
        wire::same_bytes(self.checksum.as_slice(), digest.as_slice())
    }

    /// A copy of the segment.
    pub fn duplicate(&self) -> (s: Self)
        ensures
            s@ == self@,
    {
        Segment {
            resource_hash: wire::copy_all(self.resource_hash.as_slice()),
            index: self.index,
            total: self.total,
            data: wire::copy_all(self.data.as_slice()),
            checksum: wire::copy_all(self.checksum.as_slice()),
        }
    }

    /// The bytes of the segment.
    pub fn to_bytes(&self) -> (bytes: Vec<u8>)
        ensures
            bytes@ == self@.record(),
    {
        codec::encode_segment(
            self.resource_hash.as_slice(),
            self.index,
            self.total,
            self.data.as_slice(),
            self.checksum.as_slice(),
        )
    }

    /// Reads a segment; nothing where the bytes hold none.
    pub fn from_bytes(bytes: &[u8]) -> (r: Option<Self>)
        ensures
            (match r {
                Some(s) => codec::segment_fields(bytes@) == Some(
                    (s@.resource_hash, s@.index as nat, s@.total as nat, s@.data, s@.checksum),
                ),
                None => codec::segment_fields(bytes@) is None,
            }),
    {
        match codec::decode_segment(bytes) {
            Ok((resource_hash, index, total, data, checksum)) => Some(
                Segment { resource_hash, index, total, data, checksum },
            ),
            Err(_) => None,
        }
    }
}

/// The data of each segment.
pub open spec fn data_view(m: Map<u32, Segment>) -> Map<u32, Seq<u8>> {
    Map::new(|i: u32| m.dom().contains(i), |i: u32| m[i]@.data)
}

/// The segments of a resource that have arrived, in any order.
pub struct SegmentTracker {
    pub resource_hash: Vec<u8>,
    /// How many segments the resource has.
    pub total: u32,
    pub received: HashMap<u32, Segment>,
    /// Whether all segments have arrived.
    pub complete: bool,
}

impl SegmentTracker {
    /// Every segment that is kept belongs to the resource, stands under its own number
    /// and is intact; the transfer is complete when they are all there.
    pub open spec fn wf(&self) -> bool {
        &&& forall|i: u32|
            self.received@.dom().contains(i) ==> i < self.total && #[trigger] self.received@[i]@.index
                == i && self.received@[i]@.resource_hash == self.resource_hash@
                && self.received@[i]@.intact()
        &&& self.complete <==> self.total > 0 && pieces::all_below(
            self.received@.dom(),
            self.total as nat,
        )
    }

    /// What is wrong with a segment, if anything.
    pub open spec fn fault(&self, s: SegmentModel) -> Option<TransportFault> {
        if s.resource_hash != self.resource_hash@ {
            Some(TransportFault::UnknownResource(text::hex_text(s.resource_hash)))
        } else if s.index >= self.total {
            Some(TransportFault::ResourceSegmentOrder { expected: self.total, got: s.index })
        } else if self.received@.dom().contains(s.index) {
            Some(TransportFault::Other("duplicate segment "@ + text::decimal(s.index as nat)))
        } else if !s.intact() {
            Some(
                TransportFault::Other(
                    "checksum mismatch for segment "@ + text::decimal(s.index as nat),
                ),
            )
        } else {
            None
        }
    }

    /// A tracker for a resource of `total` segments.
    pub fn new(resource_hash: Vec<u8>, total: u32) -> (t: Self)
        ensures
            t.wf(),
            t.resource_hash == resource_hash,
            t.total == total,
            t.received@ == Map::<u32, Segment>::empty(),
            !t.complete,
    {
        let t = SegmentTracker { resource_hash, total, received: HashMap::new(), complete: false };
        assert(t.total > 0 ==> !t.received@.dom().contains(0u32));
        t
    }

    /// Takes in a segment, and returns whether the resource is now complete. A segment
    /// of another resource, out of range, already there or damaged is refused.
    pub fn add_segment(&mut self, segment: Segment) -> (r: Result<bool, TransportError>)
        requires
            old(self).wf(),
        ensures
            final(self).wf(),
            (match old(self).fault(segment@) {
                Some(f) => (r matches Err(e) && e@ == f) && *final(self) == *old(self),
                None => r == Ok::<bool, TransportError>(final(self).complete) && final(
                    self).resource_hash == old(self).resource_hash && final(self).total == old(
                    self).total && final(self).received@ == old(self).received@.insert(
                    segment.index,
                    segment,
                ),
            }),
    {
        if !wire::same_bytes(segment.resource_hash.as_slice(), self.resource_hash.as_slice()) {
            return Err(
                TransportError::UnknownResource(
                    text::hex_encode(segment.resource_hash.as_slice()),
                ),
            );
        }
        if segment.index >= self.total {
            return Err(
                TransportError::ResourceSegmentOrder { expected: self.total, got: segment.index },
            );
        }
        if self.received.contains_key(&segment.index) {
            return Err(
                TransportError::Other(
                    text::join(
                        "duplicate segment ",
                        text::to_decimal(segment.index as u64).as_str(),
                    ),
                ),
            );
        }
        if !segment.verify_checksum() {
            return Err(
                TransportError::Other(
                    text::join(
                        "checksum mismatch for segment ",
                        text::to_decimal(segment.index as u64).as_str(),
                    ),
                ),
            );
        }
        let index: u32 = segment.index;
        let ghost before = self.received@;
        self.received.insert(index, segment);
        proof {
            assert forall|i: u32| self.received@.dom().contains(i) implies i < self.total
                && #[trigger] self.received@[i]@.index == i && self.received@[i]@.resource_hash
                == self.resource_hash@ && self.received@[i]@.intact() by {
                if i != index {
                    assert(before.dom().contains(i) && before[i]@.index == i);
                }
            }
            assert forall|i: u32| self.received@.dom().contains(i) implies i < self.total by {
                assert(self.received@[i]@.index == i);
            }
            pieces::lemma_all_below(self.received@.dom(), self.total as nat);
            assert(!pieces::all_below(before.dom(), self.total as nat));
        }
        if self.received.len() as u32 == self.total {
            self.complete = true;
            Ok(true)
        } else {
            Ok(false)
        }
    }

    /// The resource, once it is complete.
    pub fn assemble(&self) -> (r: Option<Vec<u8>>)
        requires
            self.wf(),
        ensures
            wire::bytes_view(r) == (if self.complete {
                Some(pieces::joined(data_view(self.received@), self.total as nat))
            } else {
                None
            }),
    {
        if !self.complete {
            return None;
        }
        let mut data: Vec<u8> = Vec::new();
        let mut i: u32 = 0;
        while i < self.total
            invariant
                self.wf(),
                self.complete,
                i <= self.total,
                data@ == pieces::joined(data_view(self.received@), i as nat),
            decreases self.total - i,
        {
            assert(self.received@.dom().contains(i));
            match self.received.get(&i) {
                Some(s) => {
                    wire::push_all(&mut data, s.data.as_slice());
                },
                None => {},
            }
            i = i + 1;
        }
        Some(data)
    }

    /// The hash of the resource.
    pub fn resource_hash(&self) -> (h: &[u8])
        ensures
            h@ == self.resource_hash@,
    {
        self.resource_hash.as_slice()
    }

    /// How many segments the resource has.
    pub fn total(&self) -> (n: u32)
        ensures
            n == self.total,
    {
        self.total
    }

    /// How many segments have arrived.
    pub fn received_count(&self) -> (n: usize)
        ensures
            n == self.received@.dom().len(),
    {
        self.received.len()
    }

    /// Whether all segments have arrived.
    pub fn is_complete(&self) -> (r: bool)
        ensures
            r == self.complete,
    {
        self.complete
    }

    /// How many segments have not arrived.
    pub fn missing_count(&self) -> (n: usize)
        requires
            self.wf(),
        ensures
            n == self.total - self.received@.dom().len(),
    {
        proof {
            assert forall|i: u32| self.received@.dom().contains(i) implies i < self.total by {
                assert(self.received@[i]@.index == i);
            }
            pieces::lemma_all_below(self.received@.dom(), self.total as nat);
        }
        self.total as usize - self.received.len()
    }

    /// The numbers of the segments that have not arrived, in ascending order.
    pub fn missing_indices(&self) -> (v: Vec<u32>)
        ensures
            forall|i: u32|
                v@.contains(i) <==> i < self.total && !self.received@.dom().contains(i),
            forall|a: int, b: int| 0 <= a < b < v@.len() ==> v@[a] < v@[b],
    {
        let mut v: Vec<u32> = Vec::new();
        let mut i: u32 = 0;
        while i < self.total
            invariant
                i <= self.total,
                forall|k: u32|
                    v@.contains(k) <==> k < i && !self.received@.dom().contains(k),
                forall|a: int| 0 <= a < v@.len() ==> v@[a] < i,
                forall|a: int, b: int| 0 <= a < b < v@.len() ==> v@[a] < v@[b],
            decreases self.total - i,
        {
            if !self.received.contains_key(&i) {
                let ghost before = v@;
                v.push(i);
                proof {
                    assert forall|k: u32|
                        v@.contains(k) <==> k < i + 1 && !self.received@.dom().contains(k) by {
                        if before.contains(k) {
                            let j = before.index_of(k);
                            assert(v@[j] == k);
                        }
                        if k == i {
                            assert(v@[before.len() as int] == k);
                        }
                        if v@.contains(k) && k != i {
                            let j = v@.index_of(k);
                            assert(before[j] == k);
                        }
                    }
                }
            }
            i = i + 1;
        }
        v
    }
}

/// State of a transfer.
#[derive(Debug, Clone, Copy, PartialEq, Eq, Structural)]
pub enum ResourceState {
    /// The transfer has not begun.
    Pending,
    /// Segments are being transferred.
    Transferring,
    /// All segments received and verified.
    Complete,
    /// The transfer failed or was aborted.
    Failed,
}

/// A resource that is sent or received.
pub struct Resource {
    /// SHA-256 digest of the data.
    pub hash: Vec<u8>,
    /// Size of the data.
    pub total_size: usize,
    /// The data, once it is known.
    pub data: Option<Vec<u8>>,
    pub state: ResourceState,
    pub tracker: SegmentTracker,
    pub config: ResourceConfig,
    /// The segments to send.
    pub segments: Vec<Segment>,
}

/// Segment `i` of some data. Numbers take 32 bits.
pub open spec fn segment_of(data: Seq<u8>, size: nat, i: nat) -> SegmentModel {
    let part = pieces::piece(data, size, i);
    SegmentModel {
        resource_hash: primitives::sha256_digest(data),
        index: i as u32,
        total: pieces::piece_count(data.len(), size) as u32,
        data: part,
        checksum: primitives::sha256_digest(part),
    }
}

/// A tracker in which all segments of some data have arrived, in whatever order, holds
/// the data.
pub proof fn law_resource_roundtrip(t: SegmentTracker, data: Seq<u8>, size: nat)
    requires
        size > 0,
        t.wf(),
        t.complete,
        t.total == pieces::piece_count(data.len(), size),
        forall|i: u32|
            t.received@.dom().contains(i) ==> #[trigger] t.received@[i]@ == segment_of(
                data,
                size,
                i as nat,
            ),
    ensures
        pieces::joined(data_view(t.received@), t.total as nat) == data,
{
    let m = data_view(t.received@);
    assert forall|i: u32| i < t.total implies #[trigger] m[i] == pieces::piece(data, size, i as nat) by {
        assert(t.received@.dom().contains(i));
        assert(t.received@[i]@ == segment_of(data, size, i as nat));
    }
    pieces::law_pieces_rejoin(data, size, m, t.total as nat);
}

/// A tracker of a resource takes in each of its segments that is not there yet.
pub proof fn law_own_segment_accepted(t: SegmentTracker, data: Seq<u8>, size: nat, i: u32)
    requires
        size > 0,
        t.resource_hash@ == primitives::sha256_digest(data),
        t.total == pieces::piece_count(data.len(), size),
        i < t.total,
        !t.received@.dom().contains(i),
    ensures
        t.fault(segment_of(data, size, i as nat)) is None,
{
}

/// What a resource becomes when it takes a segment in.
pub open spec fn segment_added(before: Resource, after: Resource, s: Segment) -> bool {
    let t = after.tracker;
    &&& t.resource_hash == before.tracker.resource_hash
    &&& t.total == before.tracker.total
    &&& t.received@ == before.tracker.received@.insert(s.index, s)
    &&& t.wf()
    &&& after == Resource { tracker: t, state: after.state, data: after.data, ..before }
    &&& after.state == (if t.complete {
        ResourceState::Complete
    } else {
        ResourceState::Transferring
    })
    &&& wire::bytes_view(after.data) == (if t.complete {
        Some(pieces::joined(data_view(t.received@), t.total as nat))
    } else {
        wire::bytes_view(before.data)
    })
}

/// What a resource becomes when it refuses a segment: a complete one stays complete.
pub open spec fn segment_refused(before: Resource) -> Resource {
    Resource {
        state: if before.state == ResourceState::Complete {
            ResourceState::Complete
        } else {
            ResourceState::Transferring
        },
        ..before
    }
}

/// What handing a segment to a resource returns, and what the resource becomes.
pub open spec fn segment_received(
    before: Resource,
    s: Segment,
    r: Result<bool, TransportError>,
    after: Resource,
) -> bool {
    match before.tracker.fault(s@) {
        Some(f) => (r matches Err(e) && e@ == f) && after == segment_refused(before),
        None => r == Ok::<bool, TransportError>(after.tracker.complete) && segment_added(
            before,
            after,
            s,
        ),
    }
}

/// Whether a resource is being received of which the first `k` segments of a list have
/// arrived.
spec fn arrived(r: Resource, data: Seq<u8>, size: nat, order: Seq<u32>, k: int) -> bool {
    let t = r.tracker;
    &&& t.wf()
    &&& t.resource_hash@ == primitives::sha256_digest(data)
    &&& t.total == order.len()
    &&& t.received@.dom().finite()
    &&& t.received@.dom().len() == k
    &&& forall|i: u32| t.received@.dom().contains(i) <==> order.subrange(0, k).contains(i)
    &&& forall|i: u32|
        t.received@.dom().contains(i) ==> #[trigger] t.received@[i]@ == segment_of(
            data,
            size,
            i as nat,
        )
    &&& k < order.len() ==> r.data is None
}

proof fn lemma_arrives(
    before: Resource,
    s: Segment,
    r: Result<bool, TransportError>,
    after: Resource,
    data: Seq<u8>,
    size: nat,
    order: Seq<u32>,
    k: int,
)
    requires
        size > 0,
        pieces::any_order(order),
        order.len() == pieces::piece_count(data.len(), size),
        order.len() <= u32::MAX,
        0 <= k < order.len(),
        arrived(before, data, size, order, k),
        s@ == segment_of(data, size, order[k] as nat),
        segment_received(before, s, r, after),
    ensures
        arrived(after, data, size, order, k + 1),
        r == Ok::<bool, TransportError>(k + 1 == order.len()),
        k + 1 < order.len() ==> after.data is None,
        k + 1 == order.len() ==> wire::bytes_view(after.data) == Some(data) && after.state
            == ResourceState::Complete,
{
    let i = order[k];
    let t = after.tracker;
    if before.tracker.received@.dom().contains(i) {
        let j = order.subrange(0, k).index_of(i);
        assert(order[j] == order.subrange(0, k)[j]);
    }
    law_own_segment_accepted(before.tracker, data, size, i);
    assert(s.index == i);
    let now = order.subrange(0, k + 1);
    assert forall|x: u32| t.received@.dom().contains(x) <==> now.contains(x) by {
        if now.contains(x) {
            let j = now.index_of(x);
            if j < k {
                assert(order.subrange(0, k)[j] == x);
            }
        }
        if order.subrange(0, k).contains(x) {
            let j = order.subrange(0, k).index_of(x);
            assert(now[j] == x);
        }
        assert(now[k] == i);
    }
    assert forall|x: u32| t.received@.dom().contains(x) implies #[trigger] t.received@[x]@
        == segment_of(data, size, x as nat) by {
        if x != i {
            assert(before.tracker.received@.dom().contains(x));
            assert(t.received@[x] == before.tracker.received@[x]);
        }
    }
    assert forall|x: u32| t.received@.dom().contains(x) implies x < t.total by {
        assert(t.received@[x]@.index == x);
    }
    pieces::lemma_all_below(t.received@.dom(), t.total as nat);
    if k + 1 == order.len() {
        law_resource_roundtrip(t, data, size);
    }
}

/// A resource to receive that is handed each segment of some data once, in whatever
/// order, takes them all in; with the last one, and not before, it is complete and has
/// the data, and no segment is missing. `states` and `results` are what the calls of
/// [`Resource::receive_segment`] make and return.
pub proof fn law_received_in_any_order(
    data: Seq<u8>,
    size: nat,
    order: Seq<u32>,
    segments: Seq<Segment>,
    states: Seq<Resource>,
    results: Seq<Result<bool, TransportError>>,
)
    requires
        size > 0,
        data.len() > 0,
        order.len() == pieces::piece_count(data.len(), size),
        order.len() <= u32::MAX,
        pieces::any_order(order),
        segments.len() == order.len(),
        forall|i: int|
            0 <= i < order.len() ==> (#[trigger] segments[i])@ == segment_of(
                data,
                size,
                order[i] as nat,
            ),
        states.len() == order.len() + 1,
        results.len() == order.len(),
        states[0].tracker.wf(),
        states[0].tracker.resource_hash@ == primitives::sha256_digest(data),
        states[0].tracker.total == order.len(),
        states[0].tracker.received@ == Map::<u32, Segment>::empty(),
        states[0].data is None,
        forall|i: int|
            0 <= i < order.len() ==> segment_received(
                states[i],
                #[trigger] segments[i],
                results[i],
                states[i + 1],
            ),
    ensures
        forall|i: int|
            0 <= i < order.len() ==> #[trigger] results[i] == Ok::<bool, TransportError>(
                i == order.len() - 1,
            ),
        forall|i: int| 0 <= i < order.len() ==> (#[trigger] states[i]).data is None,
        wire::bytes_view(states.last().data) == Some(data),
        states.last().state == ResourceState::Complete,
        pieces::all_below(states.last().tracker.received@.dom(), order.len()),
{
    assert(order.subrange(0, 0) =~= Seq::empty());
    assert(arrived(states[0], data, size, order, 0));
    lemma_all_arrive(data, size, order, segments, states, results, order.len() as int);
    let last = order.len() as int;
    let t = states[last].tracker;
    pieces::lemma_all_below(t.received@.dom(), t.total as nat);
    assert(results[last - 1] == Ok::<bool, TransportError>(true));
}

proof fn lemma_all_arrive(
    data: Seq<u8>,
    size: nat,
    order: Seq<u32>,
    segments: Seq<Segment>,
    states: Seq<Resource>,
    results: Seq<Result<bool, TransportError>>,
    k: int,
)
    requires
        size > 0,
        order.len() == pieces::piece_count(data.len(), size),
        order.len() <= u32::MAX,
        pieces::any_order(order),
        segments.len() == order.len(),
        forall|i: int|
            0 <= i < order.len() ==> (#[trigger] segments[i])@ == segment_of(
                data,
                size,
                order[i] as nat,
            ),
        states.len() == order.len() + 1,
        results.len() == order.len(),
        arrived(states[0], data, size, order, 0),
        forall|i: int|
            0 <= i < order.len() ==> segment_received(
                states[i],
                #[trigger] segments[i],
                results[i],
                states[i + 1],
            ),
        0 <= k <= order.len(),
    ensures
        arrived(states[k], data, size, order, k),
        forall|i: int|
            0 <= i < k ==> #[trigger] results[i] == Ok::<bool, TransportError>(
                i == order.len() - 1,
            ),
        forall|i: int| 0 <= i < k ==> (#[trigger] states[i]).data is None,
        k > 0 && k == order.len() ==> wire::bytes_view(states[k].data) == Some(data)
            && states[k].state == ResourceState::Complete,
    decreases k,
{
    if k > 0 {
        lemma_all_arrive(data, size, order, segments, states, results, k - 1);
        assert(segments[k - 1]@ == segment_of(data, size, order[k - 1] as nat));
        lemma_arrives(
            states[k - 1],
            segments[k - 1],
            results[k - 1],
            states[k],
            data,
            size,
            order,
            k - 1,
        );
    }
}

/// A complete resource that is handed one of its segments again refuses it and stays
/// complete, with its data.
pub proof fn law_complete_stays(
    before: Resource,
    s: Segment,
    r: Result<bool, TransportError>,
    after: Resource,
)
    requires
        before.tracker.wf(),
        before.tracker.complete,
        before.state == ResourceState::Complete,
        segment_received(before, s, r, after),
    ensures
        r is Err,
        after == before,
{
}

impl Resource {
    /// A resource to send, cut into segments of the configured size.
    pub fn new_for_sending(data: Vec<u8>, config: ResourceConfig) -> (r: Self)
        requires
            config.segment_size > 0,
        ensures
            r.tracker.wf(),
            r.hash@ == primitives::sha256_digest(data@),
            r.total_size == data@.len(),
            r.data == Some(data),
            r.state == ResourceState::Pending,
            r.config == config,
            r.tracker.resource_hash@ == r.hash@,
            r.tracker.total == pieces::piece_count(data@.len(), config.segment_size as nat) as u32,
            r.tracker.received@ == Map::<u32, Segment>::empty(),
            segment_models(r.segments@) == Seq::new(
                pieces::piece_count(data@.len(), config.segment_size as nat),
                |i: int| segment_of(data@, config.segment_size as nat, i as nat),
            ),
    {
        let digest: [u8; 32] = primitives::sha256(data.as_slice());
        let size: usize = config.segment_size;
        let parts: Vec<Vec<u8>> = pieces::split(data.as_slice(), size);
        let ghost all = wire::all_bytes(parts@);
        let n: usize = parts.len();
        assert(all.len() == n);
        let total: u32 = n as u32;
        let mut segments: Vec<Segment> = Vec::new();
        let mut i: usize = 0;
        while i < n
            invariant
                i <= n == parts@.len(),
                digest@ == primitives::sha256_digest(data@),
                all == wire::all_bytes(parts@),
                all == Seq::new(
                    pieces::piece_count(data@.len(), size as nat),
                    |j: int| pieces::piece(data@, size as nat, j as nat),
                ),
                n == pieces::piece_count(data@.len(), size as nat),
                total == n as u32,
                segments@.len() == i,
                forall|j: int|
                    0 <= j < i ==> (#[trigger] segments@[j])@ == segment_of(
                        data@,
                        size as nat,
                        j as nat,
                    ),
            decreases n - i,
        {
            assert(all[i as int] == pieces::piece(data@, size as nat, i as nat));
            let s: Segment = Segment::new(
                wire::copy_all(digest.as_slice()),
                i as u32,
                total,
                wire::copy_all(parts[i].as_slice()),
            );
            assert(s@ =~= segment_of(data@, size as nat, i as nat));
            segments.push(s);
            i = i + 1;
        }
        assert(segment_models(segments@) =~= Seq::new(
            pieces::piece_count(data@.len(), size as nat),
            |j: int| segment_of(data@, size as nat, j as nat),
        ));
        let tracker: SegmentTracker = SegmentTracker::new(
            wire::copy_all(digest.as_slice()),
            total,
        );
        Resource {
            hash: wire::copy_all(digest.as_slice()),
            total_size: data.len(),
            data: Some(data),
            state: ResourceState::Pending,
            tracker,
            config,
            segments,
        }
    }

    /// A resource to receive.
    pub fn new_for_receiving(
        hash: Vec<u8>,
        total_size: usize,
        total_segments: u32,
        config: ResourceConfig,
    ) -> (r: Self)
        ensures
            r.tracker.wf(),
            r.hash == hash,
            r.total_size == total_size,
            r.data is None,
            r.state == ResourceState::Pending,
            r.config == config,
            r.tracker.resource_hash@ == hash@,
            r.tracker.total == total_segments,
            r.tracker.received@ == Map::<u32, Segment>::empty(),
            r.segments@.len() == 0,
    {
        let tracker: SegmentTracker = SegmentTracker::new(
            wire::copy_all(hash.as_slice()),
            total_segments,
        );
        Resource {
            hash,
            total_size,
            data: None,
            state: ResourceState::Pending,
            tracker,
            config,
            segments: Vec::new(),
        }
    }

    /// The hash of the resource.
    pub fn hash(&self) -> (h: &[u8])
        ensures
            h@ == self.hash@,
    {
        self.hash.as_slice()
    }

    /// The size of the data.
    pub fn total_size(&self) -> (n: usize)
        ensures
            n == self.total_size,
    {
        self.total_size
    }

    /// The state of the transfer.
    pub fn state(&self) -> (s: ResourceState)
        ensures
            s == self.state,
    {
        self.state
    }

    /// How many segments are there to send.
    pub fn segment_count(&self) -> (n: usize)
        ensures
            n == self.segments@.len(),
    {
        self.segments.len()
    }

    /// The data, once it is known.
    pub fn data(&self) -> (d: Option<&[u8]>)
        ensures
            wire::slice_view(d) == wire::bytes_view(self.data),
    {
        match &self.data {
            Some(d) => Some(d.as_slice()),
            None => None,
        }
    }

    /// The segment with the given number, if there is one; the transfer is then under
    /// way.
    pub fn next_segment(&mut self, index: u32) -> (s: Option<&Segment>)
        ensures
            *final(self) == (Resource { state: ResourceState::Transferring, ..*old(self) }),
            (match s {
                Some(x) => index < old(self).segments@.len() && *x == old(
                    self).segments@[index as int],
                None => index >= old(self).segments@.len(),
            }),
    {
        self.state = ResourceState::Transferring;
        if (index as usize) < self.segments.len() {
            Some(&self.segments[index as usize])
        } else {
            None
        }
    }

    /// All segments to send.
    pub fn all_segments(&self) -> (s: &[Segment])
        ensures
            s@ == self.segments@,
    {
        self.segments.as_slice()
    }

    /// Takes in a segment, and returns whether the resource is now complete; its data
    /// is then known.
    pub fn receive_segment(&mut self, segment: Segment) -> (r: Result<bool, TransportError>)
        requires
            old(self).tracker.wf(),
        ensures
            final(self).tracker.wf(),
            segment_received(*old(self), segment, r, *final(self)),
    {
        let held: ResourceState = self.state;
        self.state = ResourceState::Transferring;
        match self.tracker.add_segment(segment) {
            Ok(complete) => {
                if complete {
                    self.state = ResourceState::Complete;
                    self.data = self.tracker.assemble();
                }
                Ok(complete)
            },
            Err(e) => {
                if held == ResourceState::Complete {
                    self.state = held;
                }
                Err(e)
            },
        }
    }

    /// Marks the transfer as failed.
    pub fn fail(&mut self)
        ensures
            *final(self) == (Resource { state: ResourceState::Failed, ..*old(self) }),
    {
        self.state = ResourceState::Failed;
    }

    /// Whether the transfer is complete.
    pub fn is_complete(&self) -> (r: bool)
        ensures
            r <==> self.state == ResourceState::Complete,
    {
        self.state == ResourceState::Complete
    }

    /// The numbers of the segments that have not arrived, in ascending order.
    pub fn missing_segments(&self) -> (v: Vec<u32>)
        ensures
            forall|i: u32|
                v@.contains(i) <==> i < self.tracker.total
                    && !self.tracker.received@.dom().contains(i),
            forall|a: int, b: int| 0 <= a < b < v@.len() ==> v@[a] < v@[b],
    {
        self.tracker.missing_indices()
    }

    /// How many segments the resource has.
    pub fn total_segments(&self) -> (n: u32)
        ensures
            n == self.tracker.total,
    {
        self.tracker.total()
    }
}

/// A segment is taken exactly where it is of this resource, one of its segments, not yet
/// there, and its checksum is the digest of its data.
pub proof fn law_segment_is_checked(t: SegmentTracker, s: SegmentModel)
    ensures
        t.fault(s) is None <==> {
            &&& s.resource_hash == t.resource_hash@
            &&& s.index < t.total
            &&& !t.received@.dom().contains(s.index)
            &&& s.checksum == primitives::sha256_digest(s.data)
        },
{
}

/// A segment of a resource is one of its pieces, and tells the digest of the whole, its
/// place, how many there are, and its own digest.
pub proof fn law_segment_of(data: Seq<u8>, size: nat, i: nat)
    requires
        size > 0,
        i < pieces::piece_count(data.len(), size) <= u32::MAX,
    ensures
        ({
            let s = segment_of(data, size, i);
            &&& s.resource_hash == primitives::sha256_digest(data)
            &&& s.index == i
            &&& (s.total - 1) * size < data.len() <= s.total * size
            &&& s.checksum == primitives::sha256_digest(s.data)
            &&& 0 < s.data.len() <= size
            &&& (i + 1 < s.total ==> s.data.len() == size)
            &&& forall|j: int| 0 <= j < s.data.len() ==> #[trigger] s.data[j] == data[i * size + j]
        }),
{
    pieces::law_piece_sizes(data, size, i);
}

/// A segment that is refused adds nothing: what has been received and the data are as
/// before. One that is taken is then among the received ones.
pub proof fn law_refused_segment_adds_nothing(
    before: Resource,
    s: Segment,
    r: Result<bool, TransportError>,
    after: Resource,
)
    requires
        segment_received(before, s, r, after),
    ensures
        r is Err <==> before.tracker.fault(s@) is Some,
        r is Err ==> after.tracker == before.tracker && after.data == before.data,
        r is Ok ==> after.tracker.received@.dom().contains(s.index) && after.tracker.received@[s.index]
            == s && after.tracker.received@.dom() == before.tracker.received@.dom().insert(s.index),
        r matches Ok(done) ==> (done <==> after.state == ResourceState::Complete),
{
    if r is Ok {
        assert(after.tracker.received@.dom() =~= before.tracker.received@.dom().insert(s.index));
    }
}

/// What is made for sending has the segments of its data, in order, and tells the digest of
/// the data; each is handed out by its number.
pub proof fn law_resource_for_sending(
    data: Vec<u8>,
    config: ResourceConfig,
    r: Resource,
    s: &mut Resource,
    index: u32,
    got: Option<&Segment>,
)
    requires
        config.segment_size > 0,
        call_ensures(Resource::new_for_sending, (data, config), r),
        *old(s) == r,
        call_ensures(Resource::next_segment, (s, index), got),
        pieces::piece_count(data@.len(), config.segment_size as nat) <= u32::MAX,
    ensures
        r.hash@ == primitives::sha256_digest(data@),
        r.total_size == data@.len(),
        r.state == ResourceState::Pending,
        got is Some <==> index < pieces::piece_count(data@.len(), config.segment_size as nat),
        got matches Some(x) ==> x@ == segment_of(
            data@,
            config.segment_size as nat,
            index as nat,
        ),
        final(s).state == ResourceState::Transferring,
{
    let size = config.segment_size as nat;
    let all = segment_models(r.segments@);
    assert(all.len() == r.segments@.len());
    if let Some(x) = got {
        assert(all[index as int] == r.segments@[index as int]@);
    }
}

/// What is made for receiving waits for all of its segments.
pub proof fn law_resource_for_receiving(
    hash: Vec<u8>,
    total_size: usize,
    total: u32,
    config: ResourceConfig,
    r: Resource,
    missing: Vec<u32>,
    i: u32,
)
    requires
        call_ensures(Resource::new_for_receiving, (hash, total_size, total, config), r),
        call_ensures(Resource::missing_segments, (&r,), missing),
    ensures
        r.data is None && r.state == ResourceState::Pending && r.hash == hash && r.total_size
            == total_size,
        missing@.contains(i) <==> i < total,
{
}

/// A segment that was accepted is no longer missing, the others are as they were, and the
/// transfer is complete exactly where none is missing.
pub proof fn law_accepted_is_not_missing(
    t: &mut SegmentTracker,
    s: Segment,
    r: Result<bool, TransportError>,
    before: Vec<u32>,
    after: Vec<u32>,
    i: u32,
)
    requires
        old(t).wf(),
        call_ensures(SegmentTracker::add_segment, (t, s), r),
        call_ensures(SegmentTracker::missing_indices, (old(t),), before),
        call_ensures(SegmentTracker::missing_indices, (final(t),), after),
        r is Ok,
    ensures
        after@.contains(i) <==> before@.contains(i) && i != s.index,
        final(t).total > 0 ==> (r == Ok::<bool, TransportError>(true) <==> after@.len() == 0),
{
    let all = pieces::all_below(final(t).received@.dom(), final(t).total as nat);
    if after@.len() > 0 {
        assert(after@.contains(after@[0]));
    }
    if !all && final(t).total > 0 {
        let k = choose|k: u32|
            k < final(t).total && !(#[trigger] final(t).received@.dom().contains(k));
        assert(after@.contains(k));
    }
}

/// What the builder is told stands in what it builds, whatever else it is told; the rest is
/// 1024 bytes to a segment, and 16 segments at once.
pub proof fn law_built_config(
    fresh: ResourceConfigBuilder,
    size: usize,
    with_size: ResourceConfigBuilder,
    max: usize,
    with_max: ResourceConfigBuilder,
    plain: ResourceConfig,
    told: ResourceConfig,
)
    requires
        call_ensures(ResourceConfig::builder, (), fresh),
        call_ensures(ResourceConfigBuilder::segment_size, (fresh, size), with_size),
        call_ensures(ResourceConfigBuilder::max_concurrent, (with_size, max), with_max),
        call_ensures(ResourceConfigBuilder::build, (fresh,), plain),
        call_ensures(ResourceConfigBuilder::build, (with_max,), told),
    ensures
        plain.segment_size == 1024 && plain.max_concurrent == 16,
        told.segment_size == size && told.max_concurrent == max,
{
}

} // verus!
