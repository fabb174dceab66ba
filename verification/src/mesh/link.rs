//! Peers and the quality of the links to them.

use crate::identity::RnsAddress;
use crate::mesh::score;
use crate::span::TimeSpan;
use crate::table;
use crate::table::Table;
use vstd::prelude::*;

verus! {

/// Measured quality of a link, as bit patterns of floating-point numbers.
#[derive(Debug, Clone, Copy, PartialEq, Eq, Structural)]
pub struct LinkQuality {
    /// Round-trip time in microseconds.
    pub rtt_us: u64,
    /// Fraction of what is lost.
    pub loss: u64,
    /// Score between 0 and 1.
    pub score: u64,
}

impl Default for LinkQuality {
    /// Nothing was measured yet.
    fn default() -> (q: Self)
        ensures
            q == (LinkQuality { rtt_us: 0, loss: 0, score: 0 }),
    {
        LinkQuality { rtt_us: 0, loss: 0, score: 0 }
    }
}

/// A known peer.
#[derive(Debug, Clone, PartialEq, Eq)]
pub struct PeerInfo {
    pub address: RnsAddress,
    pub medium_name: String,
    pub quality: LinkQuality,
    pub last_seen: TimeSpan,
}

/// Settings of the link layer.
#[derive(Debug, Clone, Copy, PartialEq, Eq, Structural)]
pub struct LinkConfig {
    pub heartbeat_interval: TimeSpan,
    pub peer_timeout: TimeSpan,
    /// Weight of a new measurement, as the bit pattern of a number between 0 and 1.
    pub smoothing_alpha: u64,
}

impl Default for LinkConfig {
    /// A heartbeat every 5 seconds, peers time out after 30, and a weight of one fifth.
    fn default() -> (c: Self)
        ensures
            c == (LinkConfig {
                heartbeat_interval: TimeSpan { secs: 5, nanos: 0 },
                peer_timeout: TimeSpan { secs: 30, nanos: 0 },
                smoothing_alpha: 0x3FC9_9999_9999_999A,
            }),
    {
        LinkConfig {
            heartbeat_interval: TimeSpan::from_secs(5),
            peer_timeout: TimeSpan::from_secs(30),
            smoothing_alpha: 0x3FC9_9999_9999_999A,
        }
    }
}

/// A peer over sequences.
pub struct PeerView {
    pub address: RnsAddress,
    pub medium_name: Seq<char>,
    pub quality: LinkQuality,
    pub last_seen: TimeSpan,
}

impl View for PeerInfo {
    type V = PeerView;

    open spec fn view(&self) -> PeerView {
        PeerView {
            address: self.address,
            medium_name: self.medium_name@,
            quality: self.quality,
            last_seen: self.last_seen,
        }
    }
}

/// Peers over sequences.
pub open spec fn peers_view(m: Map<Seq<u8>, PeerInfo>) -> Map<Seq<u8>, PeerView> {
    Map::new(|k: Seq<u8>| m.dom().contains(k), |k: Seq<u8>| m[k]@)
}

/// The quality of the link to a peer.
pub open spec fn quality_of(m: Map<Seq<u8>, PeerView>, addr: Seq<u8>) -> Option<LinkQuality> {
    if m.dom().contains(addr) {
        Some(m[addr].quality)
    } else {
        None
    }
}

/// Whether a time is less than `timeout` before `now`.
pub open spec fn recent(seen: TimeSpan, timeout: TimeSpan, now: TimeSpan) -> bool {
    now.total() < seen.total() + timeout.total()
}

/// Whether a time is less than `timeout` before `now`.
pub fn is_recent(seen: TimeSpan, timeout: TimeSpan, now: TimeSpan) -> (r: bool)
    ensures
        r <==> recent(seen, timeout, now),
{
    let a: u128 = now.secs as u128 * 1_000_000_000 + now.nanos as u128;
    let b: u128 = seen.secs as u128 * 1_000_000_000 + seen.nanos as u128;
    let c: u128 = timeout.secs as u128 * 1_000_000_000 + timeout.nanos as u128;
    a < b + c
}

/// Peers after a heartbeat of one of them.
pub open spec fn heard_of(
    m: Map<Seq<u8>, PeerView>,
    from: RnsAddress,
    medium_name: Seq<char>,
    quality: LinkQuality,
    now: TimeSpan,
) -> Map<Seq<u8>, PeerView> {
    m.insert(
        from@,
        if m.dom().contains(from@) {
            PeerView { quality, last_seen: now, ..m[from@] }
        } else {
            PeerView { address: from, medium_name, quality, last_seen: now }
        },
    )
}

/// The peers that were seen within a time.
pub open spec fn still_seen(m: Map<Seq<u8>, PeerView>, timeout: TimeSpan, now: TimeSpan) -> Map<
    Seq<u8>,
    PeerView,
> {
    Map::new(
        |k: Seq<u8>| m.dom().contains(k) && recent(m[k].last_seen, timeout, now),
        |k: Seq<u8>| m[k],
    )
}

/// Known peers and the quality of the links to them.
pub struct LinkManager {
    pub config: LinkConfig,
    pub peers: Table<RnsAddress, PeerInfo>,
    /// The medium that new peers are seen on.
    pub medium_name: String,
}

impl LinkManager {
    /// The peers, by address.
    pub open spec fn known(&self) -> Map<Seq<u8>, PeerView> {
        peers_view(self.peers@)
    }

    pub open spec fn wf(&self) -> bool {
        self.peers.wf()
    }

    /// No peers yet.
    pub fn new(medium_name: String, config: LinkConfig) -> (m: Self)
        ensures
            m.wf(),
            m.known() == Map::<Seq<u8>, PeerView>::empty(),
            m.config == config,
            m.medium_name == medium_name,
    {
        let m = LinkManager { config, peers: Table::new(), medium_name };
        assert(m.known() =~= Map::<Seq<u8>, PeerView>::empty());
        m
    }

    /// All peers, in the order of their last heartbeats.
    pub fn peers(&self) -> (v: Vec<&PeerInfo>)
        requires
            self.wf(),
        ensures
            v@.len() == self.known().dom().len(),
            forall|i: int|
                0 <= i < v@.len() ==> self.peers@.dom().contains((#[trigger] self.peers.entries@[i]).0@)
                    && *v@[i] == self.peers@[self.peers.entries@[i].0@],
    {
        let mut v: Vec<&PeerInfo> = Vec::new();
        let mut i: usize = 0;
        while i < self.peers.entries.len()
            invariant
                i <= self.peers.entries@.len(),
                v@.len() == i,
                forall|j: int| 0 <= j < i ==> *v@[j] == (#[trigger] self.peers.entries@[j]).1,
            decreases self.peers.entries@.len() - i,
        {
            v.push(&self.peers.entries[i].1);
            i = i + 1;
        }
        proof {
            let list = self.peers.entries@;
            table::lemma_size(list);
            assert(self.known().dom() =~= self.peers@.dom());
            assert forall|j: int| 0 <= j < v@.len() implies self.peers@.dom().contains(
                (#[trigger] self.peers.entries@[j]).0@,
            ) && *v@[j] == self.peers@[self.peers.entries@[j].0@] by {
                table::lemma_entry(list, j);
            }
        }
        v
    }

    /// The peers with at least a given score, in the order of their last heartbeats.
    pub fn peers_above(&self, min_score: u64) -> (v: Vec<&PeerInfo>)
        ensures
            listed_above(self.peers.entries@, min_score, v@),
    {
        let mut v: Vec<&PeerInfo> = Vec::new();
        let mut i: usize = 0;
        let ghost list = self.peers.entries@;
        assert(list.subrange(0, 0) =~= Seq::empty());
        while i < self.peers.entries.len()
            invariant
                i <= list.len(),
                list == self.peers.entries@,
                listed_above(list.subrange(0, i as int), min_score, v@),
            decreases list.len() - i,
        {
            let ghost before = v@;
            proof {
                let now = list.subrange(0, i + 1);
                assert(now.drop_last() =~= list.subrange(0, i as int));
                assert(now.last() == list[i as int]);
            }
            let info: &PeerInfo = &self.peers.entries[i].1;
            if score::is_above(info.quality.score, min_score) || score::is_level(
                info.quality.score,
                min_score,
            ) {
                v.push(info);
                assert(v@.drop_last() =~= before);
            }
            i = i + 1;
        }
        assert(list.subrange(0, i as int) =~= list);
        v
    }

    /// Records a heartbeat of a peer with the quality that was computed from it.
    pub fn record_heartbeat(&mut self, from: RnsAddress, quality: LinkQuality, now: TimeSpan)
        requires
            old(self).wf(),
        ensures
            final(self).wf(),
            final(self).config == old(self).config,
            final(self).medium_name == old(self).medium_name,
            final(self).known() == heard_of(
                old(self).known(),
                from,
                old(self).medium_name@,
                quality,
                now,
            ),
    {
        let info: PeerInfo = match self.peers.remove(&from) {
            Some(found) => PeerInfo {
                address: found.address,
                medium_name: found.medium_name,
                quality,
                last_seen: now,
            },
            None => PeerInfo {
                address: from,
                medium_name: self.medium_name.as_str().to_owned(),
                quality,
                last_seen: now,
            },
        };
        self.peers.insert(from, info);
        assert(self.known() =~= old(self).known().insert(from@, info@));
    }

    /// Drops the peers that were not seen for the timeout.
    pub fn prune_stale(&mut self, now: TimeSpan)
        requires
            old(self).wf(),
        ensures
            final(self).wf(),
            final(self).config == old(self).config,
            final(self).medium_name == old(self).medium_name,
            final(self).known() == still_seen(
                old(self).known(),
                old(self).config.peer_timeout,
                now,
            ),
    {
        let ghost before = self.peers@;
        let mut i: usize = 0;
        while i < self.peers.entries.len()
            invariant
                i <= self.peers.entries@.len(),
                self.peers.wf(),
                self.config == old(self).config,
                self.medium_name == old(self).medium_name,
                before == old(self).peers@,
                forall|j: int|
                    0 <= j < i ==> recent(
                        (#[trigger] self.peers.entries@[j]).1.last_seen,
                        self.config.peer_timeout,
                        now,
                    ),
                forall|k: Seq<u8>| #[trigger]
                    self.peers@.dom().contains(k) ==> before.dom().contains(k) && self.peers@[k]
                        == before[k],
                forall|k: Seq<u8>| #[trigger]
                    before.dom().contains(k) && !self.peers@.dom().contains(k) ==> !recent(
                        before[k].last_seen,
                        self.config.peer_timeout,
                        now,
                    ),
            decreases self.peers.entries@.len() - i,
        {
            proof {
                table::lemma_entry(self.peers.entries@, i as int);
            }
            let seen: TimeSpan = self.peers.entries[i].1.last_seen;
            if is_recent(seen, self.config.peer_timeout, now) {
                i = i + 1;
            } else {
                let ghost held = self.peers@;
                proof {
                    table::lemma_remove(self.peers.entries@, i as int);
                }
                self.peers.entries.remove(i);
                assert forall|k: Seq<u8>| #[trigger]
                    self.peers@.dom().contains(k) implies before.dom().contains(k) && self.peers@[k]
                    == before[k] by {
                    assert(held.dom().contains(k));
                }
            }
        }
        proof {
            let after = self.peers@;
            assert forall|k: Seq<u8>| #[trigger] after.dom().contains(k) implies recent(
                after[k].last_seen,
                self.config.peer_timeout,
                now,
            ) by {
                let j = table::place(self.peers.entries@, k);
                table::lemma_entry(self.peers.entries@, j);
            }
            assert(self.known() =~= Map::new(
                |k: Seq<u8>|
                    old(self).known().dom().contains(k) && recent(
                        old(self).known()[k].last_seen,
                        old(self).config.peer_timeout,
                        now,
                    ),
                |k: Seq<u8>| old(self).known()[k],
            ));
        }
    }

    /// The quality of the link to a peer.
    pub fn quality_to(&self, addr: &RnsAddress) -> (q: Option<LinkQuality>)
        requires
            self.wf(),
        ensures
            q == quality_of(self.known(), addr@),
    {
        match self.peers.get(addr) {
            Some(p) => Some(p.quality),
            None => None,
        }
    }
}

/// Whether `v` lists the peers of at least a given score, in order.
pub open spec fn listed_above(
    entries: Seq<(RnsAddress, PeerInfo)>,
    min_score: u64,
    v: Seq<&PeerInfo>,
) -> bool
    decreases entries.len(),
{
    if entries.len() == 0 {
        v.len() == 0
    } else if score::above(entries.last().1.quality.score, min_score) || score::level(
        entries.last().1.quality.score,
        min_score,
    ) {
        v.len() > 0 && *v.last() == entries.last().1 && listed_above(
            entries.drop_last(),
            min_score,
            v.drop_last(),
        )
    } else {
        listed_above(entries.drop_last(), min_score, v)
    }
}

/// After a heartbeat the quality of the link to its sender is what the heartbeat brought,
/// and the sender was seen then. What is known of other peers stays; a peer that was known
/// stays on its medium.
pub proof fn law_heartbeat_is_recorded(
    m: Map<Seq<u8>, PeerView>,
    from: RnsAddress,
    medium_name: Seq<char>,
    quality: LinkQuality,
    now: TimeSpan,
)
    ensures
        ({
            let after = heard_of(m, from, medium_name, quality, now);
            &&& after.dom() == m.dom().insert(from@)
            &&& quality_of(after, from@) == Some(quality)
            &&& after[from@].last_seen == now
            &&& (!m.dom().contains(from@) ==> after[from@].address == from
                && after[from@].medium_name == medium_name)
            &&& (m.dom().contains(from@) ==> after[from@].address == m[from@].address
                && after[from@].medium_name == m[from@].medium_name)
            &&& forall|k: Seq<u8>| k != from@ ==> #[trigger] quality_of(after, k) == quality_of(m, k)
            &&& forall|k: Seq<u8>| k != from@ && #[trigger] m.dom().contains(k) ==> after[k] == m[k]
        }),
{
    assert(heard_of(m, from, medium_name, quality, now).dom() =~= m.dom().insert(from@));
}

/// A peer stays, as it is, as long as less than the timeout has passed since it was seen,
/// and is dropped from then on; no peer is added.
pub proof fn law_silent_peers_are_dropped(
    m: Map<Seq<u8>, PeerView>,
    timeout: TimeSpan,
    now: TimeSpan,
    k: Seq<u8>,
)
    ensures
        ({
            let after = still_seen(m, timeout, now);
            &&& (m.dom().contains(k) && now.total() < m[k].last_seen.total() + timeout.total()
                ==> after.dom().contains(k) && after[k] == m[k])
            &&& (m.dom().contains(k) && now.total() >= m[k].last_seen.total() + timeout.total()
                ==> !after.dom().contains(k))
            &&& (!m.dom().contains(k) ==> !after.dom().contains(k))
        }),
{
}

/// The list of peers with a least score holds each peer whose score is a number that is
/// not below it, and no other.
pub proof fn law_peers_above(
    entries: Seq<(RnsAddress, PeerInfo)>,
    min_score: u64,
    v: Seq<&PeerInfo>,
)
    requires
        listed_above(entries, min_score, v),
    ensures
        forall|i: int|
            0 <= i < v.len() ==> score::is_number((#[trigger] v[i]).quality.score)
                && !score::above(min_score, v[i].quality.score) && exists|j: int|
                0 <= j < entries.len() && (#[trigger] entries[j]).1 == *v[i],
        forall|j: int|
            0 <= j < entries.len() && score::is_number((#[trigger] entries[j]).1.quality.score)
                && score::is_number(min_score) && !score::above(
                min_score,
                entries[j].1.quality.score,
            ) ==> exists|i: int| 0 <= i < v.len() && *(#[trigger] v[i]) == entries[j].1,
        v.len() <= entries.len(),
    decreases entries.len(),
{
    if entries.len() > 0 {
        let rest = entries.drop_last();
        let last = entries.len() - 1;
        let kept = score::above(entries.last().1.quality.score, min_score) || score::level(
            entries.last().1.quality.score,
            min_score,
        );
        let w = if kept {
            v.drop_last()
        } else {
            v
        };
        law_peers_above(rest, min_score, w);
        assert forall|i: int| 0 <= i < v.len() implies score::is_number(
            (#[trigger] v[i]).quality.score,
        ) && !score::above(min_score, v[i].quality.score) && exists|j: int|
            0 <= j < entries.len() && (#[trigger] entries[j]).1 == *v[i] by {
            if i < w.len() {
                assert(w[i] == v[i]);
                let j = choose|j: int| 0 <= j < rest.len() && (#[trigger] rest[j]).1 == *w[i];
                assert(entries[j] == rest[j]);
            } else {
                assert(entries[last].1 == *v[i]);
            }
        }
        assert forall|j: int|
            0 <= j < entries.len() && score::is_number((#[trigger] entries[j]).1.quality.score)
                && score::is_number(min_score) && !score::above(
                min_score,
                entries[j].1.quality.score,
            ) implies exists|i: int| 0 <= i < v.len() && *(#[trigger] v[i]) == entries[j].1 by {
            if j < last {
                assert(rest[j] == entries[j]);
                let i = choose|i: int| 0 <= i < w.len() && *(#[trigger] w[i]) == rest[j].1;
                assert(v[i] == w[i]);
            } else {
                assert(*v[v.len() - 1] == entries[j].1);
            }
        }
    }
}

/// What was seen counts as recent for the whole of the timeout and no longer, however late
/// that is.
pub proof fn law_recent_until_timeout(seen: TimeSpan, timeout: TimeSpan, now: TimeSpan, r: bool)
    requires
        call_ensures(is_recent, (seen, timeout, now), r),
    ensures
        now.total() <= seen.total() && timeout.total() > 0 ==> r,
        now.total() == seen.total() + timeout.total() ==> !r,
        now.total() == seen.total() + timeout.total() - 1 ==> r,
        now.total() > seen.total() + timeout.total() ==> !r,
{
}

} // verus!
