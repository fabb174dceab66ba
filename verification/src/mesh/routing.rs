//! The routing table.

use crate::codec;
use crate::identity::RnsAddress;
use crate::mesh::link;
use crate::mesh::link::{LinkManager, LinkQuality};
use crate::mesh::score;
use crate::packet;
use crate::packet::{Packet, PacketModel};
use crate::span::TimeSpan;
use crate::table;
use crate::table::Table;
use vstd::prelude::*;

verus! {

/// A route.
#[derive(Debug, Clone, Copy, PartialEq, Eq)]
pub struct RouteEntry {
    pub destination: RnsAddress,
    pub next_hop: RnsAddress,
    pub path_quality: u64,
    pub hop_count: u8,
    pub last_refresh: TimeSpan,
}

/// Routes, by destination.
pub type RouteMap = Map<Seq<u8>, RouteEntry>;

/// Whether a path is better than a route: by quality, then by hops.
pub open spec fn better(quality: u64, hop_count: u8, than: RouteEntry) -> bool {
    score::above(quality, than.path_quality) || (score::level(quality, than.path_quality)
        && hop_count < than.hop_count)
}

/// Routes after a path to `dest` was found.
pub open spec fn updated(
    m: RouteMap,
    dest: RnsAddress,
    next_hop: RnsAddress,
    quality: u64,
    hop_count: u8,
    now: TimeSpan,
) -> RouteMap {
    if !m.dom().contains(dest@) {
        m.insert(
            dest@,
            RouteEntry {
                destination: dest,
                next_hop,
                path_quality: quality,
                hop_count,
                last_refresh: now,
            },
        )
    } else if better(quality, hop_count, m[dest@]) {
        m.insert(
            dest@,
            RouteEntry {
                destination: m[dest@].destination,
                next_hop,
                path_quality: quality,
                hop_count,
                last_refresh: now,
            },
        )
    } else {
        m
    }
}

/// The best path wins: after a path was found, the route is at least as good as the
/// path, and as the former route, and no other route has changed.
pub proof fn law_best_path_wins(
    m: RouteMap,
    dest: RnsAddress,
    next_hop: RnsAddress,
    quality: u64,
    hop_count: u8,
    now: TimeSpan,
)
    ensures
        ({
            let after = updated(m, dest, next_hop, quality, hop_count, now);
            &&& after.dom() == m.dom().insert(dest@)
            &&& !better(quality, hop_count, after[dest@])
            &&& (m.dom().contains(dest@) ==> !better(
                m[dest@].path_quality,
                m[dest@].hop_count,
                after[dest@],
            ))
            &&& forall|k: Seq<u8>| k != dest@ && m.dom().contains(k) ==> after[k] == m[k]
        }),
{
    let after = updated(m, dest, next_hop, quality, hop_count, now);
    assert(after.dom() =~= m.dom().insert(dest@));
}

/// Routes after an announce of `origin`: its peers are reached through it, with the
/// quality of the worse of the two links, over two hops.
pub open spec fn through(
    m: RouteMap,
    origin: RnsAddress,
    direct: u64,
    peers: Seq<(RnsAddress, u64)>,
    now: TimeSpan,
) -> RouteMap
    decreases peers.len(),
{
    if peers.len() == 0 {
        m
    } else {
        let (peer, quality) = peers.last();
        updated(
            through(m, origin, direct, peers.drop_last(), now),
            peer,
            origin,
            score::lower(direct, quality),
            2,
            now,
        )
    }
}

/// Routes after an announce was processed, given the quality of the link to its origin.
pub open spec fn announced(
    m: RouteMap,
    origin: RnsAddress,
    quality: Option<LinkQuality>,
    peers: Seq<(RnsAddress, u64)>,
    now: TimeSpan,
) -> RouteMap {
    match quality {
        Some(q) => through(
            updated(m, origin, origin, q.score, 1, now),
            origin,
            q.score,
            peers,
            now,
        ),
        None => m,
    }
}

/// The routes that were refreshed within a time.
pub open spec fn refreshed(m: RouteMap, timeout: TimeSpan, now: TimeSpan) -> RouteMap {
    Map::new(
        |k: Seq<u8>| m.dom().contains(k) && link::recent(m[k].last_refresh, timeout, now),
        |k: Seq<u8>| m[k],
    )
}

/// What an announce of the routing layer says.
#[derive(Debug, Clone, PartialEq, Eq)]
pub struct AnnouncePayload {
    /// The node that announces itself.
    pub origin: RnsAddress,
    /// The peers that it reaches, and the scores of the links to them.
    pub peers: Vec<(RnsAddress, u64)>,
}

/// The routing table.
pub struct MeshRouter {
    pub routes: Table<RnsAddress, RouteEntry>,
    pub local_addr: RnsAddress,
    pub route_timeout: TimeSpan,
}

impl View for MeshRouter {
    type V = RouteMap;

    open spec fn view(&self) -> RouteMap {
        self.routes@
    }
}

/// The scores of some peers.
pub open spec fn scores(v: Seq<&link::PeerInfo>) -> Seq<(Seq<u8>, u64)> {
    Seq::new(v.len(), |i: int| (v[i].address@, v[i].quality.score))
}

/// Whether a packet announces a node and its peers to everyone.
pub open spec fn is_announce_of(p: PacketModel, origin: Seq<u8>, peers: Seq<(Seq<u8>, u64)>) -> bool {
    p == PacketModel {
        header_type: packet::HEADER_1,
        context_flag: packet::FLAG_SET,
        transport_type: packet::TRANSPORT_BROADCAST,
        destination_type: packet::DEST_SINGLE,
        packet_type: packet::ANNOUNCE,
        hops: 1,
        destination_hash: Seq::new(16, |i: int| 0u8),
        transport_id: None,
        context: packet::NONE,
        data: codec::announce_record(origin, peers),
    }
}

impl MeshRouter {
    pub open spec fn wf(&self) -> bool {
        self.routes.wf()
    }

    /// A router without routes. Routes time out after 300 seconds.
    pub fn new(local_addr: RnsAddress) -> (r: Self)
        ensures
            r.wf(),
            r@ == Map::<Seq<u8>, RouteEntry>::empty(),
            r.local_addr == local_addr,
            r.route_timeout == (TimeSpan { secs: 300, nanos: 0 }),
    {
        MeshRouter {
            routes: Table::new(),
            local_addr,
            route_timeout: TimeSpan::from_secs(300),
        }
    }

    /// The address of this node.
    pub fn local_addr(&self) -> (a: &RnsAddress)
        ensures
            *a == self.local_addr,
    {
        &self.local_addr
    }

    /// Takes in a path to a destination. The best path by quality, then by hop count,
    /// is kept.
    pub fn update_route(
        &mut self,
        dest: RnsAddress,
        next_hop: RnsAddress,
        quality: u64,
        hop_count: u8,
        now: TimeSpan,
    )
        requires
            old(self).wf(),
        ensures
            final(self).wf(),
            final(self)@ == updated(old(self)@, dest, next_hop, quality, hop_count, now),
            final(self).local_addr == old(self).local_addr,
            final(self).route_timeout == old(self).route_timeout,
    {
        let found: Option<RouteEntry> = match self.routes.get(&dest) {
            Some(e) => Some(*e),
            None => None,
        };
        match found {
            None => {
                self.routes.insert(
                    dest,
                    RouteEntry {
                        destination: dest,
                        next_hop,
                        path_quality: quality,
                        hop_count,
                        last_refresh: now,
                    },
                );
            },
            Some(e) => {
                if score::is_above(quality, e.path_quality) || (score::is_level(
                    quality,
                    e.path_quality,
                ) && hop_count < e.hop_count) {
                    self.routes.insert(
                        dest,
                        RouteEntry {
                            destination: e.destination,
                            next_hop,
                            path_quality: quality,
                            hop_count,
                            last_refresh: now,
                        },
                    );
                }
            },
        }
    }

    /// The route to a destination.
    pub fn next_hop(&self, dest: &RnsAddress) -> (e: Option<&RouteEntry>)
        requires
            self.wf(),
        ensures
            (match e {
                Some(x) => self@.dom().contains(dest@) && *x == self@[dest@],
                None => !self@.dom().contains(dest@),
            }),
    {
        self.routes.get(dest)
    }

    /// All destinations that there is a route to.
    pub fn destinations(&self) -> (v: Vec<RnsAddress>)
        requires
            self.wf(),
        ensures
            v@.len() == self@.dom().len(),
            forall|k: Seq<u8>| #[trigger]
                self@.dom().contains(k) <==> exists|i: int|
                    0 <= i < v@.len() && (#[trigger] v@[i])@ == k,
    {
        let mut v: Vec<RnsAddress> = Vec::new();
        let ghost list = self.routes.entries@;
        let mut i: usize = 0;
        while i < self.routes.entries.len()
            invariant
                i <= list.len(),
                list == self.routes.entries@,
                v@.len() == i,
                forall|j: int| 0 <= j < i ==> #[trigger] v@[j] == list[j].0,
            decreases list.len() - i,
        {
            v.push(self.routes.entries[i].0);
            i = i + 1;
        }
        proof {
            table::lemma_size(list);
            assert forall|k: Seq<u8>| #[trigger] self@.dom().contains(k) <==> exists|i: int|
                0 <= i < v@.len() && (#[trigger] v@[i])@ == k by {
                if self@.dom().contains(k) {
                    let j = table::place(list, k);
                    assert(list[j].0@ == k);
                    assert(v@[j]@ == k);
                }
                if exists|i: int| 0 <= i < v@.len() && (#[trigger] v@[i])@ == k {
                    let j = choose|i: int| 0 <= i < v@.len() && (#[trigger] v@[i])@ == k;
                    table::lemma_entry(list, j);
                }
            }
        }
        v
    }

    /// How many routes there are.
    pub fn route_count(&self) -> (n: usize)
        requires
            self.wf(),
        ensures
            n == self@.dom().len(),
    {
        self.routes.len()
    }

    /// Drops the routes that were not refreshed for the timeout.
    pub fn prune_stale(&mut self, now: TimeSpan)
        requires
            old(self).wf(),
        ensures
            final(self).wf(),
            final(self).local_addr == old(self).local_addr,
            final(self).route_timeout == old(self).route_timeout,
            final(self)@ == refreshed(old(self)@, old(self).route_timeout, now),
    {
        let ghost before = self@;
        let mut i: usize = 0;
        while i < self.routes.entries.len()
            invariant
                i <= self.routes.entries@.len(),
                self.routes.wf(),
                self.local_addr == old(self).local_addr,
                self.route_timeout == old(self).route_timeout,
                before == old(self)@,
                forall|j: int|
                    0 <= j < i ==> link::recent(
                        (#[trigger] self.routes.entries@[j]).1.last_refresh,
                        self.route_timeout,
                        now,
                    ),
                forall|k: Seq<u8>| #[trigger]
                    self.routes@.dom().contains(k) ==> before.dom().contains(k) && self.routes@[k]
                        == before[k],
                forall|k: Seq<u8>| #[trigger]
                    before.dom().contains(k) && !self.routes@.dom().contains(k) ==> !link::recent(
                        before[k].last_refresh,
                        self.route_timeout,
                        now,
                    ),
            decreases self.routes.entries@.len() - i,
        {
            proof {
                table::lemma_entry(self.routes.entries@, i as int);
            }
            let seen: TimeSpan = self.routes.entries[i].1.last_refresh;
            if link::is_recent(seen, self.route_timeout, now) {
                i = i + 1;
            } else {
                let ghost held = self.routes@;
                proof {
                    table::lemma_remove(self.routes.entries@, i as int);
                }
                self.routes.entries.remove(i);
                assert forall|k: Seq<u8>| #[trigger]
                    self.routes@.dom().contains(k) implies before.dom().contains(k)
                    && self.routes@[k] == before[k] by {
                    assert(held.dom().contains(k));
                }
            }
        }
        proof {
            let after = self.routes@;
            assert forall|k: Seq<u8>| #[trigger] after.dom().contains(k) implies link::recent(
                after[k].last_refresh,
                self.route_timeout,
                now,
            ) by {
                let j = table::place(self.routes.entries@, k);
                table::lemma_entry(self.routes.entries@, j);
            }
            assert(self@ =~= Map::new(
                |k: Seq<u8>|
                    old(self)@.dom().contains(k) && link::recent(
                        old(self)@[k].last_refresh,
                        old(self).route_timeout,
                        now,
                    ),
                |k: Seq<u8>| old(self)@[k],
            ));
        }
    }

    /// An announce of this node and its peers, to everyone.
    pub fn build_announce(&self, link_mgr: &LinkManager) -> (p: Packet)
        requires
            link_mgr.wf(),
        ensures
            exists|v: Seq<&link::PeerInfo>| #[trigger]
                link::listed_above(link_mgr.peers.entries@, 0, v) && is_announce_of(
                    p@,
                    self.local_addr@,
                    scores(v),
                ),
    {
        let peers: Vec<&link::PeerInfo> = link_mgr.peers_above(0);
        let mut list: Vec<(String, u64)> = Vec::new();
        let mut i: usize = 0;
        while i < peers.len()
            invariant
                i <= peers@.len(),
                list@.len() == i,
                forall|j: int|
                    0 <= j < i ==> codec::hex_of((#[trigger] list@[j]).0@, peers@[j].address@)
                        && list@[j].1 == peers@[j].quality.score,
            decreases peers@.len() - i,
        {
            list.push((peers[i].address.to_string(), peers[i].quality.score));
            i = i + 1;
        }
        let ghost record = scores(peers@);
        let origin: String = self.local_addr.to_string();
        let payload: Vec<u8> = codec::encode_announce(&origin, &list);
        proof {
            codec::lemma_announce_record(origin@, self.local_addr@, list@, record);
        }
        let broadcast: RnsAddress = RnsAddress([0u8; 16]);
        let p: Packet = Packet::new_announce(broadcast, payload);
        proof {
            assert(broadcast@ =~= Seq::new(16, |i: int| 0u8));
            assert(link::listed_above(link_mgr.peers.entries@, 0, peers@));
        }
        p
    }

    /// Takes in an announce: its origin is reached directly where there is a link to
    /// it, and the origin's peers are then reached through it.
    pub fn process_announce(
        &mut self,
        origin: RnsAddress,
        link_mgr: &LinkManager,
        announce: &AnnouncePayload,
        now: TimeSpan,
    )
        requires
            old(self).wf(),
            link_mgr.wf(),
        ensures
            final(self).wf(),
            final(self)@ == announced(
                old(self)@,
                origin,
                link::quality_of(link_mgr.known(), origin@),
                announce.peers@,
                now,
            ),
            final(self).local_addr == old(self).local_addr,
            final(self).route_timeout == old(self).route_timeout,
    {
        let direct: LinkQuality = match link_mgr.quality_to(&origin) {
            Some(q) => q,
            None => {
                return;
            },
        };
        self.update_route(origin, origin, direct.score, 1, now);
        let ghost start = self@;
        let mut i: usize = 0;
        assert(announce.peers@.subrange(0, 0) =~= Seq::empty());
        while i < announce.peers.len()
            invariant
                i <= announce.peers@.len(),
                self.wf(),
                self@ == through(
                    start,
                    origin,
                    direct.score,
                    announce.peers@.subrange(0, i as int),
                    now,
                ),
                self.local_addr == old(self).local_addr,
                self.route_timeout == old(self).route_timeout,
            decreases announce.peers@.len() - i,
        {
            proof {
                let seen = announce.peers@.subrange(0, i + 1);
                assert(seen.drop_last() =~= announce.peers@.subrange(0, i as int));
                assert(seen.last() == announce.peers@[i as int]);
            }
            let (peer, quality): (RnsAddress, u64) = announce.peers[i];
            let worse: u64 = score::lower_of(direct.score, quality);
            self.update_route(peer, origin, worse, 2, now);
            i = i + 1;
        }
        assert(announce.peers@.subrange(0, i as int) =~= announce.peers@);
    }
}

/// A peer that an announce tells of, and that there was no route to, is reached through
/// the origin of the announce over two hops. The quality of the route is not above the
/// score of the link to the origin, not above the announced score of the peer, and one of
/// the two.
pub proof fn law_peer_through_origin(
    m: RouteMap,
    origin: RnsAddress,
    direct: LinkQuality,
    peer: RnsAddress,
    quality: u64,
    now: TimeSpan,
)
    requires
        peer@ != origin@,
        !m.dom().contains(peer@),
    ensures
        ({
            let after = announced(m, origin, Some(direct), seq![(peer, quality)], now);
            let route = after[peer@];
            &&& after.dom().contains(peer@)
            &&& route.destination == peer
            &&& route.next_hop == origin
            &&& route.hop_count == 2
            &&& route.last_refresh == now
            &&& !score::above(route.path_quality, direct.score)
            &&& !score::above(route.path_quality, quality)
            &&& route.path_quality == direct.score || route.path_quality == quality
            &&& (score::is_number(direct.score) || score::is_number(quality)
                ==> score::is_number(route.path_quality))
        }),
{
    let peers = seq![(peer, quality)];
    let start = updated(m, origin, origin, direct.score, 1, now);
    reveal_with_fuel(through, 2);
    assert(peers.drop_last() =~= Seq::empty());
    assert(peers.last() == (peer, quality));
    score::law_lower(direct.score, quality);
    assert(!start.dom().contains(peer@));
}

/// A path of a better quality takes the place of a route, whatever its hops; one of a
/// lower quality does not; of two that are equal the one with fewer hops stays. The route
/// that is not replaced stays as it is.
pub proof fn law_route_replaced(
    m: RouteMap,
    dest: RnsAddress,
    next_hop: RnsAddress,
    quality: u64,
    hop_count: u8,
    now: TimeSpan,
)
    requires
        m.dom().contains(dest@),
        score::is_number(quality),
        score::is_number(m[dest@].path_quality),
    ensures
        ({
            let after = updated(m, dest, next_hop, quality, hop_count, now);
            let held = m[dest@];
            let new = after[dest@];
            let replaced = new == (RouteEntry {
                destination: held.destination,
                next_hop,
                path_quality: quality,
                hop_count,
                last_refresh: now,
            });
            &&& (score::above(quality, held.path_quality) ==> replaced)
            &&& (score::above(held.path_quality, quality) ==> after == m)
            &&& (score::level(quality, held.path_quality) && hop_count < held.hop_count
                ==> replaced)
            &&& (score::level(quality, held.path_quality) && hop_count >= held.hop_count
                ==> after == m)
        }),
{
}

/// A first path to a destination becomes the route, as it was found.
pub proof fn law_first_path_is_taken(
    m: RouteMap,
    dest: RnsAddress,
    next_hop: RnsAddress,
    quality: u64,
    hop_count: u8,
    now: TimeSpan,
)
    requires
        !m.dom().contains(dest@),
    ensures
        ({
            let after = updated(m, dest, next_hop, quality, hop_count, now);
            &&& after.dom() == m.dom().insert(dest@)
            &&& after[dest@].destination == dest
            &&& after[dest@].next_hop == next_hop
            &&& after[dest@].path_quality == quality
            &&& after[dest@].hop_count == hop_count
            &&& after[dest@].last_refresh == now
        }),
{
    assert(updated(m, dest, next_hop, quality, hop_count, now).dom() =~= m.dom().insert(dest@));
}

/// An announce of a node that there is no link to changes nothing. With a link, there is
/// then a route to its origin and to each of its peers, and the routes to all others are
/// as before.
pub proof fn law_announce_reaches(
    m: RouteMap,
    origin: RnsAddress,
    direct: Option<LinkQuality>,
    peers: Seq<(RnsAddress, u64)>,
    now: TimeSpan,
)
    ensures
        direct is None ==> announced(m, origin, direct, peers, now) == m,
        direct matches Some(q) ==> {
            let after = announced(m, origin, direct, peers, now);
            &&& after.dom().contains(origin@)
            &&& forall|i: int| 0 <= i < peers.len() ==> after.dom().contains((#[trigger] peers[i]).0@)
            &&& forall|k: Seq<u8>| #[trigger]
                m.dom().contains(k) && k != origin@ && (forall|i: int|
                    0 <= i < peers.len() ==> (#[trigger] peers[i]).0@ != k) ==> after.dom().contains(k)
                    && after[k] == m[k]
            &&& forall|k: Seq<u8>| #[trigger]
                after.dom().contains(k) ==> m.dom().contains(k) || k == origin@ || exists|i: int|
                    0 <= i < peers.len() && (#[trigger] peers[i]).0@ == k
        },
{
    if let Some(q) = direct {
        let start = updated(m, origin, origin, q.score, 1, now);
        lemma_through_reaches(start, origin, q.score, peers, now);
        let after = through(start, origin, q.score, peers, now);
        law_best_path_wins(m, origin, origin, q.score, 1, now);
        assert(start.dom().contains(origin@));
        assert forall|k: Seq<u8>| #[trigger] after.dom().contains(k) implies m.dom().contains(k)
            || k == origin@ || exists|i: int| 0 <= i < peers.len() && (#[trigger] peers[i]).0@ == k by {
            if !(exists|i: int| 0 <= i < peers.len() && (#[trigger] peers[i]).0@ == k) {
                assert(start.dom().contains(k));
            }
        }
        assert forall|k: Seq<u8>| #[trigger]
            m.dom().contains(k) && k != origin@ && (forall|i: int|
                0 <= i < peers.len() ==> (#[trigger] peers[i]).0@ != k) implies after.dom().contains(
            k,
        ) && after[k] == m[k] by {
            assert(start.dom().contains(k) && start[k] == m[k]);
        }
    }
}

/// The routes that the peers of an announce change are those to the peers.
proof fn lemma_through_reaches(
    m: RouteMap,
    origin: RnsAddress,
    direct: u64,
    peers: Seq<(RnsAddress, u64)>,
    now: TimeSpan,
)
    ensures
        ({
            let after = through(m, origin, direct, peers, now);
            &&& forall|k: Seq<u8>| #[trigger] m.dom().contains(k) ==> after.dom().contains(k)
            &&& forall|i: int| 0 <= i < peers.len() ==> after.dom().contains((#[trigger] peers[i]).0@)
            &&& forall|k: Seq<u8>| #[trigger]
                after.dom().contains(k) && (forall|i: int|
                    0 <= i < peers.len() ==> (#[trigger] peers[i]).0@ != k) ==> m.dom().contains(k)
                    && after[k] == m[k]
        }),
    decreases peers.len(),
{
    if peers.len() > 0 {
        let rest = peers.drop_last();
        let n = peers.len() - 1;
        let (peer, quality) = peers.last();
        lemma_through_reaches(m, origin, direct, rest, now);
        let before = through(m, origin, direct, rest, now);
        let after = through(m, origin, direct, peers, now);
        law_best_path_wins(before, peer, origin, score::lower(direct, quality), 2, now);
        assert(forall|i: int| 0 <= i < n ==> peers[i] == #[trigger] rest[i]);
        assert forall|i: int| 0 <= i < peers.len() implies after.dom().contains(
            (#[trigger] peers[i]).0@,
        ) by {
            if i < n {
                assert(before.dom().contains(rest[i].0@));
            }
        }
        assert forall|k: Seq<u8>| #[trigger]
            after.dom().contains(k) && (forall|i: int|
                0 <= i < peers.len() ==> (#[trigger] peers[i]).0@ != k) implies m.dom().contains(k)
            && after[k] == m[k] by {
            assert(peers[n].0@ != k);
            assert(before.dom().contains(k));
            assert forall|i: int| 0 <= i < rest.len() implies (#[trigger] rest[i]).0@ != k by {
                assert(peers[i].0@ != k);
            }
        }
    }
}

/// Every peer that an announce tells of, and that there was no route to, is reached
/// through the origin over two hops, with a quality that is not above the score of the
/// link to the origin, nor above an announced score of that peer, and is one of these.
pub proof fn law_peers_through_origin(
    m: RouteMap,
    origin: RnsAddress,
    direct: LinkQuality,
    peers: Seq<(RnsAddress, u64)>,
    now: TimeSpan,
    k: int,
)
    requires
        0 <= k < peers.len(),
        peers[k].0@ != origin@,
        !m.dom().contains(peers[k].0@),
    ensures
        ({
            let after = announced(m, origin, Some(direct), peers, now);
            let route = after[peers[k].0@];
            &&& after.dom().contains(peers[k].0@)
            &&& route.next_hop == origin
            &&& route.hop_count == 2
            &&& exists|i: int|
                0 <= i < peers.len() && (#[trigger] peers[i]).0@ == peers[k].0@ && !score::above(
                    route.path_quality,
                    direct.score,
                ) && !score::above(route.path_quality, peers[i].1) && (route.path_quality
                    == direct.score || route.path_quality == peers[i].1)
        }),
{
    let start = updated(m, origin, origin, direct.score, 1, now);
    assert(!start.dom().contains(peers[k].0@));
    lemma_peers_through(start, origin, direct.score, peers, now, peers[k].0@);
    law_announce_reaches(m, origin, Some(direct), peers, now);
    assert(announced(m, origin, Some(direct), peers, now).dom().contains(peers[k].0@));
}

proof fn lemma_peers_through(
    m: RouteMap,
    origin: RnsAddress,
    direct: u64,
    peers: Seq<(RnsAddress, u64)>,
    now: TimeSpan,
    key: Seq<u8>,
)
    requires
        !m.dom().contains(key),
    ensures
        ({
            let after = through(m, origin, direct, peers, now);
            after.dom().contains(key) ==> after[key].next_hop == origin && after[key].hop_count == 2
                && exists|i: int|
                0 <= i < peers.len() && (#[trigger] peers[i]).0@ == key && !score::above(
                    after[key].path_quality,
                    direct,
                ) && !score::above(after[key].path_quality, peers[i].1) && (after[key].path_quality
                    == direct || after[key].path_quality == peers[i].1)
        }),
    decreases peers.len(),
{
    if peers.len() > 0 {
        let rest = peers.drop_last();
        let n = peers.len() - 1;
        let (peer, quality) = peers.last();
        lemma_peers_through(m, origin, direct, rest, now, key);
        let before = through(m, origin, direct, rest, now);
        let after = through(m, origin, direct, peers, now);
        let worse = score::lower(direct, quality);
        score::law_lower(direct, quality);
        if after.dom().contains(key) {
            if peer@ == key && (!before.dom().contains(key) || better(worse, 2, before[key])) {
                assert(peers[n].0@ == key);
            } else {
                assert(before.dom().contains(key));
                assert(after[key] == before[key]);
                let i = choose|i: int|
                    0 <= i < rest.len() && (#[trigger] rest[i]).0@ == key && !score::above(
                        before[key].path_quality,
                        direct,
                    ) && !score::above(before[key].path_quality, rest[i].1) && (
                    before[key].path_quality == direct || before[key].path_quality == rest[i].1);
                assert(peers[i] == rest[i]);
            }
        }
    }
}

/// A route stays, as it is, as long as less than the timeout has passed since it was
/// refreshed, and is dropped from then on; no route is added.
pub proof fn law_stale_routes_are_dropped(
    m: RouteMap,
    timeout: TimeSpan,
    now: TimeSpan,
    k: Seq<u8>,
)
    ensures
        ({
            let after = refreshed(m, timeout, now);
            &&& (m.dom().contains(k) && now.total() < m[k].last_refresh.total() + timeout.total()
                ==> after.dom().contains(k) && after[k] == m[k])
            &&& (m.dom().contains(k) && now.total() >= m[k].last_refresh.total() + timeout.total()
                ==> !after.dom().contains(k))
            &&& (!m.dom().contains(k) ==> !after.dom().contains(k))
        }),
{
}

/// An announce of a node goes to everyone, and carries the node and its peers in their
/// record.
pub proof fn law_announce_is_broadcast(p: PacketModel, origin: Seq<u8>, peers: Seq<(Seq<u8>, u64)>)
    requires
        is_announce_of(p, origin, peers),
    ensures
        p.packet_type == packet::ANNOUNCE,
        p.transport_type == packet::TRANSPORT_BROADCAST,
        forall|i: int| 0 <= i < 16 ==> #[trigger] p.destination_hash[i] == 0,
        p.destination_hash.len() == 16,
        p.data == codec::announce_record(origin, peers),
{
}

/// A router that takes in an announce of a linked node with one peer, which it had no route
/// to, then reaches that peer through the node. The quality of the route is not above the
/// score of the link, not above the announced score, and one of the two.
pub proof fn law_announce_is_processed(
    router: &mut MeshRouter,
    origin: RnsAddress,
    links: &LinkManager,
    announce: &AnnouncePayload,
    now: TimeSpan,
    direct: LinkQuality,
    found: Option<&RouteEntry>,
    after: &MeshRouter,
    peer: &RnsAddress,
)
    requires
        old(router).wf(),
        links.wf(),
        call_ensures(MeshRouter::process_announce, (router, origin, links, announce, now), ()),
        call_ensures(LinkManager::quality_to, (links, &origin), Some(direct)),
        announce.peers@.len() == 1,
        announce.peers@[0].0 == *peer,
        peer@ != origin@,
        !old(router)@.dom().contains(peer@),
        *after == *final(router),
        call_ensures(MeshRouter::next_hop, (after, peer), found),
    ensures
        found matches Some(e) && e.next_hop == origin && e.hop_count == 2 && !score::above(
            e.path_quality,
            direct.score,
        ) && !score::above(e.path_quality, announce.peers@[0].1) && (e.path_quality == direct.score
            || e.path_quality == announce.peers@[0].1),
{
    law_peers_through_origin(router@, origin, direct, announce.peers@, now, 0);
}

} // verus!
