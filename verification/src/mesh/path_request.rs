//! Path requests and path replies.
//!
//! A node that has no route to a destination floods a request. A node that knows the
//! destination replies with the route, and the reply travels back along the path.

use crate::crypto::primitives;
use crate::identity::RnsAddress;
use crate::mesh::error::MeshError;
use crate::mesh::routing;
use crate::mesh::routing::{MeshRouter, RouteEntry};
use crate::span::TimeSpan;
use vstd::prelude::*;

verus! {

/// A request for a path to a destination.
#[derive(Debug, Clone, PartialEq, Eq)]
pub struct PathRequest {
    pub destination_hash: [u8; 16],
    /// Most hops that the request travels.
    pub max_hops: u8,
    /// Tells requests of the same origin apart.
    pub request_id: [u8; 16],
    /// Who forwarded the request, in order.
    pub path: Vec<RnsAddress>,
}

/// The addresses of a path.
pub open spec fn path_view(path: Seq<RnsAddress>) -> Seq<Seq<u8>> {
    Seq::new(path.len(), |i: int| path[i]@)
}

/// A path with a hop added, unless it is already there.
pub open spec fn with_hop(path: Seq<Seq<u8>>, addr: Seq<u8>) -> Seq<Seq<u8>> {
    if path.contains(addr) {
        path
    } else {
        path.push(addr)
    }
}

impl PathRequest {
    /// A new request, with a random identifier.
    pub fn new(destination: RnsAddress, max_hops: u8) -> (r: Self)
        ensures
            r.destination_hash@ == destination@,
            r.max_hops == max_hops,
            r.path@.len() == 0,
    {
        PathRequest::with_id(destination, max_hops, primitives::random_id())
    }

    /// A new request with a given identifier.
    pub fn with_id(destination: RnsAddress, max_hops: u8, request_id: [u8; 16]) -> (r: Self)
        ensures
            r.destination_hash@ == destination@,
            r.max_hops == max_hops,
            r.request_id == request_id,
            r.path@.len() == 0,
    {
        PathRequest {
            destination_hash: *destination.as_bytes(),
            max_hops,
            request_id,
            path: Vec::new(),
        }
    }

    /// The destination.
    pub fn destination(&self) -> (r: Result<RnsAddress, MeshError>)
        ensures
            r matches Ok(a) && a@ == self.destination_hash@,
    {
        match RnsAddress::from_bytes(self.destination_hash.as_slice()) {
            Ok(a) => Ok(a),
            Err(_) => Err(MeshError::InvalidPacket("invalid destination in path request")),
        }
    }

    /// Whether the request has travelled its most hops.
    pub fn is_expired(&self) -> (r: bool)
        ensures
            r <==> self.path@.len() >= self.max_hops,
    {
        self.path.len() >= self.max_hops as usize
    }

    /// Adds a hop, unless it is already in the path.
    pub fn add_hop(&mut self, addr: RnsAddress)
        ensures
            path_view(final(self).path@) == with_hop(path_view(old(self).path@), addr@),
            *final(self) == (PathRequest { path: final(self).path, ..*old(self) }),
    {
        if position(&self.path, &addr).is_none() {
            self.path.push(addr);
            assert(path_view(self.path@) =~= path_view(old(self).path@).push(addr@));
        }
    }
}

/// Hops that were added are never repeated.
pub proof fn law_no_repeated_hop(path: Seq<Seq<u8>>, addr: Seq<u8>)
    requires
        path.no_duplicates(),
    ensures
        path.contains(addr) || path.push(addr).no_duplicates(),
        with_hop(path, addr).no_duplicates(),
        with_hop(path, addr).contains(addr),
        path.is_prefix_of(with_hop(path, addr)),
        !path.contains(addr) ==> with_hop(path, addr).len() == path.len() + 1
            && with_hop(path, addr)[path.len() as int] == addr,
{
    assert(path.subrange(0, path.len() as int) =~= path);
    if !path.contains(addr) {
        assert(path.push(addr)[path.len() as int] == addr);
        assert(path.push(addr).subrange(0, path.len() as int) =~= path);
    }
    if !path.contains(addr) {
        let after = path.push(addr);
        assert forall|i: int, j: int|
            0 <= i < after.len() && 0 <= j < after.len() && i != j implies after[i] != after[j] by {
            if i == path.len() {
                assert(path[j] != addr);
            } else if j == path.len() {
                assert(path[i] != addr);
            }
        }
    }
}

/// Where an address first occurs in a path.
pub open spec fn first_at(path: Seq<Seq<u8>>, addr: Seq<u8>, i: int) -> bool {
    &&& 0 <= i < path.len()
    &&& path[i] == addr
    &&& forall|j: int| 0 <= j < i ==> #[trigger] path[j] != addr
}

/// Where an address first occurs.
fn position(path: &Vec<RnsAddress>, addr: &RnsAddress) -> (r: Option<usize>)
    ensures
        (match r {
            Some(i) => first_at(path_view(path@), addr@, i as int) && path_view(path@).contains(
                addr@,
            ),
            None => !path_view(path@).contains(addr@),
        }),
{
    let mut i: usize = 0;
    while i < path.len()
        invariant
            i <= path@.len(),
            forall|j: int| 0 <= j < i ==> #[trigger] path_view(path@)[j] != addr@,
        decreases path@.len() - i,
    {
        if path[i].same(addr) {
            assert(path_view(path@)[i as int] == addr@);
            return Some(i);
        }
        i = i + 1;
    }
    None
}

/// A reply to a path request.
#[derive(Debug, Clone, PartialEq, Eq)]
pub struct PathReply {
    /// The identifier of the request.
    pub request_id: [u8; 16],
    pub destination_hash: [u8; 16],
    /// The route, the responder first.
    pub route: Vec<RnsAddress>,
    pub quality: u64,
    /// Hops to the destination.
    pub hop_count: u8,
}

impl PathReply {
    /// A reply.
    pub fn new(
        request_id: [u8; 16],
        destination: RnsAddress,
        route: Vec<RnsAddress>,
        quality: u64,
        hop_count: u8,
    ) -> (r: Self)
        ensures
            r.request_id == request_id,
            r.destination_hash@ == destination@,
            r.route == route,
            r.quality == quality,
            r.hop_count == hop_count,
    {
        PathReply {
            request_id,
            destination_hash: *destination.as_bytes(),
            route,
            quality,
            hop_count,
        }
    }

    /// The destination.
    pub fn destination(&self) -> (r: Result<RnsAddress, MeshError>)
        ensures
            r matches Ok(a) && a@ == self.destination_hash@,
    {
        match RnsAddress::from_bytes(self.destination_hash.as_slice()) {
            Ok(a) => Ok(a),
            Err(_) => Err(MeshError::InvalidPacket("invalid destination in path reply")),
        }
    }
}

/// Whether a reply answers a request: it goes back along the path that the request
/// took, and starts at `local`.
pub open spec fn answers(
    reply: PathReply,
    request: PathRequest,
    local: Seq<u8>,
    quality: u64,
    hop_count: u8,
) -> bool {
    &&& reply.request_id == request.request_id
    &&& reply.destination_hash@ == request.destination_hash@
    &&& path_view(reply.route@) == path_view(request.path@).push(local).reverse()
    &&& reply.quality == quality
    &&& reply.hop_count == hop_count
}

/// The path back: `local`, then the path in reverse.
fn way_back(path: &Vec<RnsAddress>, local: RnsAddress) -> (route: Vec<RnsAddress>)
    ensures
        path_view(route@) == path_view(path@).push(local@).reverse(),
{
    let mut route: Vec<RnsAddress> = Vec::new();
    route.push(local);
    let n: usize = path.len();
    let mut i: usize = 0;
    while i < n
        invariant
            i <= n == path@.len(),
            route@.len() == 1 + i,
            route@[0]@ == local@,
            forall|j: int| 0 <= j < i ==> (#[trigger] route@[1 + j])@ == path@[n - 1 - j]@,
        decreases n - i,
    {
        route.push(path[n - 1 - i]);
        i = i + 1;
    }
    proof {
        let expected = path_view(path@).push(local@).reverse();
        assert forall|j: int| 0 <= j < expected.len() implies path_view(route@)[j] == expected[j] by {
            if j > 0 {
                assert(route@[1 + (j - 1)]@ == path@[n - 1 - (j - 1)]@);
            }
        }
        assert(path_view(route@) =~= expected);
    }
    route
}

/// A reply goes back the way its request came: each hop on the path is found once on the
/// route; before it stands the hop that the request went to next, or the responder, and
/// behind it the hop that the request came from, if there is one.
pub proof fn law_reply_retraces_path(path: Seq<Seq<u8>>, local: Seq<u8>, i: int)
    requires
        path.no_duplicates(),
        !path.contains(local),
        0 <= i < path.len(),
    ensures
        ({
            let route = path.push(local).reverse();
            let k = path.len() - i;
            &&& first_at(route, path[i], k)
            &&& route[k - 1] == (if i + 1 < path.len() {
                path[i + 1]
            } else {
                local
            })
            &&& if i > 0 {
                k + 1 < route.len() && route[k + 1] == path[i - 1]
            } else {
                k + 1 == route.len()
            }
        }),
{
    let whole = path.push(local);
    let route = whole.reverse();
    let k = path.len() - i;
    assert forall|j: int| 0 <= j < k implies #[trigger] route[j] != path[i] by {
        if j > 0 {
            assert(route[j] == path[path.len() - j]);
        } else {
            assert(path.contains(path[i]));
        }
    }
}

/// What a request leads to at a node: a reply where the node is the destination, or has a
/// route to it.
pub open spec fn request_taken(
    request: PathRequest,
    routes: routing::RouteMap,
    local: Seq<u8>,
    r: Option<PathReply>,
) -> bool {
    if request.destination_hash@ == local {
        r matches Some(reply) && answers(
            reply,
            request,
            local,
            crate::mesh::PERFECT_QUALITY,
            0,
        )
    } else if routes.dom().contains(request.destination_hash@) {
        let e = routes[request.destination_hash@];
        r matches Some(reply) && answers(reply, request, local, e.path_quality, e.hop_count)
    } else {
        r is None
    }
}

/// Answers a request: for this node itself with a perfect path of no hops, for a
/// destination that there is a route to with that route. Otherwise the request is to be
/// forwarded.
pub fn handle_path_request(
    request: &PathRequest,
    router: &MeshRouter,
    local_addr: RnsAddress,
) -> (r: Option<PathReply>)
    requires
        router.wf(),
    ensures
        request_taken(*request, router@, local_addr@, r),
{
    let dest: RnsAddress = match request.destination() {
        Ok(d) => d,
        Err(_) => {
            return None;
        },
    };
    if dest.same(&local_addr) {
        return Some(
            PathReply::new(
                request.request_id,
                dest,
                way_back(&request.path, local_addr),
                crate::mesh::PERFECT_QUALITY,
                0,
            ),
        );
    }
    match router.next_hop(&dest) {
        Some(e) => Some(
            PathReply::new(
                request.request_id,
                dest,
                way_back(&request.path, local_addr),
                e.path_quality,
                e.hop_count,
            ),
        ),
        None => None,
    }
}

/// Whether the hop count of a reply can be counted up at `local`.
pub open spec fn countable(reply: PathReply, local: Seq<u8>) -> bool {
    forall|i: int|
        0 < i && #[trigger] first_at(path_view(reply.route@), local, i) ==> reply.hop_count + i
            % 256 <= 255
}

/// What a reply leads to at a node: a route, and the node that the reply goes on to.
pub open spec fn reply_taken(
    reply: PathReply,
    before: routing::RouteMap,
    after: routing::RouteMap,
    local: Seq<u8>,
    now: TimeSpan,
    next: Option<RnsAddress>,
) -> bool {
    &&& (!path_view(reply.route@).contains(local) ==> next is None && after == before)
    &&& forall|i: int| #[trigger]
        first_at(path_view(reply.route@), local, i) ==> {
            &&& (if i > 0 {
                exists|dest: RnsAddress|
                    dest@ == reply.destination_hash@ && after == #[trigger] routing::updated(
                        before,
                        dest,
                        reply.route@[i - 1],
                        reply.quality,
                        (reply.hop_count + i % 256) as u8,
                        now,
                    )
            } else {
                after == before
            })
            &&& next == (if i + 1 < reply.route@.len() {
                Some(reply.route@[i + 1])
            } else {
                None
            })
        }
}

/// Takes in a reply: where this node is in its route, the destination is reached
/// through the node in front of it, and the reply goes on to the node behind it.
pub fn handle_path_reply(
    reply: &PathReply,
    router: &mut MeshRouter,
    local_addr: RnsAddress,
    now: TimeSpan,
) -> (next: Option<RnsAddress>)
    requires
        old(router).wf(),
        countable(*reply, local_addr@),
    ensures
        final(router).wf(),
        final(router).local_addr == old(router).local_addr,
        final(router).route_timeout == old(router).route_timeout,
        reply_taken(*reply, old(router)@, final(router)@, local_addr@, now, next),
{
    let dest: RnsAddress = match reply.destination() {
        Ok(d) => d,
        Err(_) => {
            return None;
        },
    };
    match position(&reply.route, &local_addr) {
        Some(pos) => {
            proof {
                assert forall|i: int| #[trigger]
                    first_at(path_view(reply.route@), local_addr@, i) implies i == pos by {
                    if i < pos {
                        assert(path_view(reply.route@)[i] != local_addr@);
                    } else if pos < i {
                        assert(path_view(reply.route@)[pos as int] != local_addr@);
                    }
                }
            }
            if pos > 0 {
                let next_hop: RnsAddress = reply.route[pos - 1];
                let remaining: u8 = (pos % 256) as u8;
                router.update_route(
                    dest,
                    next_hop,
                    reply.quality,
                    reply.hop_count + remaining,
                    now,
                );
            }
            if pos < reply.route.len() - 1 {
                Some(reply.route[pos + 1])
            } else {
                None
            }
        },
        None => None,
    }
}

/// The destination of a request answers it with a perfect quality and no hops; a node that
/// has a route answers with that route's quality and hops; any other node does not answer.
/// The answer is to that very request, and its route leads from the node that answers back
/// over the hops of the request, the last one first.
pub proof fn law_who_answers(
    request: PathRequest,
    routes: routing::RouteMap,
    local: Seq<u8>,
    r: Option<PathReply>,
)
    requires
        request_taken(request, routes, local, r),
    ensures
        r is Some <==> (request.destination_hash@ == local || routes.dom().contains(
            request.destination_hash@,
        )),
        r matches Some(reply) ==> {
            &&& reply.request_id == request.request_id
            &&& reply.destination_hash@ == request.destination_hash@
            &&& reply.route@.len() == request.path@.len() + 1
            &&& reply.route@[0]@ == local
            &&& forall|i: int|
                0 <= i < request.path@.len() ==> (#[trigger] reply.route@[request.path@.len() - i])@
                    == request.path@[i]@
            &&& (request.destination_hash@ == local ==> reply.quality == 0x3FF0_0000_0000_0000
                && reply.hop_count == 0)
            &&& (request.destination_hash@ != local ==> reply.quality
                == routes[request.destination_hash@].path_quality && reply.hop_count
                == routes[request.destination_hash@].hop_count)
        },
{
    if let Some(reply) = r {
        let back = path_view(request.path@).push(local).reverse();
        assert(path_view(reply.route@).len() == back.len());
        assert(path_view(reply.route@)[0] == local);
        assert forall|i: int| 0 <= i < request.path@.len() implies (
        #[trigger] reply.route@[request.path@.len() - i])@ == request.path@[i]@ by {
            let k = request.path@.len() - i;
            assert(path_view(reply.route@)[k] == path_view(request.path@)[i]);
            assert(path_view(reply.route@)[k] == reply.route@[k]@);
        }
    }
}

/// A node that a reply passes, and that had no route to the destination, then reaches it
/// through the node in front of it in the reply's route, with the reply's quality, over as
/// many hops more than the replying node as it is behind that in the route. The reply goes on to the
/// node behind it. The node that replied learns nothing, and neither does one that is not
/// in the route.
pub proof fn law_reply_teaches_route(
    reply: PathReply,
    before: routing::RouteMap,
    after: routing::RouteMap,
    local: Seq<u8>,
    now: TimeSpan,
    next: Option<RnsAddress>,
    i: int,
)
    requires
        reply_taken(reply, before, after, local, now, next),
        countable(reply, local),
    ensures
        first_at(path_view(reply.route@), local, i) && 0 < i < 256 && !before.dom().contains(
            reply.destination_hash@,
        ) ==> {
            let route = after[reply.destination_hash@];
            &&& after.dom().contains(reply.destination_hash@)
            &&& route.destination@ == reply.destination_hash@
            &&& route.next_hop == reply.route@[i - 1]
            &&& route.path_quality == reply.quality
            &&& route.hop_count == reply.hop_count + i
            &&& route.last_refresh == now
        },
        first_at(path_view(reply.route@), local, 0) ==> after == before,
        first_at(path_view(reply.route@), local, i) && i + 1 < reply.route@.len() ==> next == Some(
            reply.route@[i + 1],
        ),
        first_at(path_view(reply.route@), local, i) && i + 1 == reply.route@.len()
            ==> next is None,
        (forall|j: int| 0 <= j < reply.route@.len() ==> (#[trigger] reply.route@[j])@ != local)
            ==> after == before && next is None,
        forall|k: Seq<u8>|
            k != reply.destination_hash@ && #[trigger] before.dom().contains(k) && first_at(
                path_view(reply.route@),
                local,
                i,
            ) ==> after.dom().contains(k) && after[k] == before[k],
{
    let route = path_view(reply.route@);
    if forall|j: int| 0 <= j < reply.route@.len() ==> (#[trigger] reply.route@[j])@ != local {
        if route.contains(local) {
            let j = choose|j: int| 0 <= j < route.len() && route[j] == local;
            assert(reply.route@[j]@ == local);
        }
    }
    if first_at(route, local, i) && i > 0 {
        let dest = choose|dest: RnsAddress|
            dest@ == reply.destination_hash@ && after == #[trigger] routing::updated(
                before,
                dest,
                reply.route@[i - 1],
                reply.quality,
                (reply.hop_count + i % 256) as u8,
                now,
            );
        assert(dest@ == reply.destination_hash@);
    }
}

/// A request is spent once it has passed as many hops as it may; it starts with none.
pub proof fn law_request_is_spent(
    destination: RnsAddress,
    max_hops: u8,
    id: [u8; 16],
    r: PathRequest,
    q: &PathRequest,
    spent: bool,
)
    requires
        call_ensures(PathRequest::with_id, (destination, max_hops, id), r),
        call_ensures(PathRequest::is_expired, (q,), spent),
    ensures
        r.path@.len() == 0 && r.destination_hash@ == destination@ && r.max_hops == max_hops
            && r.request_id == id,
        spent <==> q.path@.len() >= q.max_hops,
{
}

/// A request that a node adds itself to and passes on is answered at its destination, and
/// the answer leads back over that node.
pub proof fn law_path_is_discovered(
    request: &mut PathRequest,
    via: RnsAddress,
    passed: &PathRequest,
    router: &MeshRouter,
    dest: RnsAddress,
    reply: Option<PathReply>,
)
    requires
        old(request).path@.len() == 0,
        old(request).destination_hash@ == dest@,
        call_ensures(PathRequest::add_hop, (request, via), ()),
        *passed == *final(request),
        router.wf(),
        call_ensures(handle_path_request, (passed, router, dest), reply),
    ensures
        reply matches Some(r) && r.request_id == old(request).request_id && r.hop_count == 0
            && r.quality == 0x3FF0_0000_0000_0000 && r.route@.len() == 2 && r.route@[0]@ == dest@
            && r.route@[1]@ == via@,
{
    let empty = path_view(old(request).path@);
    assert(empty =~= Seq::<Seq<u8>>::empty());
    assert(path_view(passed.path@).len() == 1);
    assert(path_view(passed.path@)[0] == via@);
    assert(passed.path@[0]@ == path_view(passed.path@)[0]);
    law_who_answers(*passed, router@, dest@, reply);
    if let Some(r) = reply {
        assert(r.route@[passed.path@.len() - 0]@ == passed.path@[0]@);
    }
}

} // verus!
