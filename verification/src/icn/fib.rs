//! The forwarding table: prefixes and the faces they are reached through.

use crate::icn::face::FaceId;
use crate::icn::name;
use crate::icn::name::{Name, NameView};
use vstd::prelude::*;

verus! {

/// The faces of a prefix, each with its cost.
#[derive(Debug, Clone)]
pub struct FibEntry {
    pub prefix: Name,
    pub faces: Vec<(FaceId, u8)>,
}

/// Routes over byte sequences: prefixes and their faces, in order of insertion.
pub type Routes = Seq<(NameView, Seq<(FaceId, u8)>)>;

/// Whether a face is among some faces.
pub open spec fn has_face(faces: Seq<(FaceId, u8)>, face: FaceId) -> bool {
    exists|i: int| 0 <= i < faces.len() && (#[trigger] faces[i]).0 == face
}

/// Where a face is first among some faces.
pub open spec fn first_face(faces: Seq<(FaceId, u8)>, face: FaceId, i: int) -> bool {
    &&& 0 <= i < faces.len()
    &&& faces[i].0 == face
    &&& forall|j: int| 0 <= j < i ==> (#[trigger] faces[j]).0 != face
}

/// Faces with the cost of one of them set.
pub open spec fn with_face(faces: Seq<(FaceId, u8)>, face: FaceId, cost: u8) -> Seq<(FaceId, u8)> {
    if has_face(faces, face) {
        faces.update(choose|i: int| first_face(faces, face, i), (face, cost))
    } else {
        faces.push((face, cost))
    }
}

/// Faces without one of them.
pub open spec fn without_face(faces: Seq<(FaceId, u8)>, face: FaceId) -> Seq<(FaceId, u8)>
    decreases faces.len(),
{
    if faces.len() == 0 {
        faces
    } else if faces.last().0 == face {
        without_face(faces.drop_last(), face)
    } else {
        without_face(faces.drop_last(), face).push(faces.last())
    }
}

/// Whether a prefix has a route.
pub open spec fn has_route(routes: Routes, prefix: NameView) -> bool {
    exists|i: int| 0 <= i < routes.len() && (#[trigger] routes[i]).0 == prefix
}

/// Where the route of a prefix is.
pub open spec fn route_place(routes: Routes, prefix: NameView) -> int {
    choose|i: int| 0 <= i < routes.len() && (#[trigger] routes[i]).0 == prefix
}

/// Whether no prefix occurs twice.
pub open spec fn distinct(routes: Routes) -> bool {
    forall|i: int, j: int|
        0 <= i < j < routes.len() ==> (#[trigger] routes[i]).0 != (#[trigger] routes[j]).0
}

/// Routes with a face added to a prefix.
pub open spec fn with_route(routes: Routes, prefix: NameView, face: FaceId, cost: u8) -> Routes {
    if has_route(routes, prefix) {
        let i = route_place(routes, prefix);
        routes.update(i, (prefix, with_face(routes[i].1, face, cost)))
    } else {
        routes.push((prefix, seq![(face, cost)]))
    }
}

/// Routes without a face: prefixes that no face is left for are gone.
pub open spec fn routes_without(routes: Routes, face: FaceId) -> Routes
    decreases routes.len(),
{
    if routes.len() == 0 {
        routes
    } else {
        let rest = routes_without(routes.drop_last(), face);
        let faces = without_face(routes.last().1, face);
        if faces.len() == 0 {
            rest
        } else {
            rest.push((routes.last().0, faces))
        }
    }
}

/// The route with the longest prefix of a name; of several the first.
pub open spec fn longest(routes: Routes, n: NameView, i: int) -> bool {
    &&& 0 <= i < routes.len()
    &&& name::is_prefix(routes[i].0, n)
    &&& forall|j: int|
        0 <= j < routes.len() && name::is_prefix((#[trigger] routes[j]).0, n)
            ==> routes[j].0.0.len() <= routes[i].0.0.len()
    &&& forall|j: int|
        0 <= j < i && name::is_prefix((#[trigger] routes[j]).0, n) ==> routes[j].0.0.len()
            < routes[i].0.0.len()
}

/// Whether some route is for a prefix of a name.
pub open spec fn any_route(routes: Routes, n: NameView) -> bool {
    exists|i: int| 0 <= i < routes.len() && name::is_prefix((#[trigger] routes[i]).0, n)
}

/// The faces that a name is forwarded to: those of its longest prefix.
pub open spec fn faces_for(routes: Routes, n: NameView) -> Seq<(FaceId, u8)> {
    if any_route(routes, n) {
        routes[choose|i: int| longest(routes, n, i)].1
    } else {
        Seq::empty()
    }
}

/// There is at most one longest prefix.
pub proof fn lemma_longest_unique(routes: Routes, n: NameView, i: int, j: int)
    requires
        longest(routes, n, i),
        longest(routes, n, j),
    ensures
        i == j,
{
    assert(routes[i].0.0.len() == routes[j].0.0.len());
}

/// The faces of a route are without the removed one.
proof fn lemma_without_face(faces: Seq<(FaceId, u8)>, face: FaceId)
    ensures
        !has_face(without_face(faces, face), face),
        forall|i: int|
            0 <= i < without_face(faces, face).len() ==> faces.contains(
                #[trigger] without_face(faces, face)[i],
            ),
    decreases faces.len(),
{
    if faces.len() > 0 {
        lemma_without_face(faces.drop_last(), face);
        let rest = without_face(faces.drop_last(), face);
        assert forall|i: int|
            0 <= i < without_face(faces, face).len() implies faces.contains(
            #[trigger] without_face(faces, face)[i],
        ) by {
            if i < rest.len() {
                assert(rest[i] == without_face(faces, face)[i]);
                let k = choose|k: int|
                    0 <= k < faces.drop_last().len() && faces.drop_last()[k] == rest[i];
                assert(faces[k] == rest[i]);
            } else {
                assert(faces[faces.len() - 1] == faces.last());
            }
        }
        if has_face(without_face(faces, face), face) {
            let i = choose|i: int|
                0 <= i < without_face(faces, face).len() && (#[trigger] without_face(
                    faces,
                    face,
                )[i]).0 == face;
            if i < rest.len() {
                assert(rest[i].0 == face);
            }
        }
    }
}

/// Once a face is removed, no route leads to it, and every route that is left has a face.
pub proof fn law_removed_face_is_gone(routes: Routes, face: FaceId)
    ensures
        forall|i: int|
            0 <= i < routes_without(routes, face).len() ==> (#[trigger] routes_without(
                routes,
                face,
            )[i]).1.len() > 0 && !has_face(routes_without(routes, face)[i].1, face),
    decreases routes.len(),
{
    if routes.len() > 0 {
        law_removed_face_is_gone(routes.drop_last(), face);
        lemma_without_face(routes.last().1, face);
        let rest = routes_without(routes.drop_last(), face);
        assert forall|i: int|
            0 <= i < routes_without(routes, face).len() implies (#[trigger] routes_without(
            routes,
            face,
        )[i]).1.len() > 0 && !has_face(routes_without(routes, face)[i].1, face) by {
            if i < rest.len() {
                assert(rest[i] == routes_without(routes, face)[i]);
            }
        }
    }
}

/// The first place of a face exists where the face does.
proof fn lemma_first_face(faces: Seq<(FaceId, u8)>, face: FaceId)
    requires
        has_face(faces, face),
    ensures
        exists|i: int| first_face(faces, face, i),
    decreases faces.len(),
{
    let rest = faces.drop_last();
    if has_face(rest, face) {
        lemma_first_face(rest, face);
        let i = choose|i: int| first_face(rest, face, i);
        assert forall|j: int| 0 <= j < i implies (#[trigger] faces[j]).0 != face by {
            assert(rest[j].0 != face);
        }
        assert(first_face(faces, face, i));
    } else {
        let k = choose|k: int| 0 <= k < faces.len() && (#[trigger] faces[k]).0 == face;
        if k < rest.len() {
            assert(rest[k].0 == face);
        }
        assert forall|j: int| 0 <= j < k implies (#[trigger] faces[j]).0 != face by {
            assert(rest[j].0 != face);
        }
        assert(first_face(faces, face, k));
    }
}

/// The face that was set is there with its cost.
proof fn lemma_with_face(faces: Seq<(FaceId, u8)>, face: FaceId, cost: u8)
    ensures
        with_face(faces, face, cost).contains((face, cost)),
{
    if has_face(faces, face) {
        lemma_first_face(faces, face);
        let i = choose|i: int| first_face(faces, face, i);
        assert(with_face(faces, face, cost)[i] == (face, cost));
    } else {
        assert(with_face(faces, face, cost)[faces.len() as int] == (face, cost));
    }
}

/// A name is forwarded by its longest prefix: once a route for the name itself is added,
/// the added face is among those that the name is forwarded to. A route for the same
/// components with another content hash is left out: the first of the two decides.
pub proof fn law_added_route_is_used(routes: Routes, n: NameView, face: FaceId, cost: u8)
    requires
        distinct(routes),
        forall|i: int|
            0 <= i < routes.len() && (#[trigger] routes[i]).0.0 == n.0 ==> routes[i].0 == n,
    ensures
        faces_for(with_route(routes, n, face, cost), n).contains((face, cost)),
{
    let after = with_route(routes, n, face, cost);
    name::law_prefix_order(n, n, n);
    let i = if has_route(routes, n) {
        let i = route_place(routes, n);
        lemma_with_face(routes[i].1, face, cost);
        i
    } else {
        assert(after[routes.len() as int].1[0] == (face, cost));
        routes.len() as int
    };
    assert(after[i].0 == n);
    assert forall|j: int|
        0 <= j < after.len() && name::is_prefix((#[trigger] after[j]).0, n) && j != i implies after[j].0.0.len()
        < n.0.len() by {
        assert(after[j] == routes[j]);
        let p = routes[j].0;
        if p.0.len() == n.0.len() {
            assert(p.0 =~= n.0);
            assert(p == n);
            if has_route(routes, n) {
                if i < j {
                    assert(routes[i].0 != routes[j].0);
                } else {
                    assert(routes[j].0 != routes[i].0);
                }
            } else {
                assert(has_route(routes, n));
            }
        }
    }
    assert(longest(after, n, i));
    let k = choose|k: int| longest(after, n, k);
    lemma_longest_unique(after, n, i, k);
}

/// The forwarding table.
pub struct Fib {
    pub entries: Vec<FibEntry>,
}

/// An entry over byte sequences.
pub open spec fn entry_view(e: FibEntry) -> (NameView, Seq<(FaceId, u8)>) {
    (e.prefix@, e.faces@)
}

impl View for Fib {
    type V = Routes;

    open spec fn view(&self) -> Routes {
        Seq::new(self.entries@.len(), |i: int| entry_view(self.entries@[i]))
    }
}

/// Sets the cost of a face.
fn set_face(faces: &mut Vec<(FaceId, u8)>, face: FaceId, cost: u8)
    ensures
        final(faces)@ == with_face(old(faces)@, face, cost),
{
    let ghost before = faces@;
    let mut i: usize = 0;
    while i < faces.len()
        invariant
            i <= faces@.len(),
            faces@ == before,
            before == old(faces)@,
            forall|j: int| 0 <= j < i ==> (#[trigger] before[j]).0 != face,
        decreases faces@.len() - i,
    {
        if faces[i].0 == face {
            proof {
                assert(first_face(before, face, i as int));
                assert(before[i as int].0 == face);
                let k = choose|k: int| first_face(before, face, k);
                assert(k == i) by {
                    if k < i {
                        assert(before[k].0 != face);
                    } else if i < k {
                        assert(before[i as int].0 != face);
                    }
                }
            }
            faces.set(i, (face, cost));
            return;
        }
        i = i + 1;
    }
    faces.push((face, cost));
}

/// The faces without one of them.
fn remaining(faces: &Vec<(FaceId, u8)>, face: FaceId) -> (out: Vec<(FaceId, u8)>)
    ensures
        out@ == without_face(faces@, face),
{
    let mut out: Vec<(FaceId, u8)> = Vec::new();
    let mut i: usize = 0;
    assert(faces@.subrange(0, 0) =~= Seq::empty());
    while i < faces.len()
        invariant
            i <= faces@.len(),
            out@ == without_face(faces@.subrange(0, i as int), face),
        decreases faces@.len() - i,
    {
        proof {
            let now = faces@.subrange(0, i + 1);
            assert(now.drop_last() =~= faces@.subrange(0, i as int));
            assert(now.last() == faces@[i as int]);
        }
        if faces[i].0 != face {
            out.push(faces[i]);
        }
        i = i + 1;
    }
    assert(faces@.subrange(0, i as int) =~= faces@);
    out
}

/// A copy of some faces.
pub fn copy_faces(faces: &Vec<(FaceId, u8)>) -> (out: Vec<(FaceId, u8)>)
    ensures
        out@ == faces@,
{
    let mut out: Vec<(FaceId, u8)> = Vec::new();
    let mut i: usize = 0;
    while i < faces.len()
        invariant
            i <= faces@.len(),
            out@ == faces@.subrange(0, i as int),
        decreases faces@.len() - i,
    {
        out.push(faces[i]);
        i = i + 1;
        assert(out@ =~= faces@.subrange(0, i as int));
    }
    assert(out@ =~= faces@);
    out
}

impl Fib {
    /// No prefix occurs twice.
    pub open spec fn wf(&self) -> bool {
        distinct(self@)
    }

    /// An empty table.
    pub fn new() -> (f: Self)
        ensures
            f.wf(),
            f@ == Seq::<(NameView, Seq<(FaceId, u8)>)>::empty(),
    {
        let f = Fib { entries: Vec::new() };
        assert(f@ =~= Seq::<(NameView, Seq<(FaceId, u8)>)>::empty());
        f
    }

    /// Adds a face to a prefix, or sets its cost.
    pub fn insert(&mut self, prefix: Name, face: FaceId, cost: u8)
        requires
            old(self).wf(),
        ensures
            final(self).wf(),
            final(self)@ == with_route(old(self)@, prefix@, face, cost),
    {
        let ghost before = self@;
        let ghost list = self.entries@;
        let mut i: usize = 0;
        while i < self.entries.len()
            invariant
                i <= self.entries@.len(),
                self.entries@ == list,
                self@ == before,
                before == old(self)@,
                distinct(before),
                forall|j: int| 0 <= j < i ==> (#[trigger] before[j]).0 != prefix@,
            decreases self.entries@.len() - i,
        {
            if self.entries[i].prefix.same(&prefix) {
                proof {
                    assert(before[i as int].0 == prefix@);
                    let k = route_place(before, prefix@);
                    assert(before[k].0 == prefix@);
                    if k < i {
                        assert(before[k].0 != prefix@);
                    } else if i < k {
                        assert(before[i as int].0 != before[k].0);
                    }
                }
                let mut e: FibEntry = self.entries.remove(i);
                set_face(&mut e.faces, face, cost);
                self.entries.insert(i, e);
                proof {
                    let after = with_route(before, prefix@, face, cost);
                    assert(self@ =~= after) by {
                        assert forall|j: int| 0 <= j < after.len() implies self@[j] == after[j] by {
                            if j != i {
                                assert(self.entries@[j] == list[j]);
                                assert(before[j] == entry_view(list[j]));
                            }
                        }
                    }
                    assert forall|a: int, b: int| 0 <= a < b < after.len() implies (
                    #[trigger] after[a]).0 != (#[trigger] after[b]).0 by {
                        assert(before[a].0 != before[b].0);
                    }
                }
                return;
            }
            i = i + 1;
        }
        let mut faces: Vec<(FaceId, u8)> = Vec::new();
        faces.push((face, cost));
        assert(faces@ =~= seq![(face, cost)]);
        self.entries.push(FibEntry { prefix, faces });
        proof {
            let after = with_route(before, prefix@, face, cost);
            assert(self@ =~= after) by {
                assert forall|j: int| 0 <= j < after.len() implies self@[j] == after[j] by {
                    if j < list.len() {
                        assert(self.entries@[j] == list[j]);
                        assert(before[j] == entry_view(list[j]));
                    }
                }
            }
            assert forall|a: int, b: int| 0 <= a < b < after.len() implies (#[trigger] after[a]).0
                != (#[trigger] after[b]).0 by {
                if b < before.len() {
                    assert(before[a].0 != before[b].0);
                }
            }
        }
    }

    /// The entry with the longest prefix of a name.
    pub fn find(&self, name: &Name) -> (r: Option<&FibEntry>)
        ensures
            (match r {
                Some(e) => any_route(self@, name@) && e.faces@ == faces_for(self@, name@) && exists|
                    i: int,
                |
                    #[trigger] longest(self@, name@, i) && self@[i] == entry_view(*e),
                None => !any_route(self@, name@),
            }),
    {
        let ghost routes = self@;
        let mut best: Option<usize> = None;
        let mut i: usize = 0;
        while i < self.entries.len()
            invariant
                i <= self.entries@.len(),
                routes == self@,
                (match best {
                    Some(b) => b < i && name::is_prefix(routes[b as int].0, name@) && (forall|
                        j: int,
                    |
                        0 <= j < i && name::is_prefix((#[trigger] routes[j]).0, name@)
                            ==> routes[j].0.0.len() <= routes[b as int].0.0.len()) && (forall|
                        j: int,
                    |
                        0 <= j < b && name::is_prefix((#[trigger] routes[j]).0, name@)
                            ==> routes[j].0.0.len() < routes[b as int].0.0.len()),
                    None => forall|j: int|
                        0 <= j < i ==> !name::is_prefix((#[trigger] routes[j]).0, name@),
                }),
            decreases self.entries@.len() - i,
        {
            if name.starts_with(&self.entries[i].prefix) {
                match best {
                    Some(b) => {
                        if self.entries[i].prefix.len() > self.entries[b].prefix.len() {
                            best = Some(i);
                        }
                    },
                    None => {
                        best = Some(i);
                    },
                }
            }
            i = i + 1;
        }
        match best {
            Some(b) => {
                proof {
                    assert(longest(routes, name@, b as int));
                    let k = choose|k: int| longest(routes, name@, k);
                    lemma_longest_unique(routes, name@, b as int, k);
                }
                Some(&self.entries[b])
            },
            None => None,
        }
    }

    /// The faces of the longest prefix of a name.
    pub fn lookup(&self, name: &Name) -> (r: Option<Vec<(FaceId, u8)>>)
        ensures
            (match r {
                Some(faces) => any_route(self@, name@) && faces@ == faces_for(self@, name@),
                None => !any_route(self@, name@),
            }),
    {
        match self.find(name) {
            Some(e) => Some(copy_faces(&e.faces)),
            None => None,
        }
    }

    /// Removes a face from every route.
    pub fn remove_face(&mut self, face: FaceId)
        requires
            old(self).wf(),
        ensures
            final(self).wf(),
            final(self)@ == routes_without(old(self)@, face),
    {
        let ghost before = self@;
        let mut kept = Fib { entries: Vec::new() };
        let mut i: usize = 0;
        proof {
            assert(before.subrange(0, 0) =~= Seq::empty());
            assert(kept@ =~= Seq::empty());
        }
        while i < self.entries.len()
            invariant
                i <= self.entries@.len(),
                before == self@,
                kept@ == routes_without(before.subrange(0, i as int), face),
            decreases self.entries@.len() - i,
        {
            let ghost list = kept@;
            proof {
                let now = before.subrange(0, i + 1);
                assert(now.drop_last() =~= before.subrange(0, i as int));
                assert(now.last() == entry_view(self.entries@[i as int]));
            }
            let faces: Vec<(FaceId, u8)> = remaining(&self.entries[i].faces, face);
            if faces.len() > 0 {
                let ghost held = kept.entries@;
                let prefix: Name = self.entries[i].prefix.duplicate();
                kept.entries.push(FibEntry { prefix, faces });
                assert(kept@ =~= list.push((prefix@, faces@))) by {
                    assert forall|j: int| 0 <= j < list.len() implies kept@[j] == list[j] by {
                        assert(kept.entries@[j] == held[j]);
                    }
                }
            }
            i = i + 1;
        }
        assert(before.subrange(0, i as int) =~= before);
        proof {
            lemma_routes_without_distinct(before, face);
        }
        self.entries = kept.entries;
    }
}

/// Removing a face keeps prefixes distinct, and adds none.
proof fn lemma_routes_without_distinct(routes: Routes, face: FaceId)
    requires
        distinct(routes),
    ensures
        distinct(routes_without(routes, face)),
        forall|i: int|
            0 <= i < routes_without(routes, face).len() ==> has_route(
                routes,
                (#[trigger] routes_without(routes, face)[i]).0,
            ),
    decreases routes.len(),
{
    if routes.len() > 0 {
        let front = routes.drop_last();
        assert forall|a: int, b: int| 0 <= a < b < front.len() implies (#[trigger] front[a]).0 != (
        #[trigger] front[b]).0 by {
            assert(routes[a].0 != routes[b].0);
        }
        lemma_routes_without_distinct(front, face);
        let rest = routes_without(front, face);
        let after = routes_without(routes, face);
        assert forall|i: int| 0 <= i < after.len() implies has_route(
            routes,
            (#[trigger] after[i]).0,
        ) by {
            if i < rest.len() {
                assert(rest[i] == after[i]);
                let k = route_place(front, rest[i].0);
                assert(routes[k].0 == rest[i].0);
            } else {
                assert(routes[routes.len() - 1].0 == after[i].0);
            }
        }
        assert forall|a: int, b: int| 0 <= a < b < after.len() implies (#[trigger] after[a]).0 != (
        #[trigger] after[b]).0 by {
            assert(rest[a] == after[a]);
            if b < rest.len() {
                assert(rest[b] == after[b]);
            } else {
                assert(has_route(front, rest[a].0));
                let k = route_place(front, rest[a].0);
                assert(front[k].0 == rest[a].0);
                assert(routes[k].0 != routes[routes.len() - 1].0);
            }
        }
    }
}

/// The faces that a name is forwarded to are those of a route whose components are the
/// first ones of the name; no other such route is longer. Where there is no such route,
/// there are no faces.
pub proof fn law_longest_route(routes: Routes, n: NameView)
    ensures
        (exists|i: int| 0 <= i < routes.len() && name::is_prefix((#[trigger] routes[i]).0, n)) ==> exists|
            i: int,
        |
            0 <= i < routes.len() && faces_for(routes, n) == (#[trigger] routes[i]).1
                && routes[i].0.0.len() <= n.0.len() && (forall|k: int|
                0 <= k < routes[i].0.0.len() ==> routes[i].0.0[k] == #[trigger] n.0[k]) && (forall|
                j: int,
            |
                0 <= j < routes.len() && name::is_prefix((#[trigger] routes[j]).0, n)
                    ==> routes[j].0.0.len() <= routes[i].0.0.len()),
        (forall|i: int| 0 <= i < routes.len() ==> !name::is_prefix((#[trigger] routes[i]).0, n))
            ==> faces_for(routes, n).len() == 0,
{
    if any_route(routes, n) {
        lemma_longest_exists(routes, n);
        let i = choose|i: int| longest(routes, n, i);
        name::law_prefix_by_components(routes[i].0, n);
        assert(faces_for(routes, n) == routes[i].1);
    }
}

proof fn lemma_longest_exists(routes: Routes, n: NameView)
    requires
        any_route(routes, n),
    ensures
        exists|i: int| longest(routes, n, i),
    decreases routes.len(),
{
    let rest = routes.drop_last();
    let last = routes.len() - 1;
    assert(forall|j: int| 0 <= j < last ==> routes[j] == #[trigger] rest[j]);
    if any_route(rest, n) {
        lemma_longest_exists(rest, n);
        let k = choose|i: int| longest(rest, n, i);
        assert(routes[k] == rest[k]);
        if name::is_prefix(routes[last].0, n) && routes[last].0.0.len() > routes[k].0.0.len() {
            assert forall|j: int|
                0 <= j < routes.len() && name::is_prefix((#[trigger] routes[j]).0, n) implies (
            routes[j].0.0.len() <= routes[last].0.0.len() && (j < last ==> routes[j].0.0.len()
                < routes[last].0.0.len())) by {
                if j < last {
                    assert(rest[j] == routes[j]);
                    assert(rest[j].0.0.len() <= rest[k].0.0.len());
                }
            }
            assert(longest(routes, n, last));
        } else {
            assert forall|j: int|
                0 <= j < routes.len() && name::is_prefix((#[trigger] routes[j]).0, n) implies (
            routes[j].0.0.len() <= routes[k].0.0.len() && (j < k ==> routes[j].0.0.len()
                < routes[k].0.0.len())) by {
                if j < last {
                    assert(rest[j] == routes[j]);
                    assert(rest[j].0.0.len() <= rest[k].0.0.len());
                }
            }
            assert(longest(routes, n, k));
        }
    } else {
        let i = choose|i: int| 0 <= i < routes.len() && name::is_prefix((#[trigger] routes[i]).0, n);
        if i < last {
            assert(name::is_prefix(rest[i].0, n));
        }
        assert forall|j: int|
            0 <= j < routes.len() && name::is_prefix((#[trigger] routes[j]).0, n) implies j == last by {
            if j < last {
                assert(name::is_prefix(rest[j].0, n));
            }
        }
        assert(longest(routes, n, last));
    }
}

/// Adding a face to a prefix sets its cost there, keeps the other faces of that prefix
/// with their costs, and leaves every other prefix as it is.
pub proof fn law_route_added(routes: Routes, prefix: NameView, face: FaceId, cost: u8)
    requires
        distinct(routes),
    ensures
        ({
            let after = with_route(routes, prefix, face, cost);
            &&& exists|i: int|
                0 <= i < after.len() && (#[trigger] after[i]).0 == prefix && after[i].1.contains(
                    (face, cost),
                )
            &&& forall|i: int|
                0 <= i < routes.len() && (#[trigger] routes[i]).0 != prefix ==> after[i]
                    == routes[i]
            &&& forall|i: int, k: int|
                0 <= i < routes.len() && routes[i].0 == prefix && 0 <= k < routes[i].1.len() && (
                #[trigger] routes[i].1[k]).0 != face ==> after[i].1[k] == routes[i].1[k]
            &&& routes.len() <= after.len() <= routes.len() + 1
        }),
{
    let after = with_route(routes, prefix, face, cost);
    if has_route(routes, prefix) {
        let i = route_place(routes, prefix);
        assert(routes[i].0 == prefix);
        lemma_with_face(routes[i].1, face, cost);
        assert(after[i].0 == prefix);
        if has_face(routes[i].1, face) {
            lemma_first_face(routes[i].1, face);
        }
        assert forall|j: int, k: int|
            0 <= j < routes.len() && routes[j].0 == prefix && 0 <= k < routes[j].1.len() && (
            #[trigger] routes[j].1[k]).0 != face implies after[j].1[k] == routes[j].1[k] by {
            assert(j == i) by {
                if j < i {
                    assert(routes[j].0 != routes[i].0);
                } else if i < j {
                    assert(routes[i].0 != routes[j].0);
                }
            }
        }
    } else {
        let i = routes.len() as int;
        assert(after[i] == (prefix, seq![(face, cost)]));
        assert(after[i].1[0] == (face, cost));
    }
}

/// Removing a face keeps every other face with its cost at every prefix.
pub proof fn law_other_faces_stay(
    routes: Routes,
    face: FaceId,
    i: int,
    k: int,
)
    requires
        0 <= i < routes.len(),
        0 <= k < routes[i].1.len(),
        routes[i].1[k].0 != face,
    ensures
        exists|j: int|
            0 <= j < routes_without(routes, face).len() && (#[trigger] routes_without(
                routes,
                face,
            )[j]).0 == routes[i].0 && routes_without(routes, face)[j].1.contains(routes[i].1[k]),
    decreases routes.len(),
{
    let front = routes.drop_last();
    let rest = routes_without(front, face);
    let after = routes_without(routes, face);
    if i < front.len() {
        assert(front[i] == routes[i]);
        law_other_faces_stay(front, face, i, k);
        let j = choose|j: int|
            0 <= j < rest.len() && (#[trigger] rest[j]).0 == routes[i].0 && rest[j].1.contains(
                routes[i].1[k],
            );
        assert(after[j] == rest[j]);
    } else {
        lemma_face_stays(routes.last().1, face, k);
        let faces = without_face(routes.last().1, face);
        assert(faces.contains(routes[i].1[k]));
        assert(after[rest.len() as int] == (routes.last().0, faces));
    }
}

proof fn lemma_face_stays(faces: Seq<(FaceId, u8)>, face: FaceId, k: int)
    requires
        0 <= k < faces.len(),
        faces[k].0 != face,
    ensures
        without_face(faces, face).contains(faces[k]),
    decreases faces.len(),
{
    let rest = faces.drop_last();
    let after = without_face(faces, face);
    if k < rest.len() {
        lemma_face_stays(rest, face, k);
        let w = without_face(rest, face);
        let j = choose|j: int| 0 <= j < w.len() && w[j] == rest[k];
        assert(after[j] == w[j]);
    } else {
        assert(after[without_face(rest, face).len() as int] == faces[k]);
    }
}

} // verus!
