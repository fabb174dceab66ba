//! The table of pending Interests.

use crate::icn::face::FaceId;
use crate::icn::interest::{Interest, InterestView};
use crate::icn::name::{Name, NameView};
use crate::span::TimeSpan;
use crate::table;
use crate::table::Table;
use crate::wire;
use vstd::prelude::*;

verus! {

/// A pending Interest.
pub struct PitEntry {
    pub interest: Interest,
    /// The faces that wait for an answer.
    pub in_faces: Vec<FaceId>,
    /// The face that the Interest was forwarded to.
    pub out_face: Option<FaceId>,
    /// When the entry lapses.
    pub expires_at: TimeSpan,
    pub satisfied: bool,
}

/// A pending Interest over byte sequences.
pub struct PitView {
    pub interest: InterestView,
    pub in_faces: Seq<FaceId>,
    pub out_face: Option<FaceId>,
    pub expires_at: TimeSpan,
    pub satisfied: bool,
}

impl View for PitEntry {
    type V = PitView;

    open spec fn view(&self) -> PitView {
        PitView {
            interest: self.interest@,
            in_faces: self.in_faces@,
            out_face: self.out_face,
            expires_at: self.expires_at,
            satisfied: self.satisfied,
        }
    }
}

/// What adding an Interest did.
#[derive(Debug, Clone, Copy, PartialEq, Eq, Structural)]
pub enum PitOp {
    /// There is a new entry.
    Inserted,
    /// The face waits with others.
    Aggregated,
}

/// Pending Interests, by name.
pub struct Pit {
    pub entries: Table<Name, PitEntry>,
    /// The nonces that came in, each with its face.
    pub nonces: Vec<(FaceId, [u8; 8])>,
}

/// Entries over byte sequences.
pub open spec fn entries_view(m: Map<NameView, PitEntry>) -> Map<NameView, PitView> {
    Map::new(|k: NameView| m.dom().contains(k), |k: NameView| m[k]@)
}

/// An entry that may be missing, over byte sequences.
pub open spec fn pending(m: Map<NameView, PitView>, n: NameView) -> Option<PitView> {
    if m.dom().contains(n) {
        Some(m[n])
    } else {
        None
    }
}

/// Whether a nonce came in from a face.
pub open spec fn nonce_seen(nonces: Seq<(FaceId, [u8; 8])>, face: FaceId, nonce: Seq<u8>) -> bool {
    exists|i: int|
        0 <= i < nonces.len() && (#[trigger] nonces[i]).0 == face && nonces[i].1@ == nonce
}

/// A face joins those that wait.
pub open spec fn joined(faces: Seq<FaceId>, face: FaceId) -> Seq<FaceId> {
    if faces.contains(face) {
        faces
    } else {
        faces.push(face)
    }
}

/// Entries after an Interest was added.
pub open spec fn with_interest(
    m: Map<NameView, PitView>,
    n: NameView,
    face: FaceId,
    interest: InterestView,
    expires_at: TimeSpan,
) -> Map<NameView, PitView> {
    if m.dom().contains(n) {
        m.insert(n, PitView { in_faces: joined(m[n].in_faces, face), ..m[n] })
    } else {
        m.insert(
            n,
            PitView {
                interest,
                in_faces: seq![face],
                out_face: None,
                expires_at,
                satisfied: false,
            },
        )
    }
}

/// Entries after the outgoing face of one was set.
pub open spec fn with_out_face(m: Map<NameView, PitView>, n: NameView, face: FaceId) -> Map<
    NameView,
    PitView,
> {
    if m.dom().contains(n) {
        m.insert(n, PitView { out_face: Some(face), ..m[n] })
    } else {
        m
    }
}

/// The entries that have not lapsed.
pub open spec fn unexpired(m: Map<NameView, PitView>, now: TimeSpan) -> Map<NameView, PitView> {
    Map::new(
        |k: NameView| m.dom().contains(k) && m[k].expires_at.total() > now.total(),
        |k: NameView| m[k],
    )
}

/// A second Interest of the same name keeps the entry, and its face waits too.
pub proof fn law_aggregation(
    m: Map<NameView, PitView>,
    n: NameView,
    first: FaceId,
    second: FaceId,
    i1: InterestView,
    i2: InterestView,
    t1: TimeSpan,
    t2: TimeSpan,
)
    requires
        !m.dom().contains(n),
    ensures
        ({
            let once = with_interest(m, n, first, i1, t1);
            let twice = with_interest(once, n, second, i2, t2);
            &&& twice[n].interest == i1
            &&& twice[n].expires_at == t1
            &&& twice[n].in_faces.contains(first)
            &&& twice[n].in_faces.contains(second)
            &&& twice.dom() == once.dom()
        }),
{
    let once = with_interest(m, n, first, i1, t1);
    let twice = with_interest(once, n, second, i2, t2);
    assert(once[n].in_faces[0] == first);
    assert(twice[n].in_faces[0] == first);
    if first != second {
        assert(twice[n].in_faces[1] == second);
    }
    assert(twice.dom() =~= once.dom());
}

impl Pit {
    /// The pending Interests, by name.
    pub open spec fn table(&self) -> Map<NameView, PitView> {
        entries_view(self.entries@)
    }

    /// No name is pending twice.
    pub open spec fn wf(&self) -> bool {
        self.entries.wf()
    }

    /// An empty table.
    pub fn new() -> (p: Self)
        ensures
            p.wf(),
            p.table() == Map::<NameView, PitView>::empty(),
            p.nonces@.len() == 0,
    {
        let p = Pit { entries: Table::new(), nonces: Vec::new() };
        assert(p.table() =~= Map::<NameView, PitView>::empty());
        p
    }

    /// Whether an Interest came in before: the same nonce from the same face.
    pub fn check_loop(&self, face: FaceId, nonce: [u8; 8]) -> (r: bool)
        ensures
            r <==> nonce_seen(self.nonces@, face, nonce@),
    {
        let mut i: usize = 0;
        while i < self.nonces.len()
            invariant
                i <= self.nonces@.len(),
                forall|j: int|
                    0 <= j < i ==> !((#[trigger] self.nonces@[j]).0 == face && self.nonces@[j].1@
                        == nonce@),
            decreases self.nonces@.len() - i,
        {
            let seen: [u8; 8] = self.nonces[i].1;
            if self.nonces[i].0 == face && wire::same_bytes(seen.as_slice(), nonce.as_slice()) {
                return true;
            }
            i = i + 1;
        }
        false
    }

    /// Remembers a nonce.
    pub fn record_nonce(&mut self, face: FaceId, nonce: [u8; 8])
        ensures
            final(self).nonces@ == old(self).nonces@.push((face, nonce)),
            final(self).entries == old(self).entries,
            nonce_seen(final(self).nonces@, face, nonce@),
    {
        self.nonces.push((face, nonce));
        assert(self.nonces@[self.nonces@.len() - 1].0 == face);
    }

    /// The pending Interest of a name.
    pub fn find(&self, name: &Name) -> (r: Option<&PitEntry>)
        requires
            self.wf(),
        ensures
            (match r {
                Some(e) => pending(self.table(), name@) == Some(e@),
                None => pending(self.table(), name@) is None,
            }),
    {
        self.entries.get(name)
    }

    /// Adds an Interest that came in from a face and lapses at `expires_at`, or lets
    /// the face wait with those of a pending Interest of that name.
    pub fn insert_or_aggregate(
        &mut self,
        name: Name,
        face: FaceId,
        interest: Interest,
        expires_at: TimeSpan,
    ) -> (op: PitOp)
        requires
            old(self).wf(),
        ensures
            final(self).wf(),
            final(self).nonces == old(self).nonces,
            final(self).table() == with_interest(
                old(self).table(),
                name@,
                face,
                interest@,
                expires_at,
            ),
            op == (if old(self).table().dom().contains(name@) {
                PitOp::Aggregated
            } else {
                PitOp::Inserted
            }),
    {
        match self.entries.remove(&name) {
            Some(found) => {
                let mut e: PitEntry = found;
                if !contains_face(&e.in_faces, face) {
                    e.in_faces.push(face);
                }
                self.entries.insert(name, e);
                assert(self.table() =~= with_interest(
                    old(self).table(),
                    name@,
                    face,
                    interest@,
                    expires_at,
                ));
                PitOp::Aggregated
            },
            None => {
                let mut in_faces: Vec<FaceId> = Vec::new();
                in_faces.push(face);
                assert(in_faces@ =~= seq![face]);
                self.entries.insert(
                    name,
                    PitEntry { interest, in_faces, out_face: None, expires_at, satisfied: false },
                );
                assert(self.table() =~= with_interest(
                    old(self).table(),
                    name@,
                    face,
                    interest@,
                    expires_at,
                ));
                PitOp::Inserted
            },
        }
    }

    /// Notes the face that a pending Interest was forwarded to.
    pub fn set_out_face(&mut self, name: &Name, face: FaceId)
        requires
            old(self).wf(),
        ensures
            final(self).wf(),
            final(self).nonces == old(self).nonces,
            final(self).table() == with_out_face(old(self).table(), name@, face),
    {
        match self.entries.remove(name) {
            Some(found) => {
                let mut e: PitEntry = found;
                e.out_face = Some(face);
                self.entries.insert(name.duplicate(), e);
                assert(self.table() =~= with_out_face(old(self).table(), name@, face));
            },
            None => {},
        }
    }

    /// Takes the pending Interest of a name out, and returns it as satisfied.
    pub fn satisfy(&mut self, name: &Name) -> (r: Option<PitEntry>)
        requires
            old(self).wf(),
        ensures
            final(self).wf(),
            final(self).nonces == old(self).nonces,
            final(self).table() == old(self).table().remove(name@),
            (match r {
                Some(e) => pending(old(self).table(), name@) matches Some(p) && e@ == (PitView {
                    satisfied: true,
                    ..p
                }),
                None => pending(old(self).table(), name@) is None,
            }),
    {
        match self.entries.remove(name) {
            Some(found) => {
                let mut e: PitEntry = found;
                e.satisfied = true;
                assert(self.table() =~= old(self).table().remove(name@));
                Some(e)
            },
            None => {
                assert(self.table() =~= old(self).table().remove(name@));
                None
            },
        }
    }

    /// Drops the entries that have lapsed.
    pub fn purge_expired(&mut self, now: TimeSpan)
        requires
            old(self).wf(),
        ensures
            final(self).wf(),
            final(self).nonces == old(self).nonces,
            final(self).table() == unexpired(old(self).table(), now),
    {
        let ghost before = self.entries@;
        let mut i: usize = 0;
        while i < self.entries.entries.len()
            invariant
                i <= self.entries.entries@.len(),
                self.entries.wf(),
                self.nonces == old(self).nonces,
                before == old(self).entries@,
                forall|j: int|
                    0 <= j < i ==> (#[trigger] self.entries.entries@[j]).1.expires_at.total()
                        > now.total(),
                forall|k: NameView| #[trigger]
                    self.entries@.dom().contains(k) ==> before.dom().contains(k)
                        && self.entries@[k] == before[k],
                forall|k: NameView| #[trigger]
                    before.dom().contains(k) && !self.entries@.dom().contains(k)
                        ==> before[k].expires_at.total() <= now.total(),
            decreases self.entries.entries@.len() - i,
        {
            proof {
                table::lemma_entry(self.entries.entries@, i as int);
            }
            if now.shorter_than(&self.entries.entries[i].1.expires_at) {
                i = i + 1;
            } else {
                let ghost held = self.entries@;
                proof {
                    table::lemma_remove(self.entries.entries@, i as int);
                }
                self.entries.entries.remove(i);
                assert forall|k: NameView| #[trigger]
                    self.entries@.dom().contains(k) implies before.dom().contains(k)
                    && self.entries@[k] == before[k] by {
                    assert(held.dom().contains(k));
                }
            }
        }
        proof {
            let after = self.entries@;
            assert forall|k: NameView| #[trigger] after.dom().contains(k) implies after[k].expires_at.total()
                > now.total() by {
                let j = table::place(self.entries.entries@, k);
                table::lemma_entry(self.entries.entries@, j);
            }
            assert(self.table() =~= unexpired(old(self).table(), now));
        }
    }
}

/// Whether a face is in a list.
fn contains_face(faces: &Vec<FaceId>, face: FaceId) -> (r: bool)
    ensures
        r <==> faces@.contains(face),
{
    let mut i: usize = 0;
    while i < faces.len()
        invariant
            i <= faces@.len(),
            forall|j: int| 0 <= j < i ==> faces@[j] != face,
        decreases faces@.len() - i,
    {
        if faces[i] == face {
            assert(faces@[i as int] == face);
            return true;
        }
        i = i + 1;
    }
    false
}

/// A first Interest of a name makes an entry for its face alone, with its own time, not
/// yet sent to a face and not satisfied. Every other entry stays.
pub proof fn law_new_entry(
    m: Map<NameView, PitView>,
    n: NameView,
    face: FaceId,
    interest: InterestView,
    expires_at: TimeSpan,
)
    requires
        !m.dom().contains(n),
    ensures
        ({
            let after = with_interest(m, n, face, interest, expires_at);
            &&& after.dom() == m.dom().insert(n)
            &&& after[n].interest == interest
            &&& after[n].in_faces.len() == 1
            &&& after[n].in_faces[0] == face
            &&& after[n].out_face is None
            &&& after[n].expires_at == expires_at
            &&& !after[n].satisfied
            &&& forall|k: NameView| k != n && #[trigger] m.dom().contains(k) ==> after[k] == m[k]
        }),
{
    assert(with_interest(m, n, face, interest, expires_at).dom() =~= m.dom().insert(n));
}

/// An Interest that joins an entry adds its face, where that does not wait yet, behind
/// those that wait, and changes nothing else.
pub proof fn law_joined_entry(
    m: Map<NameView, PitView>,
    n: NameView,
    face: FaceId,
    interest: InterestView,
    expires_at: TimeSpan,
)
    requires
        m.dom().contains(n),
    ensures
        ({
            let after = with_interest(m, n, face, interest, expires_at);
            &&& after.dom() == m.dom()
            &&& after[n].interest == m[n].interest
            &&& after[n].out_face == m[n].out_face
            &&& after[n].expires_at == m[n].expires_at
            &&& after[n].satisfied == m[n].satisfied
            &&& after[n].in_faces.contains(face)
            &&& (m[n].in_faces.contains(face) ==> after[n].in_faces == m[n].in_faces)
            &&& after[n].in_faces.len() <= m[n].in_faces.len() + 1
            &&& forall|i: int| 0 <= i < m[n].in_faces.len() ==> after[n].in_faces[i] == (
                #[trigger] m[n].in_faces[i])
            &&& forall|k: NameView| k != n && #[trigger] m.dom().contains(k) ==> after[k] == m[k]
        }),
{
    let after = with_interest(m, n, face, interest, expires_at);
    assert(after.dom() =~= m.dom());
    if !m[n].in_faces.contains(face) {
        assert(after[n].in_faces[m[n].in_faces.len() as int] == face);
    }
}

/// Setting the face that an Interest was sent to changes that of this entry alone.
pub proof fn law_out_face(m: Map<NameView, PitView>, n: NameView, face: FaceId)
    requires
        m.dom().contains(n),
    ensures
        with_out_face(m, n, face).dom() == m.dom(),
        with_out_face(m, n, face)[n].out_face == Some(face),
        with_out_face(m, n, face)[n].in_faces == m[n].in_faces,
        with_out_face(m, n, face)[n].expires_at == m[n].expires_at,
        with_out_face(m, n, face)[n].interest == m[n].interest,
        forall|k: NameView| k != n && #[trigger] m.dom().contains(k) ==> with_out_face(m, n, face)[k]
            == m[k],
{
    assert(with_out_face(m, n, face).dom() =~= m.dom());
}

/// An entry is kept up to the moment at which it lapses, as it is, and is gone from then
/// on.
pub proof fn law_entries_lapse(m: Map<NameView, PitView>, now: TimeSpan, n: NameView)
    requires
        m.dom().contains(n),
    ensures
        now.total() < m[n].expires_at.total() ==> unexpired(m, now).dom().contains(n) && unexpired(
            m,
            now,
        )[n] == m[n],
        now.total() >= m[n].expires_at.total() ==> !unexpired(m, now).dom().contains(n),
        forall|k: NameView| #[trigger] unexpired(m, now).dom().contains(k) ==> m.dom().contains(k),
{
}

/// A nonce is a loop for the face that it came in from, and for no other.
pub proof fn law_loop_by_face(
    nonces: Seq<(FaceId, [u8; 8])>,
    face: FaceId,
    nonce: [u8; 8],
    other: FaceId,
)
    requires
        other != face,
    ensures
        nonce_seen(nonces.push((face, nonce)), face, nonce@),
        nonce_seen(nonces.push((face, nonce)), other, nonce@) == nonce_seen(nonces, other, nonce@),
        !nonce_seen(Seq::empty(), face, nonce@),
{
    let after = nonces.push((face, nonce));
    assert(after[nonces.len() as int] == (face, nonce));
    if nonce_seen(nonces, other, nonce@) {
        let i = choose|i: int|
            0 <= i < nonces.len() && (#[trigger] nonces[i]).0 == other && nonces[i].1@ == nonce@;
        assert(after[i] == nonces[i]);
    }
    if nonce_seen(after, other, nonce@) {
        let i = choose|i: int|
            0 <= i < after.len() && (#[trigger] after[i]).0 == other && after[i].1@ == nonce@;
        assert(after[i] == nonces[i]);
    }
}

} // verus!
