//! Names: a routable prefix and an optional content hash.
//!
//! Every name starts with a 32-byte producer hash. Further path components follow.
//!
//! ```text
//! [count:1][len1:1][bytes1...][len2:1][bytes2...][0xFF if hash][hash:32]
//! ```
//!
//! In text: `/a1b2c3d4..d4a7b8c9/app/chat?blake3=e7f8a9b0..c1d2e3f4`.

use crate::table::Key;
use crate::text;
use crate::wire;
use vstd::prelude::*;
use vstd::utf8;

verus! {

/// Most components that a name may have on the wire.
pub const MAX_COMPONENTS: usize = 32;

/// The byte in front of a content hash.
pub const HASH_DISCRIMINATOR: u8 = 0xFF;

#[derive(Debug, Clone, Copy, PartialEq, Eq)]
pub enum NameError {
    Empty,
    ComponentTooLong,
    BufferTooShort { expected: usize, got: usize },
    MissingHashDiscriminator,
    /// The first component is no producer hash.
    InvalidProducer { got: usize },
}

impl NameError {
    /// The text of the error.
    pub open spec fn message(&self) -> Seq<char> {
        match *self {
            NameError::Empty => "name has no components"@,
            NameError::ComponentTooLong => "component length exceeds 255 bytes"@,
            NameError::BufferTooShort { expected, got } => "buffer too short: expected at least "@
                + text::decimal(expected as nat) + " bytes, got "@ + text::decimal(got as nat),
            NameError::MissingHashDiscriminator => "missing content hash discriminator"@,
            NameError::InvalidProducer { got } => "producer hash must be 32 bytes, got "@
                + text::decimal(got as nat),
        }
    }

    /// The message that describes the error.
    pub fn to_string(&self) -> (out: String)
        ensures
            out@ == self.message(),
    {
        match self {
            NameError::Empty => "name has no components".to_owned(),
            NameError::ComponentTooLong => "component length exceeds 255 bytes".to_owned(),
            NameError::BufferTooShort { expected, got } => {
                let mut out: String = text::join(
                    "buffer too short: expected at least ",
                    text::to_decimal(*expected as u64).as_str(),
                );
                out.append(" bytes, got ");
                out.append(text::to_decimal(*got as u64).as_str());
                out
            },
            NameError::MissingHashDiscriminator => "missing content hash discriminator".to_owned(),
            NameError::InvalidProducer { got } => text::join(
                "producer hash must be 32 bytes, got ",
                text::to_decimal(*got as u64).as_str(),
            ),
        }
    }
}

/// A name over byte sequences: its components and its content hash.
pub type NameView = (Seq<Seq<u8>>, Option<Seq<u8>>);

/// A name. The first component is the hash of the producer's public key.
#[derive(Debug, PartialEq, Eq, Hash)]
pub struct Name {
    components: Vec<Vec<u8>>,
    content_hash: Option<[u8; 32]>,
}

/// Whether a name starts with a producer hash.
pub open spec fn has_producer(n: NameView) -> bool {
    n.0.len() > 0 && n.0[0].len() == 32
}

impl Name {
    /// Every name starts with a producer hash.
    #[verifier::type_invariant]
    spec fn inv(self) -> bool {
        has_producer(self@)
    }
}

impl View for Name {
    type V = NameView;

    closed spec fn view(&self) -> NameView {
        (wire::all_bytes(self.components@), wire::key_view(self.content_hash))
    }
}

/// Components on the wire, each behind a length byte.
pub open spec fn component_bytes(cs: Seq<Seq<u8>>) -> Seq<u8>
    decreases cs.len(),
{
    if cs.len() == 0 {
        Seq::empty()
    } else {
        component_bytes(cs.drop_last()) + seq![(cs.last().len() % 256) as u8] + cs.last()
    }
}

/// The content hash on the wire.
pub open spec fn hash_bytes(h: Option<Seq<u8>>) -> Seq<u8> {
    match h {
        Some(b) => seq![HASH_DISCRIMINATOR] + b,
        None => Seq::empty(),
    }
}

/// A name on the wire.
pub open spec fn name_bytes(n: NameView) -> Seq<u8> {
    seq![(n.0.len() % 256) as u8] + component_bytes(n.0) + hash_bytes(n.1)
}

/// What to say where the bytes end before position `expected`.
pub open spec fn too_short(b: Seq<u8>, expected: int) -> NameError {
    NameError::BufferTooShort {
        expected: if expected > usize::MAX {
            usize::MAX
        } else {
            expected as usize
        },
        got: b.len() as usize,
    }
}

/// The component at `pos`, and where it ends.
pub open spec fn component_at(b: Seq<u8>, pos: int) -> Result<(Seq<u8>, int), NameError> {
    if pos >= b.len() {
        Err(too_short(b, pos + 1))
    } else {
        let end = pos + 1 + b[pos];
        if end > b.len() {
            Err(too_short(b, end))
        } else {
            Ok((b.subrange(pos + 1, end), end))
        }
    }
}

/// The `n` components from `pos` on, and where they end.
pub open spec fn components_at(b: Seq<u8>, pos: int, n: nat) -> Result<
    (Seq<Seq<u8>>, int),
    NameError,
>
    decreases n,
{
    if n == 0 {
        Ok((Seq::empty(), pos))
    } else {
        match components_at(b, pos, (n - 1) as nat) {
            Ok((cs, p)) => match component_at(b, p) {
                Ok((c, end)) => Ok((cs.push(c), end)),
                Err(e) => Err(e),
            },
            Err(e) => Err(e),
        }
    }
}

/// The content hash at `pos`, where there is one.
pub open spec fn hash_at(b: Seq<u8>, pos: int) -> Result<Option<Seq<u8>>, NameError> {
    if pos < b.len() && b[pos] == HASH_DISCRIMINATOR {
        if pos + 33 > b.len() {
            Err(too_short(b, pos + 33))
        } else {
            Ok(Some(b.subrange(pos + 1, pos + 33)))
        }
    } else {
        Ok(None)
    }
}

/// The name that a byte string starts with.
pub open spec fn parsed_name(b: Seq<u8>) -> Result<NameView, NameError> {
    if b.len() == 0 || b[0] == 0 || b[0] > MAX_COMPONENTS {
        Err(NameError::Empty)
    } else {
        match components_at(b, 1, b[0] as nat) {
            Ok((cs, pos)) => if cs[0].len() != 32 {
                Err(NameError::InvalidProducer { got: cs[0].len() as usize })
            } else {
                match hash_at(b, pos) {
                    Ok(h) => Ok((cs, h)),
                    Err(e) => Err(e),
                }
            },
            Err(e) => Err(e),
        }
    }
}

/// Whether a name can be written without loss: a producer hash and up to 31 further
/// components of at most 255 bytes each, and a content hash of 32 bytes.
pub open spec fn fits(n: NameView) -> bool {
    &&& has_producer(n)
    &&& n.0.len() <= MAX_COMPONENTS
    &&& forall|i: int| 0 <= i < n.0.len() ==> (#[trigger] n.0[i]).len() <= 255
    &&& (n.1 matches Some(h) ==> h.len() == 32)
}

/// Once a component cannot be read, no longer list can.
proof fn lemma_error_stays(b: Seq<u8>, pos: int, n: nat, m: nat)
    requires
        n <= m,
        components_at(b, pos, n) is Err,
    ensures
        components_at(b, pos, m) == components_at(b, pos, n),
    decreases m,
{
    if n < m {
        lemma_error_stays(b, pos, n, (m - 1) as nat);
    }
}

/// Components are read back from the bytes they were written to.
proof fn lemma_components_roundtrip(before: Seq<u8>, cs: Seq<Seq<u8>>, after: Seq<u8>)
    requires
        forall|i: int| 0 <= i < cs.len() ==> (#[trigger] cs[i]).len() <= 255,
    ensures
        components_at(before + component_bytes(cs) + after, before.len() as int, cs.len()) == Ok::<
            (Seq<Seq<u8>>, int),
            NameError,
        >((cs, (before.len() + component_bytes(cs).len()) as int)),
    decreases cs.len(),
{
    if cs.len() > 0 {
        let c = cs.last();
        let rest = cs.drop_last();
        let head = seq![(c.len() % 256) as u8];
        let b = before + component_bytes(cs) + after;
        assert(c.len() <= 255);
        lemma_components_roundtrip(before, rest, head + c + after);
        assert(b =~= before + component_bytes(rest) + (head + c + after));
        let p = (before.len() + component_bytes(rest).len()) as int;
        assert(b[p] == c.len() as u8);
        assert(b.subrange(p + 1, p + 1 + c.len()) =~= c);
        assert(rest.push(c) =~= cs);
    } else {
        assert(cs =~= Seq::empty());
    }
}

/// A name is read back from its bytes.
pub proof fn law_name_roundtrip(n: NameView)
    requires
        fits(n),
    ensures
        parsed_name(name_bytes(n)) == Ok::<NameView, NameError>(n),
{
    let b = name_bytes(n);
    let first = seq![(n.0.len() % 256) as u8];
    lemma_components_roundtrip(first, n.0, hash_bytes(n.1));
    let pos = 1 + component_bytes(n.0).len() as int;
    match n.1 {
        Some(h) => {
            assert(b[pos] == HASH_DISCRIMINATOR);
            assert(b.subrange(pos + 1, pos + 33) =~= h);
        },
        None => {
            assert(b.len() == pos);
        },
    }
}

/// Bytes that hold components start with the bytes of these components.
proof fn lemma_components_prefix(b: Seq<u8>, pos: int, n: nat)
    requires
        0 <= pos <= b.len(),
        components_at(b, pos, n) is Ok,
    ensures
        ({
            let (cs, end) = components_at(b, pos, n)->Ok_0;
            &&& cs.len() == n
            &&& pos <= end <= b.len()
            &&& component_bytes(cs) == b.subrange(pos, end)
            &&& forall|i: int| 0 <= i < n ==> (#[trigger] cs[i]).len() <= 255
        }),
    decreases n,
{
    let (cs, end) = components_at(b, pos, n)->Ok_0;
    if n == 0 {
        assert(b.subrange(pos, end) =~= Seq::empty());
    } else {
        lemma_components_prefix(b, pos, (n - 1) as nat);
        let (rest, p) = components_at(b, pos, (n - 1) as nat)->Ok_0;
        assert(cs.drop_last() =~= rest);
        assert(b.subrange(pos, end) =~= b.subrange(pos, p) + seq![b[p]] + b.subrange(p + 1, end));
        assert((cs.last().len() % 256) as u8 == b[p]);
    }
}

/// What is accepted as a name starts with the bytes of that name, and the name can be
/// written without loss.
pub proof fn law_name_bytes_prefix(b: Seq<u8>)
    requires
        parsed_name(b) is Ok,
    ensures
        fits(parsed_name(b)->Ok_0),
        name_bytes(parsed_name(b)->Ok_0).is_prefix_of(b),
{
    let n = parsed_name(b)->Ok_0;
    lemma_components_prefix(b, 1, b[0] as nat);
    let pos = components_at(b, 1, b[0] as nat)->Ok_0.1;
    let out = name_bytes(n);
    match n.1 {
        Some(h) => {
            assert(h == b.subrange(pos + 1, pos + 33));
            assert(out =~= b.subrange(0, pos + 33));
        },
        None => {
            assert(out =~= b.subrange(0, pos));
        },
    }
}

/// Whether the components of `prefix` are the first components of `n`.
pub open spec fn is_prefix(prefix: NameView, n: NameView) -> bool {
    prefix.0.is_prefix_of(n.0)
}

/// Every name starts with itself; what starts with a longer prefix starts with a
/// shorter one; and of two prefixes of a name one is a prefix of the other.
pub proof fn law_prefix_order(a: NameView, b: NameView, c: NameView)
    ensures
        is_prefix(a, a),
        is_prefix(a, b) && is_prefix(b, c) ==> is_prefix(a, c),
        is_prefix(a, c) && is_prefix(b, c) ==> is_prefix(a, b) || is_prefix(b, a),
{
    assert(a.0.subrange(0, a.0.len() as int) =~= a.0);
    if is_prefix(a, b) && is_prefix(b, c) {
        assert(a.0 =~= c.0.subrange(0, a.0.len() as int));
    }
    if is_prefix(a, c) && is_prefix(b, c) {
        if a.0.len() <= b.0.len() {
            assert(a.0 =~= b.0.subrange(0, a.0.len() as int));
        } else {
            assert(b.0 =~= a.0.subrange(0, b.0.len() as int));
        }
    }
}

/// Up to 8 bytes in full; of a longer string the first and the last 4 bytes.
pub open spec fn compact_hex(b: Seq<u8>) -> Seq<char> {
    if b.len() <= 8 {
        text::hex_text(b)
    } else {
        text::hex_text(b.subrange(0, 4)) + ".."@ + text::hex_text(
            b.subrange(b.len() - 4, b.len() as int),
        )
    }
}

/// The text of a component: 32-byte hashes and what is not UTF-8 in compact hexadecimal.
pub open spec fn component_text(c: Seq<u8>) -> Seq<char> {
    if c.len() != 32 && utf8::valid_utf8(c) {
        utf8::decode_utf8(c)
    } else {
        compact_hex(c)
    }
}

/// The text of some components, each behind a slash.
pub open spec fn components_text(cs: Seq<Seq<u8>>) -> Seq<char>
    decreases cs.len(),
{
    if cs.len() == 0 {
        Seq::empty()
    } else {
        components_text(cs.drop_last()) + "/"@ + component_text(cs.last())
    }
}

/// The text of a name.
pub open spec fn name_text(n: NameView) -> Seq<char> {
    components_text(n.0) + (match n.1 {
        Some(h) => "?blake3="@ + compact_hex(h),
        None => Seq::empty(),
    })
}

/// Shortens bytes to hexadecimal text.
pub fn hex_prefix(bytes: &[u8]) -> (out: String)
    ensures
        out@ == compact_hex(bytes@),
{
    let n: usize = bytes.len();
    if n <= 8 {
        return text::hex_encode(bytes);
    }
    let head: Vec<u8> = wire::copy_range(bytes, 0, 4);
    let tail: Vec<u8> = wire::copy_range(bytes, n - 4, n);
    let mut out: String = text::hex_encode(head.as_slice());
    out.append("..");
    out.append(text::hex_encode(tail.as_slice()).as_str());
    out
}

impl Name {
    /// The name of some content of a producer.
    pub fn new(producer_hash: [u8; 32], path: &[&[u8]]) -> (name: Self)
        ensures
            name@.0 == seq![producer_hash@] + Seq::new(path@.len(), |i: int| path@[i]@),
            name@.1 is None,
    {
        let mut components: Vec<Vec<u8>> = Vec::new();
        components.push(wire::copy_all(producer_hash.as_slice()));
        let mut i: usize = 0;
        while i < path.len()
            invariant
                i <= path@.len(),
                components@.len() == 1 + i,
                components@[0]@ == producer_hash@,
                forall|j: int| 0 <= j < i ==> (#[trigger] components@[1 + j])@ == path@[j]@,
            decreases path@.len() - i,
        {
            components.push(wire::copy_all(path[i]));
            i = i + 1;
        }
        assert(wire::all_bytes(components@)[0] == producer_hash@);
        let name = Name { components, content_hash: None };
        proof {
            let expected = seq![producer_hash@] + Seq::new(path@.len(), |i: int| path@[i]@);
            assert forall|j: int| 0 <= j < expected.len() implies name@.0[j] == expected[j] by {
                if j > 0 {
                    assert(components@[1 + (j - 1)]@ == path@[j - 1]@);
                }
            }
            assert(name@.0 =~= expected);
        }
        name
    }

    /// Adds a content hash.
    pub fn with_content_hash(self, hash: [u8; 32]) -> (name: Self)
        ensures
            name@ == (self@.0, Some(hash@)),
    {
        proof {
            use_type_invariant(&self);
        }
        Name { components: self.components, content_hash: Some(hash) }
    }

    /// The name of some components, of which the first is a producer hash.
    pub(crate) fn from_parts(components: Vec<Vec<u8>>, content_hash: Option<[u8; 32]>) -> (name:
        Self)
        requires
            has_producer((wire::all_bytes(components@), None)),
        ensures
            name@ == (wire::all_bytes(components@), wire::key_view(content_hash)),
    {
        Name { components, content_hash }
    }

    /// The components and the content hash.
    pub(crate) fn into_parts(self) -> (r: (Vec<Vec<u8>>, Option<[u8; 32]>))
        ensures
            self@ == (wire::all_bytes(r.0@), wire::key_view(r.1)),
    {
        (self.components, self.content_hash)
    }

    /// The producer hash: the first component, always 32 bytes.
    pub fn producer_hash(&self) -> (hash: [u8; 32])
        ensures
            has_producer(self@),
            hash@ == self@.0[0],
    {
        proof {
            use_type_invariant(self);
        }
        let hash: [u8; 32] = wire::read_32(self.components[0].as_slice(), 0);
        assert(hash@ =~= self@.0[0]);
        hash
    }

    /// The components, the producer hash first.
    pub fn components(&self) -> (cs: &[Vec<u8>])
        ensures
            wire::all_bytes(cs@) == self@.0,
            has_producer(self@),
    {
        proof {
            use_type_invariant(self);
        }
        self.components.as_slice()
    }

    /// The content hash.
    pub fn content_hash(&self) -> (h: Option<&[u8; 32]>)
        ensures
            (match h {
                Some(b) => self@.1 == Some(b@),
                None => self@.1 is None,
            }),
    {
        match &self.content_hash {
            Some(b) => Some(b),
            None => None,
        }
    }

    /// How many components there are.
    pub fn len(&self) -> (n: usize)
        ensures
            n == self@.0.len(),
    {
        self.components.len()
    }

    /// Whether there is one component only.
    pub fn is_root(&self) -> (r: bool)
        ensures
            r <==> self@.0.len() == 1,
    {
        self.components.len() == 1
    }

    /// Whether this name starts with `prefix`.
    pub fn starts_with(&self, prefix: &Name) -> (r: bool)
        ensures
            r <==> is_prefix(prefix@, self@),
    {
        self.starts_with_parts(&prefix.components)
    }

    /// Whether the first components of this name are the given ones.
    pub(crate) fn starts_with_parts(&self, prefix: &Vec<Vec<u8>>) -> (r: bool)
        ensures
            r <==> wire::all_bytes(prefix@).is_prefix_of(self@.0),
    {
        let ghost front = wire::all_bytes(prefix@);
        if prefix.len() > self.components.len() {
            return false;
        }
        let mut i: usize = 0;
        while i < prefix.len()
            invariant
                i <= prefix@.len() <= self.components@.len(),
                front == wire::all_bytes(prefix@),
                forall|j: int| 0 <= j < i ==> #[trigger] front[j] == self@.0[j],
            decreases prefix@.len() - i,
        {
            if !wire::same_bytes(self.components[i].as_slice(), prefix[i].as_slice()) {
                proof {
                    if front.is_prefix_of(self@.0) {
                        assert(self@.0.subrange(0, front.len() as int)[i as int]
                            == front[i as int]);
                    }
                }
                return false;
            }
            i = i + 1;
        }
        assert(front =~= self@.0.subrange(0, front.len() as int));
        true
    }

    /// Whether `other` starts with this name.
    pub fn is_prefix_of(&self, other: &Name) -> (r: bool)
        ensures
            r <==> is_prefix(self@, other@),
    {
        other.starts_with(self)
    }

    /// Whether two names are the same.
    pub fn same(&self, other: &Name) -> (r: bool)
        ensures
            r <==> self@ == other@,
    {
        if self.components.len() != other.components.len() {
            return false;
        }
        if !self.starts_with(other) {
            proof {
                if self@ == other@ {
                    law_prefix_order(self@, self@, self@);
                }
            }
            return false;
        }
        assert(self@.0 =~= other@.0);
        match (&self.content_hash, &other.content_hash) {
            (None, None) => true,
            (Some(a), Some(b)) => wire::same_bytes(a.as_slice(), b.as_slice()),
            _ => false,
        }
    }

    /// A copy of the name.
    pub fn duplicate(&self) -> (n: Name)
        ensures
            n@ == self@,
    {
        proof {
            use_type_invariant(self);
        }
        let n = Name { components: copy_components(&self.components), content_hash: self.content_hash };
        assert(n@.0 =~= self@.0);
        n
    }

    /// The name on the wire.
    pub fn to_bytes(&self) -> (buf: Vec<u8>)
        ensures
            buf@ == name_bytes(self@),
    {
        let mut buf: Vec<u8> = Vec::new();
        buf.push((self.components.len() % 256) as u8);
        let ghost first = buf@;
        let mut i: usize = 0;
        proof {
            assert(self@.0.subrange(0, 0) =~= Seq::empty());
            assert(buf@ =~= first + component_bytes(self@.0.subrange(0, 0)));
        }
        while i < self.components.len()
            invariant
                i <= self.components@.len(),
                buf@ == first + component_bytes(self@.0.subrange(0, i as int)),
            decreases self.components@.len() - i,
        {
            proof {
                let now = self@.0.subrange(0, i + 1);
                assert(now.drop_last() =~= self@.0.subrange(0, i as int));
                assert(now.last() == self.components@[i as int]@);
            }
            buf.push((self.components[i].len() % 256) as u8);
            wire::push_all(&mut buf, self.components[i].as_slice());
            i = i + 1;
            assert(buf@ =~= first + component_bytes(self@.0.subrange(0, i as int)));
        }
        assert(self@.0.subrange(0, i as int) =~= self@.0);
        match &self.content_hash {
            Some(hash) => {
                buf.push(HASH_DISCRIMINATOR);
                wire::push_all(&mut buf, hash.as_slice());
            },
            None => {},
        }
        assert(buf@ =~= name_bytes(self@));
        buf
    }

    /// Reads a name. What follows it is ignored.
    pub fn from_bytes(bytes: &[u8]) -> (r: Result<Self, NameError>)
        ensures
            (match r {
                Ok(n) => parsed_name(bytes@) == Ok::<NameView, NameError>(n@),
                Err(e) => parsed_name(bytes@) == Err::<NameView, NameError>(e),
            }),
    {
        if bytes.len() == 0 {
            return Err(NameError::Empty);
        }
        let count: usize = bytes[0] as usize;
        if count == 0 || count > MAX_COMPONENTS {
            return Err(NameError::Empty);
        }
        let mut pos: usize = 1;
        let mut components: Vec<Vec<u8>> = Vec::new();
        let mut i: usize = 0;
        assert(wire::all_bytes(components@) =~= Seq::empty());
        while i < count
            invariant
                bytes@.len() == bytes.len(),
                1 <= pos <= bytes@.len(),
                i <= count,
                count == bytes@[0],
                1 <= count <= MAX_COMPONENTS,
                components_at(bytes@, 1, i as nat) == Ok::<(Seq<Seq<u8>>, int), NameError>(
                    (wire::all_bytes(components@), pos as int),
                ),
            decreases count - i,
        {
            let ghost before = components@;
            if pos >= bytes.len() {
                proof {
                    assert(components_at(bytes@, 1, (i + 1) as nat) is Err);
                    lemma_error_stays(bytes@, 1, (i + 1) as nat, count as nat);
                }
                return Err(
                    NameError::BufferTooShort {
                        expected: pos.saturating_add(1),
                        got: bytes.len(),
                    },
                );
            }
            let len: usize = bytes[pos] as usize;
            pos = pos + 1;
            if len > bytes.len() - pos {
                proof {
                    assert(components_at(bytes@, 1, (i + 1) as nat) is Err);
                    lemma_error_stays(bytes@, 1, (i + 1) as nat, count as nat);
                }
                return Err(
                    NameError::BufferTooShort {
                        expected: pos.saturating_add(len),
                        got: bytes.len(),
                    },
                );
            }
            components.push(wire::copy_range(bytes, pos, pos + len));
            pos = pos + len;
            i = i + 1;
            assert(wire::all_bytes(components@) =~= wire::all_bytes(before).push(
                components@.last()@,
            ));
        }
        proof {
            lemma_components_prefix(bytes@, 1, count as nat);
            assert(wire::all_bytes(components@)[0] == components@[0]@);
        }
        if components[0].len() != 32 {
            return Err(NameError::InvalidProducer { got: components[0].len() });
        }
        if pos < bytes.len() && bytes[pos] == HASH_DISCRIMINATOR {
            pos = pos + 1;
            if 32 > bytes.len() - pos {
                return Err(
                    NameError::BufferTooShort {
                        expected: pos.saturating_add(32),
                        got: bytes.len(),
                    },
                );
            }
            let hash: [u8; 32] = wire::read_32(bytes, pos);
            return Ok(Name { components, content_hash: Some(hash) });
        }
        Ok(Name { components, content_hash: None })
    }

    /// The name as text.
    pub fn to_string(&self) -> (out: String)
        ensures
            out@ == name_text(self@),
    {
        let mut out: String = "".to_owned();
        let mut i: usize = 0;
        proof {
            reveal_strlit("");
            assert(self@.0.subrange(0, 0) =~= Seq::empty());
            assert(out@ =~= components_text(self@.0.subrange(0, 0)));
        }
        while i < self.components.len()
            invariant
                i <= self.components@.len(),
                out@ == components_text(self@.0.subrange(0, i as int)),
            decreases self.components@.len() - i,
        {
            proof {
                let now = self@.0.subrange(0, i + 1);
                assert(now.drop_last() =~= self@.0.subrange(0, i as int));
                assert(now.last() == self.components@[i as int]@);
            }
            out.append("/");
            let comp: &[u8] = self.components[i].as_slice();
            let readable: Option<String> = if comp.len() == 32 {
                None
            } else {
                text::from_utf8(comp)
            };
            match readable {
                Some(s) => out.append(s.as_str()),
                None => out.append(hex_prefix(comp).as_str()),
            }
            i = i + 1;
        }
        assert(self@.0.subrange(0, i as int) =~= self@.0);
        match &self.content_hash {
            Some(hash) => {
                out.append("?blake3=");
                out.append(hex_prefix(hash.as_slice()).as_str());
            },
            None => {},
        }
        assert(out@ =~= name_text(self@));
        out
    }
}

/// A copy of some components.
pub fn copy_components(v: &Vec<Vec<u8>>) -> (out: Vec<Vec<u8>>)
    ensures
        wire::all_bytes(out@) == wire::all_bytes(v@),
{
    let mut out: Vec<Vec<u8>> = Vec::new();
    let mut i: usize = 0;
    while i < v.len()
        invariant
            i <= v@.len(),
            out@.len() == i,
            forall|j: int| 0 <= j < i ==> (#[trigger] out@[j])@ == v@[j]@,
        decreases v@.len() - i,
    {
        out.push(wire::copy_all(v[i].as_slice()));
        i = i + 1;
    }
    assert(wire::all_bytes(out@) =~= wire::all_bytes(v@));
    out
}

impl Clone for Name {
    fn clone(&self) -> (n: Self)
        ensures
            n@ == self@,
    {
        self.duplicate()
    }
}

impl Key for Name {
    fn same_key(&self, other: &Self) -> (r: bool) {
        self.same(other)
    }
}

/// A name is a prefix of another exactly where its components are the first ones of the
/// other.
pub proof fn law_prefix_by_components(p: NameView, n: NameView)
    ensures
        is_prefix(p, n) <==> (p.0.len() <= n.0.len() && forall|k: int|
            0 <= k < p.0.len() ==> p.0[k] == #[trigger] n.0[k]),
{
    if is_prefix(p, n) {
        assert forall|k: int| 0 <= k < p.0.len() implies p.0[k] == #[trigger] n.0[k] by {
        }
    }
}

/// A name on the wire is the number of its components, each of them with its length in
/// front, and its content hash, if it has one, behind a byte that tells it.
pub proof fn law_name_layout(cs: Seq<Seq<u8>>, c: Seq<u8>, h: Seq<u8>)
    requires
        cs.len() < 32,
        c.len() <= 255,
    ensures
        name_bytes((cs, None)) == seq![cs.len() as u8] + component_bytes(cs),
        name_bytes((cs, Some(h))) == seq![cs.len() as u8] + component_bytes(cs) + seq![0xFFu8] + h,
        component_bytes(cs.push(c)) == component_bytes(cs) + seq![c.len() as u8] + c,
        component_bytes(Seq::empty()) == Seq::<u8>::empty(),
{
    assert(cs.push(c).drop_last() =~= cs);
    assert(name_bytes((cs, None)) =~= seq![cs.len() as u8] + component_bytes(cs));
    assert(name_bytes((cs, Some(h))) =~= seq![cs.len() as u8] + component_bytes(cs) + seq![0xFFu8]
        + h);
}

/// A name begins with its producer, and then has its path; a content hash does not change
/// its components.
pub proof fn law_new_name(
    producer: [u8; 32],
    path: &[&[u8]],
    name: Name,
    hash: [u8; 32],
    hashed: Name,
    p: [u8; 32],
)
    requires
        call_ensures(Name::new, (producer, path), name),
        call_ensures(Name::with_content_hash, (name, hash), hashed),
        call_ensures(Name::producer_hash, (&name,), p),
    ensures
        name@.0.len() == path@.len() + 1,
        name@.0[0] == producer@,
        forall|i: int| 0 <= i < path@.len() ==> name@.0[i + 1] == (#[trigger] path@[i])@,
        name@.1 is None,
        hashed@.0 == name@.0,
        hashed@.1 == Some(hash@),
        p@ == producer@,
{
}

/// A name is read back from its bytes.
pub proof fn law_written_is_read(n: &Name, b: Vec<u8>, bytes: &[u8], r: Result<Name, NameError>)
    requires
        fits(n@),
        call_ensures(Name::to_bytes, (n,), b),
        bytes@ == b@,
        call_ensures(Name::from_bytes, (bytes,), r),
    ensures
        r matches Ok(m) && m@ == n@,
{
    law_name_roundtrip(n@);
}

/// One name starts with another exactly where the other is a prefix of it: where its
/// components are the first ones.
pub proof fn law_starts_with(n: &Name, p: &Name, a: bool, b: bool)
    requires
        call_ensures(Name::starts_with, (n, p), a),
        call_ensures(Name::is_prefix_of, (p, n), b),
    ensures
        a == b,
        a <==> (p@.0.len() <= n@.0.len() && forall|k: int|
            0 <= k < p@.0.len() ==> p@.0[k] == #[trigger] n@.0[k]),
{
    law_prefix_by_components(p@, n@);
}

/// What is no name is refused: nothing, no component, too many of them, and a producer that
/// does not have 32 bytes.
pub proof fn law_bad_names_are_refused(b: Seq<u8>)
    ensures
        b.len() == 0 ==> parsed_name(b) is Err,
        b.len() > 0 && (b[0] == 0 || b[0] > 32) ==> parsed_name(b) is Err,
        b.len() > 1 && 0 < b[0] <= 32 && b[1] != 32 ==> parsed_name(b) is Err,
        parsed_name(b) matches Ok(n) ==> n.0.len() == b[0] && n.0[0].len() == 32,
{
    if b.len() > 1 && 0 < b[0] <= 32 && b[1] != 32 {
        if components_at(b, 1, b[0] as nat) is Ok {
            lemma_first_component(b, 1, b[0] as nat);
        }
    }
    if parsed_name(b) is Ok {
        lemma_components_prefix(b, 1, b[0] as nat);
    }
}

/// The first component is what stands behind the first length.
proof fn lemma_first_component(b: Seq<u8>, pos: int, n: nat)
    requires
        0 <= pos < b.len(),
        n > 0,
        components_at(b, pos, n) is Ok,
    ensures
        components_at(b, pos, n)->Ok_0.0.len() == n,
        components_at(b, pos, n)->Ok_0.0[0].len() == b[pos],
    decreases n,
{
    if n > 1 {
        lemma_first_component(b, pos, (n - 1) as nat);
    } else {
        assert(components_at(b, pos, 0) == Ok::<(Seq<Seq<u8>>, int), NameError>(
            (Seq::empty(), pos),
        ));
    }
}

} // verus!
