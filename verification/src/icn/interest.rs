//! Interests, which ask for named content.
//!
//! ```text
//! Interest: [name_len:varint][name][nonce:8][lifetime_ms:4][flags:1][selector]
//! Selector: [flags:1][min_sequence?:8][count?:1][hashes?:32 each]
//! ```

use crate::crypto::primitives;
use crate::icn::name;
use crate::icn::name::{Name, NameView};
use crate::icn::varint;
use crate::span;
use crate::span::TimeSpan;
use crate::wire;
use vstd::prelude::*;

verus! {

// --- Fields ---

/// The value of a flag that may be set.
pub open spec fn flag(set: bool, value: nat) -> nat {
    if set {
        value
    } else {
        0
    }
}

/// Whether a flag is set; `value` is a power of two.
pub open spec fn has_flag(flags: u8, value: u8) -> bool {
    (flags / value) % 2 == 1
}

/// A field of eight bytes that may be missing.
pub open spec fn number_bytes(n: Option<u64>) -> Seq<u8> {
    match n {
        Some(x) => wire::be(x as nat, 8),
        None => Seq::empty(),
    }
}

/// A field of some bytes that may be missing.
pub open spec fn optional_bytes(h: Option<Seq<u8>>) -> Seq<u8> {
    match h {
        Some(b) => b,
        None => Seq::empty(),
    }
}

/// The number at `pos`, where a flag says that there is one, and where it ends.
pub open spec fn number_at(b: Seq<u8>, pos: int, present: bool) -> Option<(Option<u64>, int)> {
    if !present {
        Some((None, pos))
    } else if pos + 8 > b.len() {
        None
    } else {
        Some((Some(wire::be_value(b.subrange(pos, pos + 8)) as u64), pos + 8))
    }
}

/// The hash at `pos`, where a flag says that there is one, and where it ends.
pub open spec fn digest_at(b: Seq<u8>, pos: int, present: bool) -> Option<(Option<Seq<u8>>, int)> {
    if !present {
        Some((None, pos))
    } else if pos + 32 > b.len() {
        None
    } else {
        Some((Some(b.subrange(pos, pos + 32)), pos + 32))
    }
}

/// A number that was written is read back.
pub proof fn lemma_number(before: Seq<u8>, n: Option<u64>, after: Seq<u8>)
    ensures
        number_at(before + number_bytes(n) + after, before.len() as int, n is Some) == Some(
            (n, (before.len() + number_bytes(n).len()) as int),
        ),
{
    if n is Some {
        let x = n->0 as nat;
        wire::lemma_pow256_values();
        wire::lemma_be_roundtrip(x, 8);
        let b = before + number_bytes(n) + after;
        assert(b.subrange(before.len() as int, before.len() as int + 8) =~= wire::be(x, 8));
    }
}

/// A hash that was written is read back.
pub proof fn lemma_digest(before: Seq<u8>, h: Option<Seq<u8>>, after: Seq<u8>)
    requires
        h matches Some(b) ==> b.len() == 32,
    ensures
        digest_at(before + optional_bytes(h) + after, before.len() as int, h is Some) == Some(
            (h, (before.len() + optional_bytes(h).len()) as int),
        ),
{
    if h is Some {
        let b = before + optional_bytes(h) + after;
        assert(b.subrange(before.len() as int, before.len() as int + 32) =~= h->0);
    }
}

pub(crate) fn read_number(bytes: &[u8], pos: usize, present: bool) -> (r: Option<(Option<u64>, usize)>)
    requires
        pos <= bytes@.len(),
    ensures
        (match r {
            Some((n, end)) => number_at(bytes@, pos as int, present) == Some((n, end as int))
                && pos <= end <= bytes@.len(),
            None => number_at(bytes@, pos as int, present) is None,
        }),
{
    if !present {
        return Some((None, pos));
    }
    if 8 > bytes.len() - pos {
        return None;
    }
    Some((Some(wire::read_be(bytes, pos, 8)), pos + 8))
}

pub(crate) fn read_digest(bytes: &[u8], pos: usize, present: bool) -> (r: Option<(Option<[u8; 32]>, usize)>)
    requires
        pos <= bytes@.len(),
    ensures
        (match r {
            Some((h, end)) => digest_at(bytes@, pos as int, present) == Some(
                (wire::key_view(h), end as int),
            ) && pos <= end <= bytes@.len(),
            None => digest_at(bytes@, pos as int, present) is None,
        }),
{
    if !present {
        return Some((None, pos));
    }
    if 32 > bytes.len() - pos {
        return None;
    }
    Some((Some(wire::read_32(bytes, pos)), pos + 32))
}

/// What keeps an Interest from being read.
#[derive(Debug, Clone, Copy, PartialEq, Eq)]
pub enum InterestError {
    BufferTooShort,
    InvalidName,
}

impl InterestError {
    /// The text of the error.
    pub open spec fn message(&self) -> Seq<char> {
        match *self {
            InterestError::BufferTooShort => "buffer too short"@,
            InterestError::InvalidName => "invalid name"@,
        }
    }

    /// The message that describes the error.
    pub fn to_string(&self) -> (out: String)
        ensures
            out@ == self.message(),
    {
        match self {
            InterestError::BufferTooShort => "buffer too short".to_owned(),
            InterestError::InvalidName => "invalid name".to_owned(),
        }
    }
}

/// A name behind its length.
pub open spec fn name_field(n: NameView) -> Seq<u8> {
    varint::varint(name::name_bytes(n).len()) + name::name_bytes(n)
}

/// The name that a byte string starts with, behind its length, and where it ends.
pub open spec fn name_field_at(b: Seq<u8>) -> Result<(NameView, int), InterestError> {
    match varint::varint_from(b, 0) {
        Some((len, pos)) => if pos + len > b.len() {
            Err(InterestError::BufferTooShort)
        } else {
            match name::parsed_name(b.subrange(pos, pos + len)) {
                Ok(n) => Ok((n, pos + len)),
                Err(_) => Err(InterestError::InvalidName),
            }
        },
        None => Err(InterestError::BufferTooShort),
    }
}

/// The size of components on the wire.
proof fn lemma_component_bytes_len(cs: Seq<Seq<u8>>)
    requires
        forall|i: int| 0 <= i < cs.len() ==> (#[trigger] cs[i]).len() <= 255,
    ensures
        name::component_bytes(cs).len() <= 256 * cs.len(),
    decreases cs.len(),
{
    if cs.len() > 0 {
        assert(cs.last() == cs[cs.len() - 1]);
        lemma_component_bytes_len(cs.drop_last());
    }
}

/// A name that was written is read back.
pub proof fn lemma_name_field(n: NameView, after: Seq<u8>)
    requires
        name::fits(n),
    ensures
        name_field_at(name_field(n) + after) == Ok::<(NameView, int), InterestError>(
            (n, name_field(n).len() as int),
        ),
{
    let nb = name::name_bytes(n);
    lemma_component_bytes_len(n.0);
    name::law_name_roundtrip(n);
    let b = name_field(n) + after;
    assert(b =~= varint::varint(nb.len()) + (nb + after));
    varint::law_varint_roundtrip(nb.len() as u64, nb + after);
    let pos = varint::varint(nb.len()).len() as int;
    assert(b.subrange(pos, pos + nb.len()) =~= nb);
}

pub(crate) fn write_name(buf: &mut Vec<u8>, n: &Name)
    ensures
        final(buf)@ == old(buf)@ + name_field(n@),
{
    let name_bytes: Vec<u8> = n.to_bytes();
    varint::write_varint(buf, name_bytes.len() as u64);
    wire::push_all(buf, name_bytes.as_slice());
    assert(buf@ =~= old(buf)@ + name_field(n@));
}

pub(crate) fn read_name(bytes: &[u8]) -> (r: Result<(Name, usize), InterestError>)
    ensures
        (match r {
            Ok((n, end)) => name_field_at(bytes@) == Ok::<(NameView, int), InterestError>(
                (n@, end as int),
            ) && end <= bytes@.len(),
            Err(e) => name_field_at(bytes@) == Err::<(NameView, int), InterestError>(e),
        }),
{
    match varint::read_varint(bytes) {
        Some((len, pos)) => {
            if len > (bytes.len() - pos) as u64 {
                return Err(InterestError::BufferTooShort);
            }
            let end: usize = pos + len as usize;
            let part: Vec<u8> = wire::copy_range(bytes, pos, end);
            match Name::from_bytes(part.as_slice()) {
                Ok(n) => Ok((n, end)),
                Err(_) => Err(InterestError::InvalidName),
            }
        },
        None => Err(InterestError::BufferTooShort),
    }
}

// --- Selectors ---

/// A selector over byte sequences.
pub struct SelectorView {
    pub min_sequence: Option<u64>,
    pub exclude_hashes: Seq<Seq<u8>>,
    pub must_be_fresh: bool,
}

/// Which Data may answer an Interest.
#[derive(Debug, Clone, PartialEq, Eq)]
pub struct InterestSelector {
    /// Only content with at least this sequence number.
    pub min_sequence: Option<u64>,
    /// No content with one of these hashes.
    pub exclude_hashes: Vec<[u8; 32]>,
    /// Nothing from a content store.
    pub must_be_fresh: bool,
}

/// The bytes of each hash.
pub open spec fn all_hashes(v: Seq<[u8; 32]>) -> Seq<Seq<u8>> {
    Seq::new(v.len(), |i: int| v[i]@)
}

impl View for InterestSelector {
    type V = SelectorView;

    open spec fn view(&self) -> SelectorView {
        SelectorView {
            min_sequence: self.min_sequence,
            exclude_hashes: all_hashes(self.exclude_hashes@),
            must_be_fresh: self.must_be_fresh,
        }
    }
}

impl Default for InterestSelector {
    /// A selector that lets everything through.
    fn default() -> (s: Self)
        ensures
            s.min_sequence is None,
            s.exclude_hashes@.len() == 0,
            !s.must_be_fresh,
    {
        InterestSelector { min_sequence: None, exclude_hashes: Vec::new(), must_be_fresh: false }
    }
}

/// Some hashes, one behind the other.
pub open spec fn hash_list(hs: Seq<Seq<u8>>) -> Seq<u8>
    decreases hs.len(),
{
    if hs.len() == 0 {
        Seq::empty()
    } else {
        hash_list(hs.drop_last()) + hs.last()
    }
}

/// The hashes of a selector, behind their number; nothing where there are none.
pub open spec fn exclusion_bytes(hs: Seq<Seq<u8>>) -> Seq<u8> {
    if hs.len() == 0 {
        Seq::empty()
    } else {
        seq![(hs.len() % 256) as u8] + hash_list(hs)
    }
}

/// A selector on the wire.
pub open spec fn selector_bytes(s: SelectorView) -> Seq<u8> {
    seq![
        (flag(s.min_sequence is Some, 1) + flag(s.exclude_hashes.len() > 0, 2) + flag(
            s.must_be_fresh,
            4,
        )) as u8,
    ] + number_bytes(s.min_sequence) + exclusion_bytes(s.exclude_hashes)
}

/// The hashes at `pos`, behind their number, where a flag says that there are some.
pub open spec fn exclusions_at(b: Seq<u8>, pos: int, present: bool) -> Option<Seq<Seq<u8>>> {
    if !present {
        Some(Seq::empty())
    } else if pos >= b.len() || pos + 1 + 32 * b[pos] > b.len() {
        None
    } else {
        Some(
            Seq::new(
                b[pos] as nat,
                |i: int| b.subrange(pos + 1 + 32 * i, pos + 1 + 32 * i + 32),
            ),
        )
    }
}

/// The selector that a byte string starts with.
pub open spec fn selector_at(b: Seq<u8>) -> Option<SelectorView> {
    if b.len() == 0 {
        None
    } else {
        match number_at(b, 1, has_flag(b[0], 1)) {
            Some((min_sequence, pos)) => match exclusions_at(b, pos, has_flag(b[0], 2)) {
                Some(exclude_hashes) => Some(
                    SelectorView {
                        min_sequence,
                        exclude_hashes,
                        must_be_fresh: has_flag(b[0], 4),
                    },
                ),
                None => None,
            },
            None => None,
        }
    }
}

/// Whether a selector can be written without loss: at most 255 hashes of 32 bytes.
pub open spec fn selector_fits(s: SelectorView) -> bool {
    &&& s.exclude_hashes.len() <= 255
    &&& forall|i: int|
        0 <= i < s.exclude_hashes.len() ==> (#[trigger] s.exclude_hashes[i]).len() == 32
}

/// Where each hash of a list stands.
proof fn lemma_hash_list(hs: Seq<Seq<u8>>)
    requires
        forall|i: int| 0 <= i < hs.len() ==> (#[trigger] hs[i]).len() == 32,
    ensures
        hash_list(hs).len() == 32 * hs.len(),
        forall|i: int|
            0 <= i < hs.len() ==> #[trigger] hs[i] == hash_list(hs).subrange(32 * i, 32 * i + 32),
    decreases hs.len(),
{
    if hs.len() > 0 {
        let rest = hs.drop_last();
        let n = rest.len() as int;
        assert(hs.last() == hs[n]);
        lemma_hash_list(rest);
        assert forall|i: int| 0 <= i < hs.len() implies #[trigger] hs[i] == hash_list(hs).subrange(
            32 * i,
            32 * i + 32,
        ) by {
            if i < n {
                assert(rest[i] == hs[i]);
                assert(hash_list(hs).subrange(32 * i, 32 * i + 32) =~= hash_list(rest).subrange(
                    32 * i,
                    32 * i + 32,
                ));
            } else {
                assert(hash_list(hs).subrange(32 * n, 32 * n + 32) =~= hs.last());
            }
        }
    }
}

/// A selector is read back from its bytes, whatever follows them.
pub proof fn law_selector_roundtrip(s: SelectorView, after: Seq<u8>)
    requires
        selector_fits(s),
    ensures
        selector_at(selector_bytes(s) + after) == Some(s),
{
    let hs = s.exclude_hashes;
    let b = selector_bytes(s) + after;
    let head = seq![selector_bytes(s)[0]];
    let pos = 1 + number_bytes(s.min_sequence).len() as int;
    lemma_number(head, s.min_sequence, exclusion_bytes(hs) + after);
    assert(b =~= head + number_bytes(s.min_sequence) + (exclusion_bytes(hs) + after));
    if hs.len() > 0 {
        lemma_hash_list(hs);
        assert(b[pos] == hs.len() as u8);
        let read = exclusions_at(b, pos, true)->0;
        assert forall|i: int| 0 <= i < hs.len() implies read[i] == hs[i] by {
            assert(b.subrange(pos + 1 + 32 * i, pos + 1 + 32 * i + 32) =~= hash_list(hs).subrange(
                32 * i,
                32 * i + 32,
            ));
        }
        assert(read =~= hs);
    } else {
        assert(hs =~= Seq::empty());
    }
}

pub(crate) fn write_number(buf: &mut Vec<u8>, n: Option<u64>)
    ensures
        final(buf)@ == old(buf)@ + number_bytes(n),
{
    match n {
        Some(x) => wire::push_be(buf, x, 8),
        None => {},
    }
    assert(buf@ =~= old(buf)@ + number_bytes(n));
}

impl InterestSelector {
    /// Appends the selector.
    pub fn write_to(&self, buf: &mut Vec<u8>)
        ensures
            final(buf)@ == old(buf)@ + selector_bytes(self@),
    {
        let n: usize = self.exclude_hashes.len();
        let mut flags: u8 = 0;
        if self.min_sequence.is_some() {
            flags = flags + 1;
        }
        if n > 0 {
            flags = flags + 2;
        }
        if self.must_be_fresh {
            flags = flags + 4;
        }
        buf.push(flags);
        write_number(buf, self.min_sequence);
        if n > 0 {
            buf.push((n % 256) as u8);
            let ghost before = buf@;
            let ghost hs = self@.exclude_hashes;
            let mut i: usize = 0;
            proof {
                assert(hs.subrange(0, 0) =~= Seq::empty());
                assert(before =~= before + hash_list(hs.subrange(0, 0)));
            }
            while i < n
                invariant
                    i <= n,
                    n == self.exclude_hashes@.len(),
                    hs == self@.exclude_hashes,
                    buf@ == before + hash_list(hs.subrange(0, i as int)),
                decreases n - i,
            {
                proof {
                    let now = hs.subrange(0, i + 1);
                    assert(now.drop_last() =~= hs.subrange(0, i as int));
                    assert(now.last() == self.exclude_hashes@[i as int]@);
                }
                wire::push_all(buf, self.exclude_hashes[i].as_slice());
                i = i + 1;
                assert(buf@ =~= before + hash_list(hs.subrange(0, i as int)));
            }
            assert(hs.subrange(0, i as int) =~= hs);
        }
        assert(buf@ =~= old(buf)@ + selector_bytes(self@));
    }

    /// Reads a selector. What follows it is ignored.
    pub fn read_from(bytes: &[u8]) -> (r: Result<Self, InterestError>)
        ensures
            (match r {
                Ok(s) => selector_at(bytes@) == Some(s@),
                Err(e) => selector_at(bytes@) is None && e == InterestError::BufferTooShort,
            }),
    {
        if bytes.len() == 0 {
            return Err(InterestError::BufferTooShort);
        }
        let flags: u8 = bytes[0];
        let (min_sequence, start): (Option<u64>, usize) = match read_number(
            bytes,
            1,
            flags % 2 == 1,
        ) {
            Some(f) => f,
            None => {
                return Err(InterestError::BufferTooShort);
            },
        };
        let mut exclude_hashes: Vec<[u8; 32]> = Vec::new();
        if (flags / 2) % 2 == 1 {
            if start >= bytes.len() {
                return Err(InterestError::BufferTooShort);
            }
            let count: usize = bytes[start] as usize;
            let mut pos: usize = start + 1;
            let mut i: usize = 0;
            while i < count
                invariant
                    bytes@.len() == bytes.len(),
                    start < bytes@.len(),
                    has_flag(bytes@[0], 2),
                    number_at(bytes@, 1, has_flag(bytes@[0], 1)) == Some(
                        (min_sequence, start as int),
                    ),
                    count == bytes@[start as int],
                    i <= count,
                    pos == start + 1 + 32 * i,
                    pos <= bytes@.len(),
                    exclude_hashes@.len() == i,
                    forall|j: int|
                        0 <= j < i ==> (#[trigger] exclude_hashes@[j])@ == bytes@.subrange(
                            start + 1 + 32 * j,
                            start + 1 + 32 * j + 32,
                        ),
                decreases count - i,
            {
                if 32 > bytes.len() - pos {
                    assert(32 * (i + 1) <= 32 * count);
                    return Err(InterestError::BufferTooShort);
                }
                exclude_hashes.push(wire::read_32(bytes, pos));
                pos = pos + 32;
                i = i + 1;
            }
            assert(all_hashes(exclude_hashes@) =~= exclusions_at(bytes@, start as int, true)->0);
        } else {
            assert(all_hashes(exclude_hashes@) =~= Seq::empty());
        }
        Ok(
            InterestSelector {
                min_sequence,
                exclude_hashes,
                must_be_fresh: (flags / 4) % 2 == 1,
            },
        )
    }

    /// A copy of the selector.
    pub fn duplicate(&self) -> (s: Self)
        ensures
            s@ == self@,
    {
        let mut exclude_hashes: Vec<[u8; 32]> = Vec::new();
        let mut i: usize = 0;
        while i < self.exclude_hashes.len()
            invariant
                i <= self.exclude_hashes@.len(),
                exclude_hashes@ == self.exclude_hashes@.subrange(0, i as int),
            decreases self.exclude_hashes@.len() - i,
        {
            exclude_hashes.push(self.exclude_hashes[i]);
            i = i + 1;
            assert(exclude_hashes@ =~= self.exclude_hashes@.subrange(0, i as int));
        }
        assert(exclude_hashes@ =~= self.exclude_hashes@);
        InterestSelector {
            min_sequence: self.min_sequence,
            exclude_hashes,
            must_be_fresh: self.must_be_fresh,
        }
    }
}

// --- Interests ---

/// An Interest over byte sequences.
pub struct InterestView {
    pub name: NameView,
    pub nonce: Seq<u8>,
    pub lifetime: TimeSpan,
    pub can_be_prefix: bool,
    pub selector: Option<SelectorView>,
}

/// A request for named content.
#[derive(Debug, Clone, PartialEq, Eq)]
pub struct Interest {
    pub name: Name,
    /// A random value that tells loops.
    pub nonce: [u8; 8],
    /// How long the request stays pending.
    pub lifetime: TimeSpan,
    /// Whether a name that is a prefix may answer.
    pub can_be_prefix: bool,
    pub selector: Option<InterestSelector>,
}

/// A selector that may be missing, over byte sequences.
pub open spec fn selector_view(s: Option<InterestSelector>) -> Option<SelectorView> {
    match s {
        Some(x) => Some(x@),
        None => None,
    }
}

impl View for Interest {
    type V = InterestView;

    open spec fn view(&self) -> InterestView {
        InterestView {
            name: self.name@,
            nonce: self.nonce@,
            lifetime: self.lifetime,
            can_be_prefix: self.can_be_prefix,
            selector: selector_view(self.selector),
        }
    }
}

/// The lifetime of an Interest on the wire: its milliseconds, modulo 2^32.
pub open spec fn lifetime_millis(t: TimeSpan) -> nat {
    (t.total() / 1_000_000) % 0x1_0000_0000
}

/// An Interest on the wire.
pub open spec fn interest_bytes(m: InterestView) -> Seq<u8> {
    name_field(m.name) + m.nonce + wire::be(lifetime_millis(m.lifetime), 4) + seq![
        (flag(m.can_be_prefix, 1) + flag(m.selector is Some, 2)) as u8,
    ] + (match m.selector {
        Some(s) => selector_bytes(s),
        None => Seq::empty(),
    })
}

/// The Interest that a byte string starts with.
pub open spec fn parsed_interest(b: Seq<u8>) -> Result<InterestView, InterestError> {
    match name_field_at(b) {
        Ok((n, pos)) => if pos + 13 > b.len() {
            Err(InterestError::BufferTooShort)
        } else {
            let flags = b[pos + 12];
            let selector = if has_flag(flags, 2) {
                selector_at(b.subrange(pos + 13, b.len() as int))
            } else {
                None
            };
            if has_flag(flags, 2) && selector is None {
                Err(InterestError::BufferTooShort)
            } else {
                Ok(
                    InterestView {
                        name: n,
                        nonce: b.subrange(pos, pos + 8),
                        lifetime: span::millis_span(
                            wire::be_value(b.subrange(pos + 8, pos + 12)),
                        ),
                        can_be_prefix: has_flag(flags, 1),
                        selector,
                    },
                )
            }
        },
        Err(e) => Err(e),
    }
}

/// Whether an Interest can be written without loss: its name and selector can, and its
/// lifetime is a whole number of milliseconds below 2^32.
pub open spec fn interest_fits(m: InterestView) -> bool {
    &&& name::fits(m.name)
    &&& m.nonce.len() == 8
    &&& m.lifetime == span::millis_span(lifetime_millis(m.lifetime))
    &&& (m.selector matches Some(s) ==> selector_fits(s))
}

/// An Interest is read back from its bytes.
pub proof fn law_interest_roundtrip(m: InterestView)
    requires
        interest_fits(m),
    ensures
        parsed_interest(interest_bytes(m)) == Ok::<InterestView, InterestError>(m),
{
    let b = interest_bytes(m);
    let nf = name_field(m.name);
    let ms = lifetime_millis(m.lifetime);
    let flags = (flag(m.can_be_prefix, 1) + flag(m.selector is Some, 2)) as u8;
    let tail = match m.selector {
        Some(s) => selector_bytes(s),
        None => Seq::empty(),
    };
    let pos = nf.len() as int;
    wire::lemma_pow256_values();
    wire::lemma_be_roundtrip(ms, 4);
    let rest = m.nonce + wire::be(ms, 4) + seq![flags] + tail;
    lemma_name_field(m.name, rest);
    assert(b =~= nf + rest);
    assert(b.subrange(pos, pos + 8) =~= m.nonce);
    assert(b.subrange(pos + 8, pos + 12) =~= wire::be(ms, 4));
    assert(b[pos + 12] == flags);
    match m.selector {
        Some(s) => {
            law_selector_roundtrip(s, Seq::empty());
            assert(b.subrange(pos + 13, b.len() as int) =~= selector_bytes(s) + Seq::empty());
        },
        None => {},
    }
}

impl Interest {
    /// A request for a name, with a random nonce and a lifetime of four seconds.
    pub fn new(name: Name) -> (i: Self)
        ensures
            i.name == name,
            i.lifetime == (TimeSpan { secs: 4, nanos: 0 }),
            !i.can_be_prefix,
            i.selector is None,
    {
        let random: Vec<u8> = primitives::system_random(8);
        let mut nonce: [u8; 8] = [0u8; 8];
        let mut k: usize = 0;
        while k < 8
            invariant
                k <= 8,
                random@.len() == 8,
            decreases 8 - k,
        {
            nonce[k] = random[k];
            k = k + 1;
        }
        Interest::with_nonce(name, nonce)
    }

    /// A request for a name with a given nonce, and a lifetime of four seconds.
    pub fn with_nonce(name: Name, nonce: [u8; 8]) -> (i: Self)
        ensures
            i.name == name,
            i.nonce == nonce,
            i.lifetime == (TimeSpan { secs: 4, nanos: 0 }),
            !i.can_be_prefix,
            i.selector is None,
    {
        Interest {
            name,
            nonce,
            lifetime: TimeSpan::from_secs(4),
            can_be_prefix: false,
            selector: None,
        }
    }

    /// Sets the lifetime.
    pub fn with_lifetime(self, lifetime: TimeSpan) -> (i: Self)
        ensures
            i == (Interest { lifetime, ..self }),
    {
        let mut i = self;
        i.lifetime = lifetime;
        i
    }

    /// Lets names that are a prefix answer.
    pub fn with_can_be_prefix(self) -> (i: Self)
        ensures
            i == (Interest { can_be_prefix: true, ..self }),
    {
        let mut i = self;
        i.can_be_prefix = true;
        i
    }

    /// Sets the selector.
    pub fn with_selector(self, selector: InterestSelector) -> (i: Self)
        ensures
            i == (Interest { selector: Some(selector), ..self }),
    {
        let mut i = self;
        i.selector = Some(selector);
        i
    }

    /// Asks for fresh content; the rest of the selector stays.
    pub fn with_must_be_fresh(self) -> (i: Self)
        ensures
            i.name == self.name,
            i.nonce == self.nonce,
            i.lifetime == self.lifetime,
            i.can_be_prefix == self.can_be_prefix,
            i@.selector == Some(
                (match self@.selector {
                    Some(s) => SelectorView { must_be_fresh: true, ..s },
                    None => SelectorView {
                        min_sequence: None,
                        exclude_hashes: Seq::empty(),
                        must_be_fresh: true,
                    },
                }),
            ),
    {
        let mut s: InterestSelector = match self.selector {
            Some(s) => s,
            None => InterestSelector::default(),
        };
        s.must_be_fresh = true;
        proof {
            if self.selector is None {
                assert(s@.exclude_hashes =~= Seq::empty());
            }
        }
        Interest {
            name: self.name,
            nonce: self.nonce,
            lifetime: self.lifetime,
            can_be_prefix: self.can_be_prefix,
            selector: Some(s),
        }
    }

    /// The Interest on the wire.
    pub fn to_bytes(&self) -> (buf: Vec<u8>)
        ensures
            buf@ == interest_bytes(self@),
    {
        let mut buf: Vec<u8> = Vec::new();
        write_name(&mut buf, &self.name);
        wire::push_all(&mut buf, self.nonce.as_slice());
        let ms: u64 = (self.lifetime.as_millis() % 0x1_0000_0000) as u64;
        wire::push_be(&mut buf, ms, 4);
        let mut flags: u8 = 0;
        if self.can_be_prefix {
            flags = flags + 1;
        }
        if self.selector.is_some() {
            flags = flags + 2;
        }
        buf.push(flags);
        match &self.selector {
            Some(s) => s.write_to(&mut buf),
            None => {},
        }
        assert(buf@ =~= interest_bytes(self@));
        buf
    }

    /// Reads an Interest. What follows it is ignored.
    pub fn from_bytes(bytes: &[u8]) -> (r: Result<Self, InterestError>)
        ensures
            (match r {
                Ok(i) => parsed_interest(bytes@) == Ok::<InterestView, InterestError>(i@),
                Err(e) => parsed_interest(bytes@) == Err::<InterestView, InterestError>(e),
            }),
    {
        let (name, pos): (Name, usize) = match read_name(bytes) {
            Ok(f) => f,
            Err(e) => {
                return Err(e);
            },
        };
        if 13 > bytes.len() - pos {
            return Err(InterestError::BufferTooShort);
        }
        let nonce: [u8; 8] = read_8(bytes, pos);
        let lifetime_ms: u64 = wire::read_be(bytes, pos + 8, 4);
        let flags: u8 = bytes[pos + 12];
        let selector: Option<InterestSelector> = if (flags / 2) % 2 == 1 {
            let rest: Vec<u8> = wire::copy_range(bytes, pos + 13, bytes.len());
            match InterestSelector::read_from(rest.as_slice()) {
                Ok(s) => Some(s),
                Err(e) => {
                    return Err(e);
                },
            }
        } else {
            None
        };
        Ok(
            Interest {
                name,
                nonce,
                lifetime: TimeSpan::from_millis(lifetime_ms),
                can_be_prefix: flags % 2 == 1,
                selector,
            },
        )
    }

    /// A copy of the Interest.
    pub fn duplicate(&self) -> (i: Self)
        ensures
            i@ == self@,
    {
        Interest {
            name: self.name.duplicate(),
            nonce: self.nonce,
            lifetime: self.lifetime,
            can_be_prefix: self.can_be_prefix,
            selector: (match &self.selector {
                Some(s) => Some(s.duplicate()),
                None => None,
            }),
        }
    }
}

/// Eight bytes from `pos` on.
fn read_8(s: &[u8], pos: usize) -> (out: [u8; 8])
    requires
        pos + 8 <= s.len(),
    ensures
        out@ == s@.subrange(pos as int, pos + 8),
{
    let mut out: [u8; 8] = [0u8; 8];
    let mut i: usize = 0;
    while i < 8
        invariant
            i <= 8,
            pos + 8 <= s.len(),
            s.len() == s@.len(),
            forall|j: int| 0 <= j < i ==> out@[j] == s@[pos + j],
        decreases 8 - i,
    {
        out[i] = s[pos + i];
        i = i + 1;
    }
    assert(out@ =~= s@.subrange(pos as int, pos + 8));
    out
}

/// An Interest on the wire is its name with the length in front, its nonce, its lifetime
/// in milliseconds with the most significant byte first, a byte of flags, and its selector.
pub proof fn law_interest_layout(m: InterestView)
    requires
        m.nonce.len() == 8,
    ensures
        ({
            let b = interest_bytes(m);
            let at = name_field(m.name).len() as int;
            &&& b.subrange(0, at) == varint::varint(name::name_bytes(m.name).len())
                + name::name_bytes(m.name)
            &&& b.subrange(at, at + 8) == m.nonce
            &&& wire::be_value(b.subrange(at + 8, at + 12)) == (m.lifetime.total() / 1_000_000)
                % 0x1_0000_0000
            &&& b[at + 12] == (if m.can_be_prefix {
                1int
            } else {
                0
            }) + (if m.selector is Some {
                2int
            } else {
                0
            })
            &&& (m.selector is None ==> b.len() == at + 13)
        }),
{
    let b = interest_bytes(m);
    let at = name_field(m.name).len() as int;
    let ms = lifetime_millis(m.lifetime);
    wire::lemma_be_len(ms, 4);
    wire::lemma_pow256_values();
    wire::lemma_be_roundtrip(ms, 4);
    assert(b.subrange(0, at) =~= name_field(m.name));
    assert(b.subrange(at, at + 8) =~= m.nonce);
    assert(b.subrange(at + 8, at + 12) =~= wire::be(ms, 4));
}

/// A selector on the wire is a byte of flags, the least sequence number and the number of
/// excluded hashes with the hashes, as far as it has them.
pub proof fn law_selector_layout(s: SelectorView)
    requires
        selector_fits(s),
    ensures
        ({
            let b = selector_bytes(s);
            let at = if s.min_sequence is Some {
                9int
            } else {
                1int
            };
            &&& b[0] == (if s.min_sequence is Some {
                1int
            } else {
                0
            }) + (if s.exclude_hashes.len() > 0 {
                2int
            } else {
                0
            }) + (if s.must_be_fresh {
                4int
            } else {
                0
            })
            &&& (s.min_sequence matches Some(n) ==> wire::be_value(b.subrange(1, 9)) == n)
            &&& (s.exclude_hashes.len() > 0 ==> b[at] == s.exclude_hashes.len() && forall|i: int|
                0 <= i < s.exclude_hashes.len() ==> b.subrange(at + 1 + 32 * i, at + 33 + 32 * i)
                    == #[trigger] s.exclude_hashes[i])
        }),
{
    let b = selector_bytes(s);
    lemma_hash_list(s.exclude_hashes);
    wire::lemma_pow256_values();
    if let Some(n) = s.min_sequence {
        wire::lemma_be_roundtrip(n as nat, 8);
        assert(b.subrange(1, 9) =~= wire::be(n as nat, 8));
    }
    if s.exclude_hashes.len() > 0 {
        let at = if s.min_sequence is Some {
            9int
        } else {
            1int
        };
        assert forall|i: int| 0 <= i < s.exclude_hashes.len() implies b.subrange(
            at + 1 + 32 * i,
            at + 33 + 32 * i,
        ) == #[trigger] s.exclude_hashes[i] by {
            assert(b.subrange(at + 1 + 32 * i, at + 33 + 32 * i) =~= hash_list(
                s.exclude_hashes,
            ).subrange(32 * i, 32 * i + 32));
        }
    }
}

/// An Interest is read back from its bytes.
pub proof fn law_written_is_read(
    i: &Interest,
    b: Vec<u8>,
    bytes: &[u8],
    r: Result<Interest, InterestError>,
)
    requires
        interest_fits(i@),
        call_ensures(Interest::to_bytes, (i,), b),
        bytes@ == b@,
        call_ensures(Interest::from_bytes, (bytes,), r),
    ensures
        r matches Ok(x) && x@ == i@,
{
    law_interest_roundtrip(i@);
}

/// A new Interest asks for exactly its name, for four seconds, without a selector; each
/// setting changes what it is about, and nothing else.
pub proof fn law_building_interests(
    name: Name,
    i: Interest,
    lifetime: TimeSpan,
    lasting: Interest,
    prefix: Interest,
    fresh: Interest,
)
    requires
        call_ensures(Interest::new, (name,), i),
        call_ensures(Interest::with_lifetime, (i, lifetime), lasting),
        call_ensures(Interest::with_can_be_prefix, (i,), prefix),
        call_ensures(Interest::with_must_be_fresh, (i,), fresh),
    ensures
        i@.name == name@ && !i@.can_be_prefix && i@.selector is None && i@.lifetime.total()
            == 4_000_000_000,
        lasting@.lifetime == lifetime && lasting@.name == name@ && !lasting@.can_be_prefix
            && lasting@.nonce == i@.nonce,
        prefix@.can_be_prefix && prefix@.name == name@ && prefix@.lifetime == i@.lifetime,
        fresh@.selector matches Some(s) && s.must_be_fresh && s.min_sequence is None
            && s.exclude_hashes.len() == 0,
        fresh@.name == name@ && !fresh@.can_be_prefix,
{
}

} // verus!
