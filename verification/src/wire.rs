//! Byte-level building blocks shared by every wire format: big-endian integers,
//! slices of a buffer, and fixed-size arrays.

use vstd::prelude::*;

verus! {

/// The bytes of an optional vector.
pub open spec fn bytes_view(v: Option<Vec<u8>>) -> Option<Seq<u8>> {
    match v {
        Some(b) => Some(b@),
        None => None,
    }
}

/// The bytes of an optional slice.
pub open spec fn slice_view(v: Option<&[u8]>) -> Option<Seq<u8>> {
    match v {
        Some(b) => Some(b@),
        None => None,
    }
}

/// The bytes of an optional 32-byte key.
pub open spec fn key_view(v: Option<[u8; 32]>) -> Option<Seq<u8>> {
    match v {
        Some(b) => Some(b@),
        None => None,
    }
}

/// The bytes of a successful result.
pub open spec fn ok_bytes<E>(r: Result<Vec<u8>, E>) -> Option<Seq<u8>> {
    match r {
        Ok(b) => Some(b@),
        Err(_) => None,
    }
}

/// The bytes of each vector.
pub open spec fn all_bytes(v: Seq<Vec<u8>>) -> Seq<Seq<u8>> {
    Seq::new(v.len(), |i: int| v[i]@)
}

/// 256 to the power `n`: how many values fit in `n` bytes.
pub open spec fn pow256(n: nat) -> nat
    decreases n,
{
    if n == 0 {
        1
    } else {
        256 * pow256((n - 1) as nat)
    }
}

/// The `n` low-order bytes of `x`, most significant first.
pub open spec fn be(x: nat, n: nat) -> Seq<u8>
    decreases n,
{
    if n == 0 {
        Seq::empty()
    } else {
        be(x / 256, (n - 1) as nat).push((x % 256) as u8)
    }
}

/// The number that `s` denotes, read with its most significant byte first.
pub open spec fn be_value(s: Seq<u8>) -> nat
    decreases s.len(),
{
    if s.len() == 0 {
        0
    } else {
        be_value(s.drop_last()) * 256 + s.last() as nat
    }
}

/// The `n` low-order bytes of `x`, least significant first.
pub open spec fn le(x: nat, n: nat) -> Seq<u8>
    decreases n,
{
    if n == 0 {
        Seq::empty()
    } else {
        seq![(x % 256) as u8] + le(x / 256, (n - 1) as nat)
    }
}

/// The number that `s` denotes, read with its least significant byte first.
pub open spec fn le_value(s: Seq<u8>) -> nat
    decreases s.len(),
{
    if s.len() == 0 {
        0
    } else {
        s[0] as nat + 256 * le_value(s.subrange(1, s.len() as int))
    }
}

/// A number that fits in `n` bytes is read back from its little-endian bytes.
pub proof fn lemma_le_roundtrip(x: nat, n: nat)
    requires
        x < pow256(n),
    ensures
        le_value(le(x, n)) == x,
        le(x, n).len() == n,
    decreases n,
{
    if n > 0 {
        assert(x / 256 < pow256((n - 1) as nat)) by (nonlinear_arith)
            requires
                x < 256 * pow256((n - 1) as nat),
        ;
        lemma_le_roundtrip(x / 256, (n - 1) as nat);
        assert(le(x, n).subrange(1, n as int) =~= le(x / 256, (n - 1) as nat));
    }
}

/// `n` bytes are written for every number, the low-order ones first.
pub proof fn lemma_le_len(x: nat, n: nat)
    ensures
        le(x, n).len() == n,
    decreases n,
{
    if n > 0 {
        lemma_le_len(x / 256, (n - 1) as nat);
    }
}

/// `n` bytes are written for every number.
pub proof fn lemma_be_len(x: nat, n: nat)
    ensures
        be(x, n).len() == n,
    decreases n,
{
    if n > 0 {
        lemma_be_len(x / 256, (n - 1) as nat);
    }
}

/// A number that fits in `n` bytes is read back from the bytes it was written to.
pub proof fn lemma_be_roundtrip(x: nat, n: nat)
    requires
        x < pow256(n),
    ensures
        be_value(be(x, n)) == x,
        be(x, n).len() == n,
    decreases n,
{
    if n > 0 {
        assert(x / 256 < pow256((n - 1) as nat)) by (nonlinear_arith)
            requires
                x < 256 * pow256((n - 1) as nat),
        ;
        lemma_be_roundtrip(x / 256, (n - 1) as nat);
        assert(be(x, n).drop_last() =~= be(x / 256, (n - 1) as nat));
    }
}

/// A number read from bytes fits in as many bytes.
pub proof fn lemma_be_value_bound(s: Seq<u8>)
    ensures
        be_value(s) < pow256(s.len()),
    decreases s.len(),
{
    if s.len() > 0 {
        lemma_be_value_bound(s.drop_last());
    }
}

/// Bytes are written back from the number that was read from them.
pub proof fn lemma_be_value_roundtrip(s: Seq<u8>)
    ensures
        be(be_value(s), s.len()) == s,
    decreases s.len(),
{
    if s.len() > 0 {
        let x = be_value(s);
        let y = be_value(s.drop_last());
        lemma_be_value_roundtrip(s.drop_last());
        assert(x / 256 == y);
        assert(x % 256 == s.last() as nat);
        assert(be(x, s.len()) =~= s.drop_last().push(s.last()));
        assert(s.drop_last().push(s.last()) =~= s);
    }
}

/// The sizes of the integers that the wire formats use.
pub proof fn lemma_pow256_values()
    ensures
        pow256(1) == 0x100,
        pow256(2) == 0x1_0000,
        pow256(4) == 0x1_0000_0000,
        pow256(8) == 0x1_0000_0000_0000_0000,
{
    reveal_with_fuel(pow256, 9);
}

/// Appends the `n` low-order bytes of `x` to `buf`, most significant first.
pub fn push_be(buf: &mut Vec<u8>, x: u64, n: usize)
    ensures
        final(buf)@ == old(buf)@ + be(x as nat, n as nat),
    decreases n,
{
    if n > 0 {
        push_be(buf, x / 256, n - 1);
        buf.push((x % 256) as u8);
    }
}

/// Appends the `n` low-order bytes of `x` to `buf`, least significant first.
pub fn push_le(buf: &mut Vec<u8>, x: u64, n: usize)
    ensures
        final(buf)@ == old(buf)@ + le(x as nat, n as nat),
    decreases n,
{
    if n > 0 {
        let ghost before = buf@;
        buf.push((x % 256) as u8);
        push_le(buf, x / 256, n - 1);
        assert(buf@ =~= before + le(x as nat, n as nat));
    }
}

/// Reads the `n` bytes of `s` that start at `pos` as a big-endian number.
pub fn read_be(s: &[u8], pos: usize, n: usize) -> (x: u64)
    requires
        n <= 8,
        pos + n <= s.len(),
    ensures
        x as nat == be_value(s@.subrange(pos as int, pos + n)),
        x < pow256(n as nat),
{
    let mut x: u64 = 0;
    let mut i: usize = 0;
    while i < n
        invariant
            i <= n <= 8,
            pos + n <= s.len(),
            x as nat == be_value(s@.subrange(pos as int, pos + i)),
        decreases n - i,
    {
        proof {
            lemma_be_value_bound(s@.subrange(pos as int, pos + i));
            reveal_with_fuel(pow256, 9);
            assert(s@.subrange(pos as int, pos + i + 1).drop_last() =~= s@.subrange(
                pos as int,
                pos + i,
            ));
        }
        x = x * 256 + s[pos + i] as u64;
        i = i + 1;
    }
    proof {
        lemma_be_value_bound(s@.subrange(pos as int, pos + n));
    }
    x
}

/// The 16 bytes of `s` that start at `pos`.
pub fn read_16(s: &[u8], pos: usize) -> (out: [u8; 16])
    requires
        pos + 16 <= s.len(),
    ensures
        out@ == s@.subrange(pos as int, pos + 16),
{
    let mut out: [u8; 16] = [0u8; 16];
    let mut i: usize = 0;
    while i < 16
        invariant
            i <= 16,
            pos + 16 <= s.len(),
            forall|j: int| 0 <= j < i ==> out@[j] == s@[pos + j],
        decreases 16 - i,
    {
        out[i] = s[pos + i];
        i = i + 1;
    }
    assert(out@ =~= s@.subrange(pos as int, pos + 16));
    out
}

/// The 32 bytes of `s` that start at `pos`.
pub fn read_32(s: &[u8], pos: usize) -> (out: [u8; 32])
    requires
        pos + 32 <= s.len(),
    ensures
        out@ == s@.subrange(pos as int, pos + 32),
{
    let mut out: [u8; 32] = [0u8; 32];
    let mut i: usize = 0;
    while i < 32
        invariant
            i <= 32,
            pos + 32 <= s.len(),
            forall|j: int| 0 <= j < i ==> out@[j] == s@[pos + j],
        decreases 32 - i,
    {
        out[i] = s[pos + i];
        i = i + 1;
    }
    assert(out@ =~= s@.subrange(pos as int, pos + 32));
    out
}

/// The 64 bytes of `s` that start at `pos`.
pub fn read_64(s: &[u8], pos: usize) -> (out: [u8; 64])
    requires
        pos + 64 <= s.len(),
    ensures
        out@ == s@.subrange(pos as int, pos + 64),
{
    let mut out: [u8; 64] = [0u8; 64];
    let mut i: usize = 0;
    while i < 64
        invariant
            i <= 64,
            pos + 64 <= s.len(),
            forall|j: int| 0 <= j < i ==> out@[j] == s@[pos + j],
        decreases 64 - i,
    {
        out[i] = s[pos + i];
        i = i + 1;
    }
    assert(out@ =~= s@.subrange(pos as int, pos + 64));
    out
}

/// The bytes of `s` from `from` up to `to`, in a vector of their own.
pub fn copy_range(s: &[u8], from: usize, to: usize) -> (out: Vec<u8>)
    requires
        from <= to <= s.len(),
    ensures
        out@ == s@.subrange(from as int, to as int),
{
    let mut out: Vec<u8> = Vec::new();
    let mut i: usize = from;
    while i < to
        invariant
            from <= i <= to <= s@.len(),
            out@ == s@.subrange(from as int, i as int),
        decreases to - i,
    {
        out.push(s[i]);
        i = i + 1;
        assert(out@ =~= s@.subrange(from as int, i as int));
    }
    out
}

/// Appends all of `s` to `buf`.
pub fn push_all(buf: &mut Vec<u8>, s: &[u8])
    ensures
        final(buf)@ == old(buf)@ + s@,
{
    buf.extend_from_slice(s);
    assert(buf@ =~= old(buf)@ + s@);
}

/// A copy of `s`.
pub fn copy_all(s: &[u8]) -> (out: Vec<u8>)
    ensures
        out@ == s@,
{
    let out: Vec<u8> = copy_range(s, 0, s.len());
    assert(out@ =~= s@);
    out
}

/// Whether two byte strings are equal.
pub fn same_bytes(a: &[u8], b: &[u8]) -> (r: bool)
    ensures
        r <==> a@ == b@,
{
    if a.len() != b.len() {
        return false;
    }
    let mut i: usize = 0;
    while i < a.len()
        invariant
            i <= a@.len(),
            a@.len() == b@.len(),
            forall|j: int| 0 <= j < i ==> a@[j] == b@[j],
        decreases a@.len() - i,
    {
        if a[i] != b[i] {
            return false;
        }
        i = i + 1;
    }
    assert(a@ =~= b@);
    true
}

/// A big-endian number has its most significant bytes first: those in front count by the
/// number of bytes behind them. One byte counts as itself.
pub proof fn law_most_significant_first(a: Seq<u8>, b: Seq<u8>, x: u8)
    ensures
        be_value(seq![x]) == x,
        be_value(a + b) == be_value(a) * pow256(b.len()) + be_value(b),
    decreases b.len(),
{
    reveal_with_fuel(be_value, 2);
    assert(seq![x].drop_last() =~= Seq::<u8>::empty());
    if b.len() == 0 {
        assert(a + b =~= a);
        assert(pow256(0) == 1);
    } else {
        let c = b.drop_last();
        assert(pow256(b.len()) == 256 * pow256(c.len()));
        law_most_significant_first(a, c, x);
        assert((a + b).drop_last() =~= a + c);
        assert((a + b).last() == b.last());
        let v = be_value(a);
        let p = pow256(c.len());
        assert((v * p + be_value(c)) * 256 == v * (256 * p) + be_value(c) * 256)
            by (nonlinear_arith);
    }
}

/// A little-endian number has its least significant bytes first.
pub proof fn law_least_significant_first(a: Seq<u8>, b: Seq<u8>, x: u8)
    ensures
        le_value(seq![x]) == x,
        le_value(a + b) == le_value(a) + pow256(a.len()) * le_value(b),
    decreases a.len(),
{
    reveal_with_fuel(le_value, 2);
    assert(seq![x].subrange(1, 1) =~= Seq::<u8>::empty());
    if a.len() == 0 {
        assert(a + b =~= b);
        assert(pow256(0) == 1);
    } else {
        let c = a.subrange(1, a.len() as int);
        assert(pow256(a.len()) == 256 * pow256(c.len()));
        law_least_significant_first(c, b, x);
        assert((a + b).subrange(1, (a + b).len() as int) =~= c + b);
        let v = le_value(b);
        let p = pow256(c.len());
        assert(256 * (le_value(c) + p * v) == 256 * le_value(c) + (256 * p) * v)
            by (nonlinear_arith);
    }
}

} // verus!
