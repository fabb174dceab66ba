//! Integers of variable length: seven bits per byte, the low-order ones first; all
//! bytes but the last have the high bit set.

use vstd::prelude::*;

verus! {

/// The bytes of a number.
pub open spec fn varint(v: nat) -> Seq<u8>
    decreases v,
{
    if v < 128 {
        seq![v as u8]
    } else {
        seq![(128 + v % 128) as u8] + varint(v / 128)
    }
}

/// The number whose low-order bits stand at `i`, and where it ends. A number takes at
/// most ten bytes, and of the tenth one bit counts.
pub open spec fn varint_from(b: Seq<u8>, i: int) -> Option<(nat, int)>
    decreases 10 - i,
{
    if i >= 10 || i >= b.len() {
        None
    } else if b[i] < 128 {
        if i == 9 {
            Some(((b[i] % 2) as nat, i + 1))
        } else {
            Some((b[i] as nat, i + 1))
        }
    } else {
        match varint_from(b, i + 1) {
            Some((v, end)) => Some(((b[i] % 128) as nat + 128 * v, end)),
            None => None,
        }
    }
}

/// How many numbers can be told apart by the bytes from position `i` on.
pub open spec fn room(i: int) -> nat
    decreases 10 - i,
{
    if i >= 9 {
        2
    } else {
        128 * room(i + 1)
    }
}

/// The whole has room for 64 bits.
proof fn lemma_room(i: int)
    requires
        0 <= i <= 9,
    ensures
        2 <= room(i) <= 0x1_0000_0000_0000_0000,
        room(0) == 0x1_0000_0000_0000_0000,
{
    assert(room(9) == 2);
    assert(room(8) == 0x100);
    assert(room(7) == 0x8000);
    assert(room(6) == 0x40_0000);
    assert(room(5) == 0x2000_0000);
    assert(room(4) == 0x10_0000_0000);
    assert(room(3) == 0x800_0000_0000);
    assert(room(2) == 0x4_0000_0000_0000);
    assert(room(1) == 0x200_0000_0000_0000);
    assert(room(0) == 0x1_0000_0000_0000_0000);
}

proof fn lemma_varint_at(before: Seq<u8>, v: nat, after: Seq<u8>)
    requires
        before.len() <= 9,
        v < room(before.len() as int),
    ensures
        varint_from(before + varint(v) + after, before.len() as int) == Some(
            (v, (before.len() + varint(v).len()) as int),
        ),
    decreases v,
{
    let b = before + varint(v) + after;
    let i = before.len() as int;
    if v < 128 {
        assert(b[i] == v as u8);
    } else {
        let d = (128 + v % 128) as u8;
        assert(b[i] == d);
        assert(b =~= before.push(d) + varint(v / 128) + after);
        assert(room(i) == 128 * room(i + 1));
        lemma_varint_at(before.push(d), v / 128, after);
        assert((d % 128) as nat == v % 128);
    }
}

/// A 64-bit number is read back from its bytes, whatever follows them.
pub proof fn law_varint_roundtrip(v: u64, after: Seq<u8>)
    ensures
        varint_from(varint(v as nat) + after, 0) == Some(
            (v as nat, varint(v as nat).len() as int),
        ),
{
    lemma_room(0);
    lemma_varint_at(Seq::empty(), v as nat, after);
    assert(Seq::<u8>::empty() + varint(v as nat) + after =~= varint(v as nat) + after);
}

/// Where a number was read, it fits 64 bits and ends within the bytes.
pub proof fn lemma_varint_from(b: Seq<u8>, i: int)
    requires
        0 <= i,
    ensures
        varint_from(b, i) matches Some((v, end)) ==> i < end <= b.len() && v < room(i) && i <= 9,
    decreases 10 - i,
{
    if i < 10 && i < b.len() {
        if b[i] >= 128 {
            lemma_varint_from(b, i + 1);
        } else if i < 9 {
            lemma_room(i + 1);
        }
    }
}

/// Appends a number.
pub fn write_varint(buf: &mut Vec<u8>, value: u64)
    ensures
        final(buf)@ == old(buf)@ + varint(value as nat),
{
    let mut rest: u64 = value;
    while rest >= 0x80
        invariant
            old(buf)@ + varint(value as nat) == buf@ + varint(rest as nat),
        decreases rest,
    {
        let ghost before = buf@;
        buf.push((0x80 + rest % 0x80) as u8);
        assert(before + varint(rest as nat) =~= buf@ + varint(rest as nat / 128));
        rest = rest / 0x80;
    }
    buf.push(rest as u8);
    assert(buf@ =~= old(buf)@ + varint(value as nat));
}

fn read_varint_from(bytes: &[u8], i: usize) -> (r: Option<(u64, usize)>)
    requires
        i <= 10,
    ensures
        (match r {
            Some((v, end)) => varint_from(bytes@, i as int) == Some((v as nat, end as int)),
            None => varint_from(bytes@, i as int) is None,
        }),
    decreases 10 - i,
{
    if i >= 10 || i >= bytes.len() {
        return None;
    }
    let byte: u8 = bytes[i];
    if byte < 0x80 {
        if i == 9 {
            return Some(((byte % 2) as u64, i + 1));
        }
        return Some((byte as u64, i + 1));
    }
    match read_varint_from(bytes, i + 1) {
        Some((v, end)) => {
            proof {
                lemma_varint_from(bytes@, i as int);
                lemma_room(i as int);
            }
            Some(((byte % 0x80) as u64 + 0x80 * v, end))
        },
        None => None,
    }
}

/// Reads a number from the start of `bytes`: the number and how many bytes it took.
pub fn read_varint(bytes: &[u8]) -> (r: Option<(u64, usize)>)
    ensures
        (match r {
            Some((v, end)) => varint_from(bytes@, 0) == Some((v as nat, end as int)) && 0 < end
                <= bytes@.len(),
            None => varint_from(bytes@, 0) is None,
        }),
{
    proof {
        lemma_varint_from(bytes@, 0);
    }
    read_varint_from(bytes, 0)
}

/// A number is written seven bits at a time, the lowest first; the highest bit of a byte
/// tells that more follow.
pub proof fn law_seven_bits_at_a_time(v: nat)
    ensures
        v < 128 ==> varint(v) == seq![v as u8],
        v >= 128 ==> varint(v).len() == 1 + varint(v / 128).len() && varint(v)[0] == 128 + v % 128
            && varint(v).subrange(1, varint(v).len() as int) == varint(v / 128),
        varint(v).last() < 128,
        varint(v).len() > 0,
    decreases v,
{
    if v >= 128 {
        law_seven_bits_at_a_time(v / 128);
        assert(varint(v).subrange(1, varint(v).len() as int) =~= varint(v / 128));
        assert(varint(v).last() == varint(v / 128).last());
    }
}

} // verus!
