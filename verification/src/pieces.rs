//! Cutting data into numbered pieces of equal size, and putting it together again.

use crate::wire;
use vstd::prelude::*;

verus! {

/// How many pieces `len` bytes make.
pub open spec fn piece_count(len: nat, size: nat) -> nat {
    if len == 0 {
        0
    } else {
        (len - 1) as nat / size + 1
    }
}

/// Where piece `i` ends, and piece `i + 1` begins.
pub open spec fn piece_end(len: nat, size: nat, i: nat) -> nat {
    if i * size < len {
        i * size
    } else {
        len
    }
}

/// Piece `i` of some data: `size` bytes, or what is left.
pub open spec fn piece(data: Seq<u8>, size: nat, i: nat) -> Seq<u8> {
    data.subrange(
        piece_end(data.len(), size, i) as int,
        piece_end(data.len(), size, i + 1) as int,
    )
}

/// The first `n` numbered pieces, one after the other.
pub open spec fn joined(pieces: Map<u32, Seq<u8>>, n: nat) -> Seq<u8>
    decreases n,
{
    if n == 0 {
        Seq::empty()
    } else {
        joined(pieces, (n - 1) as nat) + pieces[(n - 1) as u32]
    }
}

/// Whether all numbers below `n` occur.
pub open spec fn all_below(keys: Set<u32>, n: nat) -> bool {
    forall|i: u32| i < n ==> #[trigger] keys.contains(i)
}

/// Whether a list goes through the numbers below its length, in whatever order, each once.
pub open spec fn any_order(order: Seq<u32>) -> bool {
    &&& forall|i: int| 0 <= i < order.len() ==> (#[trigger] order[i]) < order.len()
    &&& forall|i: int, j: int|
        0 <= i < j < order.len() ==> (#[trigger] order[i]) != (#[trigger] order[j])
}

/// Piece ends grow with the number, within the data; the last one is the end.
pub proof fn lemma_piece_ends(len: nat, size: nat, i: nat)
    requires
        size > 0,
    ensures
        piece_end(len, size, i) <= piece_end(len, size, i + 1) <= len,
        i < piece_count(len, size) <==> piece_end(len, size, i) < len,
        i < piece_count(len, size) ==> piece_end(len, size, i) == i * size,
        i >= piece_count(len, size) ==> piece_end(len, size, i) == len,
        piece_end(len, size, i + 1) - piece_end(len, size, i) <= size,
{
    assert((i + 1) * size == i * size + size) by (nonlinear_arith);
    if len > 0 {
        let q = (len - 1) as nat / size;
        let r = (len - 1) as nat % size;
        assert(len - 1 == size * q + r && r < size) by (nonlinear_arith)
            requires
                size > 0,
                len > 0,
                q == (len - 1) as nat / size,
                r == (len - 1) as nat % size,
        ;
        if i <= q {
            assert(i * size <= size * q) by (nonlinear_arith)
                requires
                    i <= q,
            ;
        } else {
            assert(i * size >= size * q + size) by (nonlinear_arith)
                requires
                    i >= q + 1,
            ;
        }
    } else {
        assert(i * size >= 0) by (nonlinear_arith);
    }
}

/// The pieces of some data, put together in order, are the data.
pub proof fn law_pieces_rejoin(data: Seq<u8>, size: nat, pieces: Map<u32, Seq<u8>>, n: nat)
    requires
        size > 0,
        n <= 0x1_0000_0000,
        forall|i: u32| i < n ==> #[trigger] pieces[i] == piece(data, size, i as nat),
    ensures
        joined(pieces, n) == data.subrange(0, piece_end(data.len(), size, n) as int),
        n >= piece_count(data.len(), size) ==> joined(pieces, n) == data,
    decreases n,
{
    lemma_piece_ends(data.len(), size, n);
    if n == 0 {
        assert(0 * size == 0) by (nonlinear_arith);
        assert(joined(pieces, n) =~= data.subrange(0, 0));
    } else {
        let k = (n - 1) as nat;
        lemma_piece_ends(data.len(), size, k);
        law_pieces_rejoin(data, size, pieces, k);
        assert(pieces[k as u32] == piece(data, size, k));
        assert(joined(pieces, n) =~= data.subrange(0, piece_end(data.len(), size, n) as int));
    }
    if n >= piece_count(data.len(), size) {
        assert(data.subrange(0, data.len() as int) =~= data);
    }
}

/// The numbers below `n` are `n` numbers.
proof fn lemma_below(n: nat)
    requires
        n <= 0x1_0000_0000,
    ensures
        Set::<u32>::new(|i: u32| i < n).finite(),
        Set::<u32>::new(|i: u32| i < n).len() == n,
    decreases n,
{
    let s = Set::<u32>::new(|i: u32| i < n);
    if n == 0 {
        assert(s =~= Set::empty());
    } else {
        let k = (n - 1) as nat;
        lemma_below(k);
        let t = Set::<u32>::new(|i: u32| i < k);
        assert(s =~= t.insert(k as u32));
    }
}

/// There are at most `n` numbers below `n`, and `n` of them are all.
pub proof fn lemma_all_below(keys: Set<u32>, n: nat)
    requires
        keys.finite(),
        n <= 0x1_0000_0000,
        forall|i: u32| keys.contains(i) ==> i < n,
    ensures
        keys.len() <= n,
        keys.len() == n <==> all_below(keys, n),
{
    let s = Set::<u32>::new(|i: u32| i < n);
    lemma_below(n);
    assert(keys.subset_of(s));
    vstd::set_lib::lemma_len_subset(keys, s);
    if keys.len() == n {
        assert forall|i: u32| i < n implies #[trigger] keys.contains(i) by {
            if !keys.contains(i) {
                assert(keys.subset_of(s.remove(i)));
                vstd::set_lib::lemma_len_subset(keys, s.remove(i));
            }
        }
    }
    if all_below(keys, n) {
        assert(keys =~= s);
    }
}

/// A list that goes through the numbers below its length holds each of them.
pub proof fn lemma_any_order(order: Seq<u32>)
    requires
        any_order(order),
    ensures
        order.no_duplicates(),
        forall|i: u32| i < order.len() ==> #[trigger] order.contains(i),
{
    assert(order.no_duplicates());
    order.unique_seq_to_set();
    let keys = order.to_set();
    let n = order.len();
    if n > 0x1_0000_0000 {
        let all = Set::<u32>::new(|i: u32| i < 0x1_0000_0000);
        lemma_below(0x1_0000_0000);
        assert(keys.subset_of(all));
        vstd::set_lib::lemma_len_subset(keys, all);
    }
    assert forall|i: u32| keys.contains(i) implies i < n by {
        let j = order.index_of(i);
        assert(order[j] == i);
    }
    lemma_all_below(keys, n);
    assert forall|i: u32| i < n implies #[trigger] order.contains(i) by {
        assert(keys.contains(i));
    }
}

/// Cuts data into pieces of `size` bytes; the last one may be shorter.
pub fn split(data: &[u8], size: usize) -> (out: Vec<Vec<u8>>)
    requires
        size > 0,
    ensures
        wire::all_bytes(out@) == Seq::new(
            piece_count(data@.len(), size as nat),
            |i: int| piece(data@, size as nat, i as nat),
        ),
{
    let mut out: Vec<Vec<u8>> = Vec::new();
    let mut pos: usize = 0;
    let ghost n = data@.len();
    let ghost mut i: nat = 0;
    proof {
        lemma_piece_ends(n, size as nat, 0);
        assert(0 * size == 0) by (nonlinear_arith);
        assert(wire::all_bytes(out@) =~= Seq::new(0, |j: int| piece(data@, size as nat, j as nat)));
    }
    while pos < data.len()
        invariant
            size > 0,
            n == data.len(),
            pos == piece_end(n, size as nat, i),
            wire::all_bytes(out@) == Seq::new(i, |j: int| piece(data@, size as nat, j as nat)),
            i <= piece_count(n, size as nat),
        decreases n - pos,
    {
        proof {
            lemma_piece_ends(n, size as nat, i);
            lemma_piece_ends(n, size as nat, i + 1);
            assert((i + 1) * size == i * size + size) by (nonlinear_arith);
        }
        let end: usize = if data.len() - pos > size {
            pos + size
        } else {
            data.len()
        };
        let ghost before = out@;
        let chunk: Vec<u8> = wire::copy_range(data, pos, end);
        assert(chunk@ =~= piece(data@, size as nat, i));
        out.push(chunk);
        proof {
            assert(wire::all_bytes(out@) =~= wire::all_bytes(before).push(chunk@));
            i = i + 1;
            assert(wire::all_bytes(out@) =~= Seq::new(
                i,
                |j: int| piece(data@, size as nat, j as nat),
            ));
        }
        pos = end;
    }
    proof {
        lemma_piece_ends(n, size as nat, i);
    }
    out
}

/// Data is cut into pieces of the given size, in order; only the last one may be shorter,
/// and none is empty.
pub proof fn law_piece_sizes(data: Seq<u8>, size: nat, i: nat)
    requires
        size > 0,
    ensures
        i + 1 < piece_count(data.len(), size) ==> piece(data, size, i).len() == size,
        i < piece_count(data.len(), size) ==> 0 < piece(data, size, i).len() <= size,
        i >= piece_count(data.len(), size) ==> piece(data, size, i).len() == 0,
        forall|j: int|
            i < piece_count(data.len(), size) && 0 <= j < piece(data, size, i).len()
                ==> #[trigger] piece(data, size, i)[j] == data[i * size + j],
        data.len() > 0 ==> (piece_count(data.len(), size) - 1) * size < data.len()
            <= piece_count(data.len(), size) * size,
{
    lemma_piece_ends(data.len(), size, i);
    lemma_piece_ends(data.len(), size, i + 1);
    assert((i + 1) * size == i * size + size) by (nonlinear_arith);
    if data.len() > 0 {
        let n = piece_count(data.len(), size);
        let k = (n - 1) as nat;
        lemma_piece_ends(data.len(), size, k);
        lemma_piece_ends(data.len(), size, n);
        assert((k + 1) * size == k * size + size) by (nonlinear_arith);
        assert(k * size == (n - 1) * size);
    }
}

} // verus!
