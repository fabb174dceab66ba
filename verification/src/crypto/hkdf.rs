//! HKDF with SHA-256, in its extract and expand steps.

use crate::crypto::primitives;
use crate::wire;
use vstd::prelude::*;

verus! {

/// The salt that extraction uses: 32 zero bytes where none was given, or an empty one.
pub open spec fn effective_salt(salt: Option<Seq<u8>>) -> Seq<u8> {
    match salt {
        Some(s) if s.len() > 0 => s,
        _ => Seq::new(32, |i: int| 0u8),
    }
}

/// Block `i` of the expansion; block 0 is empty.
pub open spec fn hkdf_t(prk: Seq<u8>, context: Seq<u8>, i: nat) -> Seq<u8>
    decreases i,
{
    if i == 0 {
        Seq::empty()
    } else {
        primitives::hmac_tag(prk, hkdf_t(prk, context, (i - 1) as nat) + context + seq![i as u8])
    }
}

/// The first `n` blocks of the expansion, one after the other.
pub open spec fn hkdf_blocks(prk: Seq<u8>, context: Seq<u8>, n: nat) -> Seq<u8>
    decreases n,
{
    if n == 0 {
        Seq::empty()
    } else {
        hkdf_blocks(prk, context, (n - 1) as nat) + hkdf_t(prk, context, n)
    }
}

/// The most bytes that can be derived: block numbers go up to 255.
pub const MAX_LENGTH: usize = 8160;

/// How many blocks are produced for `length` bytes.
pub open spec fn hkdf_block_count(length: nat) -> nat {
    (length + 31) / 32
}

/// The derived key: the first `length` bytes of the blocks.
pub open spec fn hkdf_output(
    length: nat,
    ikm: Seq<u8>,
    salt: Option<Seq<u8>>,
    context: Option<Seq<u8>>,
) -> Seq<u8> {
    let prk = primitives::hmac_tag(effective_salt(salt), ikm);
    let info = match context {
        Some(c) => c,
        None => Seq::empty(),
    };
    hkdf_blocks(prk, info, hkdf_block_count(length)).subrange(0, length as int)
}

/// HKDF-SHA256 key derivation (RFC 5869).
///
/// * `length` - number of output bytes to produce, at most [`MAX_LENGTH`].
/// * `derive_from` - input keying material.
/// * `salt` - if absent or empty, 32 zero bytes are used.
/// * `context` - if absent, nothing is used.
pub fn hkdf_sha256(
    length: usize,
    derive_from: &[u8],
    salt: Option<&[u8]>,
    context: Option<&[u8]>,
) -> (okm: Vec<u8>)
    requires
        length <= MAX_LENGTH,
    ensures
        okm@ == hkdf_output(
            length as nat,
            derive_from@,
            wire::slice_view(salt),
            wire::slice_view(context),
        ),
        okm@.len() == length,
{
    let zeros: [u8; 32] = [0u8; 32];
    let empty: [u8; 0] = [];
    let salt_bytes: &[u8] = match salt {
        Some(s) => if s.len() > 0 {
            s
        } else {
            zeros.as_slice()
        },
        None => zeros.as_slice(),
    };
    assert(zeros@ =~= Seq::new(32, |i: int| 0u8));
    let info: &[u8] = match context {
        Some(c) => c,
        None => empty.as_slice(),
    };
    assert(empty@ =~= Seq::<u8>::empty());
    let prk: [u8; 32] = primitives::hmac_sha256(salt_bytes, derive_from);
    let n: usize = (length + 31) / 32;
    let mut output: Vec<u8> = Vec::new();
    let mut t_prev: Vec<u8> = Vec::new();
    let mut i: usize = 0;
    while i < n
        invariant
            i <= n < 256,
            t_prev@ == hkdf_t(prk@, info@, i as nat),
            output@ == hkdf_blocks(prk@, info@, i as nat),
            output@.len() == 32 * i,
        decreases n - i,
    {
        let mut input: Vec<u8> = Vec::new();
        wire::push_all(&mut input, t_prev.as_slice());
        wire::push_all(&mut input, info);
        i = i + 1;
        input.push(i as u8);
        assert(input@ =~= hkdf_t(prk@, info@, (i - 1) as nat) + info@ + seq![i as u8]);
        let block: [u8; 32] = primitives::hmac_sha256(prk.as_slice(), input.as_slice());
        t_prev = wire::copy_range(block.as_slice(), 0, 32);
        assert(t_prev@ =~= block@);
        wire::push_all(&mut output, block.as_slice());
    }
    output.truncate(length);
    output
}

/// The first block is the tag of the context and the number 1 under the pseudo-random key;
/// every further one is that of the block before it, the context and its own number.
pub proof fn law_blocks(prk: Seq<u8>, context: Seq<u8>, n: nat)
    ensures
        hkdf_t(prk, context, 1) == primitives::hmac_tag(prk, context + seq![1u8]),
        n > 0 ==> hkdf_t(prk, context, n + 1) == primitives::hmac_tag(
            prk,
            hkdf_t(prk, context, n) + context + seq![(n + 1) as u8],
        ),
        hkdf_blocks(prk, context, n + 1) == hkdf_blocks(prk, context, n) + hkdf_t(
            prk,
            context,
            n + 1,
        ),
{
    reveal_with_fuel(hkdf_t, 2);
    assert(Seq::<u8>::empty() + context =~= context);
}

/// No salt, an empty salt and 32 zeros are one.
pub proof fn law_missing_salt(
    length: nat,
    ikm: Seq<u8>,
    context: Option<Seq<u8>>,
    salt: Seq<u8>,
)
    ensures
        hkdf_output(length, ikm, None, context) == hkdf_output(
            length,
            ikm,
            Some(Seq::empty()),
            context,
        ),
        hkdf_output(length, ikm, None, context) == hkdf_output(
            length,
            ikm,
            Some(Seq::new(32, |i: int| 0u8)),
            context,
        ),
        salt.len() > 0 ==> effective_salt(Some(salt)) == salt,
        hkdf_output(length, ikm, Some(salt), None) == hkdf_output(
            length,
            ikm,
            Some(salt),
            Some(Seq::empty()),
        ),
{
}

/// Blocks have 32 bytes: as many are made as the length needs, and none more.
pub proof fn law_block_count(length: nat)
    ensures
        hkdf_block_count(length) * 32 >= length,
        length > 0 ==> (hkdf_block_count(length) - 1) * 32 < length,
        hkdf_block_count(0) == 0,
{
}

} // verus!
