//! Mesh-level message identifiers.
//!
//! The gossip mesh suppresses duplicate deliveries by a message identifier
//! that is a deterministic hash of the payload bytes — not of the
//! application-level `id` field. Two publications of the same bytes get the
//! same identifier; two messages that differ anywhere in their encoded
//! bytes (even only in `id`) get, in practice, different identifiers. The
//! hash is 64-bit FNV-1a over the UTF-8 bytes of the payload.

use vstd::prelude::*;

use vstd::utf8::encode_utf8;

verus! {

/// FNV-1a offset basis.
pub const FNV_OFFSET: u64 = 0xcbf29ce484222325;

/// FNV-1a prime.
pub const FNV_PRIME: u64 = 0x100000001b3;

/// One FNV-1a step: fold a byte into the state.
pub open spec fn spec_fnv64_step(h: u64, b: u8) -> u64 {
    (((h ^ (b as u64)) as nat * FNV_PRIME as nat) % 0x1_0000_0000_0000_0000nat) as u64
}

/// The FNV-1a state after folding in all bytes, left to right.
pub open spec fn spec_fnv64_from(h: u64, bytes: Seq<u8>) -> u64
    decreases bytes.len(),
{
    if bytes.len() == 0 {
        h
    } else {
        spec_fnv64_from(spec_fnv64_step(h, bytes[0]), bytes.drop_first())
    }
}

/// The mesh-level identifier of a payload: FNV-1a of its UTF-8 bytes.
pub open spec fn spec_payload_digest(payload: Seq<char>) -> u64 {
    spec_fnv64_from(FNV_OFFSET, encode_utf8(payload))
}

/// Folding one more byte steps the digest once.
proof fn lemma_fnv64_snoc(h: u64, bytes: Seq<u8>, b: u8)
    ensures
        spec_fnv64_from(h, bytes.push(b)) == spec_fnv64_step(spec_fnv64_from(h, bytes), b),
    decreases bytes.len(),
{
    if bytes.len() == 0 {
        assert(bytes.push(b).drop_first() =~= Seq::<u8>::empty());
        assert(spec_fnv64_from(h, bytes.push(b)) == spec_fnv64_from(
            spec_fnv64_step(h, b),
            Seq::<u8>::empty(),
        ));
    } else {
        assert(bytes.push(b).drop_first() =~= bytes.drop_first().push(b));
        assert(bytes.push(b)[0] == bytes[0]);
        lemma_fnv64_snoc(spec_fnv64_step(h, bytes[0]), bytes.drop_first(), b);
    }
}

/// The mesh-level identifier of a payload.
pub fn payload_digest(payload: &str) -> (r: u64)
    ensures
        r == spec_payload_digest(payload@),
{
    let bytes = payload.as_bytes();
    let n = bytes.len();
    let mut h: u64 = FNV_OFFSET;
    let mut i: usize = 0;
    while i < n
        invariant
            n == bytes@.len(),
            bytes@ == encode_utf8(payload@),
            i <= n,
            h == spec_fnv64_from(FNV_OFFSET, bytes@.subrange(0, i as int)),
        decreases n - i,
    {
        let b = bytes[i];
        proof {
            assert(bytes@.subrange(0, i + 1 as int) =~= bytes@.subrange(0, i as int).push(
                bytes@[i as int],
            ));
            lemma_fnv64_snoc(FNV_OFFSET, bytes@.subrange(0, i as int), bytes@[i as int]);
        }
        h = (h ^ (b as u64)).wrapping_mul(FNV_PRIME);
        i = i + 1;
    }
    proof {
        assert(bytes@.subrange(0, n as int) =~= bytes@);
    }
    h
}

} // verus!
