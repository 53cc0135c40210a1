//! Asset identity derivation. An asset id is a fixed-length byte sequence
//! computed as a pure function of three explicitly passed inputs: the
//! registry's nonce, a timestamp, and the entropy a randomness beacon
//! supplied. Because nothing hidden flows in, independent evaluators replaying
//! the same call derive the same id.

use vstd::prelude::*;
use vstd::std_specs::cmp::PartialEqSpec;

verus! {

/// Every asset id has exactly this many bytes.
pub const ASSET_ID_LEN: usize = 32;

/// Byte `k mod 8` of the little-endian encoding of `x`.
pub open spec fn spec_u64_byte(x: u64, k: int) -> u8 {
    ((x >> (((k % 8) * 8) as u64)) & 0xff) as u8
}

/// Byte `i` of the id derived from `nonce`, `stamp` and `entropy`: the three
/// inputs folded together position by position, with `entropy` repeating
/// cyclically when shorter than the id.
pub open spec fn spec_id_byte(nonce: u64, stamp: u64, entropy: Seq<u8>, i: int) -> u8 {
    let e: u8 = if entropy.len() == 0 {
        0
    } else {
        entropy[i % entropy.len() as int]
    };
    spec_u64_byte(nonce, i) ^ spec_u64_byte(stamp, i) ^ e
}

/// The full id derived from `nonce`, `stamp` and `entropy`.
pub open spec fn spec_asset_id(nonce: u64, stamp: u64, entropy: Seq<u8>) -> Seq<u8> {
    Seq::new(ASSET_ID_LEN as nat, |i: int| spec_id_byte(nonce, stamp, entropy, i))
}

/// Derives the identity bytes of the next asset. Deterministic in its three
/// arguments and nothing else.
pub fn derive_asset_id(nonce: u64, stamp: u64, entropy: &[u8]) -> (id: Vec<u8>)
    ensures
        id@ == spec_asset_id(nonce, stamp, entropy@),
        id@.len() == ASSET_ID_LEN,
{
    let mut id: Vec<u8> = Vec::new();
    let mut i: usize = 0;
    while i < ASSET_ID_LEN
        invariant
            i <= ASSET_ID_LEN,
            id@.len() == i,
            forall|j: int|
                0 <= j < i ==> id@[j] == spec_id_byte(nonce, stamp, entropy@, j),
        decreases ASSET_ID_LEN - i,
    {
        let nb = u64_byte(nonce, i);
        let sb = u64_byte(stamp, i);
        let eb: u8 = if entropy.len() == 0 {
            0
        } else {
            entropy[i % entropy.len()]
        };
        assert(eb == if entropy@.len() == 0 {
            0u8
        } else {
            entropy@[i as int % entropy@.len() as int]
        });
        id.push(nb ^ sb ^ eb);
        i = i + 1;
    }
    proof {
        assert(id@ =~= spec_asset_id(nonce, stamp, entropy@));
    }
    id
}

/// Compares two ids byte for byte.
pub fn ids_equal(a: &Vec<u8>, b: &Vec<u8>) -> (r: bool)
    ensures
        r == (a@ == b@),
{
    let r = a == b;
    proof {
        if r {
            assert(a@ =~= b@);
        } else {
            if a@ == b@ {
                assert(a.eq_spec(b)) by {
                    assert(forall|i: int| 0 <= i < a@.len() ==> a@[i] == b@[i]);
                }
                assert(false);
            }
        }
    }
    r
}

/// A byte vector's deep view is its view.
pub proof fn lemma_bytes_deep_view(v: Vec<u8>)
    ensures
        v.deep_view() == v@,
{
    assert(v.deep_view() =~= v@);
}

/// Copies an id; the copy carries the same bytes.
pub fn clone_id(a: &Vec<u8>) -> (r: Vec<u8>)
    ensures
        r@ == a@,
{
    let r = a.clone();
    proof {
        assert forall|i: int| 0 <= i < a@.len() implies r@[i] == a@[i] by {
            assert(cloned::<u8>(a@[i], r@[i]));
        }
        assert(r@ =~= a@);
    }
    r
}

/// Extracts byte `k mod 8` of the little-endian encoding of `x`.
fn u64_byte(x: u64, k: usize) -> (b: u8)
    ensures
        b == spec_u64_byte(x, k as int),
{
    let shift: u64 = ((k % 8) as u64) * 8;
    let masked: u64 = (x >> shift) & 0xff;
    proof {
        assert((x >> shift) & 0xff <= 0xff) by (bit_vector);
    }
    masked as u8
}

} // verus!
