use vstd::prelude::*;

use crate::codec::{hex_digest_bytes, is_hex_digest};
use crate::keymap::bytes_eq;
use crate::state::AidEscrow;

verus! {

#[verifier::external_type_specification]
#[verifier::external_body]
pub struct ExEnv(soroban_sdk::Env);

/// The SHA-256 digest of a byte string, as the host computes it.
pub uninterp spec fn sha256_digest(data: Seq<u8>) -> Seq<u8>;

/// Calls `soroban_sdk::crypto::Crypto::sha256` (through `Env::crypto`) on a host copy
/// of `data` made with `Bytes::from_slice`, and returns the digest as an array.
/// Claimed: the digest is a function of the bytes alone, named `sha256_digest`.
/// Not claimed: anything about a host that runs out of budget, which traps.
#[verifier::external_body]
fn sha256(env: &soroban_sdk::Env, data: &[u8]) -> (digest: [u8; 32])
    ensures
        digest@ == sha256_digest(data@),
{
    let bytes = soroban_sdk::Bytes::from_slice(env, data);
    env.crypto().sha256(&bytes).to_array()
}

/// `a` orders before or equal to `b`, byte by byte, a proper prefix first.
pub open spec fn lex_le(a: Seq<u8>, b: Seq<u8>) -> bool
    decreases a.len(),
{
    if a.len() == 0 {
        true
    } else if b.len() == 0 {
        false
    } else if a[0] < b[0] {
        true
    } else if a[0] > b[0] {
        false
    } else {
        lex_le(a.drop_first(), b.drop_first())
    }
}

/// The parent of `current` and its sibling: the digest of the two, smaller first.
pub open spec fn merkle_parent(current: Seq<u8>, sibling: Seq<u8>) -> Seq<u8> {
    if lex_le(current, sibling) {
        sha256_digest(current + sibling)
    } else {
        sha256_digest(sibling + current)
    }
}

/// The node reached from `leaf` by climbing past each sibling in turn.
pub open spec fn merkle_climb(leaf: Seq<u8>, siblings: Seq<Seq<u8>>) -> Seq<u8>
    decreases siblings.len(),
{
    if siblings.len() == 0 {
        leaf
    } else {
        merkle_parent(merkle_climb(leaf, siblings.drop_last()), siblings.last())
    }
}

/// The leaf of an address: the digest of its text.
pub open spec fn address_leaf(address: Seq<u8>) -> Seq<u8> {
    sha256_digest(address)
}

/// A proof admits `claimant` under `root`: every entry is sixty-four hexadecimal
/// digits, and climbing from the claimant's leaf past the entries reaches `root`.
pub open spec fn proof_admits(claimant: Seq<u8>, proof: Seq<Seq<u8>>, root: Seq<u8>) -> bool {
    &&& forall|i: int| 0 <= i < proof.len() ==> #[trigger] is_hex_digest(proof[i])
    &&& merkle_climb(address_leaf(claimant), proof.map_values(|h: Seq<u8>| hex_digest_bytes(h)))
        == root
}

/// Equal leading bytes do not decide the order.
pub proof fn lemma_lex_le_skip(a: Seq<u8>, b: Seq<u8>, i: int)
    requires
        0 <= i <= a.len(),
        a.len() == b.len(),
        forall|j: int| 0 <= j < i ==> a[j] == b[j],
    ensures
        lex_le(a, b) == lex_le(a.skip(i), b.skip(i)),
    decreases i,
{
    if i > 0 {
        assert(a[0] == b[0]);
        lemma_lex_le_skip(a.drop_first(), b.drop_first(), i - 1);
        assert(a.drop_first().skip(i - 1) =~= a.skip(i));
        assert(b.drop_first().skip(i - 1) =~= b.skip(i));
    } else {
        assert(a.skip(0) =~= a);
        assert(b.skip(0) =~= b);
    }
}

/// Orders two digests as `<=` orders byte arrays.
fn digest_le(a: &[u8; 32], b: &[u8; 32]) -> (r: bool)
    ensures
        r == lex_le(a@, b@),
{
    let mut i: usize = 0;
    while i < 32
        invariant
            i <= 32,
            a@.len() == 32,
            b@.len() == 32,
            forall|j: int| 0 <= j < i ==> a@[j] == b@[j],
        decreases 32 - i,
    {
        if a[i] != b[i] {
            proof {
                lemma_lex_le_skip(a@, b@, i as int);
                assert(a@.skip(i as int)[0] == a@[i as int]);
                assert(b@.skip(i as int)[0] == b@[i as int]);
            }
            return a[i] < b[i];
        }
        i += 1;
    }
    proof {
        lemma_lex_le_skip(a@, b@, 32);
    }
    true
}

/// Copies a digest into a vector.
fn digest_vec(a: &[u8; 32]) -> (r: Vec<u8>)
    ensures
        r@ == a@,
{
    let mut data: Vec<u8> = Vec::new();
    let mut i: usize = 0;
    while i < 32
        invariant
            i <= 32,
            a@.len() == 32,
            data@ == a@.subrange(0, i as int),
        decreases 32 - i,
    {
        data.push(a[i]);
        i += 1;
    }
    assert(a@.subrange(0, 32) =~= a@);
    data
}

impl AidEscrow {
    /// The leaf of `address`, given as its text: its SHA-256 digest.
    pub fn hash_address(env: &soroban_sdk::Env, address: &[u8]) -> (digest: [u8; 32])
        ensures
            digest@ == address_leaf(address@),
    {
        sha256(env, address)
    }

    /// The SHA-256 digest of `left` followed by `right`.
    pub fn hash_pair(env: &soroban_sdk::Env, left: &[u8; 32], right: &[u8; 32]) -> (digest: [u8; 32])
        ensures
            digest@ == sha256_digest(left@ + right@),
    {
        let mut data = digest_vec(left);
        let mut j: usize = 0;
        while j < 32
            invariant
                j <= 32,
                right@.len() == 32,
                data@ == left@ + right@.subrange(0, j as int),
            decreases 32 - j,
        {
            data.push(right[j]);
            j += 1;
        }
        assert(right@.subrange(0, 32) =~= right@);
        sha256(env, data.as_slice())
    }

    /// Checks a Merkle proof of `claimant` against `expected_root`: each entry is a
    /// sibling digest in hexadecimal, and each step hashes the smaller digest first.
    pub fn verify_merkle_proof_for_claimant(
        env: &soroban_sdk::Env,
        claimant: &[u8],
        proof: &Vec<Vec<u8>>,
        expected_root: &[u8; 32],
    ) -> (r: bool)
        ensures
            r == proof_admits(claimant@, proof@.map_values(|h: Vec<u8>| h@), expected_root@),
    {
        let ghost hexes = proof@.map_values(|h: Vec<u8>| h@);
        let ghost leaf = address_leaf(claimant@);
        let mut current = Self::hash_address(env, claimant);
        let mut i: usize = 0;
        while i < proof.len()
            invariant
                i <= proof@.len(),
                hexes == proof@.map_values(|h: Vec<u8>| h@),
                leaf == address_leaf(claimant@),
                forall|j: int| 0 <= j < i ==> #[trigger] is_hex_digest(hexes[j]),
                current@ == merkle_climb(
                    leaf,
                    hexes.subrange(0, i as int).map_values(|h: Seq<u8>| hex_digest_bytes(h)),
                ),
            decreases proof@.len() - i,
        {
            let sibling = match Self::parse_hex_32(proof[i].as_slice()) {
                Some(s) => s,
                None => {
                    assert(!is_hex_digest(hexes[i as int]));
                    return false;
                },
            };
            let ghost before = hexes.subrange(0, i as int).map_values(|h: Seq<u8>| hex_digest_bytes(h));
            let ghost after = hexes.subrange(0, i + 1).map_values(|h: Seq<u8>| hex_digest_bytes(h));
            assert(after.drop_last() =~= before);
            assert(after.last() == sibling@);
            current = if digest_le(&current, &sibling) {
                Self::hash_pair(env, &current, &sibling)
            } else {
                Self::hash_pair(env, &sibling, &current)
            };
            i += 1;
        }
        assert(hexes.subrange(0, proof@.len() as int) =~= hexes);
        bytes_eq(&current, expected_root)
    }
}

} // verus!
