//! Digests.
use sha3::Digest;
use vstd::prelude::*;

verus! {

/// A 32-byte digest, account address or state root.
pub type Hash32 = [u8; 32];

/// The all-zero hash: the root of the empty state and the sender of a dummy forced transaction.
pub open spec fn zero() -> Hash32 {
    vstd::array::spec_array_fill_for_copy_type(0u8)
}

/// The hash with these 32 bytes.
pub open spec fn hash_of(bytes: Seq<u8>) -> Hash32 {
    choose|h: Hash32| h@ == bytes
}

/// A hash is the one with its bytes.
pub proof fn lemma_hash_of(h: Hash32)
    ensures
        hash_of(h@) == h,
{
    assert(hash_of(h@)@ == h@);
    assert(hash_of(h@) =~= h);
}

/// Hashes with the same bytes are the same.
pub proof fn lemma_same_bytes(a: Hash32, b: Hash32)
    requires
        a@ == b@,
    ensures
        a == b,
{
    lemma_hash_of(a);
    lemma_hash_of(b);
}

/// Every 32 bytes are those of a hash.
pub proof fn lemma_hash_of_bytes(bytes: Seq<u8>)
    requires
        bytes.len() == 32,
    ensures
        hash_of(bytes)@ == bytes,
{
    let h = hash_with_prefix(bytes, 32);
    assert(h@ =~= bytes);
    assert(hash_of(bytes)@ == bytes);
}

proof fn hash_with_prefix(bytes: Seq<u8>, n: nat) -> (h: Hash32)
    requires
        n <= bytes.len() == 32,
    ensures
        forall|i: int| 0 <= i < n ==> h[i] == bytes[i],
    decreases n,
{
    if n == 0 {
        zero()
    } else {
        let below = hash_with_prefix(bytes, (n - 1) as nat);
        let h = vstd::array::spec_array_update(below, n - 1, bytes[n - 1]);
        assert(h@ == below@.update(n - 1, bytes[n - 1]));
        assert forall|i: int| 0 <= i < n implies h[i] == bytes[i] by {
            if i < n - 1 {
                assert(below[i] == bytes[i]);
            }
        }
        h
    }
}

/// The SHA3-256 digest of `data`.
pub uninterp spec fn sha3_256(data: Seq<u8>) -> [u8; 32];

/// The Keccak-256 digest of `data`.
pub uninterp spec fn keccak256(data: Seq<u8>) -> [u8; 32];

/// `sha3::Sha3_256::digest`: the SHA3-256 digest of `data`, a function of the bytes alone.
#[verifier::external_body]
pub(crate) fn sha3_256_digest(data: &[u8]) -> (digest: Hash32)
    ensures
        digest == sha3_256(data@),
{
    sha3::Sha3_256::digest(data).into()
}

/// `sha3::Keccak256::digest`: the Keccak-256 digest of `data`, a function of the bytes alone.
#[verifier::external_body]
pub(crate) fn keccak256_digest(data: &[u8]) -> (digest: Hash32)
    ensures
        digest == keccak256(data@),
{
    sha3::Keccak256::digest(data).into()
}

/// The all-zero hash.
pub fn zero_hash() -> (h: Hash32)
    ensures
        h == zero(),
{
    [0u8; 32]
}

/// Whether two hashes are the same.
pub fn same_hash(a: &Hash32, b: &Hash32) -> (same: bool)
    ensures
        same == (*a == *b),
{
    let mut i: usize = 0;
    while i < 32
        invariant
            i <= 32,
            forall|j: int| 0 <= j < i ==> a[j] == b[j],
        decreases 32 - i,
    {
        if a[i] != b[i] {
            return false;
        }
        i = i + 1;
    }
    assert(*a =~= *b);
    true
}

/// The zero hash holds zero in every byte, and no other hash does.
pub proof fn law_zero_is_all_zero(h: Hash32)
    ensures
        h == zero() <==> (forall|i: int| 0 <= i < 32 ==> #[trigger] h[i] == 0),
{
    if forall|i: int| 0 <= i < 32 ==> #[trigger] h[i] == 0 {
        assert(h@ =~= zero()@);
        lemma_same_bytes(h, zero());
    } else {
        assert(forall|i: int| 0 <= i < 32 ==> #[trigger] zero()[i] == 0);
    }
}

} // verus!
