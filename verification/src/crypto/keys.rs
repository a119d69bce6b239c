//! Hashes and signing keys. The service never computes a hash or checks a
//! signature itself: both reach it as 32 or 64 bytes that the host vouches
//! for, and all it does with them is to compare them.

use vstd::prelude::*;

verus! {

/// Tells whether two 32-byte strings hold the same bytes.
pub fn bytes32_eq(a: &[u8; 32], b: &[u8; 32]) -> (same: bool)
    ensures
        same == (a@ == b@),
        same == (*a == *b),
{
    let mut i: usize = 0;
    while i < 32
        invariant
            i <= 32,
            forall|j: int| 0 <= j < i ==> a@[j] == b@[j],
        decreases 32 - i,
    {
        if a[i] != b[i] {
            return false;
        }
        i += 1;
    }
    assert(a@ =~= b@);
    assert(*a =~= *b);
    true
}

/// SHA-256 digest of a transaction or of a Merkelized table, as computed by
/// the host.
#[derive(Clone, Copy, Debug, Eq, Hash)]
pub struct Digest {
    /// The digest.
    pub bytes: [u8; 32],
}

impl View for Digest {
    type V = Seq<u8>;

    open spec fn view(&self) -> Seq<u8> {
        self.bytes@
    }
}

impl PartialEq for Digest {
    fn eq(&self, other: &Self) -> (same: bool) {
        bytes32_eq(&self.bytes, &other.bytes)
    }
}

impl vstd::std_specs::cmp::PartialEqSpecImpl for Digest {
    open spec fn obeys_eq_spec() -> bool {
        true
    }

    open spec fn eq_spec(&self, other: &Self) -> bool {
        *self == *other
    }
}

/// The digest of all zeros, which is the root of an empty table.
pub open spec fn zero_digest() -> Digest {
    Digest {
        bytes: [
            0u8, 0u8, 0u8, 0u8, 0u8, 0u8, 0u8, 0u8,
            0u8, 0u8, 0u8, 0u8, 0u8, 0u8, 0u8, 0u8,
            0u8, 0u8, 0u8, 0u8, 0u8, 0u8, 0u8, 0u8,
            0u8, 0u8, 0u8, 0u8, 0u8, 0u8, 0u8, 0u8,
        ],
    }
}

impl Digest {
    /// Wraps a digest.
    pub fn new(bytes: [u8; 32]) -> (digest: Digest)
        ensures
            digest.bytes == bytes,
    {
        Digest { bytes }
    }

    /// The digest of all zeros, which stands for an empty table.
    pub fn zero() -> (digest: Digest)
        ensures
            digest == zero_digest(),
            digest@ == Seq::new(32, |i: int| 0u8),
    {
        let digest = Digest { bytes: [0u8; 32] };
        assert(digest@ =~= Seq::new(32, |i: int| 0u8));
        assert(digest.bytes =~= zero_digest().bytes);
        digest
    }

    /// The bytes of the digest.
    pub fn as_bytes(&self) -> (bytes: &[u8; 32])
        ensures
            *bytes == self.bytes,
    {
        &self.bytes
    }
}

/// Ed25519 verification key: the public identity of a wallet or of a
/// validator.
#[derive(Clone, Copy, Debug, Eq, Hash)]
pub struct PublicKey {
    /// The encoded key.
    pub bytes: [u8; 32],
}

impl View for PublicKey {
    type V = Seq<u8>;

    open spec fn view(&self) -> Seq<u8> {
        self.bytes@
    }
}

impl PartialEq for PublicKey {
    fn eq(&self, other: &Self) -> (same: bool) {
        bytes32_eq(&self.bytes, &other.bytes)
    }
}

impl vstd::std_specs::cmp::PartialEqSpecImpl for PublicKey {
    open spec fn obeys_eq_spec() -> bool {
        true
    }

    open spec fn eq_spec(&self, other: &Self) -> bool {
        *self == *other
    }
}

impl PublicKey {
    /// Wraps an encoded key.
    pub fn new(bytes: [u8; 32]) -> (key: PublicKey)
        ensures
            key.bytes == bytes,
    {
        PublicKey { bytes }
    }

    /// The bytes of the encoded key.
    pub fn as_bytes(&self) -> (bytes: &[u8; 32])
        ensures
            *bytes == self.bytes,
    {
        &self.bytes
    }
}

/// Ed25519 signing key of a wallet owner. The service only keeps it for the
/// host, which signs with it.
#[derive(Clone, Copy, Debug)]
pub struct SecretKey {
    /// The encoded key.
    pub bytes: [u8; 64],
}

impl SecretKey {
    /// Wraps an encoded key.
    pub fn new(bytes: [u8; 64]) -> (key: SecretKey)
        ensures
            key.bytes == bytes,
    {
        SecretKey { bytes }
    }
}

} // verus!
