//! The key that datagrams are obfuscated with.

use vstd::prelude::*;
use vstd::std_specs::cmp::PartialEqSpecImpl;

verus! {

/// A 32-byte key for datagram obfuscation. Both peers use the same one;
/// without a key datagrams travel in the clear.
#[derive(Clone, Copy, Debug, Eq)]
pub struct ObfuscationKey {
    bytes: [u8; 32],
}

impl ObfuscationKey {
    /// The key's bytes.
    pub closed spec fn key(&self) -> [u8; 32] {
        self.bytes
    }

    /// Wraps a key.
    pub fn from_bytes(key: [u8; 32]) -> (r: Self)
        ensures
            r.key() == key,
    {
        ObfuscationKey { bytes: key }
    }

    /// The raw key bytes.
    pub fn as_bytes(&self) -> (r: &[u8; 32])
        ensures
            *r == self.key(),
    {
        &self.bytes
    }

    /// Unwraps into the raw key bytes.
    pub fn into_bytes(self) -> (r: [u8; 32])
        ensures
            r == self.key(),
    {
        self.bytes
    }
}

/// Two keys are equal where their bytes are.
impl PartialEq for ObfuscationKey {
    fn eq(&self, other: &Self) -> (r: bool) {
        let mut i: usize = 0;
        while i < 32
            invariant
                i <= 32,
                forall|j: int| 0 <= j < i ==> #[trigger] self.bytes@[j] == other.bytes@[j],
            decreases 32 - i,
        {
            if self.bytes[i] != other.bytes[i] {
                return false;
            }
            i += 1;
        }
        proof {
            assert(self.bytes =~= other.bytes);
        }
        true
    }
}

impl PartialEqSpecImpl for ObfuscationKey {
    open spec fn obeys_eq_spec() -> bool {
        true
    }

    open spec fn eq_spec(&self, other: &Self) -> bool {
        self.key() == other.key()
    }
}

/// A key is its bytes: no two keys have the same.
pub proof fn lemma_keys_are_their_bytes(a: ObfuscationKey, b: ObfuscationKey)
    ensures
        a == b <==> a.key() == b.key(),
        a == b <==> forall|i: int| 0 <= i < 32 ==> #[trigger] a.key()@[i] == b.key()@[i],
{
    if forall|i: int| 0 <= i < 32 ==> #[trigger] a.key()@[i] == b.key()@[i] {
        assert(a.key() =~= b.key());
    }
}

} // verus!
