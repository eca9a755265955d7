//! Public keys, and the comparison of 32-byte strings.
use vstd::prelude::*;
use vstd::std_specs::cmp::PartialEqSpecImpl;

verus! {

/// Width in bytes of a public key and of a transaction identifier.
pub const WIDTH: usize = 32;

/// Compares two 32-byte strings.
pub fn same_bytes(a: &[u8; 32], b: &[u8; 32]) -> (r: bool)
    ensures
        r == (*a == *b),
{
    let mut i: usize = 0;
    while i < WIDTH
        invariant
            i <= WIDTH,
            forall|j: int| 0 <= j < i ==> a[j] == b[j],
        decreases WIDTH - i,
    {
        if a[i] != b[i] {
            return false;
        }
        i += 1;
    }
    proof {
        assert(*a =~= *b);
    }
    true
}

/// A public key: the identity that signs a spend and that an address names.
#[derive(Clone, Copy, Debug, Eq)]
pub struct PublicKey {
    pub bytes: [u8; 32],
}

impl PartialEq for PublicKey {
    fn eq(&self, other: &PublicKey) -> (r: bool) {
        same_bytes(&self.bytes, &other.bytes)
    }
}

impl PartialEqSpecImpl for PublicKey {
    open spec fn obeys_eq_spec() -> bool {
        true
    }

    open spec fn eq_spec(&self, other: &PublicKey) -> bool {
        *self == *other
    }
}

} // verus!
