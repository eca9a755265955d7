//! The destination of an output.
use vstd::prelude::*;
use vstd::std_specs::cmp::PartialEqSpecImpl;
use crate::key::PublicKey;

verus! {

/// Where value is sent: the key whose holder may spend it.
///
/// Encodings, networks and address kinds are the business of the layer that
/// parses addresses. What the ledger needs of a destination is to tell two of
/// them apart and to know which key authorises a spend.
#[derive(Clone, Copy, Debug, Eq)]
pub struct Address {
    pub key: PublicKey,
}

impl Address {
    /// The key that must sign to spend what was sent here.
    pub fn public_key(&self) -> (key: PublicKey)
        ensures
            key == self.key,
    {
        self.key
    }
}

impl PartialEq for Address {
    fn eq(&self, other: &Address) -> (r: bool) {
        self.key == other.key
    }
}

impl PartialEqSpecImpl for Address {
    open spec fn obeys_eq_spec() -> bool {
        true
    }

    open spec fn eq_spec(&self, other: &Address) -> bool {
        *self == *other
    }
}

} // verus!
