//! The values a transaction is made of.
use vstd::prelude::*;
use vstd::std_specs::cmp::PartialEqSpec;
use vstd::std_specs::cmp::PartialEqSpecImpl;
use crate::address::Address;
use crate::key::same_bytes;
use crate::key::PublicKey;

verus! {

/// The identifier of a transaction: a 256-bit hash of its contents.
#[derive(Clone, Copy, Debug, Eq, PartialOrd, Ord, Hash)]
pub struct TransactionId {
    pub bytes: [u8; 32],
}

impl PartialEq for TransactionId {
    fn eq(&self, other: &TransactionId) -> (r: bool) {
        same_bytes(&self.bytes, &other.bytes)
    }
}

impl PartialEqSpecImpl for TransactionId {
    open spec fn obeys_eq_spec() -> bool {
        true
    }

    open spec fn eq_spec(&self, other: &TransactionId) -> bool {
        *self == *other
    }
}

/// Names one output of an earlier transaction, together with the value it is
/// expected to carry. Two pointers are the same entry only if all three
/// fields agree.
#[derive(Clone, Copy, Debug, Eq, PartialOrd, Ord, Hash)]
pub struct UtxoPointer {
    /// The transaction that created the output.
    pub transaction_id: TransactionId,
    /// The position of the output in that transaction.
    pub output_index: u64,
    /// The value the output is expected to carry.
    pub value: u64,
}

impl PartialEq for UtxoPointer {
    fn eq(&self, other: &UtxoPointer) -> (r: bool) {
        self.transaction_id == other.transaction_id && self.output_index == other.output_index
            && self.value == other.value
    }
}

impl PartialEqSpecImpl for UtxoPointer {
    open spec fn obeys_eq_spec() -> bool {
        true
    }

    open spec fn eq_spec(&self, other: &UtxoPointer) -> bool {
        *self == *other
    }
}

/// A value sent to a destination.
#[derive(Copy, Debug, Eq)]
pub struct Output<A> {
    pub address: A,
    pub value: u64,
}

impl<A: Copy> Clone for Output<A> {
    fn clone(&self) -> (r: Self)
        ensures
            r == *self,
    {
        *self
    }
}

impl<A: PartialEq> PartialEq for Output<A> {
    fn eq(&self, other: &Output<A>) -> (r: bool) {
        self.address == other.address && self.value == other.value
    }
}

impl<A: PartialEq> PartialEqSpecImpl for Output<A> {
    open spec fn obeys_eq_spec() -> bool {
        A::obeys_eq_spec()
    }

    open spec fn eq_spec(&self, other: &Output<A>) -> bool {
        self.address.eq_spec(&other.address) && self.value == other.value
    }
}

/// An authorisation to spend one input: a signature, reduced to what the
/// ledger reads of it.
///
/// `key` is the public key that made the signature. `signed` is the
/// transaction whose contents the signature was found to cover, or `None`
/// where the signature could not be tied to any transaction. Checking the
/// signature bytes is the work of whoever builds this value: see
/// [`Witness::checked`].
#[derive(Clone, Copy, Debug, Eq)]
pub struct Witness {
    pub key: PublicKey,
    pub signed: Option<TransactionId>,
}

impl PartialEq for Witness {
    fn eq(&self, other: &Witness) -> (r: bool) {
        self.key == other.key && self.signed == other.signed
    }
}

impl PartialEqSpecImpl for Witness {
    open spec fn obeys_eq_spec() -> bool {
        true
    }

    open spec fn eq_spec(&self, other: &Witness) -> bool {
        *self == *other
    }
}

impl Witness {
    /// The witness signs the contents of the transaction `id`.
    pub open spec fn covers(self, id: TransactionId) -> bool {
        self.signed == Some(id)
    }

    /// The witness authorises spending `output` in the transaction `id`: it
    /// signs that transaction, and with the key that the output was sent to.
    pub open spec fn authorizes(self, output: Output<Address>, id: TransactionId) -> bool {
        self.covers(id) && self.key == output.address.key
    }

    /// The witness for a signature that was checked: `key` is the key the
    /// signature was checked under, `id` the transaction it was checked
    /// against, and `verified` tells whether it stood the check.
    pub fn checked(key: PublicKey, id: TransactionId, verified: bool) -> (witness: Witness)
        ensures
            witness.key == key,
            witness.signed == (if verified {
                Some(id)
            } else {
                None
            }),
            forall|other: TransactionId|
                #[trigger] witness.covers(other) <==> verified && other == id,
    {
        Witness {
            key,
            signed: if verified {
                Some(id)
            } else {
                None
            },
        }
    }

    /// Tells whether the witness signs the transaction `id`.
    pub fn signs(&self, id: &TransactionId) -> (r: bool)
        ensures
            r == self.covers(*id),
    {
        match self.signed {
            Some(signed) => signed == *id,
            None => false,
        }
    }

    /// Tells whether the witness authorises spending `output` in the
    /// transaction `id`.
    pub fn verifies(&self, output: &Output<Address>, id: &TransactionId) -> (r: bool)
        ensures
            r == self.authorizes(*output, *id),
    {
        self.signs(id) && self.key == output.address.public_key()
    }
}

/// A set of unspent outputs as a mathematical value: the output that each
/// pointer spends.
pub type Utxos = Map<UtxoPointer, Output<Address>>;

/// A transaction with its witnesses, as a mathematical value.
pub struct TransactionView {
    pub id: TransactionId,
    pub inputs: Seq<UtxoPointer>,
    pub outputs: Seq<Output<Address>>,
    pub witnesses: Seq<Witness>,
}

/// A transaction: the entries it spends, the outputs it creates, and one
/// witness for each entry it spends, in the order of the inputs.
///
/// `id` identifies the contents (inputs and outputs). It is computed by the
/// caller; the ledger takes it as given, keys the new entries by it and holds
/// the witnesses to it.
#[derive(Debug)]
pub struct Transaction {
    pub id: TransactionId,
    pub inputs: Vec<UtxoPointer>,
    pub outputs: Vec<Output<Address>>,
    pub witnesses: Vec<Witness>,
}

impl Clone for Transaction {
    fn clone(&self) -> (copy: Transaction)
        ensures
            copy@ == self@,
    {
        Transaction {
            id: self.id,
            inputs: self.inputs.clone(),
            outputs: self.outputs.clone(),
            witnesses: self.witnesses.clone(),
        }
    }
}

impl View for Transaction {
    type V = TransactionView;

    open spec fn view(&self) -> TransactionView {
        TransactionView {
            id: self.id,
            inputs: self.inputs@,
            outputs: self.outputs@,
            witnesses: self.witnesses@,
        }
    }
}

} // verus!
