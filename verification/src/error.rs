//! The reasons for which the ledger refuses a transaction.
use vstd::prelude::*;
use crate::address::Address;
use crate::decimal::decimal;
use crate::decimal::to_decimal;
use crate::transaction::Output;
use crate::transaction::UtxoPointer;
use crate::transaction::Witness;

verus! {

/// Why a transaction was refused.
#[derive(Clone, Copy, Debug, PartialEq, Eq)]
pub enum Error {
    /// The input is not in the set of unspent outputs: it was never there,
    /// or it has been spent.
    InputDoesNotResolve(UtxoPointer),
    /// The input occurs twice in one transaction. The output is the one the
    /// first occurrence resolved to.
    DoubleSpend(UtxoPointer, Output<Address>),
    /// The input occurs twice and resolved to two different outputs: first
    /// the input, then the earlier output, then the later one.
    InputWasAlreadySet(UtxoPointer, Output<Address>, Output<Address>),
    /// The witness does not authorise spending the output that the input
    /// resolves to.
    InvalidSignature(UtxoPointer, Output<Address>, Witness),
    /// The witness does not sign this transaction.
    InvalidTxSignature(Witness),
    /// The transaction creates or destroys value: first the sum of the
    /// inputs, then the sum of the outputs. A sum beyond `u64::MAX` is
    /// reported as `u64::MAX`.
    TransactionSumIsNonZero(u64, u64),
    /// The number of witnesses differs from the number of inputs: first the
    /// number of inputs, then the number of witnesses.
    NotEnoughSignatures(usize, usize),
    /// The output carries no value.
    ZeroOutput(Output<Address>),
}

impl Error {
    /// The text of [`Error::message`].
    pub open spec fn message_text(self) -> Seq<char> {
        match self {
            Error::InputDoesNotResolve(_) => "Input does not resolve to an UTxO"@,
            Error::DoubleSpend(_, _) => "UTxO spent twice in the same transaction"@,
            Error::InputWasAlreadySet(_, _, _) => "Input was already present in the Ledger"@,
            Error::InvalidSignature(_, _, _) => "Input is not signed properly"@,
            Error::InvalidTxSignature(_) => "Transaction was not signed"@,
            Error::TransactionSumIsNonZero(inputs, outputs) => {
                "Transaction values do not match input is "@ + decimal(inputs as nat)
                    + ", output is "@ + decimal(outputs as nat)
            },
            Error::NotEnoughSignatures(required, actual) => {
                "Transaction has not enough signatures: "@ + decimal(actual as nat) + " out of "@
                    + decimal(required as nat)
            },
            Error::ZeroOutput(_) => "Transaction output has a value of zero"@,
        }
    }

    /// A one-line description for logs and user interfaces. The variants that
    /// carry numbers show them in decimal notation.
    pub fn message(&self) -> (text: String)
        ensures
            text@ == self.message_text(),
    {
        match self {
            Error::InputDoesNotResolve(_) => String::from_str("Input does not resolve to an UTxO"),
            Error::DoubleSpend(_, _) => String::from_str(
                "UTxO spent twice in the same transaction",
            ),
            Error::InputWasAlreadySet(_, _, _) => String::from_str(
                "Input was already present in the Ledger",
            ),
            Error::InvalidSignature(_, _, _) => String::from_str("Input is not signed properly"),
            Error::InvalidTxSignature(_) => String::from_str("Transaction was not signed"),
            Error::TransactionSumIsNonZero(inputs, outputs) => {
                let mut text = String::from_str("Transaction values do not match input is ");
                text.append(to_decimal(*inputs).as_str());
                text.append(", output is ");
                text.append(to_decimal(*outputs).as_str());
                text
            },
            Error::NotEnoughSignatures(required, actual) => {
                let mut text = String::from_str("Transaction has not enough signatures: ");
                text.append(to_decimal(*actual as u64).as_str());
                text.append(" out of ");
                text.append(to_decimal(*required as u64).as_str());
                text
            },
            Error::ZeroOutput(_) => String::from_str("Transaction output has a value of zero"),
        }
    }
}

} // verus!
