use chain_impl_mockchain::address::Address;
use chain_impl_mockchain::decimal::to_decimal;
use chain_impl_mockchain::error::Error;
use chain_impl_mockchain::key::PublicKey;
use chain_impl_mockchain::transaction::Output;
use chain_impl_mockchain::transaction::TransactionId;
use chain_impl_mockchain::transaction::UtxoPointer;
use chain_impl_mockchain::transaction::Witness;

fn pointer() -> UtxoPointer {
    UtxoPointer { transaction_id: TransactionId { bytes: [3; 32] }, output_index: 2, value: 40 }
}

fn output(value: u64) -> Output<Address> {
    Output { address: Address { key: PublicKey { bytes: [9; 32] } }, value }
}

fn witness() -> Witness {
    Witness { key: PublicKey { bytes: [9; 32] }, signed: None }
}

#[test]
fn decimal_of_single_digits() {
    assert_eq!(to_decimal(0), "0");
    assert_eq!(to_decimal(1), "1");
    assert_eq!(to_decimal(2), "2");
    assert_eq!(to_decimal(3), "3");
    assert_eq!(to_decimal(4), "4");
    assert_eq!(to_decimal(5), "5");
    assert_eq!(to_decimal(6), "6");
    assert_eq!(to_decimal(7), "7");
    assert_eq!(to_decimal(8), "8");
    assert_eq!(to_decimal(9), "9");
}

#[test]
fn decimal_of_longer_numbers() {
    assert_eq!(to_decimal(10), "10");
    assert_eq!(to_decimal(99), "99");
    assert_eq!(to_decimal(100), "100");
    assert_eq!(to_decimal(305), "305");
    assert_eq!(to_decimal(1_000_000), "1000000");
    assert_eq!(to_decimal(9_876_543_210), "9876543210");
}

#[test]
fn decimal_of_the_largest_number() {
    assert_eq!(to_decimal(u64::MAX), "18446744073709551615");
}

#[test]
fn decimal_agrees_with_the_standard_formatting() {
    let samples: [u64; 8] =
        [0, 7, 42, 1_000, 65_535, 4_294_967_296, 999_999_999_999, u64::MAX - 1];
    for n in samples {
        assert_eq!(to_decimal(n), format!("{}", n));
    }
}

#[test]
fn message_of_input_does_not_resolve() {
    assert_eq!(
        Error::InputDoesNotResolve(pointer()).message(),
        "Input does not resolve to an UTxO"
    );
}

#[test]
fn message_of_double_spend() {
    assert_eq!(
        Error::DoubleSpend(pointer(), output(40)).message(),
        "UTxO spent twice in the same transaction"
    );
}

#[test]
fn message_of_input_was_already_set() {
    assert_eq!(
        Error::InputWasAlreadySet(pointer(), output(40), output(41)).message(),
        "Input was already present in the Ledger"
    );
}

#[test]
fn message_of_invalid_signature() {
    assert_eq!(
        Error::InvalidSignature(pointer(), output(40), witness()).message(),
        "Input is not signed properly"
    );
}

#[test]
fn message_of_invalid_tx_signature() {
    assert_eq!(Error::InvalidTxSignature(witness()).message(), "Transaction was not signed");
}

#[test]
fn message_of_sum_mismatch_shows_both_sums() {
    assert_eq!(
        Error::TransactionSumIsNonZero(5, 7).message(),
        "Transaction values do not match input is 5, output is 7"
    );
    assert_eq!(
        Error::TransactionSumIsNonZero(u64::MAX, 0).message(),
        "Transaction values do not match input is 18446744073709551615, output is 0"
    );
}

#[test]
fn message_of_not_enough_signatures_shows_actual_then_required() {
    assert_eq!(
        Error::NotEnoughSignatures(3, 2).message(),
        "Transaction has not enough signatures: 2 out of 3"
    );
    assert_eq!(
        Error::NotEnoughSignatures(10, 125).message(),
        "Transaction has not enough signatures: 125 out of 10"
    );
}

#[test]
fn message_of_zero_output() {
    assert_eq!(Error::ZeroOutput(output(0)).message(), "Transaction output has a value of zero");
}

#[test]
fn messages_do_not_depend_on_the_context_they_carry() {
    let other = UtxoPointer {
        transaction_id: TransactionId { bytes: [200; 32] },
        output_index: 77,
        value: 1,
    };
    assert_eq!(
        Error::InputDoesNotResolve(pointer()).message(),
        Error::InputDoesNotResolve(other).message()
    );
    assert_eq!(Error::ZeroOutput(output(0)).message(), Error::ZeroOutput(output(12)).message());
}
