//! Applying a transaction to the set of unspent outputs.
//!
//! The checks run in a fixed order and the first that fails decides the
//! error:
//!
//! 1. the inputs, one by one: each must be unspent, and none may repeat an
//!    earlier input;
//! 2. the witnesses, by position: witness `i` must authorise spending the
//!    output that input `i` resolves to;
//! 3. every witness, also one that stands beyond the inputs, must sign this
//!    transaction;
//! 4. there must be as many witnesses as inputs;
//! 5. no output may carry the value zero;
//! 6. the values spent and the values created must have the same sum, and
//!    that sum must fit in 64 bits.
//!
//! A transaction that passes takes its inputs out of the set and puts its
//! outputs in.
use vstd::prelude::*;
use crate::address::Address;
use crate::error::Error;
use crate::search::first_where;
use crate::search::lemma_first_absent;
use crate::search::lemma_first_found;
use crate::search::lemma_take_next;
use crate::transaction::Output;
use crate::transaction::Transaction;
use crate::transaction::TransactionId;
use crate::transaction::TransactionView;
use crate::transaction::UtxoPointer;
use crate::transaction::Utxos;
use crate::transaction::Witness;
use crate::utxo::UtxoSet;
use crate::value::capped;
use crate::value::checked_total;
use crate::value::total_value;

verus! {

/// What a check returns for what it found: the error, or nothing to report.
pub open spec fn verdict(found: Option<Error>) -> Result<(), Error> {
    match found {
        Some(error) => Err(error),
        None => Ok(()),
    }
}

/// Input `i` repeats an earlier input.
pub open spec fn repeats(inputs: Seq<UtxoPointer>, i: int) -> bool {
    exists|j: int| 0 <= j < i && #[trigger] inputs[j] == inputs[i]
}

/// Input `i` cannot be spent: it is not in the set, or an earlier input has
/// taken it.
pub open spec fn unspendable(utxos: Utxos, inputs: Seq<UtxoPointer>, i: int) -> bool {
    !utxos.dom().contains(inputs[i]) || repeats(inputs, i)
}

/// Tells of each position whether the input there cannot be spent.
pub open spec fn unspendable_at(utxos: Utxos, inputs: Seq<UtxoPointer>) -> spec_fn(int) -> bool {
    |i: int| unspendable(utxos, inputs, i)
}

/// The first input that cannot be spent.
pub open spec fn first_unspendable(utxos: Utxos, inputs: Seq<UtxoPointer>) -> Option<int> {
    first_where(inputs.len() as int, unspendable_at(utxos, inputs))
}

/// The outputs that the inputs spend, in the order of the inputs.
pub open spec fn resolved(utxos: Utxos, inputs: Seq<UtxoPointer>) -> Seq<Output<Address>> {
    Seq::new(inputs.len(), |i: int| utxos[inputs[i]])
}

/// What is wrong with an input that occurs for the second time, having
/// resolved to `first` then and to `again` now.
pub open spec fn repetition(
    pointer: UtxoPointer,
    first: Output<Address>,
    again: Output<Address>,
) -> Error {
    if first == again {
        Error::DoubleSpend(pointer, first)
    } else {
        Error::InputWasAlreadySet(pointer, first, again)
    }
}

/// What is wrong with an input that cannot be spent.
pub open spec fn input_error(utxos: Utxos, pointer: UtxoPointer) -> Error {
    if utxos.dom().contains(pointer) {
        Error::DoubleSpend(pointer, utxos[pointer])
    } else {
        Error::InputDoesNotResolve(pointer)
    }
}

/// What the inputs of a transaction fail on, if on anything: the first
/// input that cannot be spent.
pub open spec fn input_check(utxos: Utxos, inputs: Seq<UtxoPointer>) -> Option<Error> {
    match first_unspendable(utxos, inputs) {
        Some(i) => Some(input_error(utxos, inputs[i])),
        None => None,
    }
}

/// Decides the error for an input that occurs for the second time: a double
/// spend where both occurrences resolved to the same output, an
/// inconsistency where they did not.
pub fn repeated_input(
    pointer: UtxoPointer,
    first: Output<Address>,
    again: Output<Address>,
) -> (error: Error)
    ensures
        error == repetition(pointer, first, again),
{
    if first == again {
        Error::DoubleSpend(pointer, first)
    } else {
        Error::InputWasAlreadySet(pointer, first, again)
    }
}

/// Finds the first of the inputs before position `i` that equals input `i`.
fn earlier_occurrence(inputs: &Vec<UtxoPointer>, i: usize) -> (found: Option<usize>)
    requires
        i < inputs.len(),
    ensures
        (match found {
            Some(j) => j < i && inputs[j as int] == inputs[i as int],
            None => !repeats(inputs@, i as int),
        }),
{
    let mut j: usize = 0;
    while j < i
        invariant
            j <= i < inputs.len(),
            forall|k: int| 0 <= k < j ==> #[trigger] inputs[k] != inputs[i as int],
        decreases i - j,
    {
        if inputs[j] == inputs[i] {
            return Some(j);
        }
        j += 1;
    }
    None
}

/// Resolves the inputs in order. Stops at the first that is not in the set
/// or that repeats an earlier one.
pub fn resolve_inputs(
    utxos: &UtxoSet,
    inputs: &Vec<UtxoPointer>,
) -> (result: Result<Vec<Output<Address>>, Error>)
    ensures
        (match result {
            Ok(spent) => {
                &&& input_check(utxos@, inputs@) is None
                &&& spent@ == resolved(utxos@, inputs@)
            },
            Err(error) => input_check(utxos@, inputs@) == Some(error),
        }),
{
    let mut spent: Vec<Output<Address>> = Vec::new();
    let mut i: usize = 0;
    while i < inputs.len()
        invariant
            i <= inputs.len(),
            spent.len() == i,
            forall|j: int| 0 <= j < i ==> !unspendable(utxos@, inputs@, j),
            forall|j: int| 0 <= j < i ==> #[trigger] spent[j] == utxos@[inputs[j]],
        decreases inputs.len() - i,
    {
        let pointer = inputs[i];
        match utxos.resolve(&pointer) {
            None => {
                proof {
                    lemma_first_found(
                        inputs.len() as int,
                        unspendable_at(utxos@, inputs@),
                        i as int,
                    );
                }
                return Err(Error::InputDoesNotResolve(pointer));
            },
            Some(output) => {
                match earlier_occurrence(inputs, i) {
                    Some(j) => {
                        proof {
                            lemma_first_found(
                                inputs.len() as int,
                                unspendable_at(utxos@, inputs@),
                                i as int,
                            );
                        }
                        return Err(repeated_input(pointer, spent[j], output));
                    },
                    None => {
                        spent.push(output);
                    },
                }
            },
        }
        i += 1;
    }
    proof {
        lemma_first_absent(inputs.len() as int, unspendable_at(utxos@, inputs@));
        assert(spent@ =~= resolved(utxos@, inputs@));
    }
    Ok(spent)
}

/// The number of inputs that have a witness at their position.
pub open spec fn paired(inputs: Seq<UtxoPointer>, witnesses: Seq<Witness>) -> int {
    if inputs.len() <= witnesses.len() {
        inputs.len() as int
    } else {
        witnesses.len() as int
    }
}

/// Tells of each position whether the witness there fails to authorise
/// spending the output there.
pub open spec fn denied_at(
    id: TransactionId,
    spent: Seq<Output<Address>>,
    witnesses: Seq<Witness>,
) -> spec_fn(int) -> bool {
    |i: int| !witnesses[i].authorizes(spent[i], id)
}

/// Tells of each position whether the witness there fails to sign the
/// transaction `id`.
pub open spec fn stray_at(id: TransactionId, witnesses: Seq<Witness>) -> spec_fn(int) -> bool {
    |i: int| !witnesses[i].covers(id)
}

/// The first position at which the witness does not authorise spending the
/// output resolved for the input. `spent` holds the resolved outputs.
pub open spec fn first_unauthorized(
    id: TransactionId,
    inputs: Seq<UtxoPointer>,
    spent: Seq<Output<Address>>,
    witnesses: Seq<Witness>,
) -> Option<int> {
    first_where(paired(inputs, witnesses), denied_at(id, spent, witnesses))
}

/// The first witness that does not sign the transaction `id`.
pub open spec fn first_stray(id: TransactionId, witnesses: Seq<Witness>) -> Option<int> {
    first_where(witnesses.len() as int, stray_at(id, witnesses))
}

/// What the witnesses of a transaction fail on, if on anything: a witness
/// that does not authorise its input, then a witness that does not sign the
/// transaction, then their number.
pub open spec fn witness_check(
    id: TransactionId,
    inputs: Seq<UtxoPointer>,
    spent: Seq<Output<Address>>,
    witnesses: Seq<Witness>,
) -> Option<Error> {
    match first_unauthorized(id, inputs, spent, witnesses) {
        Some(i) => Some(Error::InvalidSignature(inputs[i], spent[i], witnesses[i])),
        None => match first_stray(id, witnesses) {
            Some(i) => Some(Error::InvalidTxSignature(witnesses[i])),
            None => if witnesses.len() != inputs.len() {
                Some(Error::NotEnoughSignatures(inputs.len() as usize, witnesses.len() as usize))
            } else {
                None
            },
        },
    }
}

/// Holds the witnesses against the inputs and the outputs they resolved to.
fn verify_witnesses(
    id: &TransactionId,
    inputs: &Vec<UtxoPointer>,
    spent: &Vec<Output<Address>>,
    witnesses: &Vec<Witness>,
) -> (result: Result<(), Error>)
    requires
        spent.len() == inputs.len(),
    ensures
        result == verdict(witness_check(*id, inputs@, spent@, witnesses@)),
{
    let pairs = if inputs.len() <= witnesses.len() {
        inputs.len()
    } else {
        witnesses.len()
    };
    let mut i: usize = 0;
    while i < pairs
        invariant
            i <= pairs == paired(inputs@, witnesses@),
            spent.len() == inputs.len(),
            forall|j: int| 0 <= j < i ==> (#[trigger] witnesses[j]).authorizes(spent[j], *id),
        decreases pairs - i,
    {
        if !witnesses[i].verifies(&spent[i], id) {
            proof {
                lemma_first_found(pairs as int, denied_at(*id, spent@, witnesses@), i as int);
            }
            return Err(Error::InvalidSignature(inputs[i], spent[i], witnesses[i]));
        }
        i += 1;
    }
    proof {
        lemma_first_absent(pairs as int, denied_at(*id, spent@, witnesses@));
    }
    // The witnesses up to here sign the transaction, since they authorise
    // their inputs: the search for one that does not goes on from here.
    while i < witnesses.len()
        invariant
            i <= witnesses.len(),
            first_unauthorized(*id, inputs@, spent@, witnesses@) is None,
            forall|j: int| 0 <= j < i ==> (#[trigger] witnesses[j]).covers(*id),
        decreases witnesses.len() - i,
    {
        if !witnesses[i].signs(id) {
            proof {
                lemma_first_found(witnesses.len() as int, stray_at(*id, witnesses@), i as int);
            }
            return Err(Error::InvalidTxSignature(witnesses[i]));
        }
        i += 1;
    }
    proof {
        lemma_first_absent(witnesses.len() as int, stray_at(*id, witnesses@));
    }
    if witnesses.len() != inputs.len() {
        return Err(Error::NotEnoughSignatures(inputs.len(), witnesses.len()));
    }
    Ok(())
}

/// Tells of each position whether the output there carries the value zero.
pub open spec fn zero_at(outputs: Seq<Output<Address>>) -> spec_fn(int) -> bool {
    |i: int| outputs[i].value == 0
}

/// The first output that carries the value zero.
pub open spec fn first_zero(outputs: Seq<Output<Address>>) -> Option<int> {
    first_where(outputs.len() as int, zero_at(outputs))
}

/// What the outputs of a transaction fail on, if on anything: an output of
/// value zero.
pub open spec fn output_check(outputs: Seq<Output<Address>>) -> Option<Error> {
    match first_zero(outputs) {
        Some(i) => Some(Error::ZeroOutput(outputs[i])),
        None => None,
    }
}

/// Refuses the first output that carries the value zero.
pub fn check_outputs(outputs: &Vec<Output<Address>>) -> (result: Result<(), Error>)
    ensures
        result == verdict(output_check(outputs@)),
{
    let mut i: usize = 0;
    while i < outputs.len()
        invariant
            i <= outputs.len(),
            forall|j: int| 0 <= j < i ==> (#[trigger] outputs[j]).value != 0,
        decreases outputs.len() - i,
    {
        if outputs[i].value == 0 {
            proof {
                lemma_first_found(outputs.len() as int, zero_at(outputs@), i as int);
            }
            return Err(Error::ZeroOutput(outputs[i]));
        }
        i += 1;
    }
    proof {
        lemma_first_absent(outputs.len() as int, zero_at(outputs@));
    }
    Ok(())
}

/// What the values of a transaction fail on, if on anything: the outputs
/// spent and the outputs created differ in their sums, or the sums do not
/// fit in 64 bits.
pub open spec fn balance_check(
    spent: Seq<Output<Address>>,
    outputs: Seq<Output<Address>>,
) -> Option<Error> {
    if total_value(spent) == total_value(outputs) && total_value(spent) <= u64::MAX {
        None
    } else {
        Some(
            Error::TransactionSumIsNonZero(
                capped(total_value(spent)),
                capped(total_value(outputs)),
            ),
        )
    }
}

/// Refuses a transaction that creates or destroys value. `spent` holds the
/// outputs that the inputs resolved to.
pub fn check_balance(
    spent: &Vec<Output<Address>>,
    outputs: &Vec<Output<Address>>,
) -> (result: Result<(), Error>)
    ensures
        result == verdict(balance_check(spent@, outputs@)),
{
    let put_in = checked_total(spent);
    let taken_out = checked_total(outputs);
    match (put_in, taken_out) {
        (Some(a), Some(b)) => {
            if a == b {
                Ok(())
            } else {
                Err(Error::TransactionSumIsNonZero(a, b))
            }
        },
        (Some(a), None) => Err(Error::TransactionSumIsNonZero(a, u64::MAX)),
        (None, Some(b)) => Err(Error::TransactionSumIsNonZero(u64::MAX, b)),
        (None, None) => Err(Error::TransactionSumIsNonZero(u64::MAX, u64::MAX)),
    }
}

/// The pointer under which output `i` of the transaction `id` is entered.
pub open spec fn pointer_to(
    id: TransactionId,
    outputs: Seq<Output<Address>>,
    i: int,
) -> UtxoPointer {
    UtxoPointer { transaction_id: id, output_index: i as u64, value: outputs[i].value }
}

/// The entries that the transaction `id` creates: each output under the
/// pointer made of `id`, the output's position and its value.
pub open spec fn created(id: TransactionId, outputs: Seq<Output<Address>>) -> Utxos {
    Map::new(
        |p: UtxoPointer|
            p.transaction_id == id && p.output_index < outputs.len() && p.value
                == outputs[p.output_index as int].value,
        |p: UtxoPointer| outputs[p.output_index as int],
    )
}

/// What a transaction is refused for, if it is refused: the error of the
/// first check that fails.
pub open spec fn rejection(utxos: Utxos, tx: TransactionView) -> Option<Error> {
    let spent = resolved(utxos, tx.inputs);
    match input_check(utxos, tx.inputs) {
        Some(error) => Some(error),
        None => match witness_check(tx.id, tx.inputs, spent, tx.witnesses) {
            Some(error) => Some(error),
            None => match output_check(tx.outputs) {
                Some(error) => Some(error),
                None => balance_check(spent, tx.outputs),
            },
        },
    }
}

/// The set after a transaction: without the entries that its inputs name,
/// and with the entries that it creates.
pub open spec fn successor(utxos: Utxos, tx: TransactionView) -> Utxos {
    utxos.remove_keys(tx.inputs.to_set()).union_prefer_right(created(tx.id, tx.outputs))
}

/// What applying a transaction to a set gives: the error it is refused for,
/// or the set that follows.
pub open spec fn outcome(utxos: Utxos, tx: TransactionView) -> Result<Utxos, Error> {
    match rejection(utxos, tx) {
        Some(error) => Err(error),
        None => Ok(successor(utxos, tx)),
    }
}

/// Takes every entry that the inputs name out of the set.
pub fn spend(set: &mut UtxoSet, inputs: &Vec<UtxoPointer>)
    ensures
        final(set)@ == old(set)@.remove_keys(inputs@.to_set()),
{
    let mut i: usize = 0;
    assert(set@ =~= old(set)@.remove_keys(inputs@.take(0).to_set()));
    while i < inputs.len()
        invariant
            i <= inputs.len(),
            set@ == old(set)@.remove_keys(inputs@.take(i as int).to_set()),
        decreases inputs.len() - i,
    {
        set.remove(&inputs[i]);
        proof {
            lemma_take_next(inputs@, i as int);
            assert(set@ =~= old(set)@.remove_keys(inputs@.take(i + 1).to_set()));
        }
        i += 1;
    }
    proof {
        assert(inputs@.take(i as int) =~= inputs@);
    }
}

/// Enters every output of the transaction `id` into the set, under the
/// pointer made of `id`, the output's position and its value. An entry that
/// was there under such a pointer is replaced.
pub fn enter(set: &mut UtxoSet, id: &TransactionId, outputs: &Vec<Output<Address>>)
    ensures
        final(set)@ == old(set)@.union_prefer_right(created(*id, outputs@)),
{
    let mut i: usize = 0;
    assert(set@ =~= old(set)@.union_prefer_right(created(*id, outputs@.take(0))));
    while i < outputs.len()
        invariant
            i <= outputs.len(),
            set@ == old(set)@.union_prefer_right(created(*id, outputs@.take(i as int))),
        decreases outputs.len() - i,
    {
        let output = outputs[i];
        let pointer = UtxoPointer {
            transaction_id: *id,
            output_index: i as u64,
            value: output.value,
        };
        set.insert(pointer, output);
        proof {
            assert(created(*id, outputs@.take(i + 1)) =~= created(
                *id,
                outputs@.take(i as int),
            ).insert(pointer, output));
        }
        i += 1;
    }
    proof {
        assert(outputs@.take(i as int) =~= outputs@);
    }
}

/// Decides whether a set of unspent outputs accepts a transaction. Returns
/// the error of the first check that the transaction fails.
pub fn validate(utxos: &UtxoSet, tx: &Transaction) -> (result: Result<(), Error>)
    ensures
        result == verdict(rejection(utxos@, tx@)),
        result is Ok ==> total_value(resolved(utxos@, tx@.inputs)) == total_value(tx@.outputs),
{
    let spent = match resolve_inputs(utxos, &tx.inputs) {
        Ok(spent) => spent,
        Err(error) => {
            return Err(error);
        },
    };
    match verify_witnesses(&tx.id, &tx.inputs, &spent, &tx.witnesses) {
        Ok(()) => {},
        Err(error) => {
            return Err(error);
        },
    }
    match check_outputs(&tx.outputs) {
        Ok(()) => {},
        Err(error) => {
            return Err(error);
        },
    }
    check_balance(&spent, &tx.outputs)
}

/// Applies a transaction to a set of unspent outputs.
///
/// Returns the set that follows, or the error of the first check that the
/// transaction fails. The set handed in is left as it is.
pub fn apply(utxos: &UtxoSet, tx: &Transaction) -> (result: Result<UtxoSet, Error>)
    ensures
        (match result {
            Ok(next) => outcome(utxos@, tx@) == Ok::<Utxos, Error>(next@),
            Err(error) => outcome(utxos@, tx@) == Err::<Utxos, Error>(error),
        }),
        result is Ok ==> total_value(resolved(utxos@, tx@.inputs)) == total_value(tx@.outputs),
{
    match validate(utxos, tx) {
        Ok(()) => {},
        Err(error) => {
            return Err(error);
        },
    }
    let mut next = utxos.clone();
    spend(&mut next, &tx.inputs);
    enter(&mut next, &tx.id, &tx.outputs);
    Ok(next)
}

/// Applies a transaction to a set of unspent outputs in place.
///
/// Nothing is taken out or put in before every check has passed: a
/// transaction that is refused leaves the set as it was.
pub fn apply_in_place(utxos: &mut UtxoSet, tx: &Transaction) -> (result: Result<(), Error>)
    ensures
        (match result {
            Ok(()) => outcome(old(utxos)@, tx@) == Ok::<Utxos, Error>(final(utxos)@),
            Err(error) => outcome(old(utxos)@, tx@) == Err::<Utxos, Error>(error),
        }),
        result is Err ==> final(utxos)@ == old(utxos)@,
        result is Ok ==> total_value(resolved(old(utxos)@, tx@.inputs)) == total_value(
            tx@.outputs,
        ),
{
    match validate(utxos, tx) {
        Ok(()) => {},
        Err(error) => {
            return Err(error);
        },
    }
    spend(utxos, &tx.inputs);
    enter(utxos, &tx.id, &tx.outputs);
    Ok(())
}

} // verus!
