//! What holds of every transaction and every set of unspent outputs.
use vstd::prelude::*;
use crate::address::Address;
use crate::error::Error;
use crate::ledger::created;
use crate::ledger::denied_at;
use crate::ledger::first_unspendable;
use crate::ledger::first_zero;
use crate::ledger::outcome;
use crate::ledger::paired;
use crate::ledger::pointer_to;
use crate::ledger::repeats;
use crate::ledger::resolved;
use crate::ledger::stray_at;
use crate::ledger::unspendable_at;
use crate::ledger::witness_check;
use crate::ledger::zero_at;
use crate::search::lemma_first_absent;
use crate::search::lemma_first_exists;
use crate::search::lemma_first_where;
use crate::search::lemma_take_next;
use crate::transaction::Output;
use crate::transaction::TransactionId;
use crate::transaction::TransactionView;
use crate::transaction::UtxoPointer;
use crate::transaction::Utxos;
use crate::value::held;
use crate::value::lemma_held_after_insert;
use crate::value::lemma_held_after_remove;
use crate::value::total_value;

verus! {

/// What makes a transaction acceptable to a set of unspent outputs.
pub open spec fn acceptable(utxos: Utxos, tx: TransactionView) -> bool {
    &&& forall|i: int| 0 <= i < tx.inputs.len() ==> utxos.dom().contains(#[trigger] tx.inputs[i])
    &&& forall|i: int, j: int|
        0 <= i < j < tx.inputs.len() ==> #[trigger] tx.inputs[i] != #[trigger] tx.inputs[j]
    &&& tx.witnesses.len() == tx.inputs.len()
    &&& forall|i: int|
        0 <= i < tx.inputs.len() ==> (#[trigger] tx.witnesses[i]).authorizes(
            utxos[tx.inputs[i]],
            tx.id,
        )
    &&& forall|i: int| 0 <= i < tx.outputs.len() ==> (#[trigger] tx.outputs[i]).value > 0
    &&& total_value(resolved(utxos, tx.inputs)) == total_value(tx.outputs)
    &&& total_value(tx.outputs) <= u64::MAX
}

/// A transaction is accepted exactly when every input is unspent, no input
/// occurs twice, there is one witness for each input and it authorises
/// spending what the input resolves to, every output carries value, and the
/// values spent and created have the same sum, which fits in 64 bits.
pub proof fn lemma_accepted_iff_acceptable(utxos: Utxos, tx: TransactionView)
    ensures
        outcome(utxos, tx) is Ok <==> acceptable(utxos, tx),
{
    let spent = resolved(utxos, tx.inputs);
    let cannot = unspendable_at(utxos, tx.inputs);
    let denied = denied_at(tx.id, spent, tx.witnesses);
    let stray = stray_at(tx.id, tx.witnesses);
    let zero = zero_at(tx.outputs);
    let pairs = paired(tx.inputs, tx.witnesses);
    if outcome(utxos, tx) is Ok {
        lemma_first_where(tx.inputs.len() as int, cannot);
        lemma_first_where(pairs, denied);
        lemma_first_where(tx.outputs.len() as int, zero);
        assert forall|i: int| 0 <= i < tx.inputs.len() implies utxos.dom().contains(
            #[trigger] tx.inputs[i],
        ) by {
            assert(!cannot(i));
        }
        assert forall|i: int, j: int| 0 <= i < j < tx.inputs.len() implies #[trigger] tx.inputs[i]
            != #[trigger] tx.inputs[j] by {
            assert(!cannot(j));
        }
        assert forall|i: int| 0 <= i < tx.inputs.len() implies (
        #[trigger] tx.witnesses[i]).authorizes(utxos[tx.inputs[i]], tx.id) by {
            assert(!denied(i));
        }
        assert forall|i: int| 0 <= i < tx.outputs.len() implies (#[trigger] tx.outputs[i]).value
            > 0 by {
            assert(!zero(i));
        }
    }
    if acceptable(utxos, tx) {
        lemma_first_absent(tx.inputs.len() as int, cannot);
        lemma_first_absent(pairs, denied);
        lemma_first_absent(tx.witnesses.len() as int, stray);
        lemma_first_absent(tx.outputs.len() as int, zero);
    }
}

/// No transaction is refused because an input resolved to two different
/// outputs: against one set, a pointer resolves to one output.
pub proof fn lemma_inputs_resolve_consistently(utxos: Utxos, tx: TransactionView)
    ensures
        outcome(utxos, tx) is Err ==> !(outcome(utxos, tx)->Err_0 is InputWasAlreadySet),
{
}

/// An accepted transaction creates no value and destroys none: the outputs
/// it spends and the outputs it creates have the same sum.
pub proof fn lemma_accepted_conserves_value(utxos: Utxos, tx: TransactionView)
    requires
        outcome(utxos, tx) is Ok,
    ensures
        total_value(resolved(utxos, tx.inputs)) == total_value(tx.outputs),
{
    lemma_accepted_iff_acceptable(utxos, tx);
}

/// A transaction that names the same entry twice is refused as a double
/// spend, whatever its witnesses and outputs are, provided that the inputs
/// before the second occurrence are all unspent. The error names the first
/// input that repeats an earlier one, and the output it resolves to.
pub proof fn lemma_repeated_input_is_double_spend(
    utxos: Utxos,
    tx: TransactionView,
    i: int,
    j: int,
)
    requires
        0 <= i < j < tx.inputs.len(),
        tx.inputs[i] == tx.inputs[j],
        forall|k: int| 0 <= k < j ==> utxos.dom().contains(#[trigger] tx.inputs[k]),
    ensures
        first_unspendable(utxos, tx.inputs) is Some,
        ({
            let k = first_unspendable(utxos, tx.inputs)->0;
            &&& k <= j
            &&& repeats(tx.inputs, k)
            &&& outcome(utxos, tx) == Err::<Utxos, Error>(
                Error::DoubleSpend(tx.inputs[k], utxos[tx.inputs[k]]),
            )
        }),
{
    lemma_first_exists(tx.inputs.len() as int, unspendable_at(utxos, tx.inputs), j);
    let k = first_unspendable(utxos, tx.inputs)->0;
    assert(utxos.dom().contains(tx.inputs[k])) by {
        if k == j {
            assert(utxos.dom().contains(tx.inputs[i]));
        }
    }
}

/// A transaction with an input that is not in the set is refused because the
/// input does not resolve, provided that no input before it occurs twice.
/// The error names the first input that is not in the set.
pub proof fn lemma_missing_input_does_not_resolve(utxos: Utxos, tx: TransactionView, k: int)
    requires
        0 <= k < tx.inputs.len(),
        !utxos.dom().contains(tx.inputs[k]),
        forall|a: int, b: int|
            0 <= a < b < k ==> #[trigger] tx.inputs[a] != #[trigger] tx.inputs[b],
    ensures
        first_unspendable(utxos, tx.inputs) is Some,
        ({
            let m = first_unspendable(utxos, tx.inputs)->0;
            &&& m <= k
            &&& !utxos.dom().contains(tx.inputs[m])
            &&& outcome(utxos, tx) == Err::<Utxos, Error>(
                Error::InputDoesNotResolve(tx.inputs[m]),
            )
        }),
{
    lemma_first_exists(tx.inputs.len() as int, unspendable_at(utxos, tx.inputs), k);
}

/// A transaction whose inputs can be spent and whose witnesses are all in
/// order, but which has more or fewer witnesses than inputs, is refused for
/// the number of its signatures, whatever its outputs are.
pub proof fn lemma_witness_count_must_match(utxos: Utxos, tx: TransactionView)
    requires
        tx.inputs.len() <= usize::MAX,
        tx.witnesses.len() <= usize::MAX,
        first_unspendable(utxos, tx.inputs) is None,
        forall|i: int|
            0 <= i < paired(tx.inputs, tx.witnesses) ==> (#[trigger] tx.witnesses[i]).authorizes(
                utxos[tx.inputs[i]],
                tx.id,
            ),
        forall|i: int| 0 <= i < tx.witnesses.len() ==> (#[trigger] tx.witnesses[i]).covers(tx.id),
        tx.witnesses.len() != tx.inputs.len(),
    ensures
        outcome(utxos, tx) == Err::<Utxos, Error>(
            Error::NotEnoughSignatures(tx.inputs.len() as usize, tx.witnesses.len() as usize),
        ),
{
    let spent = resolved(utxos, tx.inputs);
    lemma_first_absent(paired(tx.inputs, tx.witnesses), denied_at(tx.id, spent, tx.witnesses));
    lemma_first_absent(tx.witnesses.len() as int, stray_at(tx.id, tx.witnesses));
}

/// A transaction whose inputs and witnesses are in order and which has an
/// output of value zero is refused for that output, whether or not its sums
/// agree. The error holds the first such output.
pub proof fn lemma_zero_output_is_refused(utxos: Utxos, tx: TransactionView, k: int)
    requires
        first_unspendable(utxos, tx.inputs) is None,
        witness_check(tx.id, tx.inputs, resolved(utxos, tx.inputs), tx.witnesses) is None,
        0 <= k < tx.outputs.len(),
        tx.outputs[k].value == 0,
    ensures
        first_zero(tx.outputs) is Some,
        first_zero(tx.outputs)->0 <= k,
        tx.outputs[first_zero(tx.outputs)->0].value == 0,
        outcome(utxos, tx) == Err::<Utxos, Error>(
            Error::ZeroOutput(tx.outputs[first_zero(tx.outputs)->0]),
        ),
{
    lemma_first_exists(tx.outputs.len() as int, zero_at(tx.outputs), k);
}

/// A witness is bound to the transaction it was made for. Where a
/// transaction was accepted with a witness, and that witness is attached to
/// a transaction with another identifier, the second transaction is refused
/// for its signatures, provided that its inputs can be spent.
pub proof fn lemma_witness_is_bound_to_its_transaction(
    before: Utxos,
    first: TransactionView,
    v: int,
    utxos: Utxos,
    second: TransactionView,
    w: int,
)
    requires
        outcome(before, first) is Ok,
        0 <= v < first.witnesses.len(),
        0 <= w < second.witnesses.len(),
        second.witnesses[w] == first.witnesses[v],
        second.id != first.id,
        first_unspendable(utxos, second.inputs) is None,
    ensures
        outcome(utxos, second) is Err,
        outcome(utxos, second)->Err_0 is InvalidSignature || outcome(utxos, second)->Err_0
            is InvalidTxSignature,
{
    lemma_accepted_iff_acceptable(before, first);
    assert(first.witnesses[v].covers(first.id));
    lemma_first_exists(second.witnesses.len() as int, stray_at(second.id, second.witnesses), w);
}

/// An accepted transaction changes the set at the entries it names and
/// nowhere else: an input is gone afterwards unless the transaction itself
/// creates an entry under the same pointer, every entry it creates is there,
/// and every other pointer resolves as before.
pub proof fn lemma_accepted_changes_only_what_it_names(
    utxos: Utxos,
    tx: TransactionView,
    pointer: UtxoPointer,
)
    requires
        outcome(utxos, tx) is Ok,
    ensures
        ({
            let next = outcome(utxos, tx)->Ok_0;
            let made = created(tx.id, tx.outputs);
            if made.dom().contains(pointer) {
                next.dom().contains(pointer) && next[pointer] == made[pointer]
            } else if tx.inputs.contains(pointer) {
                !next.dom().contains(pointer)
            } else {
                next.get(pointer) == utxos.get(pointer)
            }
        }),
{
}

/// What an accepted transaction spends is gone: where the transaction
/// creates nothing under the pointers it spends, as is the case when none of
/// them carries its own identifier, none of its inputs is in the set that
/// follows.
pub proof fn lemma_spent_inputs_are_gone(utxos: Utxos, tx: TransactionView)
    requires
        outcome(utxos, tx) is Ok,
        forall|i: int|
            0 <= i < tx.inputs.len() ==> (#[trigger] tx.inputs[i]).transaction_id != tx.id,
    ensures
        forall|i: int|
            0 <= i < tx.inputs.len() ==> !outcome(utxos, tx)->Ok_0.dom().contains(
                #[trigger] tx.inputs[i],
            ),
{
    assert forall|i: int| 0 <= i < tx.inputs.len() implies !outcome(
        utxos,
        tx,
    )->Ok_0.dom().contains(#[trigger] tx.inputs[i]) by {
        assert(tx.inputs.contains(tx.inputs[i]));
    }
}

/// No output is spent twice: a transaction that names an entry which an
/// earlier accepted transaction spent, and did not itself create anew, is
/// refused by the set that follows the earlier one. It is refused for its
/// inputs: for one that does not resolve or for one that occurs twice.
pub proof fn lemma_spent_output_cannot_be_spent_again(
    utxos: Utxos,
    first: TransactionView,
    second: TransactionView,
    i: int,
    k: int,
)
    requires
        outcome(utxos, first) is Ok,
        0 <= i < first.inputs.len(),
        0 <= k < second.inputs.len(),
        second.inputs[k] == first.inputs[i],
        first.inputs[i].transaction_id != first.id,
    ensures
        outcome(outcome(utxos, first)->Ok_0, second) is Err,
        outcome(outcome(utxos, first)->Ok_0, second)->Err_0 is InputDoesNotResolve || outcome(
            outcome(utxos, first)->Ok_0,
            second,
        )->Err_0 is DoubleSpend,
{
    let next = outcome(utxos, first)->Ok_0;
    assert(first.inputs.contains(first.inputs[i]));
    lemma_first_exists(second.inputs.len() as int, unspendable_at(next, second.inputs), k);
}

/// Where every output in the set carries value, every output in the set
/// that follows an accepted transaction does.
pub proof fn lemma_outputs_keep_carrying_value(utxos: Utxos, tx: TransactionView)
    requires
        outcome(utxos, tx) is Ok,
        forall|p: UtxoPointer| utxos.dom().contains(p) ==> (#[trigger] utxos[p]).value > 0,
    ensures
        forall|p: UtxoPointer| #[trigger]
            outcome(utxos, tx)->Ok_0.dom().contains(p) ==> outcome(utxos, tx)->Ok_0[p].value > 0,
{
    lemma_accepted_iff_acceptable(utxos, tx);
    let next = outcome(utxos, tx)->Ok_0;
    assert forall|p: UtxoPointer| #[trigger] next.dom().contains(p) implies next[p].value > 0 by {
        if created(tx.id, tx.outputs).dom().contains(p) {
            assert(tx.outputs[p.output_index as int].value > 0);
        } else {
            assert(utxos[p].value > 0);
        }
    }
}

/// A transaction followed by one that spends exactly what the first created.
///
/// Let `first` be accepted by a set that holds no entry under `first`'s
/// identifier. Let `second` have as its inputs the pointers to the outputs of
/// `first`, in order, each with a witness that authorises spending that
/// output, and let its outputs carry value and have the same sum as those of
/// `first`. Then `second` is accepted by the set that follows `first`, and
/// what follows `second` is the set at the start without the entries that
/// `first` spent and with the entries that `second` creates. Where the
/// outputs of `second` are the outputs that `first` spent, each of those is
/// back in the set, under a pointer with the identifier of `second`.
pub proof fn lemma_round_trip(utxos: Utxos, first: TransactionView, second: TransactionView)
    requires
        outcome(utxos, first) is Ok,
        first.outputs.len() <= usize::MAX,
        second.outputs.len() <= usize::MAX,
        forall|p: UtxoPointer| #[trigger] utxos.dom().contains(p) ==> p.transaction_id != first.id,
        second.inputs.len() == first.outputs.len(),
        forall|i: int|
            0 <= i < first.outputs.len() ==> #[trigger] second.inputs[i] == pointer_to(
                first.id,
                first.outputs,
                i,
            ),
        second.witnesses.len() == second.inputs.len(),
        forall|i: int|
            0 <= i < second.inputs.len() ==> (#[trigger] second.witnesses[i]).authorizes(
                first.outputs[i],
                second.id,
            ),
        forall|i: int| 0 <= i < second.outputs.len() ==> (#[trigger] second.outputs[i]).value > 0,
        total_value(second.outputs) == total_value(first.outputs),
    ensures
        outcome(outcome(utxos, first)->Ok_0, second) == Ok::<Utxos, Error>(
            utxos.remove_keys(first.inputs.to_set()).union_prefer_right(
                created(second.id, second.outputs),
            ),
        ),
        second.outputs == resolved(utxos, first.inputs) ==> forall|i: int|
            0 <= i < first.inputs.len() ==> ({
                let back = #[trigger] pointer_to(second.id, second.outputs, i);
                let last = outcome(outcome(utxos, first)->Ok_0, second)->Ok_0;
                last.dom().contains(back) && last[back] == utxos[first.inputs[i]]
            }),
{
    lemma_accepted_iff_acceptable(utxos, first);
    let middle = outcome(utxos, first)->Ok_0;
    let made = created(first.id, first.outputs);
    // What `second` spends is what `first` made, and resolves to it.
    assert forall|i: int| 0 <= i < second.inputs.len() implies made.dom().contains(
        #[trigger] second.inputs[i],
    ) && middle[second.inputs[i]] == first.outputs[i] by {
        assert(second.inputs[i] == pointer_to(first.id, first.outputs, i));
    }
    assert(resolved(middle, second.inputs) =~= first.outputs);
    assert(acceptable(middle, second));
    lemma_accepted_iff_acceptable(middle, second);
    // Taking the inputs of `second` out of the set leaves what `first` left.
    assert forall|p: UtxoPointer| made.dom().contains(p) implies second.inputs.contains(p) by {
        assert(second.inputs[p.output_index as int] == p);
    }
    assert forall|p: UtxoPointer| second.inputs.contains(p) implies made.dom().contains(p) by {
        let k = choose|k: int| 0 <= k < second.inputs.len() && second.inputs[k] == p;
        assert(made.dom().contains(second.inputs[k]));
    }
    assert(middle.remove_keys(second.inputs.to_set()) =~= utxos.remove_keys(
        first.inputs.to_set(),
    ));
    if second.outputs == resolved(utxos, first.inputs) {
        let last = outcome(middle, second)->Ok_0;
        assert forall|i: int| 0 <= i < first.inputs.len() implies ({
            let back = #[trigger] pointer_to(second.id, second.outputs, i);
            last.dom().contains(back) && last[back] == utxos[first.inputs[i]]
        }) by {
            let back = pointer_to(second.id, second.outputs, i);
            assert(created(second.id, second.outputs).dom().contains(back));
        }
    }
}

/// Spending entries takes the sum of their values out of what the set holds.
proof fn lemma_held_after_spending(utxos: Utxos, inputs: Seq<UtxoPointer>, n: int)
    requires
        utxos.dom().finite(),
        0 <= n <= inputs.len(),
        forall|i: int| 0 <= i < inputs.len() ==> utxos.dom().contains(#[trigger] inputs[i]),
        forall|i: int, j: int|
            0 <= i < j < inputs.len() ==> #[trigger] inputs[i] != #[trigger] inputs[j],
    ensures
        utxos.remove_keys(inputs.take(n).to_set()).dom().finite(),
        held(utxos.remove_keys(inputs.take(n).to_set())) + total_value(
            resolved(utxos, inputs).take(n),
        ) == held(utxos),
    decreases n,
{
    if n == 0 {
        assert(utxos.remove_keys(inputs.take(0).to_set()) =~= utxos);
        assert(resolved(utxos, inputs).take(0) =~= Seq::<Output<Address>>::empty());
    } else {
        lemma_held_after_spending(utxos, inputs, n - 1);
        let before = utxos.remove_keys(inputs.take(n - 1).to_set());
        let after = utxos.remove_keys(inputs.take(n).to_set());
        let front = inputs.take(n - 1);
        let p = inputs[n - 1];
        assert(!front.contains(p)) by {
            if front.contains(p) {
                let k = choose|k: int| 0 <= k < front.len() && front[k] == p;
                assert(inputs[k] != inputs[n - 1]);
            }
        }
        lemma_take_next(inputs, n - 1);
        assert(after =~= before.remove(p));
        lemma_held_after_remove(before, p);
        assert(resolved(utxos, inputs).take(n).drop_last() =~= resolved(utxos, inputs).take(n - 1));
    }
}

/// Entering the outputs of a transaction whose identifier is new to the set
/// adds the sum of their values to what the set holds.
proof fn lemma_held_after_entering(
    utxos: Utxos,
    id: TransactionId,
    outputs: Seq<Output<Address>>,
    n: int,
)
    requires
        utxos.dom().finite(),
        0 <= n <= outputs.len() <= usize::MAX,
        forall|p: UtxoPointer| #[trigger] utxos.dom().contains(p) ==> p.transaction_id != id,
    ensures
        utxos.union_prefer_right(created(id, outputs.take(n))).dom().finite(),
        held(utxos.union_prefer_right(created(id, outputs.take(n)))) == held(utxos) + total_value(
            outputs.take(n),
        ),
    decreases n,
{
    if n == 0 {
        assert(utxos.union_prefer_right(created(id, outputs.take(0))) =~= utxos);
        assert(outputs.take(0) =~= Seq::<Output<Address>>::empty());
    } else {
        lemma_held_after_entering(utxos, id, outputs, n - 1);
        let before = utxos.union_prefer_right(created(id, outputs.take(n - 1)));
        let after = utxos.union_prefer_right(created(id, outputs.take(n)));
        let p = pointer_to(id, outputs, n - 1);
        assert(created(id, outputs.take(n)) =~= created(id, outputs.take(n - 1)).insert(
            p,
            outputs[n - 1],
        ));
        assert(after =~= before.insert(p, outputs[n - 1]));
        lemma_held_after_insert(before, p, outputs[n - 1]);
        assert(outputs.take(n).drop_last() =~= outputs.take(n - 1));
    }
}

/// An accepted transaction leaves what the set holds as it was, provided
/// that its identifier is new to the set: no value is created and none is
/// destroyed.
pub proof fn lemma_accepted_keeps_what_is_held(utxos: Utxos, tx: TransactionView)
    requires
        utxos.dom().finite(),
        tx.outputs.len() <= usize::MAX,
        outcome(utxos, tx) is Ok,
        forall|p: UtxoPointer| #[trigger] utxos.dom().contains(p) ==> p.transaction_id != tx.id,
    ensures
        outcome(utxos, tx)->Ok_0.dom().finite(),
        held(outcome(utxos, tx)->Ok_0) == held(utxos),
{
    lemma_accepted_iff_acceptable(utxos, tx);
    lemma_held_after_spending(utxos, tx.inputs, tx.inputs.len() as int);
    assert(tx.inputs.take(tx.inputs.len() as int) =~= tx.inputs);
    assert(resolved(utxos, tx.inputs).take(tx.inputs.len() as int) =~= resolved(utxos, tx.inputs));
    let kept = utxos.remove_keys(tx.inputs.to_set());
    lemma_held_after_entering(kept, tx.id, tx.outputs, tx.outputs.len() as int);
    assert(tx.outputs.take(tx.outputs.len() as int) =~= tx.outputs);
}

} // verus!
