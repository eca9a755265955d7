//! Sums of values: of a list of outputs, and of a set of unspent outputs.
use vstd::prelude::*;
use vstd::set::fold::lemma_fold_empty;
use vstd::set::fold::lemma_fold_insert;
use crate::address::Address;
use crate::transaction::Output;
use crate::transaction::UtxoPointer;
use crate::transaction::Utxos;

verus! {

/// The sum of the values of some outputs.
pub open spec fn total_value(outputs: Seq<Output<Address>>) -> nat
    decreases outputs.len(),
{
    if outputs.len() == 0 {
        0
    } else {
        total_value(outputs.drop_last()) + outputs.last().value as nat
    }
}

/// A sum as it is reported: itself where it fits in 64 bits, the largest
/// 64-bit number where it does not.
pub open spec fn capped(sum: nat) -> u64 {
    if sum <= u64::MAX {
        sum as u64
    } else {
        u64::MAX
    }
}

/// A sum as a 64-bit number, where it is one.
pub open spec fn checked(sum: nat) -> Option<u64> {
    if sum <= u64::MAX {
        Some(sum as u64)
    } else {
        None
    }
}

/// The sum of the first outputs is at most the sum of all of them.
pub proof fn lemma_total_value_grows(outputs: Seq<Output<Address>>, n: int)
    requires
        0 <= n <= outputs.len(),
    ensures
        total_value(outputs.take(n)) <= total_value(outputs),
    decreases outputs.len(),
{
    if n == outputs.len() {
        assert(outputs.take(n) =~= outputs);
    } else {
        lemma_total_value_grows(outputs.drop_last(), n);
        assert(outputs.drop_last().take(n) =~= outputs.take(n));
    }
}

/// Adds up the values of the outputs. `None` where the sum does not fit in
/// 64 bits.
pub fn checked_total(outputs: &Vec<Output<Address>>) -> (sum: Option<u64>)
    ensures
        sum == checked(total_value(outputs@)),
{
    let mut sum: u64 = 0;
    let mut i: usize = 0;
    while i < outputs.len()
        invariant
            i <= outputs.len(),
            sum == total_value(outputs@.take(i as int)),
        decreases outputs.len() - i,
    {
        proof {
            assert(outputs@.take(i + 1).drop_last() =~= outputs@.take(i as int));
            lemma_total_value_grows(outputs@, i + 1);
        }
        match sum.checked_add(outputs[i].value) {
            Some(more) => {
                sum = more;
            },
            None => {
                return None;
            },
        }
        i += 1;
    }
    proof {
        assert(outputs@.take(i as int) =~= outputs@);
    }
    Some(sum)
}

/// Adds the value found under a pointer to a running sum.
pub open spec fn add_value(utxos: Utxos) -> spec_fn(nat, UtxoPointer) -> nat {
    |sum: nat, pointer: UtxoPointer| sum + utxos[pointer].value as nat
}

/// The value that a finite set of unspent outputs holds: the sum of the
/// values of its outputs.
pub open spec fn held(utxos: Utxos) -> nat {
    utxos.dom().fold(0nat, add_value(utxos))
}

/// The sum over some pointers depends only on what the map holds under
/// those pointers.
proof fn lemma_sum_depends_on_entries(pointers: Set<UtxoPointer>, a: Utxos, b: Utxos)
    requires
        pointers.finite(),
        forall|p: UtxoPointer| pointers.contains(p) ==> a[p] == b[p],
    ensures
        pointers.fold(0nat, add_value(a)) == pointers.fold(0nat, add_value(b)),
    decreases pointers.len(),
{
    if pointers.len() == 0 {
        assert(pointers =~= Set::<UtxoPointer>::empty());
        lemma_fold_empty(0nat, add_value(a));
        lemma_fold_empty(0nat, add_value(b));
    } else {
        let p = pointers.choose();
        let rest = pointers.remove(p);
        lemma_sum_depends_on_entries(rest, a, b);
        lemma_fold_insert(rest, 0nat, add_value(a), p);
        lemma_fold_insert(rest, 0nat, add_value(b), p);
    }
}

/// The empty set holds nothing.
pub proof fn lemma_held_by_empty()
    ensures
        held(Utxos::empty()) == 0,
{
    lemma_fold_empty(0nat, add_value(Utxos::empty()));
}

/// A new entry adds its value to what the set holds.
pub proof fn lemma_held_after_insert(utxos: Utxos, pointer: UtxoPointer, output: Output<Address>)
    requires
        utxos.dom().finite(),
        !utxos.dom().contains(pointer),
    ensures
        held(utxos.insert(pointer, output)) == held(utxos) + output.value,
{
    let after = utxos.insert(pointer, output);
    lemma_fold_insert(utxos.dom(), 0nat, add_value(after), pointer);
    lemma_sum_depends_on_entries(utxos.dom(), after, utxos);
}

/// An entry that leaves takes its value out of what the set holds.
pub proof fn lemma_held_after_remove(utxos: Utxos, pointer: UtxoPointer)
    requires
        utxos.dom().finite(),
        utxos.dom().contains(pointer),
    ensures
        held(utxos.remove(pointer)) + utxos[pointer].value == held(utxos),
{
    let without = utxos.remove(pointer);
    lemma_held_after_insert(without, pointer, utxos[pointer]);
    assert(without.insert(pointer, utxos[pointer]) =~= utxos);
}

} // verus!
