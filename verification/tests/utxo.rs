use chain_impl_mockchain::address::Address;
use chain_impl_mockchain::key::same_bytes;
use chain_impl_mockchain::key::PublicKey;
use chain_impl_mockchain::transaction::Output;
use chain_impl_mockchain::transaction::TransactionId;
use chain_impl_mockchain::transaction::UtxoPointer;
use chain_impl_mockchain::transaction::Witness;
use chain_impl_mockchain::utxo::UtxoSet;

fn id(n: u8) -> TransactionId {
    TransactionId { bytes: [n; 32] }
}

fn key(n: u8) -> PublicKey {
    PublicKey { bytes: [n; 32] }
}

fn pointer(tx: u8, index: u64, value: u64) -> UtxoPointer {
    UtxoPointer { transaction_id: id(tx), output_index: index, value }
}

fn output(owner: u8, value: u64) -> Output<Address> {
    Output { address: Address { key: key(owner) }, value }
}

#[test]
fn same_bytes_tells_equal_from_different() {
    let a = [5u8; 32];
    let mut b = [5u8; 32];
    assert!(same_bytes(&a, &b));
    b[31] = 6;
    assert!(!same_bytes(&a, &b));
    b[31] = 5;
    b[0] = 4;
    assert!(!same_bytes(&a, &b));
}

#[test]
fn identifiers_and_keys_compare_by_their_bytes() {
    assert_eq!(id(1), id(1));
    assert_ne!(id(1), id(2));
    assert_eq!(key(1), key(1));
    assert_ne!(key(1), key(2));
    let mut bytes = [1u8; 32];
    bytes[17] = 0;
    assert_ne!(id(1), TransactionId { bytes });
    assert_ne!(key(1), PublicKey { bytes });
}

#[test]
fn pointers_compare_by_all_three_fields() {
    assert_eq!(pointer(1, 0, 5), pointer(1, 0, 5));
    assert_ne!(pointer(1, 0, 5), pointer(2, 0, 5));
    assert_ne!(pointer(1, 0, 5), pointer(1, 1, 5));
    assert_ne!(pointer(1, 0, 5), pointer(1, 0, 6));
}

#[test]
fn outputs_compare_by_address_and_value() {
    assert_eq!(output(1, 5), output(1, 5));
    assert_ne!(output(1, 5), output(2, 5));
    assert_ne!(output(1, 5), output(1, 6));
    assert_eq!(output(1, 5).clone(), output(1, 5));
}

#[test]
fn address_gives_its_key() {
    assert_eq!(Address { key: key(8) }.public_key(), key(8));
    assert_ne!(Address { key: key(8) }, Address { key: key(9) });
}

#[test]
fn witness_signs_only_the_transaction_it_names() {
    let w = Witness { key: key(1), signed: Some(id(4)) };
    assert!(w.signs(&id(4)));
    assert!(!w.signs(&id(5)));
    let unsigned = Witness { key: key(1), signed: None };
    assert!(!unsigned.signs(&id(4)));
}

#[test]
fn witness_verifies_only_with_the_key_of_the_output() {
    let w = Witness { key: key(1), signed: Some(id(4)) };
    assert!(w.verifies(&output(1, 10), &id(4)));
    assert!(!w.verifies(&output(2, 10), &id(4)));
    assert!(!w.verifies(&output(1, 10), &id(5)));
    let unsigned = Witness { key: key(1), signed: None };
    assert!(!unsigned.verifies(&output(1, 10), &id(4)));
}

#[test]
fn witnesses_compare_by_key_and_signed_transaction() {
    let w = Witness { key: key(1), signed: Some(id(4)) };
    assert_eq!(w, Witness { key: key(1), signed: Some(id(4)) });
    assert_ne!(w, Witness { key: key(2), signed: Some(id(4)) });
    assert_ne!(w, Witness { key: key(1), signed: Some(id(5)) });
    assert_ne!(w, Witness { key: key(1), signed: None });
}

#[test]
fn new_set_is_empty() {
    let set = UtxoSet::new();
    assert_eq!(set.len(), 0);
    assert!(set.is_empty());
    assert_eq!(set.resolve(&pointer(1, 0, 5)), None);
}

#[test]
fn insert_then_resolve() {
    let mut set = UtxoSet::new();
    assert_eq!(set.insert(pointer(1, 0, 5), output(7, 5)), None);
    assert_eq!(set.insert(pointer(1, 1, 9), output(8, 9)), None);
    assert_eq!(set.len(), 2);
    assert!(!set.is_empty());
    assert_eq!(set.resolve(&pointer(1, 0, 5)), Some(output(7, 5)));
    assert_eq!(set.resolve(&pointer(1, 1, 9)), Some(output(8, 9)));
    assert_eq!(set.resolve(&pointer(1, 2, 9)), None);
}

#[test]
fn resolve_needs_the_value_of_the_pointer_to_agree() {
    let mut set = UtxoSet::new();
    set.insert(pointer(1, 0, 5), output(7, 5));
    assert_eq!(set.resolve(&pointer(1, 0, 6)), None);
    assert_eq!(set.resolve(&pointer(2, 0, 5)), None);
}

#[test]
fn insert_replaces_and_returns_what_was_there() {
    let mut set = UtxoSet::new();
    set.insert(pointer(1, 0, 5), output(7, 5));
    assert_eq!(set.insert(pointer(1, 0, 5), output(8, 5)), Some(output(7, 5)));
    assert_eq!(set.len(), 1);
    assert_eq!(set.resolve(&pointer(1, 0, 5)), Some(output(8, 5)));
}

#[test]
fn remove_takes_out_and_returns_what_was_there() {
    let mut set = UtxoSet::new();
    set.insert(pointer(1, 0, 5), output(7, 5));
    set.insert(pointer(1, 1, 9), output(8, 9));
    set.insert(pointer(2, 0, 1), output(9, 1));
    assert_eq!(set.remove(&pointer(1, 1, 9)), Some(output(8, 9)));
    assert_eq!(set.len(), 2);
    assert_eq!(set.resolve(&pointer(1, 1, 9)), None);
    assert_eq!(set.resolve(&pointer(1, 0, 5)), Some(output(7, 5)));
    assert_eq!(set.resolve(&pointer(2, 0, 1)), Some(output(9, 1)));
    assert_eq!(set.remove(&pointer(1, 1, 9)), None);
    assert_eq!(set.len(), 2);
}

#[test]
fn removed_pointer_can_be_entered_again() {
    let mut set = UtxoSet::new();
    set.insert(pointer(1, 0, 5), output(7, 5));
    set.remove(&pointer(1, 0, 5));
    assert!(set.is_empty());
    assert_eq!(set.insert(pointer(1, 0, 5), output(3, 5)), None);
    assert_eq!(set.resolve(&pointer(1, 0, 5)), Some(output(3, 5)));
}

#[test]
fn sets_are_equal_whatever_the_order_of_insertion() {
    let mut a = UtxoSet::new();
    a.insert(pointer(1, 0, 5), output(7, 5));
    a.insert(pointer(1, 1, 9), output(8, 9));
    let mut b = UtxoSet::new();
    b.insert(pointer(1, 1, 9), output(8, 9));
    b.insert(pointer(1, 0, 5), output(7, 5));
    assert!(a == b);
    assert!(b == a);
}

#[test]
fn sets_differ_by_an_entry_or_by_an_output() {
    let mut a = UtxoSet::new();
    a.insert(pointer(1, 0, 5), output(7, 5));
    let mut b = UtxoSet::new();
    assert!(a != b);
    b.insert(pointer(1, 0, 5), output(8, 5));
    assert!(a != b);
    b.insert(pointer(1, 0, 5), output(7, 5));
    assert!(a == b);
    b.insert(pointer(1, 1, 5), output(7, 5));
    assert!(a != b);
    a.insert(pointer(1, 2, 5), output(7, 5));
    assert!(a != b);
}

#[test]
fn clone_holds_the_same_entries_and_is_independent() {
    let mut a = UtxoSet::new();
    a.insert(pointer(1, 0, 5), output(7, 5));
    let mut b = a.clone();
    assert!(a == b);
    b.remove(&pointer(1, 0, 5));
    assert_eq!(a.resolve(&pointer(1, 0, 5)), Some(output(7, 5)));
    assert_eq!(b.resolve(&pointer(1, 0, 5)), None);
}

#[test]
fn pointers_can_be_ordered_and_hashed() {
    let mut pointers = vec![pointer(2, 0, 5), pointer(1, 1, 5), pointer(1, 0, 9), pointer(1, 0, 5)];
    pointers.sort();
    assert_eq!(
        pointers,
        vec![pointer(1, 0, 5), pointer(1, 0, 9), pointer(1, 1, 5), pointer(2, 0, 5)]
    );
    let mut seen = std::collections::HashSet::new();
    assert!(seen.insert(pointer(1, 0, 5)));
    assert!(!seen.insert(pointer(1, 0, 5)));
    assert!(seen.insert(pointer(1, 0, 6)));
    let mut ordered = std::collections::BTreeMap::new();
    ordered.insert(pointer(3, 0, 1), 'c');
    ordered.insert(pointer(1, 0, 1), 'a');
    assert_eq!(ordered.keys().next(), Some(&pointer(1, 0, 1)));
}

#[test]
fn total_adds_up_the_values_in_the_set() {
    let mut set = UtxoSet::new();
    assert_eq!(set.total(), Some(0));
    set.insert(pointer(1, 0, 5), output(7, 5));
    set.insert(pointer(1, 1, 9), output(8, 9));
    set.insert(pointer(2, 0, 1), output(9, 1));
    assert_eq!(set.total(), Some(15));
    set.insert(pointer(1, 1, 9), output(8, 4));
    assert_eq!(set.total(), Some(10));
    set.remove(&pointer(1, 0, 5));
    assert_eq!(set.total(), Some(5));
}

#[test]
fn total_beyond_64_bits_is_none() {
    let mut set = UtxoSet::new();
    set.insert(pointer(1, 0, 5), output(7, u64::MAX - 1));
    set.insert(pointer(1, 1, 9), output(8, 1));
    assert_eq!(set.total(), Some(u64::MAX));
    set.insert(pointer(1, 2, 9), output(8, 1));
    assert_eq!(set.total(), None);
    set.insert(pointer(1, 3, 9), output(8, 0));
    assert_eq!(set.total(), None);
}

#[test]
fn pointers_lists_every_entry_once() {
    let mut set = UtxoSet::new();
    assert_eq!(set.pointers(), vec![]);
    set.insert(pointer(2, 0, 1), output(9, 1));
    set.insert(pointer(1, 0, 5), output(7, 5));
    set.insert(pointer(1, 1, 9), output(8, 9));
    set.insert(pointer(1, 0, 5), output(6, 5));
    set.remove(&pointer(2, 0, 1));
    let mut all = set.pointers();
    all.sort();
    assert_eq!(all, vec![pointer(1, 0, 5), pointer(1, 1, 9)]);
    for p in all.iter() {
        assert!(set.resolve(p).is_some());
    }
}

#[test]
fn default_set_is_empty() {
    let set = UtxoSet::default();
    assert!(set.is_empty());
    assert!(set == UtxoSet::new());
}

#[test]
fn checked_witness_records_the_outcome_of_the_check() {
    let good = Witness::checked(key(1), id(4), true);
    assert_eq!(good, Witness { key: key(1), signed: Some(id(4)) });
    assert!(good.signs(&id(4)));
    assert!(!good.signs(&id(5)));
    let bad = Witness::checked(key(1), id(4), false);
    assert_eq!(bad, Witness { key: key(1), signed: None });
    assert!(!bad.signs(&id(4)));
    assert!(!bad.verifies(&output(1, 10), &id(4)));
}
