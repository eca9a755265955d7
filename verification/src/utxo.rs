//! The set of unspent transaction outputs.
use vstd::prelude::*;
use vstd::set_lib::lemma_subset_equality;
use vstd::std_specs::cmp::PartialEqSpecImpl;
use crate::address::Address;
use crate::transaction::Output;
use crate::transaction::UtxoPointer;
use crate::transaction::Utxos;
use crate::value::checked;
use crate::value::held;
use crate::value::lemma_held_after_insert;
use crate::value::lemma_held_by_empty;

verus! {

/// One unspent output and the pointer that spends it.
#[derive(Clone, Copy, Debug)]
struct Entry {
    pointer: UtxoPointer,
    output: Output<Address>,
}

/// Some entry holds `pointer`.
spec fn holds(entries: Seq<Entry>, pointer: UtxoPointer) -> bool {
    exists|i: int| 0 <= i < entries.len() && (#[trigger] entries[i]).pointer == pointer
}

/// The position of an entry that holds `pointer`, where there is one.
spec fn slot(entries: Seq<Entry>, pointer: UtxoPointer) -> int {
    choose|i: int| 0 <= i < entries.len() && (#[trigger] entries[i]).pointer == pointer
}

/// No pointer is held by two entries.
spec fn distinct(entries: Seq<Entry>) -> bool {
    forall|i: int, j: int|
        0 <= i < j < entries.len() ==> (#[trigger] entries[i]).pointer != (
        #[trigger] entries[j]).pointer
}

/// The map that a list of entries stands for.
spec fn as_map(entries: Seq<Entry>) -> Utxos {
    Map::new(|p: UtxoPointer| holds(entries, p), |p: UtxoPointer| entries[slot(entries, p)].output)
}

/// Each entry is in the map, under its pointer.
proof fn lemma_entry_is_mapped(entries: Seq<Entry>, i: int)
    requires
        distinct(entries),
        0 <= i < entries.len(),
    ensures
        as_map(entries).dom().contains(entries[i].pointer),
        as_map(entries)[entries[i].pointer] == entries[i].output,
{
}

/// A list of entries holds a pointer exactly when the map it stands for
/// does, and then at one position only.
proof fn lemma_holds(entries: Seq<Entry>, pointer: UtxoPointer)
    requires
        distinct(entries),
    ensures
        holds(entries, pointer) <==> as_map(entries).dom().contains(pointer),
        holds(entries, pointer) ==> 0 <= slot(entries, pointer) < entries.len()
            && entries[slot(entries, pointer)].pointer == pointer
            && as_map(entries)[pointer] == entries[slot(entries, pointer)].output,
{
}

/// An entry under a new pointer adds that pointer to the map.
proof fn lemma_push(entries: Seq<Entry>, entry: Entry)
    requires
        distinct(entries),
        !holds(entries, entry.pointer),
    ensures
        distinct(entries.push(entry)),
        as_map(entries.push(entry)) == as_map(entries).insert(entry.pointer, entry.output),
{
    let after = entries.push(entry);
    let n = entries.len() as int;
    assert forall|p: UtxoPointer|
        holds(after, p) <==> (holds(entries, p) || p == entry.pointer) by {
        if holds(entries, p) {
            assert(after[slot(entries, p)].pointer == p);
        }
        if p == entry.pointer {
            assert(after[n].pointer == p);
        }
        lemma_holds(after, p);
    }
    assert forall|p: UtxoPointer| holds(after, p) implies as_map(after)[p] == as_map(
        entries,
    ).insert(entry.pointer, entry.output)[p] by {
        let k = slot(after, p);
        lemma_entry_is_mapped(after, k);
        if k < n {
            lemma_entry_is_mapped(entries, k);
        }
    }
}

/// A new output under a pointer that is held replaces the old one in the map.
proof fn lemma_update(entries: Seq<Entry>, i: int, entry: Entry)
    requires
        distinct(entries),
        0 <= i < entries.len(),
        entries[i].pointer == entry.pointer,
    ensures
        distinct(entries.update(i, entry)),
        as_map(entries.update(i, entry)) == as_map(entries).insert(entry.pointer, entry.output),
{
    let after = entries.update(i, entry);
    assert forall|p: UtxoPointer| holds(after, p) <==> holds(entries, p) by {
        if holds(entries, p) {
            assert(after[slot(entries, p)].pointer == p);
        }
        lemma_holds(after, p);
    }
    assert forall|p: UtxoPointer| holds(after, p) implies as_map(after)[p] == as_map(
        entries,
    ).insert(entry.pointer, entry.output)[p] by {
        let k = slot(after, p);
        lemma_entry_is_mapped(after, k);
        if k != i {
            lemma_entry_is_mapped(entries, k);
        }
    }
}

/// An entry that leaves takes its pointer out of the map.
proof fn lemma_remove(entries: Seq<Entry>, i: int)
    requires
        distinct(entries),
        0 <= i < entries.len(),
    ensures
        distinct(entries.remove(i)),
        as_map(entries.remove(i)) == as_map(entries).remove(entries[i].pointer),
{
    let after = entries.remove(i);
    let gone = entries[i].pointer;
    assert forall|p: UtxoPointer| holds(after, p) <==> (holds(entries, p) && p != gone) by {
        if holds(entries, p) && p != gone {
            let k = slot(entries, p);
            let moved = if k < i { k } else { k - 1 };
            assert(after[moved] == entries[k]);
        }
        lemma_holds(after, p);
    }
    assert forall|p: UtxoPointer| holds(after, p) implies as_map(after)[p] == as_map(
        entries,
    )[p] by {
        let k = slot(after, p);
        lemma_entry_is_mapped(after, k);
        lemma_entry_is_mapped(entries, if k < i { k } else { k + 1 });
    }
}

/// The first `n` entries are a list of entries in their own right, and the
/// next entry extends the map they stand for.
proof fn lemma_prefix(entries: Seq<Entry>, n: int)
    requires
        distinct(entries),
        0 <= n < entries.len(),
    ensures
        distinct(entries.take(n)),
        !as_map(entries.take(n)).dom().contains(entries[n].pointer),
        as_map(entries.take(n + 1)) == as_map(entries.take(n)).insert(
            entries[n].pointer,
            entries[n].output,
        ),
{
    let front = entries.take(n);
    lemma_holds(front, entries[n].pointer);
    lemma_push(front, entries[n]);
    assert(front.push(entries[n]) =~= entries.take(n + 1));
}

/// The map has as many pointers as the list has entries.
proof fn lemma_counted(entries: Seq<Entry>)
    requires
        distinct(entries),
    ensures
        as_map(entries).dom().finite(),
        as_map(entries).dom().len() == entries.len(),
    decreases entries.len(),
{
    if entries.len() == 0 {
        assert(as_map(entries).dom() =~= Set::empty());
    } else {
        let n = entries.len() - 1;
        lemma_prefix(entries, n);
        lemma_counted(entries.take(n));
        assert(entries.take(n + 1) =~= entries);
    }
}

/// The first entries hold no more than all of them.
proof fn lemma_prefix_holds_less(entries: Seq<Entry>, n: int)
    requires
        distinct(entries),
        0 <= n <= entries.len(),
    ensures
        held(as_map(entries.take(n))) <= held(as_map(entries)),
    decreases entries.len() - n,
{
    if n == entries.len() {
        assert(entries.take(n) =~= entries);
    } else {
        lemma_prefix(entries, n);
        lemma_counted(entries.take(n));
        lemma_held_after_insert(as_map(entries.take(n)), entries[n].pointer, entries[n].output);
        lemma_prefix_holds_less(entries, n + 1);
    }
}

/// The unspent outputs of a ledger, each under the pointer that spends it.
///
/// As a mathematical value the set is a finite map from pointer to output.
#[derive(Debug)]
pub struct UtxoSet {
    entries: Vec<Entry>,
}

impl View for UtxoSet {
    type V = Utxos;

    closed spec fn view(&self) -> Utxos {
        as_map(self.entries@)
    }
}

impl UtxoSet {
    #[verifier::type_invariant]
    spec fn well_formed(self) -> bool {
        distinct(self.entries@)
    }

    /// The set with no entry.
    pub fn new() -> (set: UtxoSet)
        ensures
            set@ == Utxos::empty(),
    {
        UtxoSet { entries: Vec::new() }
    }

    /// Where `pointer` is held, if anywhere.
    fn find(&self, pointer: &UtxoPointer) -> (found: Option<usize>)
        ensures
            (match found {
                Some(i) => i < self.entries.len() && self.entries[i as int].pointer == *pointer,
                None => !holds(self.entries@, *pointer),
            }),
    {
        let mut i: usize = 0;
        while i < self.entries.len()
            invariant
                i <= self.entries.len(),
                forall|j: int| 0 <= j < i ==> (#[trigger] self.entries[j]).pointer != *pointer,
            decreases self.entries.len() - i,
        {
            if self.entries[i].pointer == *pointer {
                return Some(i);
            }
            i += 1;
        }
        None
    }

    /// The number of unspent outputs.
    pub fn len(&self) -> (n: usize)
        ensures
            self@.dom().finite(),
            n == self@.len(),
    {
        proof {
            use_type_invariant(self);
            lemma_counted(self.entries@);
        }
        self.entries.len()
    }

    /// Tells whether the set has no entry.
    pub fn is_empty(&self) -> (r: bool)
        ensures
            r == (self@ == Utxos::empty()),
    {
        proof {
            use_type_invariant(self);
            if self.entries.len() > 0 {
                lemma_entry_is_mapped(self.entries@, 0);
            } else {
                assert(self@ =~= Utxos::empty());
            }
        }
        self.entries.len() == 0
    }

    /// The value that the set holds: the sum of the values of its outputs.
    /// `None` where the sum does not fit in 64 bits.
    pub fn total(&self) -> (sum: Option<u64>)
        ensures
            self@.dom().finite(),
            sum == checked(held(self@)),
    {
        proof {
            use_type_invariant(self);
            lemma_counted(self.entries@);
            lemma_held_by_empty();
            assert(as_map(self.entries@.take(0)) =~= Utxos::empty());
        }
        let mut sum: u64 = 0;
        let mut i: usize = 0;
        while i < self.entries.len()
            invariant
                i <= self.entries.len(),
                distinct(self.entries@),
                self@.dom().finite(),
                sum == held(as_map(self.entries@.take(i as int))),
            decreases self.entries.len() - i,
        {
            proof {
                lemma_prefix(self.entries@, i as int);
                lemma_counted(self.entries@.take(i as int));
                lemma_held_after_insert(
                    as_map(self.entries@.take(i as int)),
                    self.entries[i as int].pointer,
                    self.entries[i as int].output,
                );
                lemma_prefix_holds_less(self.entries@, i + 1);
            }
            match sum.checked_add(self.entries[i].output.value) {
                Some(more) => {
                    sum = more;
                },
                None => {
                    return None;
                },
            }
            i += 1;
        }
        proof {
            assert(self.entries@.take(i as int) =~= self.entries@);
        }
        Some(sum)
    }

    /// The pointers of all unspent outputs, each once.
    pub fn pointers(&self) -> (all: Vec<UtxoPointer>)
        ensures
            all@.no_duplicates(),
            all@.to_set() == self@.dom(),
    {
        proof {
            use_type_invariant(self);
        }
        let mut all: Vec<UtxoPointer> = Vec::new();
        let mut i: usize = 0;
        while i < self.entries.len()
            invariant
                i <= self.entries.len(),
                all.len() == i,
                forall|k: int| 0 <= k < i ==> #[trigger] all[k] == self.entries[k].pointer,
            decreases self.entries.len() - i,
        {
            all.push(self.entries[i].pointer);
            i += 1;
        }
        proof {
            assert forall|p: UtxoPointer| all@.contains(p) <==> self@.dom().contains(p) by {
                if all@.contains(p) {
                    let k = choose|k: int| 0 <= k < all.len() && all[k] == p;
                    lemma_entry_is_mapped(self.entries@, k);
                }
                if self@.dom().contains(p) {
                    lemma_holds(self.entries@, p);
                    assert(all[slot(self.entries@, p)] == p);
                }
            }
            assert(all@.to_set() =~= self@.dom());
        }
        all
    }

    /// The output that `pointer` spends, if it is unspent.
    pub fn resolve(&self, pointer: &UtxoPointer) -> (output: Option<Output<Address>>)
        ensures
            output == self@.get(*pointer),
    {
        proof {
            use_type_invariant(self);
        }
        match self.find(pointer) {
            Some(i) => {
                proof {
                    lemma_entry_is_mapped(self.entries@, i as int);
                }
                Some(self.entries[i].output)
            },
            None => None,
        }
    }

    /// Puts `output` under `pointer`, in place of what was there. Returns
    /// what was there.
    pub fn insert(
        &mut self,
        pointer: UtxoPointer,
        output: Output<Address>,
    ) -> (previous: Option<Output<Address>>)
        ensures
            final(self)@ == old(self)@.insert(pointer, output),
            previous == old(self)@.get(pointer),
    {
        proof {
            use_type_invariant(&*self);
        }
        let entry = Entry { pointer, output };
        match self.find(&pointer) {
            Some(i) => {
                let previous = self.entries[i].output;
                proof {
                    lemma_entry_is_mapped(self.entries@, i as int);
                    lemma_update(self.entries@, i as int, entry);
                }
                let mut entries = Vec::new();
                std::mem::swap(&mut entries, &mut self.entries);
                entries[i] = entry;
                self.entries = entries;
                Some(previous)
            },
            None => {
                proof {
                    lemma_push(self.entries@, entry);
                }
                let mut entries = Vec::new();
                std::mem::swap(&mut entries, &mut self.entries);
                entries.push(entry);
                self.entries = entries;
                None
            },
        }
    }

    /// Takes `pointer` out of the set. Returns the output it spent.
    pub fn remove(&mut self, pointer: &UtxoPointer) -> (previous: Option<Output<Address>>)
        ensures
            final(self)@ == old(self)@.remove(*pointer),
            previous == old(self)@.get(*pointer),
    {
        proof {
            use_type_invariant(&*self);
        }
        match self.find(pointer) {
            Some(i) => {
                proof {
                    lemma_entry_is_mapped(self.entries@, i as int);
                    lemma_remove(self.entries@, i as int);
                }
                let mut entries = Vec::new();
                std::mem::swap(&mut entries, &mut self.entries);
                let entry = entries.remove(i);
                self.entries = entries;
                Some(entry.output)
            },
            None => None,
        }
    }
}

impl Default for UtxoSet {
    /// The set with no entry.
    fn default() -> (set: UtxoSet)
        ensures
            set@ == Utxos::empty(),
    {
        UtxoSet::new()
    }
}

impl Clone for UtxoSet {
    fn clone(&self) -> (copy: UtxoSet)
        ensures
            copy@ == self@,
    {
        proof {
            use_type_invariant(self);
        }
        UtxoSet { entries: self.entries.clone() }
    }
}

impl PartialEq for UtxoSet {
    /// Two sets are equal where they hold the same outputs under the same
    /// pointers.
    fn eq(&self, other: &UtxoSet) -> (r: bool) {
        proof {
            use_type_invariant(self);
            use_type_invariant(other);
            lemma_counted(self.entries@);
            lemma_counted(other.entries@);
        }
        if self.entries.len() != other.entries.len() {
            return false;
        }
        let mut i: usize = 0;
        while i < self.entries.len()
            invariant
                i <= self.entries.len(),
                distinct(self.entries@),
                forall|j: int|
                    0 <= j < i ==> other@.dom().contains((#[trigger] self.entries[j]).pointer)
                        && other@[self.entries[j].pointer] == self.entries[j].output,
            decreases self.entries.len() - i,
        {
            let entry = self.entries[i];
            proof {
                lemma_entry_is_mapped(self.entries@, i as int);
            }
            match other.resolve(&entry.pointer) {
                Some(output) => {
                    if output != entry.output {
                        return false;
                    }
                },
                None => {
                    return false;
                },
            }
            i += 1;
        }
        proof {
            assert forall|p: UtxoPointer| self@.dom().contains(p) implies other@.dom().contains(p)
                && other@[p] == self@[p] by {
                lemma_holds(self.entries@, p);
            }
            lemma_subset_equality(self@.dom(), other@.dom());
            assert(self@ =~= other@);
        }
        true
    }
}

impl PartialEqSpecImpl for UtxoSet {
    open spec fn obeys_eq_spec() -> bool {
        true
    }

    open spec fn eq_spec(&self, other: &UtxoSet) -> bool {
        self@ == other@
    }
}

} // verus!
