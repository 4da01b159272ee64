//! A dense, index-stable store of records of one element type.
//!
//! A `Bag` hands out a stable slot index for every record added to it.
//! Removal marks a slot unused without shifting any other record, so indices
//! stay valid for the whole life of the store; the owner may later refill a
//! marked slot.  The length reports live records only, and the reported
//! capacity never shrinks.

use vstd::prelude::*;

verus! {

/// Number of live (filled) slots in a sequence of records.
pub open spec fn live_count<T>(s: Seq<Option<T>>) -> nat
    decreases s.len(),
{
    if s.len() == 0 {
        0
    } else {
        live_count(s.drop_last()) + if s.last() is Some {
            1nat
        } else {
            0nat
        }
    }
}

pub proof fn lemma_live_count_le_len<T>(s: Seq<Option<T>>)
    ensures
        live_count(s) <= s.len(),
    decreases s.len(),
{
    if s.len() > 0 {
        lemma_live_count_le_len(s.drop_last());
    }
}

pub proof fn lemma_live_count_push<T>(s: Seq<Option<T>>, x: Option<T>)
    ensures
        live_count(s.push(x)) == live_count(s) + if x is Some {
            1nat
        } else {
            0nat
        },
{
    assert(s.push(x).drop_last() =~= s);
    assert(s.push(x).last() == x);
}

pub proof fn lemma_live_count_update<T>(s: Seq<Option<T>>, i: int, x: Option<T>)
    requires
        0 <= i < s.len(),
    ensures
        live_count(s.update(i, x)) + if s[i] is Some {
            1nat
        } else {
            0nat
        } == live_count(s) + if x is Some {
            1nat
        } else {
            0nat
        },
    decreases s.len(),
{
    let t = s.update(i, x);
    if i == s.len() - 1 {
        assert(t.drop_last() =~= s.drop_last());
        assert(t.last() == x);
    } else {
        assert(t.drop_last() =~= s.drop_last().update(i, x));
        assert(t.last() == s.last());
        lemma_live_count_update(s.drop_last(), i, x);
    }
}

/// Dense store of fixed-size records of a single element type.
///
/// Each record sits in a slot; a slot holds either a live record or nothing.
/// Adding always returns a stable slot index, and marking a slot unused never
/// moves other records.
pub struct Bag<T> {
    records: Vec<Option<T>>,
    live: usize,
    cap: usize,
}

impl<T> View for Bag<T> {
    type V = Seq<Option<T>>;

    closed spec fn view(&self) -> Seq<Option<T>> {
        self.records@
    }
}

impl<T> Bag<T> {
    /// The store's bookkeeping is coherent: the cached live count matches the
    /// records, and the reported capacity covers every slot.
    pub open spec fn wf(&self) -> bool {
        &&& self.live_records() == live_count(self@)
        &&& live_count(self@) <= self@.len() <= self.spec_capacity()
    }

    /// The cached number of live records.
    pub closed spec fn live_records(&self) -> nat {
        self.live as nat
    }

    /// The number of live records.
    pub open spec fn spec_len(&self) -> nat {
        live_count(self@)
    }

    /// The reported record capacity.
    pub closed spec fn spec_capacity(&self) -> nat {
        self.cap as nat
    }

    /// Make an empty store.
    pub fn new() -> (bag: Bag<T>)
        ensures
            bag.wf(),
            bag@ =~= Seq::<Option<T>>::empty(),
            bag.spec_capacity() == 0,
    {
        Bag::with_capacity(0)
    }

    /// Make an empty store that reports room for `capacity` records.
    pub fn with_capacity(capacity: usize) -> (bag: Bag<T>)
        ensures
            bag.wf(),
            bag@ =~= Seq::<Option<T>>::empty(),
            bag.spec_capacity() == capacity,
    {
        let bag = Bag { records: Vec::with_capacity(capacity), live: 0, cap: capacity };
        proof {
            assert(live_count(bag.records@) == 0);
        }
        bag
    }

    /// The number of live records in the store.
    pub fn len(&self) -> (n: usize)
        requires
            self.wf(),
        ensures
            n == self.spec_len(),
    {
        self.live
    }

    /// The number of records the store reports room for.  It never shrinks.
    pub fn capacity(&self) -> (n: usize)
        ensures
            n == self.spec_capacity(),
    {
        self.cap
    }

    /// Whether the store holds no live record.
    pub fn is_empty(&self) -> (empty: bool)
        requires
            self.wf(),
        ensures
            empty == (self.spec_len() == 0),
    {
        self.live == 0
    }

    /// Append one unused slot and return its index.
    fn allocate_index(&mut self) -> (index: usize)
        requires
            old(self).wf(),
        ensures
            final(self).wf(),
            index == old(self)@.len(),
            final(self)@ == old(self)@.push(None),
            final(self).spec_len() == old(self).spec_len(),
            final(self).spec_capacity() >= old(self).spec_capacity(),
    {
        let index = self.records.len();
        self.records.push(None);
        if self.cap < self.records.len() {
            self.cap = self.records.len();
        }
        proof {
            lemma_live_count_push(old(self)@, None);
        }
        index
    }

    /// Add a record to the store and return its fresh slot index.
    pub fn add(&mut self, value: T) -> (index: usize)
        requires
            old(self).wf(),
        ensures
            final(self).wf(),
            index == old(self)@.len(),
            final(self)@ == old(self)@.push(Some(value)),
            final(self).spec_len() == old(self).spec_len() + 1,
            final(self).spec_capacity() >= old(self).spec_capacity(),
    {
        let index = self.allocate_index();
        self.fill(index, value);
        proof {
            assert(final(self)@ =~= old(self)@.push(Some(value)));
        }
        index
    }

    /// Write a record into a slot that is currently unused.
    pub fn fill(&mut self, index: usize, value: T)
        requires
            old(self).wf(),
            index < old(self)@.len(),
            old(self)@[index as int] is None,
        ensures
            final(self).wf(),
            final(self)@ == old(self)@.update(index as int, Some(value)),
            final(self).spec_len() == old(self).spec_len() + 1,
            final(self).spec_capacity() == old(self).spec_capacity(),
    {
        proof {
            lemma_live_count_update(self.records@, index as int, Some(value));
            lemma_live_count_le_len(self.records@.update(index as int, Some(value)));
        }
        let slot = &mut self.records[index];
        *slot = Some(value);
        self.live = self.live + 1;
    }

    /// Overwrite the live record at a slot with a new value.
    pub fn set(&mut self, index: usize, value: T)
        requires
            old(self).wf(),
            index < old(self)@.len(),
            old(self)@[index as int] is Some,
        ensures
            final(self).wf(),
            final(self)@ == old(self)@.update(index as int, Some(value)),
            final(self).spec_len() == old(self).spec_len(),
            final(self).spec_capacity() == old(self).spec_capacity(),
    {
        proof {
            lemma_live_count_update(self.records@, index as int, Some(value));
        }
        let slot = &mut self.records[index];
        *slot = Some(value);
    }

    /// Copy out the live record at a slot.
    pub fn get(&self, index: usize) -> (value: T) where T: Copy
        requires
            index < self@.len(),
            self@[index as int] is Some,
        ensures
            self@[index as int] == Some(value),
    {
        match &self.records[index] {
            Some(value) => *value,
            None => unreached(),
        }
    }

    /// Borrow the live record at a slot.
    pub fn borrow(&self, index: usize) -> (value: &T)
        requires
            index < self@.len(),
            self@[index as int] is Some,
        ensures
            self@[index as int] == Some(*value),
    {
        match &self.records[index] {
            Some(value) => value,
            None => unreached(),
        }
    }

    /// Borrow the live record at a slot mutably.
    pub fn borrow_mut(&mut self, index: usize) -> (value: &mut T)
        requires
            old(self).wf(),
            index < old(self)@.len(),
            old(self)@[index as int] is Some,
        ensures
            Some(*value) == old(self)@[index as int],
            final(self)@ == old(self)@.update(index as int, Some(*final(value))),
            final(self).wf(),
            final(self).spec_len() == old(self).spec_len(),
            final(self).spec_capacity() == old(self).spec_capacity(),
    {
        proof {
            assert forall|t: T|
                live_count(old(self)@.update(index as int, Some(t))) == live_count(
                    old(self)@,
                ) by {
                lemma_live_count_update(old(self)@, index as int, Some(t));
            }
        }
        let slot = &mut self.records[index];
        match slot {
            Some(value) => value,
            None => unreached(),
        }
    }

    /// Mark the slot at `index` unused, dropping its record.  No other slot
    /// moves; the owner may refill the slot later.
    pub fn remove_marks(&mut self, index: usize)
        requires
            old(self).wf(),
            index < old(self)@.len(),
            old(self)@[index as int] is Some,
        ensures
            final(self).wf(),
            final(self)@ == old(self)@.update(index as int, None),
            final(self).spec_len() == old(self).spec_len() - 1,
            final(self).spec_capacity() == old(self).spec_capacity(),
    {
        proof {
            lemma_live_count_update(self.records@, index as int, None::<T>);
        }
        let slot = &mut self.records[index];
        *slot = None;
        self.live = self.live - 1;
    }

    /// Drop every record and every slot.  The reported capacity stays.
    pub fn clear(&mut self)
        requires
            old(self).wf(),
        ensures
            final(self).wf(),
            final(self)@ =~= Seq::<Option<T>>::empty(),
            final(self).spec_len() == 0,
            final(self).spec_capacity() == old(self).spec_capacity(),
    {
        self.records.clear();
        self.live = 0;
    }
}

impl<T: Copy> Bag<T> {
    /// Convert the store into a vector of its records, in slot order.  Every
    /// slot must be live: a store with reclaimed slots has no full vector.
    pub fn into_vec(self) -> (values: Vec<T>)
        requires
            forall|i: int| 0 <= i < self@.len() ==> self@[i] is Some,
        ensures
            values@.len() == self@.len(),
            forall|i: int| 0 <= i < self@.len() ==> Some(values@[i]) == self@[i],
    {
        let mut values: Vec<T> = Vec::new();
        let mut taken: usize = 0;
        let total = self.records.len();
        while taken < total
            invariant
                total == self@.len(),
                forall|i: int| 0 <= i < self@.len() ==> self@[i] is Some,
                taken <= total,
                values@.len() == taken,
                forall|i: int| 0 <= i < taken ==> Some(values@[i]) == self@[i],
            decreases total - taken,
        {
            values.push(self.get(taken));
            taken = taken + 1;
        }
        values
    }

    /// Make a store filled with `length` copies of `value`.
    pub fn from_elem(length: usize, value: T) -> (bag: Bag<T>)
        ensures
            bag.wf(),
            bag@.len() == length,
            forall|i: int| 0 <= i < length ==> bag@[i] == Some(value),
            bag.spec_capacity() >= length,
    {
        let mut bag = Bag::with_capacity(length);
        let mut added: usize = 0;
        while added < length
            invariant
                bag.wf(),
                added <= length,
                bag@.len() == added,
                forall|i: int| 0 <= i < added ==> bag@[i] == Some(value),
                bag.spec_capacity() >= length,
            decreases length - added,
        {
            bag.add(value);
            added = added + 1;
        }
        bag
    }
}

/// Conversion of a whole collection of values into a dense store.
pub trait IntoBag<T>: View<V = Seq<T>> + Sized {
    /// Move every value into a fresh store, one live record per value, in
    /// order.
    fn into_bag(self) -> (bag: Bag<T>)
        ensures
            bag.wf(),
            bag@.len() == self@.len(),
            forall|i: int| 0 <= i < self@.len() ==> bag@[i] == Some(self@[i]),
    ;
}

impl<T: Copy> IntoBag<T> for Vec<T> {
    fn into_bag(self) -> (bag: Bag<T>)
        ensures
            bag.wf(),
            bag@.len() == self@.len(),
            forall|i: int| 0 <= i < self@.len() ==> bag@[i] == Some(self@[i]),
    {
        let mut bag = Bag::with_capacity(self.len());
        let mut taken: usize = 0;
        while taken < self.len()
            invariant
                bag.wf(),
                taken <= self@.len(),
                bag@.len() == taken,
                forall|i: int| 0 <= i < taken ==> bag@[i] == Some(self@[i]),
            decreases self@.len() - taken,
        {
            bag.add(self[taken]);
            taken = taken + 1;
        }
        bag
    }
}

/// One mutation of a dense store, as the length accounting sees it: the
/// addition of a record, or the attempt to remove the record of one slot.
pub enum StoreOp<T> {
    /// Append a record holding the value.
    Add(T),
    /// Mark the slot unused; successful only when the slot is live.
    Remove(usize),
}

/// The slots after a sequence of store operations.  An addition appends a
/// live record; a removal of a live slot marks it unused, and any other
/// removal is unsuccessful and changes nothing.
pub open spec fn store_after<T>(s: Seq<Option<T>>, ops: Seq<StoreOp<T>>) -> Seq<Option<T>>
    decreases ops.len(),
{
    if ops.len() == 0 {
        s
    } else {
        let rest = store_after(s, ops.drop_last());
        match ops.last() {
            StoreOp::Add(value) => rest.push(Some(value)),
            StoreOp::Remove(index) => if index < rest.len() && rest[index as int] is Some {
                rest.update(index as int, None)
            } else {
                rest
            },
        }
    }
}

/// The number of additions in a sequence of store operations.
pub open spec fn count_adds<T>(ops: Seq<StoreOp<T>>) -> nat
    decreases ops.len(),
{
    if ops.len() == 0 {
        0
    } else {
        count_adds(ops.drop_last()) + if ops.last() is Add {
            1nat
        } else {
            0nat
        }
    }
}

/// The number of successful removals when the operations run on `s`: those
/// that hit a live slot.
pub open spec fn count_removes<T>(s: Seq<Option<T>>, ops: Seq<StoreOp<T>>) -> nat
    decreases ops.len(),
{
    if ops.len() == 0 {
        0
    } else {
        let rest = store_after(s, ops.drop_last());
        count_removes(s, ops.drop_last()) + match ops.last() {
            StoreOp::Add(_) => 0nat,
            StoreOp::Remove(index) => if index < rest.len() && rest[index as int] is Some {
                1nat
            } else {
                0nat
            },
        }
    }
}

/// For every sequence of additions and removals, the number of live records
/// afterwards is the starting number plus the additions minus the successful
/// removals.  `Bag::add` and `Bag::remove_marks` perform exactly these steps
/// on the store's slots, and `Bag::len` reports the live count.
pub proof fn lemma_len_accounting<T>(s: Seq<Option<T>>, ops: Seq<StoreOp<T>>)
    ensures
        live_count(store_after(s, ops)) + count_removes(s, ops) == live_count(s) + count_adds(ops),
    decreases ops.len(),
{
    if ops.len() > 0 {
        lemma_len_accounting(s, ops.drop_last());
        let rest = store_after(s, ops.drop_last());
        match ops.last() {
            StoreOp::Add(value) => {
                lemma_live_count_push(rest, Some(value));
            },
            StoreOp::Remove(index) => {
                if index < rest.len() && rest[index as int] is Some {
                    lemma_live_count_update(rest, index as int, None::<T>);
                }
            },
        }
    }
}

/// A record written at a slot is exactly what a read of that slot sees, also
/// after a record at any other slot was added, overwritten or removed in
/// between.  This is the round-trip guarantee behind `Bag::fill`, `Bag::set`
/// and `Bag::get`: writes to one slot never bleed into another.
pub proof fn lemma_slot_round_trip<T>(s: Seq<Option<T>>, index: int, value: T, other: int, x: Option<T>)
    requires
        0 <= index < s.len(),
        0 <= other < s.len(),
        index != other,
    ensures
        s.update(index, Some(value)).update(other, x)[index] == Some(value),
        s.update(index, Some(value)).push(x)[index] == Some(value),
{
}

/// A slot that is marked unused and later refilled holds exactly the new
/// value, and no other slot moves: nothing of the removed record can be read
/// back.  This is the slot-reuse guarantee behind `Bag::remove_marks`
/// followed by `Bag::fill`.
pub proof fn lemma_slot_reuse<T>(s: Seq<Option<T>>, index: int, fresh: T)
    requires
        0 <= index < s.len(),
    ensures
        s.update(index, None).update(index, Some(fresh))[index] == Some(fresh),
        forall|j: int|
            0 <= j < s.len() && j != index ==> s.update(index, None).update(
                index,
                Some(fresh),
            )[j] == s[j],
{
}

} // verus!
