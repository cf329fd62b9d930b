//! A growable vector of slots with stable indices.
//!
//! `VecGrow` behaves like a `Vec` whose backing storage never shrinks.
//! Removing an element leaves a hole behind and records its index on a
//! free list; a later `push` reuses the most recently freed index (LIFO)
//! before appending a new slot. An element's index therefore stays valid
//! until the element itself is removed.

use vstd::prelude::*;

mod iter;

pub use iter::Iter;
pub use iter::IterMut;

verus! {

/// The subsequence of values held by the occupied slots, in index order.
pub open spec fn live_seq<T>(s: Seq<Option<T>>) -> Seq<T>
    decreases s.len(),
{
    if s.len() == 0 {
        Seq::empty()
    } else if s[0] is Some {
        seq![s[0]->0] + live_seq(s.skip(1))
    } else {
        live_seq(s.skip(1))
    }
}

/// The slot sequence after a push: the most recently freed slot is
/// overwritten when one exists, and a new slot is appended otherwise.
pub open spec fn pushed_slots<T>(s: Seq<Option<T>>, f: Seq<usize>, v: T) -> Seq<Option<T>> {
    if f.len() == 0 {
        s.push(Some(v))
    } else {
        s.update(f.last() as int, Some(v))
    }
}

/// The free list after a push: its most recent entry is consumed when
/// one exists.
pub open spec fn pushed_free(f: Seq<usize>) -> Seq<usize> {
    if f.len() == 0 {
        f
    } else {
        f.drop_last()
    }
}

/// The index that a push assigns to its value.
pub open spec fn push_target<T>(s: Seq<Option<T>>, f: Seq<usize>) -> int {
    if f.len() == 0 {
        s.len() as int
    } else {
        f.last() as int
    }
}

/// The slot sequence after an in-bounds removal: the slot is emptied if
/// it was occupied, and left alone if it was already a hole.
pub open spec fn removed_slots<T>(s: Seq<Option<T>>, i: usize) -> Seq<Option<T>> {
    if s[i as int] is Some {
        s.update(i as int, None)
    } else {
        s
    }
}

/// The free list after an in-bounds removal: the freed index is recorded
/// once; removing an index that is already a hole records nothing.
pub open spec fn removed_free<T>(s: Seq<Option<T>>, f: Seq<usize>, i: usize) -> Seq<usize> {
    if s[i as int] is Some {
        f.push(i)
    } else {
        f
    }
}

/// Appending an occupied slot appends its value to the live sequence.
proof fn lemma_live_seq_push_some<T>(s: Seq<Option<T>>, v: T)
    ensures
        live_seq(s.push(Some(v))) == live_seq(s).push(v),
    decreases s.len(),
{
    let s2 = s.push(Some(v));
    if s.len() == 0 {
        assert(s2.skip(1) =~= Seq::<Option<T>>::empty());
        assert(live_seq(Seq::<Option<T>>::empty()) =~= Seq::<T>::empty());
        assert(live_seq(s2) =~= live_seq(s).push(v));
    } else {
        assert(s2.skip(1) =~= s.skip(1).push(Some(v)));
        lemma_live_seq_push_some(s.skip(1), v);
        if s[0] is Some {
            assert(live_seq(s2) =~= live_seq(s).push(v));
        }
    }
}

/// Overwriting one slot changes the length of the live sequence exactly
/// by the change in occupancy of that slot.
proof fn lemma_live_seq_update_len<T>(s: Seq<Option<T>>, i: int, x: Option<T>)
    requires
        0 <= i < s.len(),
    ensures
        live_seq(s.update(i, x)).len() + (if s[i] is Some {
            1int
        } else {
            0int
        }) == live_seq(s).len() + (if x is Some {
            1int
        } else {
            0int
        }),
    decreases s.len(),
{
    let s2 = s.update(i, x);
    if i == 0 {
        assert(s2.skip(1) =~= s.skip(1));
    } else {
        assert(s2.skip(1) =~= s.skip(1).update(i - 1, x));
        lemma_live_seq_update_len(s.skip(1), i - 1, x);
    }
}

/// The first index at or after `i` whose slot is occupied, or
/// `s.len()` when every slot from `i` on is a hole. An `i` at or past
/// the end is returned unchanged.
pub open spec fn next_live<T>(s: Seq<Option<T>>, i: int) -> int
    decreases s.len() - i,
{
    if 0 <= i < s.len() {
        if s[i] is Some {
            i
        } else {
            next_live(s, i + 1)
        }
    } else {
        i
    }
}

/// Error returned by the bounds-checked operations when the index is
/// at or past the end of the slot sequence.
#[derive(Clone, Copy, Debug, PartialEq, Eq)]
pub struct OutOfBounds;

/// A growable vector of slots. Slots are never deallocated: removal
/// empties a slot and records it for reuse, so the indices of the other
/// elements are unchanged.
pub struct VecGrow<T> {
    free_idxs: Vec<usize>,
    objects: Vec<Option<T>>,
}

impl<T> VecGrow<T> {
    /// The slot sequence: one `Option<T>` per slot, `None` for a hole.
    pub closed spec fn slots(self) -> Seq<Option<T>> {
        self.objects@
    }

    /// The free list: indices of holes, in the order they were freed.
    pub closed spec fn free(self) -> Seq<usize> {
        self.free_idxs@
    }

    /// Well-formedness: the free list holds exactly the holes, each once.
    pub open spec fn wf(self) -> bool {
        &&& forall|i: int|
            0 <= i < self.free().len() ==> self.free()[i] < self.slots().len()
                && self.slots()[self.free()[i] as int] is None
        &&& forall|i: int, j: int|
            0 <= i < j < self.free().len() ==> self.free()[i] != self.free()[j]
        &&& forall|k: usize|
            k < self.slots().len() && self.slots()[k as int] is None ==> self.free().contains(k)
        &&& live_seq(self.slots()).len() + self.free().len() == self.slots().len()
    }

    /// Number of occupied slots.
    pub open spec fn spec_count(self) -> nat {
        live_seq(self.slots()).len()
    }

    /// Creates an empty store with no slots and no free indices.
    pub fn new() -> (r: Self)
        ensures
            r.wf(),
            r.slots() == Seq::<Option<T>>::empty(),
            r.free() == Seq::<usize>::empty(),
    {
        Self { free_idxs: Vec::new(), objects: Vec::new() }
    }

    /// Stores `value` in the most recently freed slot, or in a newly
    /// appended slot when no hole is available. The indices of all other
    /// elements are unchanged.
    pub fn push(&mut self, value: T)
        requires
            old(self).wf(),
        ensures
            final(self).wf(),
            final(self).slots() == pushed_slots(old(self).slots(), old(self).free(), value),
            final(self).free() == pushed_free(old(self).free()),
            final(self).slots()[push_target(old(self).slots(), old(self).free())] == Some(value),
            final(self).spec_count() == old(self).spec_count() + 1,
            forall|j: int|
                0 <= j < old(self).slots().len() && old(self).slots()[j] is Some
                    ==> final(self).slots()[j] == old(self).slots()[j],
    {
        let ghost s = self.objects@;
        let ghost f = self.free_idxs@;
        if self.free_idxs.len() > 0 {
            let last_index = self.free_idxs[self.free_idxs.len() - 1];
            self.objects[last_index] = Some(value);
            self.free_idxs.pop();
            proof {
                lemma_live_seq_update_len(s, last_index as int, Some(value));
                assert(self.free_idxs@ =~= f.drop_last());
                assert forall|k: usize|
                    k < self.objects@.len() && self.objects@[k as int] is None implies self
                    .free_idxs@.contains(k) by {
                    assert(self.objects@[last_index as int] == Some(value));
                    assert(k != last_index);
                    assert(s[k as int] is None);
                    assert(f.contains(k));
                    let idx = choose|idx: int| 0 <= idx < f.len() && f[idx] == k;
                    assert(f[f.len() - 1] == last_index);
                    assert(idx != f.len() - 1);
                    assert(self.free_idxs@[idx] == k);
                }
            }
        } else {
            self.objects.push(Some(value));
            proof {
                lemma_live_seq_push_some(s, value);
            }
        }
    }

    /// Empties the slot at `index` and records the index for reuse.
    /// Removing a hole again is a no-op: the free list is not given a
    /// duplicate entry. Fails when `index` is at or past `len()`.
    pub fn remove(&mut self, index: usize) -> (r: Result<(), OutOfBounds>)
        requires
            old(self).wf(),
        ensures
            final(self).wf(),
            r is Ok <==> index < old(self).slots().len(),
            index < old(self).slots().len() ==> final(self).slots() == removed_slots(
                old(self).slots(),
                index,
            ) && final(self).free() == removed_free(old(self).slots(), old(self).free(), index),
            index >= old(self).slots().len() ==> r == Err::<(), OutOfBounds>(OutOfBounds)
                && *final(self) == *old(self),
            index < old(self).slots().len() && old(self).slots()[index as int] is Some
                ==> final(self).spec_count() + 1 == old(self).spec_count(),
    {
        if index >= self.objects.len() {
            return Err(OutOfBounds);
        }
        let ghost s = self.objects@;
        let ghost f = self.free_idxs@;
        if self.objects[index].is_some() {
            self.free_idxs.push(index);
            self.objects[index] = None;
            proof {
                lemma_live_seq_update_len(s, index as int, None);
                assert forall|k: usize|
                    k < self.objects@.len() && self.objects@[k as int] is None implies self
                    .free_idxs@.contains(k) by {
                    if k == index {
                        assert(self.free_idxs@[f.len() as int] == index);
                    } else {
                        assert(s[k as int] is None);
                        assert(f.contains(k));
                        let idx = choose|idx: int| 0 <= idx < f.len() && f[idx] == k;
                        assert(self.free_idxs@[idx] == k);
                    }
                }
            }
        }
        Ok(())
    }

    /// Bounds-checked read of the slot at `index`: a reference to
    /// `Some` value for an occupied slot, to `None` for a hole.
    /// Fails when `index` is at or past `len()`.
    pub fn get(&self, index: usize) -> (r: Result<&Option<T>, OutOfBounds>)
        ensures
            r is Ok <==> index < self.slots().len(),
            index < self.slots().len() ==> (r matches Ok(slot) && *slot == self.slots()[index as int]),
            index >= self.slots().len() ==> r == Err::<&Option<T>, OutOfBounds>(OutOfBounds),
    {
        if index < self.objects.len() {
            Ok(&self.objects[index])
        } else {
            Err(OutOfBounds)
        }
    }

    /// Bounds-checked mutable access to the element at `index`: a
    /// mutable reference to the value for an occupied slot, `None` for
    /// a hole. Fails when `index` is at or past `len()`. The slot stays
    /// occupied, so well-formedness is kept whatever the caller writes
    /// through the reference.
    pub fn get_mut(&mut self, index: usize) -> (r: Result<Option<&mut T>, OutOfBounds>)
        ensures
            r is Ok <==> index < old(self).slots().len(),
            index >= old(self).slots().len() ==> final(self).slots() == old(self).slots()
                && final(self).free() == old(self).free(),
            index < old(self).slots().len() && old(self).slots()[index as int] is None ==> (
            r matches Ok(inner) && inner is None && final(self).slots() == old(self).slots()
                && final(self).free() == old(self).free()),
            index < old(self).slots().len() && old(self).slots()[index as int] is Some ==> (
            r matches Ok(inner) && inner matches Some(x) && *x == old(self).slots()[index as int]->0
                && final(self).slots() == old(self).slots().update(index as int, Some(*final(x)))
                && final(self).free() == old(self).free()),
            old(self).wf() ==> final(self).wf(),
    {
        if index >= self.objects.len() {
            return Err(OutOfBounds);
        }
        let ghost s = self.objects@;
        match &mut self.objects[index] {
            Some(x) => {
                proof {
                    lemma_live_seq_update_len(s, index as int, Some(*final(x)));
                }
                Ok(Some(x))
            },
            None => {
                proof {
                    assert(s.update(index as int, s[index as int]) =~= s);
                }
                Ok(None)
            },
        }
    }

    /// Total number of slots, holes included.
    pub fn len(&self) -> (r: usize)
        ensures
            r == self.slots().len(),
    {
        self.objects.len()
    }

    /// Number of occupied slots, holes excluded.
    pub fn count(&self) -> (r: usize)
        requires
            self.wf(),
        ensures
            r == self.slots().len() - self.free().len(),
            r == self.spec_count(),
    {
        self.objects.len() - self.free_idxs.len()
    }

    /// Creates an iterator over shared references to the occupied
    /// slots, in ascending index order, skipping holes.
    pub fn iter<'a>(&'a self) -> (r: Iter<'a, T>)
        ensures
            r.wf(),
            r.slots() == self.slots(),
            r.cursor() == 0,
            r.remaining() == live_seq(self.slots()),
    {
        Iter::new(self)
    }

    /// Creates a cursor granting mutable access to the occupied slots,
    /// in ascending index order, skipping holes. The store itself is
    /// handed to each call of [`IterMut::next`].
    pub fn iter_mut(&mut self) -> (r: IterMut)
        ensures
            r.cursor() == 0,
            *final(self) == *old(self),
    {
        IterMut::new(self)
    }

    /// Builds a store by pushing every element of `values` in order:
    /// slot `k` holds the `k`-th value and there are no holes.
    pub fn from_values(values: Vec<T>) -> (r: Self)
        ensures
            r.wf(),
            r.free().len() == 0,
            r.slots().len() == values@.len(),
            forall|k: int| 0 <= k < values@.len() ==> r.slots()[k] == Some(values@[k]),
            live_seq(r.slots()) == values@,
    {
        let ghost orig = values@;
        let mut vals = values;
        let mut vg = Self::new();
        while vals.len() > 0
            invariant
                vg.wf(),
                vg.free().len() == 0,
                vals@.len() <= orig.len(),
                vals@ == orig.skip(orig.len() - vals@.len()),
                vg.slots().len() == orig.len() - vals@.len(),
                forall|k: int|
                    0 <= k < vg.slots().len() ==> vg.slots()[k] == Some(orig[k]),
                live_seq(vg.slots()) == orig.take(orig.len() - vals@.len()),
            decreases vals@.len(),
        {
            let ghost done = orig.len() - vals@.len();
            let v = vals.remove(0);
            proof {
                assert(v == orig[done]);
                assert(vals@ =~= orig.skip(orig.len() - vals@.len()));
                lemma_live_seq_push_some(vg.slots(), v);
                assert(orig.take(done).push(orig[done]) =~= orig.take(done + 1));
            }
            vg.push(v);
        }
        proof {
            assert(orig.take(orig.len() as int) =~= orig);
        }
        vg
    }

    /// Builds a store of `count` slots, each holding a copy of `value`.
    pub fn repeat(value: T, count: usize) -> (r: Self) where T: Copy
        ensures
            r.wf(),
            r.free().len() == 0,
            r.slots().len() == count,
            forall|k: int| 0 <= k < count ==> r.slots()[k] == Some(value),
    {
        let mut vg = Self::new();
        let mut n: usize = 0;
        while n < count
            invariant
                n <= count,
                vg.wf(),
                vg.free().len() == 0,
                vg.slots().len() == n,
                forall|k: int| 0 <= k < n ==> vg.slots()[k] == Some(value),
            decreases count - n,
        {
            vg.push(value);
            n = n + 1;
        }
        vg
    }

    /// True when no slot is occupied: every slot, if any, is a hole.
    pub fn is_empty(&self) -> (r: bool)
        requires
            self.wf(),
        ensures
            r == (self.spec_count() == 0),
            r == (self.free().len() == self.slots().len()),
    {
        self.free_idxs.len() == self.len()
    }
}

/// The count invariant: in a well-formed store the number of live
/// elements is the total slot count minus the free-list length, so
/// `count()` names exactly the occupied slots.
pub proof fn lemma_count_invariant<T>(vg: VecGrow<T>)
    requires
        vg.wf(),
    ensures
        vg.spec_count() == vg.slots().len() - vg.free().len(),
{
}

/// Slot reuse: removing the element at `i` and then pushing `v`
/// stores `v` in slot `i` again, grows nothing, and restores the free
/// list, because the push reuses the most recently freed index.
pub proof fn lemma_slot_reuse<T>(s: Seq<Option<T>>, f: Seq<usize>, i: usize, v: T)
    requires
        i < s.len(),
        s[i as int] is Some,
    ensures
        ({
            let s1 = removed_slots(s, i);
            let f1 = removed_free(s, f, i);
            &&& push_target(s1, f1) == i as int
            &&& pushed_slots(s1, f1, v) == s.update(i as int, Some(v))
            &&& pushed_slots(s1, f1, v).len() == s.len()
            &&& pushed_slots(s1, f1, v)[i as int] == Some(v)
            &&& pushed_free(f1) == f
        }),
{
    let s1 = removed_slots(s, i);
    let f1 = removed_free(s, f, i);
    assert(f1.last() == i);
    assert(f1.drop_last() =~= f);
    assert(s1.update(i as int, Some(v)) =~= s.update(i as int, Some(v)));
}

} // verus!
