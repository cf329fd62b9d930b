//! Iteration over the occupied slots of a [`VecGrow`], skipping holes.

use vstd::prelude::*;

use crate::VecGrow;
use crate::live_seq;
use crate::next_live;

verus! {

/// An iterator over shared references to the occupied slots of a
/// [`VecGrow`], in ascending index order, skipping holes.
pub struct Iter<'a, T> {
    counter: usize,
    inner: &'a VecGrow<T>,
}

impl<'a, T> Iter<'a, T> {
    /// The slot sequence being iterated.
    pub closed spec fn slots(self) -> Seq<Option<T>> {
        self.inner.slots()
    }

    /// The current cursor position in the slot sequence.
    pub closed spec fn cursor(self) -> int {
        self.counter as int
    }

    /// The cursor never runs past the end of the slot sequence.
    pub open spec fn wf(self) -> bool {
        0 <= self.cursor() <= self.slots().len()
    }

    /// The values this iterator has yet to yield, in order.
    pub open spec fn remaining(self) -> Seq<T> {
        live_seq(self.slots().skip(self.cursor()))
    }

    /// Creates an iterator positioned at the first slot of `data`.
    pub fn new(data: &'a VecGrow<T>) -> (r: Self)
        ensures
            r.wf(),
            r.slots() == data.slots(),
            r.cursor() == 0,
            r.remaining() == live_seq(data.slots()),
    {
        proof {
            assert(data.slots().skip(0) =~= data.slots());
        }
        Self { counter: 0, inner: data }
    }

    /// Yields a reference to the next occupied slot at or after the
    /// cursor, advancing past any holes, or `None` once every remaining
    /// slot has been visited.
    pub fn next(&mut self) -> (r: Option<&'a T>)
        requires
            old(self).wf(),
        ensures
            final(self).wf(),
            final(self).slots() == old(self).slots(),
            old(self).remaining().len() > 0 ==> (r matches Some(x) && *x == old(self).remaining()[0]
                && final(self).remaining() == old(self).remaining().skip(1)),
            old(self).remaining().len() == 0 ==> r is None && final(self).remaining() == old(
                self,
            ).remaining(),
    {
        let inner: &'a VecGrow<T> = self.inner;
        let ghost s = inner.slots();
        let ghost c0 = self.counter as int;
        loop
            invariant
                self.inner == inner,
                inner == old(self).inner,
                s == inner.slots(),
                c0 == old(self).counter as int,
                c0 <= self.counter <= s.len(),
                live_seq(s.skip(self.counter as int)) == live_seq(s.skip(c0)),
            decreases s.len() - self.counter,
        {
            if self.counter >= inner.len() {
                proof {
                    assert(s.skip(self.counter as int) =~= Seq::<Option<T>>::empty());
                }
                return None;
            }
            let i = self.counter;
            self.counter = i + 1;
            proof {
                assert(s.skip(i as int).skip(1) =~= s.skip(i as int + 1));
                assert(s.skip(i as int)[0] == s[i as int]);
            }
            match inner.get(i) {
                Ok(slot) => match slot {
                    Some(x) => {
                        proof {
                            assert(live_seq(s.skip(i as int)) == seq![s[i as int]->0] + live_seq(
                                s.skip(i as int + 1),
                            ));
                            assert((seq![s[i as int]->0] + live_seq(s.skip(i as int + 1))).skip(1)
                                =~= live_seq(s.skip(i as int + 1)));
                        }
                        return Some(x);
                    },
                    None => {},
                },
                Err(_) => {
                    proof {
                        assert(false);
                    }
                },
            }
        }
    }
}

/// A cursor over the occupied slots of a [`VecGrow`], granting mutable
/// access to one element at a time, in ascending index order, skipping
/// holes. The store is not held by the cursor: each call to `next`
/// borrows it afresh, and the cursor only remembers how far it has come.
pub struct IterMut {
    counter: usize,
}

impl IterMut {
    /// The next slot index this cursor will look at.
    pub closed spec fn cursor(self) -> int {
        self.counter as int
    }

    /// Creates a cursor positioned at the first slot of `data`.
    pub fn new<T>(data: &mut VecGrow<T>) -> (r: Self)
        ensures
            r.cursor() == 0,
            *final(data) == *old(data),
    {
        Self { counter: 0 }
    }

    /// Hands out a mutable reference to the next occupied slot of
    /// `data` at or after the cursor, advancing past any holes, or
    /// `None` once every remaining slot has been visited. The slot
    /// stays occupied, so `data` remains well formed whatever the
    /// caller writes through the reference.
    pub fn next<'a, T>(&mut self, data: &'a mut VecGrow<T>) -> (r: Option<&'a mut T>)
        ensures
            final(data).free() == old(data).free(),
            old(data).wf() ==> final(data).wf(),
            ({
                let j = next_live(old(data).slots(), old(self).cursor());
                &&& (r is Some <==> j < old(data).slots().len())
                &&& (r matches Some(x) ==> *x == old(data).slots()[j]->0 && final(data).slots()
                    == old(data).slots().update(j, Some(*final(x))) && final(self).cursor() == j
                    + 1)
                &&& (r is None ==> final(data).slots() == old(data).slots() && final(self).cursor()
                    == j)
            }),
    {
        let ghost s = data.slots();
        let ghost c = self.counter as int;
        if self.counter >= data.len() {
            return None;
        }
        let mut i = self.counter;
        loop
            invariant
                c == old(self).counter as int,
                self.counter == old(self).counter,
                *data == *old(data),
                s == old(data).slots(),
                c <= i <= s.len(),
                next_live(s, i as int) == next_live(s, c),
            ensures
                self.counter == old(self).counter,
                *data == *old(data),
                c <= i < s.len(),
                s[i as int] is Some,
                next_live(s, c) == i as int,
            decreases s.len() - i,
        {
            if i >= data.len() {
                self.counter = i;
                return None;
            }
            let occupied = match data.get(i) {
                Ok(slot) => slot.is_some(),
                Err(_) => false,
            };
            if occupied {
                break;
            }
            i = i + 1;
        }
        self.counter = i + 1;
        match data.get_mut(i) {
            Ok(Some(x)) => Some(x),
            _ => {
                proof {
                    assert(false);
                }
                None
            },
        }
    }
}

} // verus!
