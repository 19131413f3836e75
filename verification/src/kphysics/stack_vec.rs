use vstd::prelude::*;

verus! {

/// A list of at most `SIZE` items kept in an array.
pub struct StackVec<T, const SIZE: usize> {
    items: [T; SIZE],
    count: usize,
}

impl<T: Copy, const SIZE: usize> StackVec<T, SIZE> {
    /// All `SIZE` slots, the unused ones included.
    pub closed spec fn slots(&self) -> Seq<T> {
        self.items@
    }

    /// How many items are in use.
    pub closed spec fn count(&self) -> int {
        self.count as int
    }

    /// An empty list whose slots hold `fill`.
    pub fn new(fill: T) -> (r: Self)
        ensures
            r.count() == 0,
            r.slots() == Seq::new(SIZE as nat, |i: int| fill),
    {
        let items = vstd::array::array_fill_for_copy_types::<T, SIZE>(fill);
        proof {
            broadcast use vstd::array::axiom_spec_array_fill_for_copy_type;
        }
        let r = StackVec { items, count: 0 };
        assert(r.items@ =~= Seq::new(SIZE as nat, |i: int| fill));
        r
    }

    /// All slots, as the list dereferences to.
    pub fn deref(&self) -> (r: &[T; SIZE])
        ensures
            r@ == self.slots(),
    {
        &self.items
    }

    /// Puts `item` in the next free slot.
    pub fn push(&mut self, item: T)
        requires
            old(self).count() < SIZE,
        ensures
            final(self).count() == old(self).count() + 1,
            final(self).slots() == old(self).slots().update(old(self).count(), item),
    {
        self.items[self.count] = item;
        self.count += 1;
    }

    /// Moves the items after `index` one slot towards the front (all slots
    /// up to `SIZE`, not only those in use) and counts one item fewer.
    pub fn remove(&mut self, index: usize)
        requires
            old(self).count() >= 1,
            index < usize::MAX,
        ensures
            final(self).count() == old(self).count() - 1,
            final(self).slots() == Seq::new(
                SIZE as nat,
                |i: int|
                    if index <= i < SIZE - 1 {
                        old(self).slots()[i + 1]
                    } else {
                        old(self).slots()[i]
                    },
            ),
    {
        let mut i = index + 1;
        while i < SIZE
            invariant
                index + 1 <= i,
                i <= SIZE || i == index + 1,
                self.count == old(self).count,
                self.items@.len() == SIZE,
                forall|k: int|
                    0 <= k < SIZE ==> #[trigger] self.items@[k] == if index <= k < i - 1 {
                        old(self).items@[k + 1]
                    } else {
                        old(self).items@[k]
                    },
            decreases SIZE - i,
        {
            let ghost before = self.items@;
            self.items[i - 1] = self.items[i];
            proof {
                assert forall|k: int| 0 <= k < SIZE implies #[trigger] self.items@[k] == if index <= k < i {
                    old(self).items@[k + 1]
                } else {
                    old(self).items@[k]
                } by {
                    if k != i - 1 {
                        assert(self.items@[k] == before[k]);
                    } else {
                        assert(before[i as int] == old(self).items@[i as int]);
                    }
                }
            }
            i += 1;
        }
        self.count -= 1;
        assert(self.items@ =~= Seq::new(
            SIZE as nat,
            |k: int|
                if index <= k < SIZE - 1 {
                    old(self).items@[k + 1]
                } else {
                    old(self).items@[k]
                },
        ));
    }
}

} // verus!
