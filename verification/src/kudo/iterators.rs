use vstd::prelude::*;

verus! {

/// A cursor over the items of a vector.
pub struct VecIter<T> {
    items: Vec<T>,
    position: usize,
}

impl<T: Copy> VecIter<T> {
    /// The items still to come.
    pub closed spec fn remaining(&self) -> Seq<T> {
        self.items@.skip(self.position as int)
    }

    pub closed spec fn wf(&self) -> bool {
        self.position <= self.items@.len()
    }

    /// A cursor at the first of `items`.
    pub fn new(items: Vec<T>) -> (r: Self)
        ensures
            r.wf(),
            r.remaining() == items@,
    {
        let r = VecIter { items, position: 0 };
        assert(r.items@.skip(0) =~= r.items@);
        r
    }

    /// The next item, if any.
    pub fn next(&mut self) -> (r: Option<T>)
        requires
            old(self).wf(),
        ensures
            final(self).wf(),
            old(self).remaining().len() > 0 ==> r == Some(old(self).remaining()[0])
                && final(self).remaining() == old(self).remaining().drop_first(),
            old(self).remaining().len() == 0 ==> r is None && final(self).remaining() == old(self).remaining(),
    {
        if self.position < self.items.len() {
            let x = self.items[self.position];
            self.position += 1;
            assert(self.items@.skip(self.position as int) =~= old(self).remaining().drop_first());
            Some(x)
        } else {
            None
        }
    }

    /// How many items are still to come.
    pub fn len(&self) -> (r: usize)
        requires
            self.wf(),
        ensures
            r == self.remaining().len(),
    {
        self.items.len() - self.position
    }
}

/// The items of cursors one after the other.
pub open spec fn chained<T: Copy>(iters: Seq<VecIter<T>>) -> Seq<T>
    decreases iters.len(),
{
    if iters.len() == 0 {
        Seq::empty()
    } else {
        chained(iters.drop_last()) + iters.last().remaining()
    }
}

/// Every cursor of a list is well formed.
pub open spec fn all_wf<T: Copy>(iters: Seq<VecIter<T>>) -> bool {
    forall|i: int| 0 <= i < iters.len() ==> (#[trigger] iters[i]).wf()
}

/// A series of cursors that are traversed in a row: the current one, then
/// the others from the last of the list to the first.
pub struct ChainedIterator<T> {
    current_iter: Option<VecIter<T>>,
    iterators: Vec<VecIter<T>>,
}

impl<T: Copy> ChainedIterator<T> {
    /// The items still to come, in order.
    pub closed spec fn remaining(&self) -> Seq<T> {
        let first = match self.current_iter {
            Some(i) => i.remaining(),
            None => Seq::empty(),
        };
        first + chained(self.iterators@.reverse())
    }

    pub closed spec fn wf(&self) -> bool {
        &&& all_wf(self.iterators@)
        &&& self.current_iter matches Some(i) ==> i.wf()
    }

    /// Traverses the cursors from the last to the first.
    pub fn new(iterators: Vec<VecIter<T>>) -> (r: Self)
        requires
            all_wf(iterators@),
        ensures
            r.wf(),
            r.remaining() == chained(iterators@.reverse()),
            iterators@.len() == 0 ==> r.current() is None && r.waiting() == iterators@,
            iterators@.len() > 0 ==> r.current() == Some(iterators@.last()) && r.waiting()
                == iterators@.drop_last(),
    {
        let mut iterators = iterators;
        let ghost before = iterators@;
        let current_iter = iterators.pop();
        let r = ChainedIterator { current_iter, iterators };
        proof {
            if before.len() > 0 {
                lemma_chained_rev_pop(before);
            } else {
                assert(before.reverse() =~= Seq::<VecIter<T>>::empty());
            }
        }
        r
    }

    /// The next item of the current cursor, if it has one.
    fn next_of_current(&mut self) -> (r: Option<T>)
        requires
            old(self).wf(),
        ensures
            final(self).wf(),
            final(self).iterators == old(self).iterators,
            r is Some ==> old(self).remaining().len() > 0,
            old(self).remaining().len() > 0 && r is Some ==> r == Some(old(self).remaining()[0])
                && final(self).remaining() == old(self).remaining().drop_first(),
            r is None ==> final(self).remaining() == old(self).remaining() && final(self).remaining()
                == chained(final(self).iterators@.reverse()),
    {
        let ghost rest = chained(self.iterators@.reverse());
        match &mut self.current_iter {
            Some(iter) => {
                let r = iter.next();
                proof {
                    let a = old(self).current_iter->0.remaining();
                    if a.len() > 0 {
                        assert((a + rest).drop_first() =~= a.drop_first() + rest);
                    } else {
                        assert(a + rest =~= rest);
                    }
                }
                r
            },
            None => {
                assert(Seq::<T>::empty() + rest =~= rest);
                None
            },
        }
    }

    /// The next item: from the current cursor, or from the next cursor that
    /// has one.
    pub fn next(&mut self) -> (r: Option<T>)
        requires
            old(self).wf(),
        ensures
            final(self).wf(),
            old(self).remaining().len() > 0 ==> r == Some(old(self).remaining()[0])
                && final(self).remaining() == old(self).remaining().drop_first(),
            old(self).remaining().len() == 0 ==> r is None && final(self).remaining().len() == 0,
    {
        loop
            invariant
                self.wf(),
                self.remaining() == old(self).remaining(),
            decreases self.iterators@.len(),
        {
            let found = self.next_of_current();
            if let Some(v) = found {
                return Some(v);
            }
            let ghost list = self.iterators@;
            match self.iterators.pop() {
                Some(i) => {
                    proof {
                        lemma_chained_rev_pop(list);
                        assert(list[list.len() - 1] == list.last());
                    }
                    self.current_iter = Some(i);
                },
                None => {
                    assert(list.reverse() =~= Seq::<VecIter<T>>::empty());
                    return None;
                },
            }
        }
    }
}

/// How many items the cursors still hold in all.
pub open spec fn total_len<T: Copy>(iters: Seq<VecIter<T>>) -> int
    decreases iters.len(),
{
    if iters.len() == 0 {
        0
    } else {
        total_len(iters.drop_last()) + iters.last().remaining().len()
    }
}

impl<T: Copy> ChainedIterator<T> {
    /// The cursors that were not started yet.
    pub closed spec fn waiting(&self) -> Seq<VecIter<T>> {
        self.iterators@
    }

    /// The current cursor.
    pub closed spec fn current(&self) -> Option<VecIter<T>> {
        self.current_iter
    }

    /// How many items the cursors not started yet hold.
    fn waiting_len(&self) -> (r: usize)
        requires
            self.wf(),
            total_len(self.waiting()) <= usize::MAX,
        ensures
            r == total_len(self.waiting()),
    {
        let mut count: usize = 0;
        let mut k: usize = 0;
        while k < self.iterators.len()
            invariant
                k <= self.iterators@.len(),
                all_wf(self.iterators@),
                total_len(self.iterators@) <= usize::MAX,
                count == total_len(self.iterators@.take(k as int)),
            decreases self.iterators@.len() - k,
        {
            proof {
                assert(self.iterators@.take(k + 1).drop_last() =~= self.iterators@.take(k as int));
                lemma_total_len_prefix(self.iterators@, k + 1);
                assert(self.iterators@[k as int].wf());
            }
            count = count + self.iterators[k].len();
            k += 1;
        }
        assert(self.iterators@.take(self.iterators@.len() as int) =~= self.iterators@);
        count
    }

    /// The fewest and most items still to come; both are all the items of
    /// the current cursor and of the ones not started yet.
    pub fn size_hint(&self) -> (r: (usize, Option<usize>))
        requires
            self.wf(),
            self.remaining().len() <= usize::MAX,
        ensures
            r.0 == self.remaining().len(),
            r.1 == Some(self.remaining().len() as usize),
    {
        proof {
            lemma_chained_len(self.iterators@.reverse());
            lemma_total_len_reverse(self.iterators@);
        }
        let n = self.len();
        (n, Some(n))
    }

    /// How many items are still to come: those of the current cursor and
    /// of the cursors not started yet.
    pub fn len(&self) -> (r: usize)
        requires
            self.wf(),
            self.remaining().len() <= usize::MAX,
        ensures
            r == self.remaining().len(),
    {
        proof {
            lemma_chained_len(self.iterators@.reverse());
            lemma_total_len_reverse(self.iterators@);
        }
        let first = match &self.current_iter {
            Some(i) => i.len(),
            None => 0,
        };
        let rest = self.waiting_len();
        first + rest
    }
}

proof fn lemma_total_len_prefix<T: Copy>(iters: Seq<VecIter<T>>, k: int)
    requires
        0 <= k <= iters.len(),
    ensures
        0 <= total_len(iters.take(k)) <= total_len(iters),
    decreases iters.len() - k,
{
    if k < iters.len() {
        lemma_total_len_prefix(iters, k + 1);
        assert(iters.take(k + 1).drop_last() =~= iters.take(k));
        assert(total_len(iters.take(k + 1)) == total_len(iters.take(k)) + iters.take(k + 1).last().remaining().len());
        lemma_total_len_nonneg(iters.take(k));
    } else {
        assert(iters.take(k) =~= iters);
        lemma_total_len_nonneg(iters);
    }
}

proof fn lemma_total_len_nonneg<T: Copy>(iters: Seq<VecIter<T>>)
    ensures
        0 <= total_len(iters),
    decreases iters.len(),
{
    if iters.len() > 0 {
        lemma_total_len_nonneg(iters.drop_last());
    }
}

proof fn lemma_chained_len<T: Copy>(iters: Seq<VecIter<T>>)
    ensures
        chained(iters).len() == total_len(iters),
    decreases iters.len(),
{
    if iters.len() > 0 {
        lemma_chained_len(iters.drop_last());
    }
}

proof fn lemma_total_len_reverse<T: Copy>(iters: Seq<VecIter<T>>)
    ensures
        total_len(iters.reverse()) == total_len(iters),
    decreases iters.len(),
{
    if iters.len() > 0 {
        let r = iters.reverse();
        assert(r =~= seq![iters.last()] + iters.drop_last().reverse());
        lemma_total_len_reverse(iters.drop_last());
        lemma_total_len_front(seq![iters.last()], iters.drop_last().reverse());
        assert(seq![iters.last()].drop_last() =~= Seq::<VecIter<T>>::empty());
        assert(total_len(seq![iters.last()].drop_last()) == 0);
        assert(total_len(seq![iters.last()]) == iters.last().remaining().len());
    }
}

proof fn lemma_total_len_front<T: Copy>(a: Seq<VecIter<T>>, b: Seq<VecIter<T>>)
    ensures
        total_len(a + b) == total_len(a) + total_len(b),
    decreases b.len(),
{
    if b.len() == 0 {
        assert(a + b =~= a);
    } else {
        lemma_total_len_front(a, b.drop_last());
        assert((a + b).drop_last() =~= a + b.drop_last());
        assert((a + b).last() == b.last());
    }
}

/// Taking the last cursor off a list: its items come first.
proof fn lemma_chained_rev_pop<T: Copy>(list: Seq<VecIter<T>>)
    requires
        list.len() > 0,
    ensures
        chained(list.reverse()) == list.last().remaining() + chained(list.drop_last().reverse()),
{
    assert(list.reverse() =~= seq![list.last()] + list.drop_last().reverse());
    lemma_chained_front(seq![list.last()], list.drop_last().reverse());
    assert(seq![list.last()].drop_last() =~= Seq::<VecIter<T>>::empty());
    assert(chained(seq![list.last()].drop_last()) == Seq::<T>::empty());
    assert(chained(seq![list.last()]) =~= list.last().remaining());
}

/// Chaining two lists of cursors gives their items one after the other.
proof fn lemma_chained_front<T: Copy>(a: Seq<VecIter<T>>, b: Seq<VecIter<T>>)
    ensures
        chained(a + b) == chained(a) + chained(b),
    decreases b.len(),
{
    if b.len() == 0 {
        assert(a + b =~= a);
        assert(chained(a) + chained(b) =~= chained(a));
    } else {
        lemma_chained_front(a, b.drop_last());
        assert((a + b).drop_last() =~= a + b.drop_last());
        assert((a + b).last() == b.last());
        assert(chained(a + b) =~= chained(a) + chained(b));
    }
}

/// A cursor that may be missing; a missing one gives `None` forever.
pub struct OptionIterator<T> {
    iter: Option<VecIter<T>>,
}

impl<T: Copy> OptionIterator<T> {
    /// The cursor, if there is one.
    pub closed spec fn inner(&self) -> Option<VecIter<T>> {
        self.iter
    }

    pub fn new(iter: Option<VecIter<T>>) -> (r: Self)
        ensures
            r.inner() == iter,
    {
        Self { iter }
    }

    /// The next item of the cursor, or `None` where there is no cursor; it
    /// never runs out.
    pub fn next(&mut self) -> (r: Option<Option<T>>)
        requires
            old(self).inner() matches Some(i) ==> i.wf(),
        ensures
            final(self).inner() matches Some(i) ==> i.wf(),
            match old(self).inner() {
                Some(i) => {
                    &&& final(self).inner() is Some
                    &&& i.remaining().len() > 0 ==> r == Some(Some(i.remaining()[0]))
                        && final(self).inner()->0.remaining() == i.remaining().drop_first()
                    &&& i.remaining().len() == 0 ==> r == Some(None::<T>)
                        && final(self).inner()->0.remaining() == i.remaining()
                },
                None => r == Some(None::<T>) && final(self).inner() is None,
            },
    {
        match &mut self.iter {
            Some(iter) => Some(iter.next()),
            None => Some(None),
        }
    }
}

/// Two cursors traversed side by side.
pub struct MultiIterator<A, B>(pub VecIter<A>, pub VecIter<B>);

impl<A: Copy, B: Copy> MultiIterator<A, B> {
    pub fn new(iterators: (VecIter<A>, VecIter<B>)) -> (r: Self)
        ensures
            r.0 == iterators.0,
            r.1 == iterators.1,
    {
        MultiIterator(iterators.0, iterators.1)
    }

    /// The next item of each cursor; `None` as soon as one has run out (the
    /// first cursor moves on even where the second has run out).
    pub fn next(&mut self) -> (r: Option<(A, B)>)
        requires
            old(self).0.wf(),
            old(self).1.wf(),
        ensures
            final(self).0.wf(),
            final(self).1.wf(),
            ({
                let a = old(self).0.remaining();
                let b = old(self).1.remaining();
                &&& a.len() == 0 ==> r is None && final(self).0.remaining() == a && final(self).1.remaining() == b
                &&& a.len() > 0 ==> final(self).0.remaining() == a.drop_first()
                &&& a.len() > 0 && b.len() == 0 ==> r is None && final(self).1.remaining() == b
                &&& a.len() > 0 && b.len() > 0 ==> r == Some((a[0], b[0])) && final(self).1.remaining()
                    == b.drop_first()
            }),
    {
        let a = match self.0.next() {
            Some(a) => a,
            None => return None,
        };
        let b = match self.1.next() {
            Some(b) => b,
            None => return None,
        };
        Some((a, b))
    }
}

} // verus!
