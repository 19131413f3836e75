use koi::kudo::iterators::{ChainedIterator, MultiIterator, OptionIterator, VecIter};

#[test]
fn chained_iterator_runs_the_last_cursor_first() {
    let mut it = ChainedIterator::new(vec![
        VecIter::new(vec![1, 2]),
        VecIter::new(vec![]),
        VecIter::new(vec![3]),
    ]);
    let mut out = Vec::new();
    while let Some(x) = it.next() {
        out.push(x);
    }
    assert_eq!(out, vec![3, 1, 2]);
    assert_eq!(it.next(), None);
}

#[test]
fn chained_iterator_of_nothing() {
    let mut it: ChainedIterator<u8> = ChainedIterator::new(vec![]);
    assert_eq!(it.next(), None);
}

#[test]
fn option_iterator_never_runs_out() {
    let mut it = OptionIterator::new(Some(VecIter::new(vec![5])));
    assert_eq!(it.next(), Some(Some(5)));
    assert_eq!(it.next(), Some(None));
    let mut none: OptionIterator<u8> = OptionIterator::new(None);
    assert_eq!(none.next(), Some(None));
}

#[test]
fn multi_iterator_stops_at_the_shorter() {
    let mut it = MultiIterator::new((VecIter::new(vec![1, 2, 3]), VecIter::new(vec!['a', 'b'])));
    assert_eq!(it.next(), Some((1, 'a')));
    assert_eq!(it.next(), Some((2, 'b')));
    assert_eq!(it.next(), None);
    assert_eq!(it.0.len(), 0);
}

#[test]
fn chained_iterator_lengths() {
    let it = ChainedIterator::new(vec![VecIter::new(vec![1, 2]), VecIter::new(vec![3, 4, 5])]);
    assert_eq!(it.size_hint(), (5, Some(5)));
    assert_eq!(it.len(), 5);
    let mut it = it;
    assert_eq!(it.next(), Some(3));
    assert_eq!(it.len(), 4);
    assert_eq!(it.size_hint(), (4, Some(4)));
}
