use vstd::prelude::*;

verus! {

/// Two sequences merged by always taking the smaller front item, the first
/// sequence's on a tie.
pub open spec fn merged(a: Seq<u64>, b: Seq<u64>) -> Seq<u64>
    decreases a.len() + b.len(),
{
    if a.len() == 0 {
        b
    } else if b.len() == 0 {
        a
    } else if a[0] <= b[0] {
        seq![a[0]] + merged(a.drop_first(), b)
    } else {
        seq![b[0]] + merged(a, b.drop_first())
    }
}

/// Whether the items never decrease.
pub open spec fn sorted(s: Seq<u64>) -> bool {
    forall|i: int, j: int| 0 <= i <= j < s.len() ==> s[i] <= s[j]
}

/// Merges two sequences of ids; where both are sorted, so is the result.
/// `capacity` is the room reserved for the result.
pub fn merge_sorted_iter(capacity: usize, items0: &[u64], items1: &[u64]) -> (r: Vec<u64>)
    ensures
        r@ == merged(items0@, items1@),
{
    let mut output: Vec<u64> = Vec::with_capacity(capacity);
    let mut i: usize = 0;
    let mut j: usize = 0;
    proof {
        assert(items0@.skip(0) =~= items0@);
        assert(items1@.skip(0) =~= items1@);
        assert(output@ + merged(items0@, items1@) =~= merged(items0@, items1@));
    }
    loop
        invariant
            i <= items0@.len(),
            j <= items1@.len(),
            output@ + merged(items0@.skip(i as int), items1@.skip(j as int)) == merged(
                items0@,
                items1@,
            ),
        ensures
            output@ == merged(items0@, items1@),
        decreases items0@.len() + items1@.len() - i - j,
    {
        let ghost a = items0@.skip(i as int);
        let ghost b = items1@.skip(j as int);
        if i < items0.len() && j < items1.len() {
            if items0[i] <= items1[j] {
                proof {
                    assert(a.drop_first() =~= items0@.skip(i + 1));
                    assert(output@.push(items0@[i as int]) + merged(a.drop_first(), b) =~= output@
                        + merged(a, b));
                }
                output.push(items0[i]);
                i += 1;
            } else {
                proof {
                    assert(b.drop_first() =~= items1@.skip(j + 1));
                    assert(output@.push(items1@[j as int]) + merged(a, b.drop_first()) =~= output@
                        + merged(a, b));
                }
                output.push(items1[j]);
                j += 1;
            }
        } else if i < items0.len() {
            proof {
                assert(b.len() == 0);
                assert(a.drop_first() =~= items0@.skip(i + 1));
                assert(merged(a.drop_first(), b) == a.drop_first());
                assert(output@.push(items0@[i as int]) + merged(a.drop_first(), b) =~= output@
                    + merged(a, b));
            }
            output.push(items0[i]);
            i += 1;
        } else if j < items1.len() {
            proof {
                assert(a.len() == 0);
                assert(b.drop_first() =~= items1@.skip(j + 1));
                assert(output@.push(items1@[j as int]) + merged(a, b.drop_first()) =~= output@
                    + merged(a, b));
            }
            output.push(items1[j]);
            j += 1;
        } else {
            proof {
                assert(a.len() == 0);
                assert(output@ =~= output@ + merged(a, b));
            }
            break;
        }
    }
    output
}

/// Merging keeps every item of both sequences, each as often as it occurs.
pub proof fn lemma_merged_keeps_items(a: Seq<u64>, b: Seq<u64>)
    ensures
        merged(a, b).to_multiset() == a.to_multiset().add(b.to_multiset()),
    decreases a.len() + b.len(),
{
    broadcast use vstd::seq_lib::group_to_multiset_ensures;

    if a.len() == 0 {
        assert(a.to_multiset() =~= vstd::multiset::Multiset::empty());
        assert(b.to_multiset() =~= vstd::multiset::Multiset::<u64>::empty().add(b.to_multiset()));
    } else if b.len() == 0 {
        assert(b.to_multiset() =~= vstd::multiset::Multiset::empty());
        assert(a.to_multiset() =~= a.to_multiset().add(vstd::multiset::Multiset::empty()));
    } else if a[0] <= b[0] {
        lemma_merged_keeps_items(a.drop_first(), b);
        let rest = merged(a.drop_first(), b);
        assert(seq![a[0]] + rest =~= rest.insert(0, a[0]));
        assert(a =~= a.drop_first().insert(0, a[0]));
        assert(merged(a, b).to_multiset() =~= a.to_multiset().add(b.to_multiset()));
    } else {
        lemma_merged_keeps_items(a, b.drop_first());
        let rest = merged(a, b.drop_first());
        assert(seq![b[0]] + rest =~= rest.insert(0, b[0]));
        assert(b =~= b.drop_first().insert(0, b[0]));
        assert(merged(a, b).to_multiset() =~= a.to_multiset().add(b.to_multiset()));
    }
}

/// Merging two sorted sequences gives a sorted sequence whose first item is
/// one of the two first items.
pub proof fn lemma_merged_sorted(a: Seq<u64>, b: Seq<u64>)
    requires
        sorted(a),
        sorted(b),
    ensures
        sorted(merged(a, b)),
        merged(a, b).len() == a.len() + b.len(),
        merged(a, b).len() > 0 ==> (a.len() > 0 && merged(a, b)[0] == a[0]) || (b.len() > 0
            && merged(a, b)[0] == b[0]),
    decreases a.len() + b.len(),
{
    if a.len() == 0 || b.len() == 0 {
    } else if a[0] <= b[0] {
        lemma_merged_sorted(a.drop_first(), b);
        let rest = merged(a.drop_first(), b);
        let m = seq![a[0]] + rest;
        assert forall|i: int, j: int| 0 <= i <= j < m.len() implies m[i] <= m[j] by {
            if i == 0 && j > 0 {
                assert(m[j] == rest[j - 1]);
                if rest.len() > 0 && j - 1 >= 0 {
                    assert(rest[0] <= rest[j - 1]);
                }
            }
        }
    } else {
        lemma_merged_sorted(a, b.drop_first());
        let rest = merged(a, b.drop_first());
        let m = seq![b[0]] + rest;
        assert forall|i: int, j: int| 0 <= i <= j < m.len() implies m[i] <= m[j] by {
            if i == 0 && j > 0 {
                assert(m[j] == rest[j - 1]);
                if rest.len() > 0 && j - 1 >= 0 {
                    assert(rest[0] <= rest[j - 1]);
                }
            }
        }
    }
}

} // verus!
