//! What each sorting algorithm returns, as functions on sequences, and the
//! laws that hold of them.
use crate::sorting::element::{
    asymmetric, lt, non_decreasing, ties_are_identical, ties_with, transitive,
};
use vstd::prelude::*;

verus! {

/// Exchanging two elements of a sequence keeps every element, as often as it
/// occurs.
pub proof fn lemma_swapped_permutes<T>(s: Seq<T>, i: int, j: int)
    requires
        0 <= i < s.len(),
        0 <= j < s.len(),
    ensures
        s.update(i, s[j]).update(j, s[i]).to_multiset() == s.to_multiset(),
{
    let mid = s.update(i, s[j]);
    vstd::seq_lib::to_multiset_update(s, i, s[j]);
    vstd::seq_lib::to_multiset_update(mid, j, s[i]);
    vstd::seq_lib::to_multiset_contains(s, s[i]);
}

/// `s` with `x` put in from the back: `x` passes every trailing element that
/// it is strictly below and stops at the first one that it is not.
pub open spec fn inserted<T: PartialOrd>(s: Seq<T>, x: T) -> Seq<T>
    decreases s.len(),
{
    if s.len() > 0 && lt(x, s.last()) {
        inserted(s.drop_last(), x).push(s.last())
    } else {
        s.push(x)
    }
}

/// The result of insertion sort: the elements of `s` put in one by one, in
/// the order in which they stand.
pub open spec fn insertion_sorted<T: PartialOrd>(s: Seq<T>) -> Seq<T>
    decreases s.len(),
{
    if s.len() == 0 {
        s
    } else {
        inserted(insertion_sorted(s.drop_last()), s.last())
    }
}

/// Where `x` comes to rest: if every element of `s` from `at` on is above
/// `x`, and the one before `at` is not, then `x` is put in at `at`.
pub proof fn lemma_inserted_at<T: PartialOrd>(s: Seq<T>, x: T, at: int)
    requires
        0 <= at <= s.len(),
        forall|m: int| at <= m < s.len() ==> lt(x, #[trigger] s[m]),
        at > 0 ==> !lt(x, s[at - 1]),
    ensures
        inserted(s, x) == s.insert(at, x),
    decreases s.len(),
{
    if at < s.len() {
        lemma_inserted_at(s.drop_last(), x, at);
    } else {
    }
}

/// Putting an element in adds it and keeps all the others.
pub proof fn lemma_inserted_permutes<T: PartialOrd>(s: Seq<T>, x: T)
    ensures
        inserted(s, x).len() == s.len() + 1,
        inserted(s, x).to_multiset() == s.to_multiset().insert(x),
    decreases s.len(),
{
    broadcast use vstd::seq_lib::to_multiset_build;

    if s.len() > 0 && lt(x, s.last()) {
        let front = s.drop_last();
        lemma_inserted_permutes(front, x);
        assert(front.push(s.last()) =~= s);
    }
}

/// Putting an element into a non-decreasing sequence leaves it non-decreasing.
pub proof fn lemma_inserted_non_decreasing<T: PartialOrd>(s: Seq<T>, x: T)
    requires
        asymmetric::<T>(),
        transitive::<T>(),
        non_decreasing(s),
    ensures
        non_decreasing(inserted(s, x)),
    decreases s.len(),
{
    if s.len() > 0 && lt(x, s.last()) {
        let front = s.drop_last();
        let top = s.last();
        lemma_inserted_non_decreasing(front, x);
        lemma_inserted_permutes(front, x);
        let r = inserted(front, x);
        assert forall|i: int| 0 <= i < r.len() implies !lt(top, #[trigger] r[i]) by {
            vstd::seq_lib::to_multiset_contains(r, r[i]);
            vstd::seq_lib::to_multiset_contains(front, r[i]);
            if r[i] != x {
                let k = choose|k: int| 0 <= k < front.len() && front[k] == r[i];
                assert(s[k] == r[i]);
            }
        }
    } else {
        if s.len() > 0 {
            assert forall|i: int| 0 <= i < s.len() implies !lt(x, #[trigger] s[i]) by {
                if i < s.len() - 1 {
                    assert(!lt(s.last(), s[i]));
                }
            }
        }
    }
}

/// Insertion sort keeps every element, as often as it occurs.
pub proof fn lemma_insertion_sorted_permutes<T: PartialOrd>(s: Seq<T>)
    ensures
        insertion_sorted(s).len() == s.len(),
        insertion_sorted(s).to_multiset() == s.to_multiset(),
    decreases s.len(),
{
    broadcast use vstd::seq_lib::to_multiset_build;

    if s.len() > 0 {
        lemma_insertion_sorted_permutes(s.drop_last());
        lemma_inserted_permutes(insertion_sorted(s.drop_last()), s.last());
        assert(s.drop_last().push(s.last()) =~= s);
    }
}

/// Insertion sort returns a non-decreasing sequence.
pub proof fn lemma_insertion_sorted_non_decreasing<T: PartialOrd>(s: Seq<T>)
    requires
        asymmetric::<T>(),
        transitive::<T>(),
    ensures
        non_decreasing(insertion_sorted(s)),
    decreases s.len(),
{
    if s.len() > 0 {
        lemma_insertion_sorted_non_decreasing(s.drop_last());
        lemma_inserted_non_decreasing(insertion_sorted(s.drop_last()), s.last());
    }
}

/// Insertion sort leaves a non-decreasing sequence as it is.
pub proof fn lemma_insertion_sorted_keeps_sorted<T: PartialOrd>(s: Seq<T>)
    requires
        non_decreasing(s),
    ensures
        insertion_sorted(s) == s,
    decreases s.len(),
{
    if s.len() > 0 {
        let front = s.drop_last();
        lemma_insertion_sorted_keeps_sorted(front);
    }
}

/// Putting an element in moves it past no element that it ties with.
pub proof fn lemma_inserted_keeps_ties<T: PartialOrd>(s: Seq<T>, v: T, x: T)
    requires
        transitive::<T>(),
    ensures
        inserted(s, v).filter(ties_with(x)) == s.push(v).filter(ties_with(x)),
    decreases s.len(),
{
    if s.len() > 0 && lt(v, s.last()) {
        let front = s.drop_last();
        let top = s.last();
        let same = ties_with(x);
        lemma_inserted_keeps_ties(front, v, x);
        inserted(front, v).lemma_filter_push(top, same);
        front.lemma_filter_push(v, same);
        front.lemma_filter_push(top, same);
        s.lemma_filter_push(v, same);
        assert(front.push(top) =~= s);
    }
}

/// Insertion sort is stable: the elements that tie with a given one come out
/// in the order in which they went in.
pub proof fn lemma_insertion_sorted_is_stable<T: PartialOrd>(s: Seq<T>, x: T)
    requires
        transitive::<T>(),
    ensures
        insertion_sorted(s).filter(ties_with(x)) == s.filter(ties_with(x)),
    decreases s.len(),
{
    if s.len() > 0 {
        let front = s.drop_last();
        let same = ties_with(x);
        lemma_insertion_sorted_is_stable(front, x);
        lemma_inserted_keeps_ties(insertion_sorted(front), s.last(), x);
        insertion_sorted(front).lemma_filter_push(s.last(), same);
        front.lemma_filter_push(s.last(), same);
        assert(front.push(s.last()) =~= s);
    }
}

/// Sorting by insertion a second time changes nothing.
pub proof fn lemma_insertion_sort_is_idempotent<T: PartialOrd>(s: Seq<T>)
    requires
        asymmetric::<T>(),
        transitive::<T>(),
    ensures
        insertion_sorted(insertion_sorted(s)) == insertion_sorted(s),
{
    lemma_insertion_sorted_non_decreasing(s);
    lemma_insertion_sorted_keeps_sorted(insertion_sorted(s));
}

/// Two sequences merged into one: the lesser of the two front elements goes
/// first, and of two that tie the one on the right.
pub open spec fn merged<T: PartialOrd>(left: Seq<T>, right: Seq<T>) -> Seq<T>
    decreases left.len() + right.len(),
{
    if left.len() == 0 {
        right
    } else if right.len() == 0 {
        left
    } else if lt(left.first(), right.first()) {
        seq![left.first()] + merged(left.drop_first(), right)
    } else {
        seq![right.first()] + merged(left, right.drop_first())
    }
}

/// The result of merge sort: the two halves of `s`, the first holding the
/// smaller half of an odd length, each sorted and then merged.
pub open spec fn merge_sorted<T: PartialOrd>(s: Seq<T>) -> Seq<T>
    decreases s.len(),
{
    if s.len() <= 1 {
        s
    } else {
        let mid = (s.len() / 2) as int;
        merged(merge_sorted(s.take(mid)), merge_sorted(s.skip(mid)))
    }
}

/// Merging keeps every element of both sides, as often as it occurs.
pub proof fn lemma_merged_permutes<T: PartialOrd>(left: Seq<T>, right: Seq<T>)
    ensures
        merged(left, right).len() == left.len() + right.len(),
        merged(left, right).to_multiset() == left.to_multiset().add(right.to_multiset()),
    decreases left.len() + right.len(),
{
    broadcast use vstd::seq_lib::lemma_multiset_commutative;

    if left.len() == 0 {
        assert(left + right =~= right);
    } else if right.len() == 0 {
        assert(left + right =~= left);
    } else if lt(left.first(), right.first()) {
        lemma_merged_permutes(left.drop_first(), right);
        assert(seq![left.first()] + left.drop_first() =~= left);
    } else {
        lemma_merged_permutes(left, right.drop_first());
        assert(seq![right.first()] + right.drop_first() =~= right);
    }
}

/// Whatever stands in a merged sequence stood in one of the two sides.
pub proof fn lemma_merged_members<T: PartialOrd>(left: Seq<T>, right: Seq<T>, i: int)
    requires
        0 <= i < merged(left, right).len(),
    ensures
        left.contains(merged(left, right)[i]) || right.contains(merged(left, right)[i]),
{
    let m = merged(left, right);
    lemma_merged_permutes(left, right);
    vstd::seq_lib::to_multiset_contains(m, m[i]);
    vstd::seq_lib::to_multiset_contains(left, m[i]);
    vstd::seq_lib::to_multiset_contains(right, m[i]);
}

/// Merging two non-decreasing sequences gives a non-decreasing sequence.
pub proof fn lemma_merged_non_decreasing<T: PartialOrd>(left: Seq<T>, right: Seq<T>)
    requires
        asymmetric::<T>(),
        transitive::<T>(),
        non_decreasing(left),
        non_decreasing(right),
    ensures
        non_decreasing(merged(left, right)),
    decreases left.len() + right.len(),
{
    if left.len() > 0 && right.len() > 0 {
        let l0 = left.first();
        let r0 = right.first();
        let (head, l, r) = if lt(l0, r0) {
            (l0, left.drop_first(), right)
        } else {
            (r0, left, right.drop_first())
        };
        let rest = merged(l, r);
        lemma_merged_non_decreasing(l, r);
        assert forall|k: int| 0 <= k < rest.len() implies !lt(#[trigger] rest[k], head) by {
            lemma_merged_members(l, r, k);
            if l.contains(rest[k]) {
                let at = choose|at: int| 0 <= at < l.len() && l[at] == rest[k];
                if !lt(l0, r0) {
                    assert(!lt(l0, r0) && !lt(left[at], l0) ==> !lt(left[at], r0));
                }
            } else {
                let at = choose|at: int| 0 <= at < r.len() && r[at] == rest[k];
                if lt(l0, r0) {
                    assert(!lt(r0, l0) && !lt(right[at], r0) ==> !lt(right[at], l0));
                }
            }
        }
    }
}

/// Of the elements that tie with a given one, merging hands out those of the
/// right side first, then those of the left, each side in its own order.
pub proof fn lemma_merged_takes_right_ties_first<T: PartialOrd>(left: Seq<T>, right: Seq<T>, x: T)
    requires
        transitive::<T>(),
        non_decreasing(right),
    ensures
        merged(left, right).filter(ties_with(x)) == right.filter(ties_with(x)) + left.filter(
            ties_with(x),
        ),
    decreases left.len() + right.len(),
{
    let same = ties_with(x);
    if left.len() == 0 || right.len() == 0 {
    } else if lt(left.first(), right.first()) {
        let l0 = left.first();
        let rest = left.drop_first();
        lemma_merged_takes_right_ties_first(rest, right, x);
        assert(seq![l0] + rest =~= left);
        if same(l0) {
            let kept = right.filter(same);
            if kept.len() > 0 {
                right.lemma_filter_contains_rev(same, kept[0]);
                let k = choose|k: int| 0 <= k < right.len() && right[k] == kept[0];
                if k > 0 {
                    assert(!lt(right[k], right[0]) && !lt(l0, right[k]) ==> !lt(l0, right[0]));
                }
            }
        } else {
            assert(seq![l0].filter(same).len() == 0) by {
                if seq![l0].filter(same).len() > 0 {
                    seq![l0].lemma_filter_contains_rev(same, seq![l0].filter(same)[0]);
                }
            }
        }
    } else {
        let r0 = right.first();
        let rest = right.drop_first();
        lemma_merged_takes_right_ties_first(left, rest, x);
        assert(seq![r0] + rest =~= right);
    }
}

/// Merge sort hands out the elements that tie with a given one in the
/// reverse of the order in which they went in.
pub proof fn lemma_merge_sorted_reverses_ties<T: PartialOrd>(s: Seq<T>, x: T)
    requires
        asymmetric::<T>(),
        transitive::<T>(),
    ensures
        merge_sorted(s).filter(ties_with(x)) == s.filter(ties_with(x)).reverse(),
    decreases s.len(),
{
    if s.len() > 1 {
        let mid = (s.len() / 2) as int;
        let front = s.take(mid);
        let back = s.skip(mid);
        lemma_merge_sorted_reverses_ties(front, x);
        lemma_merge_sorted_reverses_ties(back, x);
        lemma_merge_sorted_non_decreasing(back);
        lemma_merged_takes_right_ties_first(merge_sorted(front), merge_sorted(back), x);
        assert(front + back =~= s);
    }
}

/// Merge sort keeps every element, as often as it occurs.
pub proof fn lemma_merge_sorted_permutes<T: PartialOrd>(s: Seq<T>)
    ensures
        merge_sorted(s).len() == s.len(),
        merge_sorted(s).to_multiset() == s.to_multiset(),
    decreases s.len(),
{
    if s.len() > 1 {
        let mid = (s.len() / 2) as int;
        lemma_merge_sorted_permutes(s.take(mid));
        lemma_merge_sorted_permutes(s.skip(mid));
        lemma_merged_permutes(merge_sorted(s.take(mid)), merge_sorted(s.skip(mid)));
        vstd::seq_lib::lemma_multiset_commutative(s.take(mid), s.skip(mid));
        assert(s.take(mid) + s.skip(mid) =~= s);
    }
}

/// Merge sort returns a non-decreasing sequence.
pub proof fn lemma_merge_sorted_non_decreasing<T: PartialOrd>(s: Seq<T>)
    requires
        asymmetric::<T>(),
        transitive::<T>(),
    ensures
        non_decreasing(merge_sorted(s)),
    decreases s.len(),
{
    if s.len() > 1 {
        let mid = (s.len() / 2) as int;
        lemma_merge_sorted_non_decreasing(s.take(mid));
        lemma_merge_sorted_non_decreasing(s.skip(mid));
        lemma_merged_non_decreasing(merge_sorted(s.take(mid)), merge_sorted(s.skip(mid)));
    }
}

/// Where no two different values tie, a multiset of elements has only one
/// non-decreasing arrangement.
pub proof fn lemma_non_decreasing_is_unique<T: PartialOrd>(s: Seq<T>, t: Seq<T>)
    requires
        asymmetric::<T>(),
        transitive::<T>(),
        ties_are_identical::<T>(),
        non_decreasing(s),
        non_decreasing(t),
        s.to_multiset() == t.to_multiset(),
    ensures
        s == t,
{
    let not_above = |a: T, b: T| !lt(b, a);
    vstd::seq_lib::lemma_sorted_unique(s, t, not_above);
}

/// Where no two different values tie, merge sort leaves a non-decreasing
/// sequence as it is.
pub proof fn lemma_merge_sorted_keeps_sorted<T: PartialOrd>(s: Seq<T>)
    requires
        asymmetric::<T>(),
        transitive::<T>(),
        ties_are_identical::<T>(),
        non_decreasing(s),
    ensures
        merge_sorted(s) == s,
{
    lemma_merge_sorted_permutes(s);
    lemma_merge_sorted_non_decreasing(s);
    lemma_non_decreasing_is_unique(merge_sorted(s), s);
}

/// Where no two different values tie, sorting by merging a second time
/// changes nothing.
pub proof fn lemma_merge_sort_is_idempotent<T: PartialOrd>(s: Seq<T>)
    requires
        asymmetric::<T>(),
        transitive::<T>(),
        ties_are_identical::<T>(),
    ensures
        merge_sorted(merge_sorted(s)) == merge_sorted(s),
{
    lemma_merge_sorted_non_decreasing(s);
    lemma_merge_sorted_keeps_sorted(merge_sorted(s));
}

/// Where no two different values tie, insertion sort and merge sort return
/// the same sequence.
pub proof fn lemma_algorithms_agree<T: PartialOrd>(s: Seq<T>)
    requires
        asymmetric::<T>(),
        transitive::<T>(),
        ties_are_identical::<T>(),
    ensures
        insertion_sorted(s) == merge_sorted(s),
{
    lemma_insertion_sorted_permutes(s);
    lemma_insertion_sorted_non_decreasing(s);
    lemma_merge_sorted_permutes(s);
    lemma_merge_sorted_non_decreasing(s);
    lemma_non_decreasing_is_unique(insertion_sorted(s), merge_sorted(s));
}

} // verus!
