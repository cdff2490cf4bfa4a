//! In-place comparison sorts over slices of any ordered, cloneable element.
use crate::sorting::element::{clones_faithfully, comparable, lt, non_decreasing, weakly_ordered};
use crate::sorting::model::{
    insertion_sorted, lemma_inserted_at, lemma_insertion_sorted_keeps_sorted,
    lemma_insertion_sorted_non_decreasing, lemma_merge_sorted_non_decreasing,
    lemma_merged_permutes, lemma_swapped_permutes, merge_sorted, merged,
};
use vstd::prelude::*;

pub mod element;
pub mod model;

verus! {

/// `<[T]>::swap` of the standard library: exchanges the elements at the two
/// positions and leaves the rest of the slice alone. It panics when a position
/// is out of bounds, so both must lie inside the slice.
pub assume_specification<V>[ <[V]>::swap ](slice: &mut [V], a: usize, b: usize)
    requires
        a < old(slice)@.len(),
        b < old(slice)@.len(),
    ensures
        final(slice)@ == old(slice)@.update(a as int, old(slice)@[b as int]).update(
            b as int,
            old(slice)@[a as int],
        ),
;

/// `<[T]>::clone_from_slice` of the standard library: overwrites every element
/// of the slice with a clone of the element of `src` at the same position. It
/// panics when the two lengths differ, so they must be equal.
pub assume_specification<V: Clone>[ <[V]>::clone_from_slice ](slice: &mut [V], src: &[V])
    requires
        old(slice)@.len() == src@.len(),
    ensures
        final(slice)@.len() == src@.len(),
        forall|i: int| 0 <= i < src@.len() ==> cloned::<V>(src@[i], #[trigger] final(slice)@[i]),
;

/// Sorting in place with a choice of algorithm.
pub trait Sortable {
    /// `after` is what `algorithm` may leave of `self`.
    spec fn sorted_into(&self, algorithm: SortAlgorithm, after: &Self) -> bool;

    /// Sorts in place with the given algorithm.
    fn sort_with(&mut self, algorithm: &SortAlgorithm)
        ensures
            old(self).sorted_into(*algorithm, final(self)),
    ;

    /// Sorts in place by insertion.
    fn insertion_sort(&mut self)
        ensures
            old(self).sorted_into(SortAlgorithm::InsertionSort, final(self)),
    ;

    /// Sorts in place by merging.
    fn merge_sort(&mut self)
        ensures
            old(self).sorted_into(SortAlgorithm::MergeSort, final(self)),
    ;
}

impl<T: Ord + Clone> Sortable for [T] {
    open spec fn sorted_into(&self, algorithm: SortAlgorithm, after: &Self) -> bool {
        algorithm.sorts(self@, after@)
    }

    fn sort_with(&mut self, algorithm: &SortAlgorithm) {
        algorithm.sort(self);
    }

    fn insertion_sort(&mut self) {
        self.sort_with(&SortAlgorithm::InsertionSort);
    }

    fn merge_sort(&mut self) {
        self.sort_with(&SortAlgorithm::MergeSort);
    }
}

/// The sorting strategies on offer.
pub enum SortAlgorithm {
    InsertionSort,
    MergeSort,
}

impl SortAlgorithm {
    /// The sequence that this algorithm makes of `s`.
    pub open spec fn outcome<T: PartialOrd>(self, s: Seq<T>) -> Seq<T> {
        match self {
            SortAlgorithm::InsertionSort => insertion_sorted(s),
            SortAlgorithm::MergeSort => merge_sorted(s),
        }
    }

    /// The elements that this algorithm leaves are the ones it was given:
    /// insertion sort only moves them, merge sort leaves clones of them.
    pub open spec fn keeps_elements<T: Clone>(self) -> bool {
        self is InsertionSort || clones_faithfully::<T>()
    }

    /// What holds of a sequence `before` and of what this algorithm leaves in
    /// its place.
    pub open spec fn sorts<T: Ord + Clone>(self, before: Seq<T>, after: Seq<T>) -> bool {
        &&& after.len() == before.len()
        &&& self.keeps_elements::<T>() ==> after.to_multiset() == before.to_multiset()
        &&& self.keeps_elements::<T>() && comparable::<T>() ==> after == self.outcome(before)
        &&& self.keeps_elements::<T>() && weakly_ordered::<T>() ==> non_decreasing(after)
    }

    /// Sorts `arr` in place with this algorithm.
    pub fn sort<T: Ord + Clone>(&self, arr: &mut [T])
        ensures
            self.sorts(old(arr)@, final(arr)@),
    {
        match &self {
            SortAlgorithm::InsertionSort => SortAlgorithm::insertion_sort(arr),
            SortAlgorithm::MergeSort => SortAlgorithm::merge_sort(arr),
        }
    }

    /// Sorts `arr` in place by insertion: each element in turn is swapped
    /// backward while it is strictly below its left neighbour.
    pub fn insertion_sort<T: Ord + Clone>(arr: &mut [T])
        ensures
            final(arr)@.len() == old(arr)@.len(),
            final(arr)@.to_multiset() == old(arr)@.to_multiset(),
            comparable::<T>() ==> final(arr)@ == insertion_sorted(old(arr)@),
            weakly_ordered::<T>() ==> non_decreasing(final(arr)@),
    {
        let ghost orig = arr@;
        let n = arr.len();
        let mut i: usize = 1;
        proof {
            if n > 0 {
                lemma_insertion_sorted_keeps_sorted(orig.take(1));
            }
        }
        while i < n
            invariant
                1 <= i,
                i <= n || n == 0,
                arr@.len() == n,
                orig.len() == n,
                arr@.to_multiset() == orig.to_multiset(),
                n == 0 ==> arr@ == orig,
                comparable::<T>() && n > 0 ==> arr@.take(i as int) == insertion_sorted(
                    orig.take(i as int),
                ),
                comparable::<T>() && n > 0 ==> arr@.skip(i as int) == orig.skip(i as int),
            decreases n - i,
        {
            let ghost before = arr@;
            let ghost x = before[i as int];
            let mut j: usize = i;
            while j > 0 && arr[j] < arr[j - 1]
                invariant
                    j <= i < n,
                    arr@.len() == n,
                    before.len() == n,
                    x == before[i as int],
                    arr@ == before.remove(i as int).insert(j as int, x),
                    arr@.to_multiset() == orig.to_multiset(),
                    comparable::<T>() ==> forall|m: int| j <= m < i ==> lt(x, #[trigger] before[m]),
                decreases j,
            {
                proof {
                    lemma_swapped_permutes(arr@, j as int, j - 1);
                }
                arr.swap(j, j - 1);
                j -= 1;
            }
            proof {
                if comparable::<T>() {
                    assert(orig.take(i + 1).drop_last() =~= orig.take(i as int));
                    assert(orig.skip(i as int)[0] == before.skip(i as int)[0]);
                    lemma_inserted_at(before.take(i as int), x, j as int);
                    assert(orig.skip(i + 1) =~= orig.skip(i as int).skip(1));
                }
            }
            i += 1;
        }
        proof {
            if n > 0 {
                assert(arr@.take(n as int) =~= arr@);
                assert(orig.take(n as int) =~= orig);
            }
            if weakly_ordered::<T>() {
                lemma_insertion_sorted_non_decreasing(orig);
            }
        }
    }

    /// Sorts `arr` in place by merging: the two halves are sorted on their
    /// own, merged into a buffer, and the buffer is copied back.
    pub fn merge_sort<T: Ord + Clone>(arr: &mut [T])
        ensures
            final(arr)@.len() == old(arr)@.len(),
            clones_faithfully::<T>() ==> final(arr)@.to_multiset() == old(arr)@.to_multiset(),
            clones_faithfully::<T>() && comparable::<T>() ==> final(arr)@ == merge_sorted(
                old(arr)@,
            ),
            clones_faithfully::<T>() && weakly_ordered::<T>() ==> non_decreasing(final(arr)@),
        decreases old(arr)@.len(),
    {
        let ghost orig = arr@;
        let len = arr.len();
        if len <= 1 {
            return ;
        }
        let mid = len / 2;
        let (left, right) = arr.split_at_mut(mid);

        SortAlgorithm::merge_sort(left);
        SortAlgorithm::merge_sort(right);
        let mut temp = Vec::with_capacity(len);

        let len_left = left.len();
        let len_right = right.len();

        let mut idx_left: usize = 0;
        let mut idx_right: usize = 0;

        proof {
            assert(left@.skip(0) =~= left@);
            assert(right@.skip(0) =~= right@);
            assert(temp@ =~= left@.take(0) + right@.take(0));
            vstd::seq_lib::lemma_multiset_commutative(left@.take(0), right@.take(0));
        }

        while idx_left < len_left && idx_right < len_right
            invariant
                len_left == left@.len(),
                len_right == right@.len(),
                idx_left <= len_left,
                idx_right <= len_right,
                temp@.len() == idx_left + idx_right,
                clones_faithfully::<T>() ==> temp@.to_multiset() == left@.take(
                    idx_left as int,
                ).to_multiset().add(right@.take(idx_right as int).to_multiset()),
                clones_faithfully::<T>() && comparable::<T>() ==> temp@ + merged(
                    left@.skip(idx_left as int),
                    right@.skip(idx_right as int),
                ) == merged(left@, right@),
            decreases len_left - idx_left + len_right - idx_right,
        {
            let left_val = &left[idx_left];
            let right_val = &right[idx_right];
            let ghost rest_left = left@.skip(idx_left as int);
            let ghost rest_right = right@.skip(idx_right as int);
            let ghost buffer = temp@;

            if left_val < right_val {
                temp.push(left_val.clone());
                idx_left += 1;
                proof {
                    if clones_faithfully::<T>() {
                        assert(cloned::<T>(rest_left.first(), temp@.last()));
                        assert(left@.take(idx_left as int) =~= left@.take(idx_left - 1).push(
                            rest_left.first(),
                        ));
                        vstd::seq_lib::to_multiset_build(buffer, rest_left.first());
                        vstd::seq_lib::to_multiset_build(
                            left@.take(idx_left - 1),
                            rest_left.first(),
                        );
                        if comparable::<T>() {
                            assert(rest_left.drop_first() =~= left@.skip(idx_left as int));
                        }
                    }
                }
            } else {
                temp.push(right_val.clone());
                idx_right += 1;
                proof {
                    if clones_faithfully::<T>() {
                        assert(cloned::<T>(rest_right.first(), temp@.last()));
                        assert(right@.take(idx_right as int) =~= right@.take(idx_right - 1).push(
                            rest_right.first(),
                        ));
                        vstd::seq_lib::to_multiset_build(buffer, rest_right.first());
                        vstd::seq_lib::to_multiset_build(
                            right@.take(idx_right - 1),
                            rest_right.first(),
                        );
                        if comparable::<T>() {
                            assert(rest_right.drop_first() =~= right@.skip(idx_right as int));
                        }
                    }
                }
            }
        }

        let ghost merged_part = temp@;
        temp.extend_from_slice(&left[idx_left..len_left]);
        temp.extend_from_slice(&right[idx_right..len_right]);

        proof {
            let tail_left = left@.skip(idx_left as int);
            let tail_right = right@.skip(idx_right as int);
            if clones_faithfully::<T>() {
                assert(temp@ =~= merged_part + tail_left + tail_right);
                lemma_merged_permutes(left@, right@);
                if !comparable::<T>() {
                    vstd::seq_lib::lemma_multiset_commutative(merged_part, tail_left);
                    vstd::seq_lib::lemma_multiset_commutative(merged_part + tail_left, tail_right);
                    vstd::seq_lib::lemma_multiset_commutative(
                        left@.take(idx_left as int),
                        tail_left,
                    );
                    vstd::seq_lib::lemma_multiset_commutative(
                        right@.take(idx_right as int),
                        tail_right,
                    );
                    assert(left@.take(idx_left as int) + tail_left =~= left@);
                    assert(right@.take(idx_right as int) + tail_right =~= right@);
                }
                vstd::seq_lib::lemma_multiset_commutative(
                    orig.take(mid as int),
                    orig.skip(mid as int),
                );
                assert(orig.take(mid as int) + orig.skip(mid as int) =~= orig);
                if weakly_ordered::<T>() {
                    lemma_merge_sorted_non_decreasing(orig);
                }
            }
        }

        arr.clone_from_slice(&temp);
        proof {
            if clones_faithfully::<T>() {
                assert(arr@ =~= temp@);
            }
        }
    }
}

} // verus!
