//! The two products agree.
//!
//! The direct product adds the terms of an element one after the other; the
//! product by quadrants adds them in halves. Both sums are first written over
//! the plain sequence of terms, where regrouping is a matter of sequences
//! alone.
use crate::devide_and_conquer::arithmetic::{addition_associates, is_neutral};
use crate::devide_and_conquer::model::{
    block_product, block_product_computable, dot, dot_computable, is_matrix, is_power_of_two,
    lemma_block_product_is_square, lower_left, lower_right, product, product_computable,
    upper_left, upper_right,
};
use core::ops::{Add, Mul};
use vstd::prelude::*;
use vstd::std_specs::ops::AddSpec;
use vstd::std_specs::ops::MulSpec;

verus! {

/// The terms whose sum is one element of a product: the elements of a row of
/// `a`, each times the element of `b` that it meets in column `col`.
pub open spec fn terms<T: Mul<Output = T>>(a_row: Seq<T>, b: Seq<Seq<T>>, col: int, count: nat) -> Seq<
    T,
> {
    Seq::new(count, |k: int| a_row[k].mul_spec(b[k][col]))
}

/// `start + xs[0] + xs[1] + ...`, added from left to right.
pub open spec fn chain_sum<T: Add<Output = T>>(start: T, xs: Seq<T>) -> T
    decreases xs.len(),
{
    if xs.len() == 0 {
        start
    } else {
        chain_sum(start, xs.drop_last()).add_spec(xs.last())
    }
}

/// Every sum on the way to `chain_sum` can be formed.
pub open spec fn chain_computable<T: Add<Output = T>>(start: T, xs: Seq<T>) -> bool
    decreases xs.len(),
{
    xs.len() == 0 || {
        &&& chain_computable(start, xs.drop_last())
        &&& chain_sum(start, xs.drop_last()).add_req(xs.last())
    }
}

/// The sum of `xs` by halves: the sum of the first half plus the sum of the
/// second.
pub open spec fn halved_sum<T: Add<Output = T>>(xs: Seq<T>) -> T
    decreases xs.len(),
{
    if xs.len() <= 1 {
        xs[0]
    } else {
        let half = (xs.len() / 2) as int;
        halved_sum(xs.take(half)).add_spec(halved_sum(xs.skip(half)))
    }
}

/// Every sum on the way to `halved_sum` can be formed.
pub open spec fn halved_computable<T: Add<Output = T>>(xs: Seq<T>) -> bool
    decreases xs.len(),
{
    xs.len() <= 1 || {
        let half = (xs.len() / 2) as int;
        &&& halved_computable(xs.take(half))
        &&& halved_computable(xs.skip(half))
        &&& halved_sum(xs.take(half)).add_req(halved_sum(xs.skip(half)))
    }
}

/// A chain over two sequences in a row is the chain over the second, started
/// from the chain over the first.
pub proof fn lemma_chain_splits<T: Add<Output = T>>(start: T, front: Seq<T>, back: Seq<T>)
    ensures
        chain_sum(start, front + back) == chain_sum(chain_sum(start, front), back),
        chain_computable(start, front + back) <==> chain_computable(start, front)
            && chain_computable(chain_sum(start, front), back),
    decreases back.len(),
{
    if back.len() > 0 {
        lemma_chain_splits(start, front, back.drop_last());
        assert((front + back).drop_last() =~= front + back.drop_last());
    }
}

/// Where sums may be regrouped, adding the terms one by one to a start value
/// gives the start value plus their sum by halves.
pub proof fn lemma_chain_is_halved<T: Add<Output = T>>(start: T, xs: Seq<T>)
    requires
        addition_associates::<T>(),
        is_power_of_two(xs.len()),
        chain_computable(start, xs),
        halved_computable(xs),
    ensures
        start.add_req(halved_sum(xs)),
        chain_sum(start, xs) == start.add_spec(halved_sum(xs)),
    decreases xs.len(),
{
    if xs.len() > 1 {
        let half = (xs.len() / 2) as int;
        let front = xs.take(half);
        let back = xs.skip(half);
        assert(front + back =~= xs);
        lemma_chain_splits(start, front, back);
        lemma_chain_is_halved(start, front);
        lemma_chain_is_halved(chain_sum(start, front), back);
        let f = halved_sum(front);
        let g = halved_sum(back);
        assert(start.add_spec(f).add_spec(g) == start.add_spec(f.add_spec(g)));
    }
}

/// An element of the direct product is the chain of its terms.
pub proof fn lemma_dot_is_chain<T: Add<Output = T> + Mul<Output = T>>(
    start: T,
    a_row: Seq<T>,
    b: Seq<Seq<T>>,
    col: int,
    count: nat,
)
    ensures
        dot(start, a_row, b, col, count) == chain_sum(start, terms(a_row, b, col, count)),
        dot_computable(start, a_row, b, col, count) ==> chain_computable(
            start,
            terms(a_row, b, col, count),
        ),
    decreases count,
{
    if count > 0 {
        lemma_dot_is_chain(start, a_row, b, col, (count - 1) as nat);
        assert(terms(a_row, b, col, count).drop_last() =~= terms(
            a_row,
            b,
            col,
            (count - 1) as nat,
        ));
    }
}

/// An element of the product by quadrants is the sum by halves of its terms.
pub proof fn lemma_block_element_is_halved<T: Add<Output = T> + Mul<Output = T>>(
    a: Seq<Seq<T>>,
    b: Seq<Seq<T>>,
    i: int,
    j: int,
)
    requires
        is_power_of_two(a.len()),
        is_matrix(a, a.len() as int, a.len() as int),
        is_matrix(b, a.len() as int, a.len() as int),
        0 <= i < a.len(),
        0 <= j < a.len(),
    ensures
        block_product(a, b)[i][j] == halved_sum(terms(a[i], b, j, a.len())),
        block_product_computable(a, b) ==> halved_computable(terms(a[i], b, j, a.len())),
    decreases a.len(),
{
    let n = a.len();
    let all = terms(a[i], b, j, n);
    if n > 1 {
        let half = (n / 2) as int;
        let (a_left, a_right, row) = if i < half {
            (upper_left(a), upper_right(a), i)
        } else {
            (lower_left(a), lower_right(a), i - half)
        };
        let (b_upper, b_lower, col) = if j < half {
            (upper_left(b), lower_left(b), j)
        } else {
            (upper_right(b), lower_right(b), j - half)
        };
        lemma_block_product_is_square(upper_left(a), upper_left(b));
        lemma_block_product_is_square(upper_left(a), upper_right(b));
        lemma_block_product_is_square(lower_left(a), upper_left(b));
        lemma_block_product_is_square(lower_left(a), upper_right(b));
        lemma_block_element_is_halved(a_left, b_upper, row, col);
        lemma_block_element_is_halved(a_right, b_lower, row, col);
        assert(terms(a_left[row], b_upper, col, half as nat) =~= all.take(half));
        assert(terms(a_right[row], b_lower, col, half as nat) =~= all.skip(half));
        let first = block_product(a_left, b_upper);
        let second = block_product(a_right, b_lower);
        assert(block_product(a, b)[i][j] == first[row][col].add_spec(second[row][col]));
    }
}

/// For two square matrices whose size is a power of two, over elements whose
/// sums may be regrouped and with a zero that adds nothing, the product by
/// quadrants is the direct product, wherever both can be computed.
pub proof fn lemma_products_agree<T: Add<Output = T> + Mul<Output = T>>(
    zero: T,
    a: Seq<Seq<T>>,
    b: Seq<Seq<T>>,
)
    requires
        is_matrix(a, a.len() as int, a.len() as int),
        is_matrix(b, a.len() as int, a.len() as int),
        is_power_of_two(a.len()),
        addition_associates::<T>(),
        is_neutral(zero),
        product_computable(zero, a, b),
        block_product_computable(a, b),
    ensures
        block_product(a, b) == product(zero, a, b),
{
    let n = a.len();
    let direct = product(zero, a, b);
    let blocks = block_product(a, b);
    lemma_block_product_is_square(a, b);
    assert forall|i: int| 0 <= i < n implies #[trigger] blocks[i] =~= direct[i] by {
        assert forall|j: int| 0 <= j < n implies blocks[i][j] == direct[i][j] by {
            let all = terms(a[i], b, j, n);
            lemma_block_element_is_halved(a, b, i, j);
            lemma_dot_is_chain(zero, a[i], b, j, n);
            lemma_chain_is_halved(zero, all);
        }
    }
}

} // verus!
