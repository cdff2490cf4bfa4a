//! Matrices as sequences of rows, and what the two products are.
use crate::devide_and_conquer::ShapeMismatch;
use core::ops::{Add, Mul};
use vstd::prelude::*;
use vstd::std_specs::ops::AddSpec;
use vstd::std_specs::ops::MulSpec;

verus! {

/// The rows of a matrix, each as the sequence of its elements.
pub open spec fn rows_of<T>(m: &Vec<Vec<T>>) -> Seq<Seq<T>> {
    Seq::new(m@.len(), |i: int| m@[i]@)
}

/// The rows of `rows_of` are the rows of the matrix, whichever matrix it is.
pub proof fn lemma_rows_of<T>()
    ensures
        forall|m: &Vec<Vec<T>>, i: int|
            0 <= i < m@.len() ==> rows_of(m)[i] == (#[trigger] m@[i])@,
{
}

/// `m` has `height` rows, each of `width` elements.
pub open spec fn is_matrix<T>(m: Seq<Seq<T>>, height: int, width: int) -> bool {
    &&& m.len() == height
    &&& forall|i: int| 0 <= i < height ==> (#[trigger] m[i]).len() == width
}

/// The test that both products make before they compute: each matrix has as
/// many rows as its first row has elements, and both have the same number.
pub open spec fn shapes_agree<T>(a: Seq<Seq<T>>, b: Seq<Seq<T>>) -> bool {
    &&& a.len() > 0
    &&& b.len() > 0
    &&& a.len() == a[0].len()
    &&& b.len() == b[0].len()
    &&& a.len() == b.len()
}

/// The four numbers that the test looks at.
pub open spec fn observed_shapes<T>(a: Seq<Seq<T>>, b: Seq<Seq<T>>) -> ShapeMismatch {
    ShapeMismatch {
        a_rows: a.len() as usize,
        a_cols: a[0].len() as usize,
        b_rows: b.len() as usize,
        b_cols: b[0].len() as usize,
    }
}

/// `start + a_row[0] * b[0][col] + ... + a_row[count - 1] * b[count - 1][col]`,
/// added from left to right.
pub open spec fn dot<T: Add<Output = T> + Mul<Output = T>>(
    start: T,
    a_row: Seq<T>,
    b: Seq<Seq<T>>,
    col: int,
    count: nat,
) -> T
    decreases count,
{
    if count == 0 {
        start
    } else {
        dot(start, a_row, b, col, (count - 1) as nat).add_spec(
            a_row[count - 1].mul_spec(b[count - 1][col]),
        )
    }
}

/// Every product and every sum on the way to `dot` can be formed.
pub open spec fn dot_computable<T: Add<Output = T> + Mul<Output = T>>(
    start: T,
    a_row: Seq<T>,
    b: Seq<Seq<T>>,
    col: int,
    count: nat,
) -> bool
    decreases count,
{
    count == 0 || {
        &&& dot_computable(start, a_row, b, col, (count - 1) as nat)
        &&& a_row[count - 1].mul_req(b[count - 1][col])
        &&& dot(start, a_row, b, col, (count - 1) as nat).add_req(
            a_row[count - 1].mul_spec(b[count - 1][col]),
        )
    }
}

/// The product of two square matrices of one size, each element summed up
/// from `zero` along its row of `a` and its column of `b`.
pub open spec fn product<T: Add<Output = T> + Mul<Output = T>>(
    zero: T,
    a: Seq<Seq<T>>,
    b: Seq<Seq<T>>,
) -> Seq<Seq<T>> {
    Seq::new(a.len(), |i: int| Seq::new(a.len(), |j: int| dot(zero, a[i], b, j, a.len())))
}

/// Every element of `product` can be computed.
pub open spec fn product_computable<T: Add<Output = T> + Mul<Output = T>>(
    zero: T,
    a: Seq<Seq<T>>,
    b: Seq<Seq<T>>,
) -> bool {
    forall|i: int, j: int|
        0 <= i < a.len() && 0 <= j < a.len() ==> #[trigger] dot_computable(
            zero,
            a[i],
            b,
            j,
            a.len(),
        )
}

/// The direct product on its way, row by row and within a row from left to
/// right: the elements before the one in row `i` and column `j` are done, that
/// one has taken in its first `k` terms, and those after it are still `zero`.
pub open spec fn product_up_to<T: Add<Output = T> + Mul<Output = T>>(
    zero: T,
    a: Seq<Seq<T>>,
    b: Seq<Seq<T>>,
    i: int,
    j: int,
    k: nat,
) -> Seq<Seq<T>> {
    Seq::new(
        a.len(),
        |r: int|
            Seq::new(
                a.len(),
                |q: int|
                    if r < i || (r == i && q < j) {
                        dot(zero, a[r], b, q, a.len())
                    } else if r == i && q == j {
                        dot(zero, a[r], b, q, k)
                    } else {
                        zero
                    },
            ),
    )
}

/// If a whole `dot` can be computed, so can each of its beginnings.
pub proof fn lemma_dot_prefix_computable<T: Add<Output = T> + Mul<Output = T>>(
    start: T,
    a_row: Seq<T>,
    b: Seq<Seq<T>>,
    col: int,
    count: nat,
    shorter: nat,
)
    requires
        dot_computable(start, a_row, b, col, count),
        shorter <= count,
    ensures
        dot_computable(start, a_row, b, col, shorter),
    decreases count,
{
    if shorter < count {
        lemma_dot_prefix_computable(start, a_row, b, col, (count - 1) as nat, shorter);
    }
}

/// The window of `m` that holds rows `top` up to `bottom` and, of each,
/// columns `left` up to `right`, the upper bounds left out.
pub open spec fn window<T>(m: Seq<Seq<T>>, top: int, bottom: int, left: int, right: int) -> Seq<
    Seq<T>,
> {
    Seq::new(
        (bottom - top) as nat,
        |i: int| Seq::new((right - left) as nat, |j: int| m[top + i][left + j]),
    )
}

/// The sum of two square matrices, element by element. Its size is the number
/// of rows of `x`.
pub open spec fn sum<T: Add<Output = T>>(x: Seq<Seq<T>>, y: Seq<Seq<T>>) -> Seq<Seq<T>> {
    Seq::new(x.len(), |i: int| Seq::new(x.len(), |j: int| x[i][j].add_spec(y[i][j])))
}

/// Every element of `sum` can be computed.
pub open spec fn sum_computable<T: Add<Output = T>>(x: Seq<Seq<T>>, y: Seq<Seq<T>>) -> bool {
    forall|i: int, j: int|
        0 <= i < x.len() && 0 <= j < x.len() ==> #[trigger] x[i][j].add_req(y[i][j])
}

/// The matrix made of four quadrants of one size: `c11` upper left, `c12`
/// upper right, `c21` lower left, `c22` lower right.
pub open spec fn assembled<T>(
    c11: Seq<Seq<T>>,
    c12: Seq<Seq<T>>,
    c21: Seq<Seq<T>>,
    c22: Seq<Seq<T>>,
) -> Seq<Seq<T>> {
    Seq::new(
        2 * c11.len(),
        |i: int|
            if i < c11.len() {
                c11[i] + c12[i]
            } else {
                c21[i - c11.len()] + c22[i - c11.len()]
            },
    )
}

/// `n` is 1, 2, 4, 8, ...
pub open spec fn is_power_of_two(n: nat) -> bool
    decreases n,
{
    n == 1 || (n >= 2 && n % 2 == 0 && is_power_of_two(n / 2))
}

/// The upper left quadrant of a square matrix.
pub open spec fn upper_left<T>(m: Seq<Seq<T>>) -> Seq<Seq<T>> {
    window(m, 0, m.len() as int / 2, 0, m.len() as int / 2)
}

/// The upper right quadrant of a square matrix.
pub open spec fn upper_right<T>(m: Seq<Seq<T>>) -> Seq<Seq<T>> {
    window(m, 0, m.len() as int / 2, m.len() as int / 2, m.len() as int)
}

/// The lower left quadrant of a square matrix.
pub open spec fn lower_left<T>(m: Seq<Seq<T>>) -> Seq<Seq<T>> {
    window(m, m.len() as int / 2, m.len() as int, 0, m.len() as int / 2)
}

/// The lower right quadrant of a square matrix.
pub open spec fn lower_right<T>(m: Seq<Seq<T>>) -> Seq<Seq<T>> {
    window(m, m.len() as int / 2, m.len() as int, m.len() as int / 2, m.len() as int)
}

/// The product of two square matrices whose size is a power of two, by
/// quadrants: a single element is multiplied; a larger matrix is cut into four
/// quadrants, and each quadrant of the result is the sum of two products of
/// quadrants.
pub open spec fn block_product<T: Add<Output = T> + Mul<Output = T>>(
    a: Seq<Seq<T>>,
    b: Seq<Seq<T>>,
) -> Seq<Seq<T>>
    decreases a.len(),
{
    if a.len() <= 1 {
        seq![seq![a[0][0].mul_spec(b[0][0])]]
    } else {
        assembled(
            sum(
                block_product(upper_left(a), upper_left(b)),
                block_product(upper_right(a), lower_left(b)),
            ),
            sum(
                block_product(upper_left(a), upper_right(b)),
                block_product(upper_right(a), lower_right(b)),
            ),
            sum(
                block_product(lower_left(a), upper_left(b)),
                block_product(lower_right(a), lower_left(b)),
            ),
            sum(
                block_product(lower_left(a), upper_right(b)),
                block_product(lower_right(a), lower_right(b)),
            ),
        )
    }
}

/// Every product and every sum that the computation by quadrants forms can be
/// formed. Of a size that is no power of two it forms only those that come
/// before the first quadrants that do not fit: the product of the two upper
/// left quadrants.
pub open spec fn block_product_computable<T: Add<Output = T> + Mul<Output = T>>(
    a: Seq<Seq<T>>,
    b: Seq<Seq<T>>,
) -> bool
    decreases a.len(),
{
    if a.len() <= 1 {
        a[0][0].mul_req(b[0][0])
    } else {
        &&& block_product_computable(upper_left(a), upper_left(b))
        &&& is_power_of_two(a.len()) ==> {
            &&& block_product_computable(upper_right(a), lower_left(b))
            &&& sum_computable(
                block_product(upper_left(a), upper_left(b)),
                block_product(upper_right(a), lower_left(b)),
            )
            &&& block_product_computable(upper_left(a), upper_right(b))
            &&& block_product_computable(upper_right(a), lower_right(b))
            &&& sum_computable(
                block_product(upper_left(a), upper_right(b)),
                block_product(upper_right(a), lower_right(b)),
            )
            &&& block_product_computable(lower_left(a), upper_left(b))
            &&& block_product_computable(lower_right(a), lower_left(b))
            &&& sum_computable(
                block_product(lower_left(a), upper_left(b)),
                block_product(lower_right(a), lower_left(b)),
            )
            &&& block_product_computable(lower_left(a), upper_right(b))
            &&& block_product_computable(lower_right(a), lower_right(b))
            &&& sum_computable(
                block_product(lower_left(a), upper_right(b)),
                block_product(lower_right(a), lower_right(b)),
            )
        }
    }
}

/// The shapes with which the computation by quadrants is refused when the
/// size `n` is no power of two. The product of the two upper left quadrants is
/// tried first, and is refused in the same way as long as their size is no
/// power of two. Once it is one, `n` is odd, and the pair tried next, the upper
/// right quadrant of the one matrix and the lower left quadrant of the other,
/// is not square.
pub open spec fn first_misfit(n: nat) -> ShapeMismatch
    decreases n,
{
    let half = n / 2;
    if n < 2 || is_power_of_two(half) {
        ShapeMismatch {
            a_rows: half as usize,
            a_cols: (n - half) as usize,
            b_rows: (n - half) as usize,
            b_cols: half as usize,
        }
    } else {
        first_misfit(half)
    }
}

/// The computation by quadrants gives a square matrix of the size it was
/// given, whenever that size is a power of two.
pub proof fn lemma_block_product_is_square<T: Add<Output = T> + Mul<Output = T>>(
    a: Seq<Seq<T>>,
    b: Seq<Seq<T>>,
)
    requires
        is_power_of_two(a.len()),
    ensures
        is_matrix(block_product(a, b), a.len() as int, a.len() as int),
    decreases a.len(),
{
    if a.len() > 1 {
        lemma_block_product_is_square(upper_left(a), upper_left(b));
        lemma_block_product_is_square(upper_left(a), upper_right(b));
        lemma_block_product_is_square(lower_left(a), upper_left(b));
        lemma_block_product_is_square(lower_left(a), upper_right(b));
    }
}

} // verus!
