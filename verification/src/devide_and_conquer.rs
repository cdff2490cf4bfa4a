//! Algorithms built on the divide-and-conquer paradigm: the product of two
//! square matrices, computed directly and by splitting into quadrants.
use crate::devide_and_conquer::arithmetic::{computes, is_zero};
use crate::devide_and_conquer::model::{
    assembled, block_product, block_product_computable, first_misfit, is_matrix,
    is_power_of_two, lemma_block_product_is_square, lemma_dot_prefix_computable, lemma_rows_of,
    lower_left, lower_right, observed_shapes, product, product_computable, product_up_to,
    rows_of, shapes_agree, sum, sum_computable, upper_left, upper_right, window,
};
use core::ops::{Add, Mul};
use vstd::prelude::*;
use vstd::std_specs::ops::AddSpec;

pub mod arithmetic;
pub mod laws;
pub mod model;

verus! {

/// Two matrices that cannot be multiplied: one of them is not square, or the
/// two differ in size. The fields are the shapes that were found.
#[derive(Clone, Copy, Debug, PartialEq, Eq)]
pub struct ShapeMismatch {
    pub a_rows: usize,
    pub a_cols: usize,
    pub b_rows: usize,
    pub b_cols: usize,
}

/// The product of two square matrices of one size, by the rule of rows times
/// columns: each element is summed up in place from `T::default()`, term by
/// term from left to right.
///
/// Both matrices must have a first row, by which their shape is judged. A pair
/// that passes that test must consist of two true squares, and every product
/// and sum on the way must be one that `T` can form.
#[verifier::loop_isolation(false)]
pub fn multiply<T>(a: &Vec<Vec<T>>, b: &Vec<Vec<T>>) -> (res: Result<Vec<Vec<T>>, ShapeMismatch>)
    where T: Mul<Output = T> + Add<Output = T> + Copy + Default
    requires
        a@.len() > 0,
        b@.len() > 0,
        shapes_agree(rows_of(a), rows_of(b)) ==> {
            &&& is_matrix(rows_of(a), a@.len() as int, a@.len() as int)
            &&& is_matrix(rows_of(b), a@.len() as int, a@.len() as int)
            &&& computes::<T>()
            &&& forall|z: T| is_zero(z) ==> product_computable(z, rows_of(a), rows_of(b))
        },
    ensures
        match res {
            Ok(c) => {
                &&& shapes_agree(rows_of(a), rows_of(b))
                &&& is_matrix(rows_of(&c), a@.len() as int, a@.len() as int)
                &&& exists|z: T| is_zero(z) && rows_of(&c) == product(z, rows_of(a), rows_of(b))
            },
            Err(e) => {
                &&& !shapes_agree(rows_of(a), rows_of(b))
                &&& e == observed_shapes(rows_of(a), rows_of(b))
            },
        },
{
    assert_both_square(a, b)?;
    let n = a.len();
    let zero = T::default();
    let ghost ra = rows_of(a);
    let ghost rb = rows_of(b);
    proof {
        lemma_rows_of::<T>();
    }
    assert(is_zero(zero));

    let mut c = filled(zero, n);
    assert(rows_of(&c) =~~= product_up_to(zero, ra, rb, 0, 0, 0));

    for i in 0..n
        invariant
            rows_of(&c) == product_up_to(zero, ra, rb, i as int, 0, 0),
    {
        for j in 0..n
            invariant
                rows_of(&c) == product_up_to(zero, ra, rb, i as int, j as int, 0),
        {
            for k in 0..n
                invariant
                    rows_of(&c) == product_up_to(zero, ra, rb, i as int, j as int, k as nat),
            {
                proof {
                    lemma_dot_prefix_computable(
                        zero,
                        ra[i as int],
                        rb,
                        j as int,
                        n as nat,
                        (k + 1) as nat,
                    );
                }
                c[i][j] = c[i][j] + a[i][k] * b[k][j];
                assert(rows_of(&c) =~~= product_up_to(
                    zero,
                    ra,
                    rb,
                    i as int,
                    j as int,
                    (k + 1) as nat,
                ));
            }
            assert(rows_of(&c) =~~= product_up_to(zero, ra, rb, i as int, j + 1, 0));
        }
        assert(rows_of(&c) =~~= product_up_to(zero, ra, rb, i + 1, 0, 0));
    }
    assert(rows_of(&c) =~~= product(zero, ra, rb));
    Ok(c)
}

/// Accepts two matrices of which each has as many rows as its first row has
/// elements, and both the same number; refuses any other pair with the shapes
/// it found. Both matrices must have a first row.
pub fn assert_both_square<T>(a: &Vec<Vec<T>>, b: &Vec<Vec<T>>) -> (res: Result<
    (),
    ShapeMismatch,
>)
    requires
        a@.len() > 0,
        b@.len() > 0,
    ensures
        match res {
            Ok(_) => shapes_agree(rows_of(a), rows_of(b)),
            Err(e) => !shapes_agree(rows_of(a), rows_of(b)) && e == observed_shapes(
                rows_of(a),
                rows_of(b),
            ),
        },
{
    let a_row = a.len();
    let a_col = a[0].len();
    let b_row = b.len();
    let b_col = b[0].len();
    if a_row != a_col || b_row != b_col || a_row != b_row {
        return Err(ShapeMismatch { a_rows: a_row, a_cols: a_col, b_rows: b_row, b_cols: b_col });
    }
    Ok(())
}

/// The product of two square matrices of one size, by divide and conquer: a
/// single element is multiplied; a larger matrix is cut at the middle into
/// four quadrants, each quadrant of the result is the sum of two products of
/// quadrants, and the four are put together.
///
/// Each product of quadrants is tested like the two matrices themselves. A size
/// that is no power of two leads to quadrants that do not fit, and the product
/// is refused with their shapes.
///
/// Both matrices must have a first row, by which their shape is judged. A pair
/// that passes that test must consist of two true squares, and every product
/// and sum that is formed, up to the refusal where there is one, must be one
/// that `T` can form.
pub fn multiply_conquer<T>(a: &Vec<Vec<T>>, b: &Vec<Vec<T>>) -> (res: Result<
    Vec<Vec<T>>,
    ShapeMismatch,
>)
    where T: Mul<Output = T> + Add<Output = T> + Copy + Default
    requires
        a@.len() > 0,
        b@.len() > 0,
        shapes_agree(rows_of(a), rows_of(b)) ==> {
            &&& is_matrix(rows_of(a), a@.len() as int, a@.len() as int)
            &&& is_matrix(rows_of(b), a@.len() as int, a@.len() as int)
            &&& computes::<T>()
            &&& block_product_computable(rows_of(a), rows_of(b))
        },
    ensures
        match res {
            Ok(c) => {
                &&& shapes_agree(rows_of(a), rows_of(b))
                &&& is_power_of_two(a@.len())
                &&& is_matrix(rows_of(&c), a@.len() as int, a@.len() as int)
                &&& rows_of(&c) == block_product(rows_of(a), rows_of(b))
            },
            Err(e) => if shapes_agree(rows_of(a), rows_of(b)) {
                !is_power_of_two(a@.len()) && e == first_misfit(a@.len())
            } else {
                e == observed_shapes(rows_of(a), rows_of(b))
            },
        },
    decreases a@.len(),
{
    assert_both_square(a, b)?;
    let n = a.len();
    let ghost ra = rows_of(a);
    let ghost rb = rows_of(b);

    if n == 1 {
        let single = vec![vec![a[0][0] * b[0][0]]];
        assert(rows_of(&single) =~~= block_product(ra, rb));
        return Ok(single);
    }
    let mid = n / 2;
    let a11 = split_matrix(a, 0, mid, 0, mid);
    let a12 = split_matrix(a, 0, mid, mid, n);
    let a21 = split_matrix(a, mid, n, 0, mid);
    let a22 = split_matrix(a, mid, n, mid, n);

    let b11 = split_matrix(b, 0, mid, 0, mid);
    let b12 = split_matrix(b, 0, mid, mid, n);
    let b21 = split_matrix(b, mid, n, 0, mid);
    let b22 = split_matrix(b, mid, n, mid, n);

    proof {
        if is_power_of_two(n as nat) {
            lemma_block_product_is_square(upper_left(ra), upper_left(rb));
            lemma_block_product_is_square(upper_right(ra), lower_left(rb));
            lemma_block_product_is_square(upper_left(ra), upper_right(rb));
            lemma_block_product_is_square(upper_right(ra), lower_right(rb));
            lemma_block_product_is_square(lower_left(ra), upper_left(rb));
            lemma_block_product_is_square(lower_right(ra), lower_left(rb));
            lemma_block_product_is_square(lower_left(ra), upper_right(rb));
            lemma_block_product_is_square(lower_right(ra), lower_right(rb));
        }
    }

    let c11 = add_matrices(&multiply_conquer(&a11, &b11)?, &multiply_conquer(&a12, &b21)?);

    let c12 = add_matrices(&multiply_conquer(&a11, &b12)?, &multiply_conquer(&a12, &b22)?);

    let c21 = add_matrices(&multiply_conquer(&a21, &b11)?, &multiply_conquer(&a22, &b21)?);

    let c22 = add_matrices(&multiply_conquer(&a21, &b12)?, &multiply_conquer(&a22, &b22)?);

    let mut c = vec![vec![T::default(); n]; n];
    let ghost r11 = rows_of(&c11);
    let ghost r12 = rows_of(&c12);
    let ghost r21 = rows_of(&c21);
    let ghost r22 = rows_of(&c22);

    for i in 0..mid
        invariant
            n == 2 * mid,
            r11 == rows_of(&c11) && is_matrix(r11, mid as int, mid as int),
            r12 == rows_of(&c12) && is_matrix(r12, mid as int, mid as int),
            r21 == rows_of(&c21) && is_matrix(r21, mid as int, mid as int),
            r22 == rows_of(&c22) && is_matrix(r22, mid as int, mid as int),
            is_matrix(rows_of(&c), n as int, n as int),
            forall|r: int, q: int|
                0 <= r < i && 0 <= q < mid ==> rows_of(&c)[r][q] == #[trigger] r11[r][q],
            forall|r: int, q: int|
                0 <= r < i && 0 <= q < mid ==> rows_of(&c)[r][q + mid] == #[trigger] r12[r][q],
            forall|r: int, q: int|
                0 <= r < i && 0 <= q < mid ==> rows_of(&c)[r + mid][q] == #[trigger] r21[r][q],
            forall|r: int, q: int|
                0 <= r < i && 0 <= q < mid ==> rows_of(&c)[r + mid][q + mid]
                    == #[trigger] r22[r][q],
    {
        for j in 0..mid
            invariant
                i < mid,
                n == 2 * mid,
                r11 == rows_of(&c11) && is_matrix(r11, mid as int, mid as int),
                r12 == rows_of(&c12) && is_matrix(r12, mid as int, mid as int),
                r21 == rows_of(&c21) && is_matrix(r21, mid as int, mid as int),
                r22 == rows_of(&c22) && is_matrix(r22, mid as int, mid as int),
                is_matrix(rows_of(&c), n as int, n as int),
                forall|r: int, q: int|
                    0 <= r < mid && 0 <= q < mid && (r < i || (r == i && q < j))
                        ==> rows_of(&c)[r][q] == #[trigger] r11[r][q],
                forall|r: int, q: int|
                    0 <= r < mid && 0 <= q < mid && (r < i || (r == i && q < j))
                        ==> rows_of(&c)[r][q + mid] == #[trigger] r12[r][q],
                forall|r: int, q: int|
                    0 <= r < mid && 0 <= q < mid && (r < i || (r == i && q < j))
                        ==> rows_of(&c)[r + mid][q] == #[trigger] r21[r][q],
                forall|r: int, q: int|
                    0 <= r < mid && 0 <= q < mid && (r < i || (r == i && q < j))
                        ==> rows_of(&c)[r + mid][q + mid] == #[trigger] r22[r][q],
        {
            proof {
                lemma_rows_of::<T>();
            }
            c[i][j] = c11[i][j];
            c[i][j + mid] = c12[i][j];
            c[i + mid][j] = c21[i][j];
            c[i + mid][j + mid] = c22[i][j];
        }
    }
    assert(rows_of(&c) =~~= assembled(r11, r12, r21, r22));

    Ok(c)
}

/// A copy of the window of `a` that holds rows `start_row` up to `end_row`
/// and, of each, columns `start_col` up to `end_col`, the upper bounds left
/// out. A window that holds anything must lie inside `a`.
#[verifier::loop_isolation(false)]
pub fn split_matrix<T>(
    a: &Vec<Vec<T>>,
    start_row: usize,
    end_row: usize,
    start_col: usize,
    end_col: usize,
) -> (result: Vec<Vec<T>>)
    where T: Copy + Default
    requires
        start_row <= end_row,
        start_col <= end_col,
        start_row < end_row && start_col < end_col ==> {
            &&& end_row <= a@.len()
            &&& forall|i: int| start_row <= i < end_row ==> end_col <= (#[trigger] rows_of(a)[i]).len()
        },
    ensures
        rows_of(&result) == window(
            rows_of(a),
            start_row as int,
            end_row as int,
            start_col as int,
            end_col as int,
        ),
{
    let rows = end_row - start_row;
    let cols = end_col - start_col;
    let mut result = vec![vec![T::default(); cols]; rows];
    proof {
        lemma_rows_of::<T>();
    }
    let ghost wanted = window(
        rows_of(a),
        start_row as int,
        end_row as int,
        start_col as int,
        end_col as int,
    );
    for i in 0..rows
        invariant
            is_matrix(rows_of(&result), rows as int, cols as int),
            forall|r: int, q: int|
                0 <= r < i && 0 <= q < cols ==> #[trigger] rows_of(&result)[r][q] == wanted[r][q],
    {
        for j in 0..cols
            invariant
                is_matrix(rows_of(&result), rows as int, cols as int),
                forall|r: int, q: int|
                    0 <= r < rows && 0 <= q < cols && (r < i || (r == i && q < j))
                        ==> #[trigger] rows_of(&result)[r][q] == wanted[r][q],
        {
            result[i][j] = a[start_row + i][start_col + j];
        }
    }
    assert(rows_of(&result) =~~= wanted);
    result
}

/// The sum of two square matrices, element by element. The size is the
/// number of rows of `a`; of longer rows and of a larger `b` the rest is not
/// looked at. Every sum must be one that `T` can form.
#[verifier::loop_isolation(false)]
pub fn add_matrices<T>(a: &Vec<Vec<T>>, b: &Vec<Vec<T>>) -> (c: Vec<Vec<T>>)
    where T: Add<Output = T> + Copy + Default
    requires
        a@.len() <= b@.len(),
        forall|i: int| 0 <= i < a@.len() ==> a@.len() <= (#[trigger] rows_of(a)[i]).len(),
        forall|i: int| 0 <= i < a@.len() ==> a@.len() <= (#[trigger] rows_of(b)[i]).len(),
        sum_computable(rows_of(a), rows_of(b)),
    ensures
        is_matrix(rows_of(&c), a@.len() as int, a@.len() as int),
        T::obeys_add_spec() ==> rows_of(&c) == sum(rows_of(a), rows_of(b)),
{
    let n = a.len();
    let mut c = vec![vec![T::default(); n]; n];
    let ghost wanted = sum(rows_of(a), rows_of(b));
    proof {
        lemma_rows_of::<T>();
    }
    for i in 0..n
        invariant
            is_matrix(rows_of(&c), n as int, n as int),
            T::obeys_add_spec() ==> forall|r: int, q: int|
                0 <= r < i && 0 <= q < n ==> #[trigger] rows_of(&c)[r][q] == wanted[r][q],
    {
        for j in 0..n
            invariant
                is_matrix(rows_of(&c), n as int, n as int),
                T::obeys_add_spec() ==> forall|r: int, q: int|
                    0 <= r < n && 0 <= q < n && (r < i || (r == i && q < j))
                        ==> #[trigger] rows_of(&c)[r][q] == wanted[r][q],
        {
            assert(rows_of(a)[i as int][j as int].add_req(rows_of(b)[i as int][j as int]));
            c[i][j] = a[i][j] + b[i][j];
        }
    }
    assert(T::obeys_add_spec() ==> rows_of(&c) =~~= wanted);
    c
}

/// A matrix of `n` rows of `n` copies of `value`.
#[verifier::loop_isolation(false)]
fn filled<T: Copy>(value: T, n: usize) -> (m: Vec<Vec<T>>)
    ensures
        is_matrix(rows_of(&m), n as int, n as int),
        forall|i: int, j: int| 0 <= i < n && 0 <= j < n ==> #[trigger] rows_of(&m)[i][j] == value,
{
    let mut m: Vec<Vec<T>> = Vec::with_capacity(n);
    proof {
        lemma_rows_of::<T>();
    }
    for i in 0..n
        invariant
            is_matrix(rows_of(&m), i as int, n as int),
            forall|r: int, q: int|
                0 <= r < i && 0 <= q < n ==> #[trigger] rows_of(&m)[r][q] == value,
    {
        let mut row: Vec<T> = Vec::with_capacity(n);
        for j in 0..n
            invariant
                row@.len() == j,
                forall|q: int| 0 <= q < j ==> #[trigger] row@[q] == value,
        {
            row.push(value);
        }
        m.push(row);
    }
    m
}

} // verus!
