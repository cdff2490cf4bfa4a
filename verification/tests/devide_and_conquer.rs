use rusty_algo::devide_and_conquer::{
    add_matrices, assert_both_square, multiply, multiply_conquer, split_matrix, ShapeMismatch,
};

type SquareMatrix<T> = Vec<Vec<T>>;

struct TestCase<T> {
    input: (SquareMatrix<T>, SquareMatrix<T>),
    expected: SquareMatrix<T>,
    description: &'static str,
}

fn test_cases_int() -> Vec<TestCase<i32>> {
    vec![
        TestCase {
            input: (vec![vec![1, 2], vec![3, 4]], vec![vec![5, 6], vec![7, 8]]),
            expected: vec![vec![19, 22], vec![43, 50]],
            description: "2x2 matrices",
        },
        TestCase {
            input: (
                vec![vec![1, 2, 3], vec![4, 5, 6], vec![7, 8, 9]],
                vec![vec![1, 2, 3], vec![4, 5, 6], vec![7, 8, 9]],
            ),
            expected: vec![vec![30, 36, 42], vec![66, 81, 96], vec![102, 126, 150]],
            description: "3x3 matrices",
        },
    ]
}

fn test_cases_float() -> Vec<TestCase<f32>> {
    vec![
        TestCase {
            input: (
                vec![vec![1.0, 2.0], vec![3.0, 4.0]],
                vec![vec![5.0, 6.0], vec![7.0, 8.0]],
            ),
            expected: vec![vec![19.0, 22.0], vec![43.0, 50.0]],
            description: "2x2 matrices",
        },
        TestCase {
            input: (
                vec![
                    vec![1.0, 2.0, 3.0],
                    vec![4.0, 5.0, 6.0],
                    vec![7.0, 8.0, 9.0],
                ],
                vec![
                    vec![1.0, 2.0, 3.0],
                    vec![4.0, 5.0, 6.0],
                    vec![7.0, 8.0, 9.0],
                ],
            ),
            expected: vec![
                vec![30.0, 36.0, 42.0],
                vec![66.0, 81.0, 96.0],
                vec![102.0, 126.0, 150.0],
            ],
            description: "3x3 matrices",
        },
    ]
}

fn test_cases_wrong_shape() -> Vec<TestCase<i32>> {
    vec![
        TestCase {
            input: (
                vec![vec![1, 2], vec![3, 4]],
                vec![vec![1, 2, 3], vec![4, 5, 6]],
            ),
            expected: vec![vec![0]],
            description: "Wrong shape",
        },
        TestCase {
            input: (
                vec![vec![1, 2, 3], vec![3, 4]],
                vec![vec![1, 2], vec![3, 4]],
            ),
            expected: vec![vec![0]],
            description: "Not square row a",
        },
        TestCase {
            input: (
                vec![vec![1, 2], vec![3, 4]],
                vec![vec![1, 2, 3], vec![3, 4]],
            ),
            expected: vec![vec![0]],
            description: "Not square row b",
        },
        TestCase {
            input: (
                vec![vec![1, 2], vec![3, 4], vec![5, 6]],
                vec![vec![1, 2], vec![3, 4]],
            ),
            expected: vec![vec![0]],
            description: "Not square col a",
        },
        TestCase {
            input: (
                vec![vec![1, 2], vec![3, 4]],
                vec![vec![1, 2], vec![3, 4], vec![5, 6]],
            ),
            expected: vec![vec![0]],
            description: "Not square col b",
        },
    ]
}

#[test]
fn test_multiply_int() {
    for test_case in test_cases_int().iter() {
        let (a, b) = &test_case.input;
        let result = multiply(a, b);
        assert_eq!(
            result.expect("Error multiplying matrices"),
            test_case.expected,
            "{}",
            test_case.description
        );
    }
}

#[test]
fn test_multiply_float() {
    for test_case in test_cases_float().iter() {
        let (a, b) = &test_case.input;
        let result = multiply(a, b);
        assert_eq!(
            result.expect("Error multiplying matrices"),
            test_case.expected,
            "{}",
            test_case.description
        );
    }
}

#[test]
fn test_multiply_error() {
    for test_case in test_cases_wrong_shape().iter() {
        let (a, b) = &test_case.input;
        let result = multiply(a, b);
        assert!(result.is_err(), "{}", test_case.description);
    }
}

#[test]
fn test_multiply_conquer_int() {
    for test_case in test_cases_int().iter() {
        let (a, b) = &test_case.input;
        if a.len() > 2 {
            continue;
        }
        let result = multiply_conquer(a, b);
        assert_eq!(
            result.expect("Error multiplying matrices"),
            test_case.expected,
            "{}",
            test_case.description
        );
    }
}

#[test]
fn test_multiply_conquer_float() {
    for test_case in test_cases_float().iter() {
        let (a, b) = &test_case.input;
        if a.len() > 2 {
            continue;
        }
        let result = multiply_conquer(a, b);
        assert_eq!(
            result.expect("Error multiplying matrices"),
            test_case.expected,
            "{}",
            test_case.description
        );
    }
}

#[test]
fn test_multiply_conquer_error() {
    for test_case in test_cases_wrong_shape().iter() {
        let (a, b) = &test_case.input;
        let result = multiply_conquer(a, b);
        assert!(result.is_err(), "{}", test_case.description);
    }
}

fn shapes(a_rows: usize, a_cols: usize, b_rows: usize, b_cols: usize) -> ShapeMismatch {
    ShapeMismatch {
        a_rows,
        a_cols,
        b_rows,
        b_cols,
    }
}

/// An `n` by `n` matrix of small numbers that differ from place to place.
fn sample(n: usize, seed: i64) -> SquareMatrix<i64> {
    (0..n)
        .map(|i| {
            (0..n)
                .map(|j| ((i as i64 * 7 + j as i64 * 3 + seed) % 11) - 5)
                .collect()
        })
        .collect()
}

fn identity(n: usize) -> SquareMatrix<i64> {
    (0..n)
        .map(|i| (0..n).map(|j| if i == j { 1 } else { 0 }).collect())
        .collect()
}

#[test]
fn multiply_single_elements() {
    assert_eq!(multiply(&vec![vec![6]], &vec![vec![7]]), Ok(vec![vec![42]]));
    assert_eq!(
        multiply_conquer(&vec![vec![6]], &vec![vec![7]]),
        Ok(vec![vec![42]])
    );
}

#[test]
fn multiply_by_the_identity() {
    for n in [1usize, 2, 3, 4, 5, 8] {
        let m = sample(n, 2);
        assert_eq!(multiply(&m, &identity(n)), Ok(m.clone()));
        assert_eq!(multiply(&identity(n), &m), Ok(m.clone()));
    }
}

#[test]
fn multiply_is_rows_times_columns() {
    // Not symmetric, so that a product taken the wrong way round shows.
    let a = vec![vec![1, 2], vec![0, 1]];
    let b = vec![vec![1, 0], vec![3, 1]];
    assert_eq!(multiply(&a, &b), Ok(vec![vec![7, 2], vec![3, 1]]));
    assert_eq!(multiply(&b, &a), Ok(vec![vec![1, 2], vec![3, 7]]));
    assert_eq!(multiply_conquer(&a, &b), Ok(vec![vec![7, 2], vec![3, 1]]));
    assert_eq!(multiply_conquer(&b, &a), Ok(vec![vec![1, 2], vec![3, 7]]));
}

#[test]
fn multiply_four_by_four() {
    let a = vec![
        vec![1, 2, 3, 4],
        vec![5, 6, 7, 8],
        vec![9, 10, 11, 12],
        vec![13, 14, 15, 16],
    ];
    let b = vec![
        vec![1, 0, 2, 0],
        vec![0, 1, 0, 2],
        vec![3, 0, 1, 0],
        vec![0, 3, 0, 1],
    ];
    let expected = vec![
        vec![10, 14, 5, 8],
        vec![26, 30, 17, 20],
        vec![42, 46, 29, 32],
        vec![58, 62, 41, 44],
    ];
    assert_eq!(multiply(&a, &b), Ok(expected.clone()));
    assert_eq!(multiply_conquer(&a, &b), Ok(expected));
}

#[test]
fn both_products_agree_on_powers_of_two() {
    for n in [1usize, 2, 4, 8, 16] {
        let a = sample(n, 1);
        let b = sample(n, 4);
        let direct = multiply(&a, &b).expect("square matrices of one size");
        let conquered = multiply_conquer(&a, &b).expect("a power of two");
        assert_eq!(direct, conquered, "size {}", n);
    }
}

#[test]
fn both_products_refuse_mismatched_shapes() {
    let a = vec![vec![1, 2], vec![3, 4]];
    let b = vec![vec![1, 2, 3], vec![4, 5, 6]];
    assert_eq!(multiply(&a, &b), Err(shapes(2, 2, 2, 3)));
    assert_eq!(multiply_conquer(&a, &b), Err(shapes(2, 2, 2, 3)));

    let tall = vec![vec![1, 2], vec![3, 4], vec![5, 6]];
    assert_eq!(multiply(&tall, &a), Err(shapes(3, 2, 2, 2)));
    assert_eq!(multiply_conquer(&a, &tall), Err(shapes(2, 2, 3, 2)));

    let small = vec![vec![1]];
    assert_eq!(multiply(&a, &small), Err(shapes(2, 2, 1, 1)));
    assert_eq!(multiply_conquer(&small, &a), Err(shapes(1, 1, 2, 2)));
}

#[test]
fn conquer_refuses_sizes_that_are_no_power_of_two() {
    // 3 is cut into 1 and 2: the upper right quadrant is 1 by 2.
    assert_eq!(
        multiply_conquer(&sample(3, 0), &sample(3, 1)),
        Err(shapes(1, 2, 2, 1))
    );
    // 5 is cut into 2 and 3.
    assert_eq!(
        multiply_conquer(&sample(5, 0), &sample(5, 1)),
        Err(shapes(2, 3, 3, 2))
    );
    // 6 is halved to 3, which is cut into 1 and 2.
    assert_eq!(
        multiply_conquer(&sample(6, 0), &sample(6, 1)),
        Err(shapes(1, 2, 2, 1))
    );
    // 7 is cut into 3 and 4, and 3 into 1 and 2.
    assert_eq!(
        multiply_conquer(&sample(7, 0), &sample(7, 1)),
        Err(shapes(1, 2, 2, 1))
    );
    // 9 is cut into 4 and 5.
    assert_eq!(
        multiply_conquer(&sample(9, 0), &sample(9, 1)),
        Err(shapes(4, 5, 5, 4))
    );
    // 12 is halved to 6 and 3.
    assert_eq!(
        multiply_conquer(&sample(12, 0), &sample(12, 1)),
        Err(shapes(1, 2, 2, 1))
    );
}

#[test]
fn the_inputs_are_left_as_they_were() {
    let a = sample(4, 3);
    let b = sample(4, 5);
    let (a_before, b_before) = (a.clone(), b.clone());
    let _ = multiply(&a, &b);
    let _ = multiply_conquer(&a, &b);
    assert_eq!(a, a_before);
    assert_eq!(b, b_before);
}

#[test]
fn assert_both_square_accepts_and_refuses() {
    let two = vec![vec![1, 2], vec![3, 4]];
    let three = vec![vec![1, 2, 3], vec![4, 5, 6], vec![7, 8, 9]];
    let wide = vec![vec![1, 2, 3], vec![4, 5, 6]];
    assert_eq!(assert_both_square(&two, &two), Ok(()));
    assert_eq!(assert_both_square(&three, &three), Ok(()));
    assert_eq!(assert_both_square(&two, &three), Err(shapes(2, 2, 3, 3)));
    assert_eq!(assert_both_square(&wide, &two), Err(shapes(2, 3, 2, 2)));
    assert_eq!(assert_both_square(&two, &wide), Err(shapes(2, 2, 2, 3)));
    // Only the first row is measured.
    let ragged = vec![vec![1, 2, 3], vec![3, 4]];
    assert_eq!(assert_both_square(&ragged, &two), Err(shapes(2, 3, 2, 2)));
}

#[test]
fn split_matrix_copies_a_window() {
    let m = vec![
        vec![1, 2, 3, 4],
        vec![5, 6, 7, 8],
        vec![9, 10, 11, 12],
        vec![13, 14, 15, 16],
    ];
    assert_eq!(split_matrix(&m, 0, 2, 0, 2), vec![vec![1, 2], vec![5, 6]]);
    assert_eq!(split_matrix(&m, 0, 2, 2, 4), vec![vec![3, 4], vec![7, 8]]);
    assert_eq!(
        split_matrix(&m, 2, 4, 0, 2),
        vec![vec![9, 10], vec![13, 14]]
    );
    assert_eq!(
        split_matrix(&m, 2, 4, 2, 4),
        vec![vec![11, 12], vec![15, 16]]
    );
    assert_eq!(split_matrix(&m, 1, 2, 0, 3), vec![vec![5, 6, 7]]);
    assert_eq!(split_matrix(&m, 1, 1, 0, 3), Vec::<Vec<i32>>::new());
    assert_eq!(
        split_matrix(&m, 1, 3, 2, 2),
        vec![Vec::<i32>::new(), Vec::<i32>::new()]
    );
}

#[test]
fn add_matrices_adds_element_by_element() {
    let a = vec![vec![1, 2], vec![3, 4]];
    let b = vec![vec![10, 20], vec![30, 40]];
    assert_eq!(add_matrices(&a, &b), vec![vec![11, 22], vec![33, 44]]);
    let none: Vec<Vec<i32>> = vec![];
    assert_eq!(add_matrices(&none, &none), Vec::<Vec<i32>>::new());
}

#[test]
fn float_sums_are_added_from_left_to_right() {
    // In single precision 1e8 + 1 is 1e8 again, so the order of the additions
    // shows: each of the two upper rows adds up to 1, and comes out as 0.
    let a = vec![
        vec![1.0e8f32, 1.0, -1.0e8],
        vec![1.0, -1.0e8, 1.0e8],
        vec![0.0, 0.0, 0.0],
    ];
    let ones = vec![vec![1.0f32; 3]; 3];
    assert_eq!(multiply(&a, &ones), Ok(vec![vec![0.0; 3]; 3]));
}

#[test]
fn the_products_differ_where_sums_cannot_be_regrouped() {
    let a = vec![
        vec![1.0e8f32, 1.0, -1.0e8, 1.0],
        vec![0.0; 4],
        vec![0.0; 4],
        vec![0.0; 4],
    ];
    let ones = vec![vec![1.0f32; 4]; 4];
    // ((1e8 + 1) - 1e8) + 1
    let direct = multiply(&a, &ones).expect("square matrices of one size");
    assert_eq!(direct[0], vec![1.0; 4]);
    // (1e8 + 1) + (-1e8 + 1)
    let conquered = multiply_conquer(&a, &ones).expect("a power of two");
    assert_eq!(conquered[0], vec![0.0; 4]);
}
