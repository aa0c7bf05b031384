use concurrency::assemble;
use concurrency::assign_worker;
use concurrency::dot_product;
use concurrency::dot_within_bounds;
use concurrency::multiply;
use concurrency::multiply_within_bounds;
use concurrency::Matrix;
use concurrency::MsgInput;
use concurrency::MsgOutput;
use concurrency::MultiplyError;
use concurrency::Vector;

#[test]
fn test_matrix_multiply() {
    let a = Matrix::new(vec![1, 2, 3, 4], 2, 2).unwrap();
    let b = Matrix::new(vec![1, 2, 3, 4], 2, 2).unwrap();
    let c = multiply(&a, &b).unwrap();
    assert_eq!(c.rows, 2);
    assert_eq!(c.cols, 2);
    assert_eq!(c.data, vec![7, 10, 15, 22]);
    assert_eq!(c.describe(), "Matrix:data:{7 10,15 22},rows:2,cols:2");
}

#[test]
fn square_product_renders_between_braces() {
    let a = Matrix::new(vec![1, 2, 3, 4], 2, 2).unwrap();
    let b = Matrix::new(vec![1, 2, 3, 4], 2, 2).unwrap();
    let c = multiply(&a, &b).unwrap();
    assert_eq!(c.render(), "{7 10,15 22}");
}

#[test]
fn rectangular_product_has_exact_cells() {
    let a = Matrix::new(vec![1, 2, 3, 4, 5, 6], 2, 3).unwrap();
    let b = Matrix::new(vec![1, 2, 4, 4, 9, 6], 3, 2).unwrap();
    let c = multiply(&a, &b).unwrap();
    assert_eq!(c.rows, 2);
    assert_eq!(c.cols, 2);
    assert_eq!(c.data, vec![36, 28, 78, 64]);
}

#[test]
fn row_times_column_is_the_dot_product() {
    let a = Matrix::new(vec![2, -3, 5], 1, 3).unwrap();
    let b = Matrix::new(vec![7, 4, 1], 3, 1).unwrap();
    let c = multiply(&a, &b).unwrap();
    assert_eq!(c.rows, 1);
    assert_eq!(c.cols, 1);
    let x = Vector::new(vec![2, -3, 5]);
    let y = Vector::new(vec![7, 4, 1]);
    assert_eq!(c.data[0], dot_product(x, y).unwrap());
    assert_eq!(c.data[0], 2 * 7 + (-3) * 4 + 5 * 1);
}

#[test]
fn mismatched_inner_dimensions_fail() {
    let a = Matrix::new(vec![1, 2, 3, 4, 5, 6], 2, 3).unwrap();
    let b = Matrix::new(vec![1, 2, 3, 4], 2, 2).unwrap();
    let r = multiply(&a, &b);
    assert_eq!(r.unwrap_err(), MultiplyError::DimensionMismatch);
}

#[test]
fn wrong_buffer_length_fails_construction() {
    let r = Matrix::new(vec![1, 2, 3], 2, 2);
    assert_eq!(r.unwrap_err(), MultiplyError::ShapeMismatch);
}

#[test]
fn dot_product_of_equal_lengths_is_the_sum_of_products() {
    let x = Vector::new(vec![1, 2, 3]);
    let y = Vector::new(vec![4, 5, 6]);
    assert_eq!(dot_product(x, y).unwrap(), 32);
}

#[test]
fn dot_product_of_empty_vectors_is_zero() {
    let x = Vector::new(vec![]);
    let y = Vector::new(vec![]);
    assert_eq!(dot_product(x, y).unwrap(), 0);
}

#[test]
fn dot_product_of_unequal_lengths_fails() {
    let x = Vector::new(vec![1, 2, 3]);
    let y = Vector::new(vec![4, 5]);
    assert_eq!(dot_product(x, y).unwrap_err(), MultiplyError::LengthMismatch);
}

#[test]
fn rendering_separates_cells_and_rows() {
    let m = Matrix::new(vec![1, 2, 3, 4, 5, 6], 2, 3).unwrap();
    assert_eq!(m.render(), "{1 2 3,4 5 6}");
    let t = Matrix::new(vec![1, 2, 3, 4, 5, 6], 3, 2).unwrap();
    assert_eq!(t.render(), "{1 2,3 4,5 6}");
}

#[test]
fn rendering_keeps_signs_and_edge_values() {
    let m = Matrix::new(vec![-1, 0, i64::MIN, i64::MAX], 2, 2).unwrap();
    assert_eq!(
        m.render(),
        "{-1 0,-9223372036854775808 9223372036854775807}"
    );
    let empty = Matrix::new(vec![], 0, 0).unwrap();
    assert_eq!(empty.render(), "{}");
}

#[test]
fn worker_step_pairs_value_with_destination() {
    let input = MsgInput::new(5, Vector::new(vec![1, 2]), Vector::new(vec![3, 4]));
    let out = input.process().unwrap();
    assert_eq!(out.idx, 5);
    assert_eq!(out.value, 11);
}

#[test]
fn worker_step_rejects_ragged_task() {
    let input = MsgInput::new(0, Vector::new(vec![1, 2, 3]), Vector::new(vec![3, 4]));
    assert_eq!(
        input.process().unwrap_err(),
        MultiplyError::LengthMismatch
    );
}

#[test]
fn assignment_rule_is_index_modulo_workers() {
    assert_eq!(assign_worker(0, 4), 0);
    assert_eq!(assign_worker(5, 4), 1);
    assert_eq!(assign_worker(11, 4), 3);
    assert_eq!(assign_worker(7, 1), 0);
}

#[test]
fn assembly_ignores_arrival_order() {
    let shuffled = vec![
        MsgOutput { idx: 3, value: 22 },
        MsgOutput { idx: 0, value: 7 },
        MsgOutput { idx: 2, value: 15 },
        MsgOutput { idx: 1, value: 10 },
    ];
    let m = assemble(shuffled, 2, 2);
    assert_eq!(m.data, vec![7, 10, 15, 22]);
    assert_eq!(m.rows, 2);
    assert_eq!(m.cols, 2);
}

#[test]
fn unanswered_cells_stay_zero_after_assembly() {
    let partial = vec![MsgOutput { idx: 1, value: 9 }];
    let m = assemble(partial, 2, 2);
    assert_eq!(m.data, vec![0, 9, 0, 0]);
}

#[test]
fn bounds_guards_accept_small_and_reject_extreme_values() {
    let x = Vector::new(vec![1, 2, 3]);
    let y = Vector::new(vec![4, 5, 6]);
    assert!(dot_within_bounds(&x, &y));
    let big = Vector::new(vec![i64::MAX, i64::MAX]);
    let ones = Vector::new(vec![2, 2]);
    assert!(!dot_within_bounds(&big, &ones));
    let a = Matrix::new(vec![1, 2, 3, 4], 2, 2).unwrap();
    let b = Matrix::new(vec![5, 6, 7, 8], 2, 2).unwrap();
    assert!(multiply_within_bounds(&a, &b));
    let huge = Matrix::new(vec![i64::MAX, i64::MAX, i64::MAX, i64::MAX], 2, 2).unwrap();
    assert!(!multiply_within_bounds(&huge, &huge));
}

fn reference_product(a: &Matrix, b: &Matrix) -> Vec<i64> {
    let mut out = vec![0i64; a.rows * b.cols];
    for i in 0..a.rows {
        for j in 0..b.cols {
            let mut sum = 0i64;
            for k in 0..a.cols {
                sum += a.data[i * a.cols + k] * b.data[k * b.cols + j];
            }
            out[i * b.cols + j] = sum;
        }
    }
    out
}

fn next_entry(state: &mut u64) -> i64 {
    *state = state
        .wrapping_mul(6364136223846793005)
        .wrapping_add(1442695040888963407);
    ((*state >> 33) % 19) as i64 - 9
}

#[test]
fn random_products_match_a_sequential_reference() {
    let mut state: u64 = 42;
    for round in 0..6 {
        let (m, k, n) = match round {
            0 => (1, 1, 1),
            1 => (3, 4, 2),
            2 => (10, 7, 13),
            3 => (25, 25, 25),
            4 => (60, 11, 34),
            _ => (100, 100, 100),
        };
        let a_data: Vec<i64> = (0..m * k).map(|_| next_entry(&mut state)).collect();
        let b_data: Vec<i64> = (0..k * n).map(|_| next_entry(&mut state)).collect();
        let a = Matrix::new(a_data, m, k).unwrap();
        let b = Matrix::new(b_data, k, n).unwrap();
        let expected = reference_product(&a, &b);
        for _ in 0..3 {
            let c = multiply(&a, &b).unwrap();
            assert_eq!(c.rows, m);
            assert_eq!(c.cols, n);
            assert_eq!(c.data, expected);
        }
    }
}
