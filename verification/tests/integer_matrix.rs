use gauss::{DimensionError, Matrix};

#[test]
fn integer_test() {
    let mut mat1: Matrix = Matrix::new(2, 2);
    mat1.set(0, 0, 1);
    mat1.set(0, 1, 2);
    mat1.set(1, 0, 3);
    mat1.set(1, 1, 4);

    assert_eq!(mat1.get(0, 0), 1);
    assert_eq!(mat1.get(0, 1), 2);
    assert_eq!(mat1.get(1, 0), 3);
    assert_eq!(mat1.get(1, 1), 4);
}

#[test]
fn common_test() {
    let j = Matrix::identity(3);
    for i in 0..3 {
        for k in 0..3 {
            assert_eq!(j.get(i, k), if i == k { 1 } else { 0 });
        }
    }
    let l = gauss::int_identity(3);
    for i in 0..3 {
        for k in 0..3 {
            assert_eq!(l.get(i, k), if i == k { 1 } else { 0 });
        }
    }
}

#[test]
fn new_fills_with_zeros() {
    let m = Matrix::new(3, 5);
    assert_eq!(m.size(), (3, 5));
    for i in 0..3 {
        for j in 0..5 {
            assert_eq!(m.get(i, j), 0);
        }
    }
}

#[test]
fn from_1d_vec_row_major_layout() {
    let m = Matrix::from_1d_vec(vec![1, 2, 3, 4, 5, 6], 2, 3);
    assert_eq!(m.size(), (2, 3));
    assert_eq!(m.get(0, 0), 1);
    assert_eq!(m.get(0, 2), 3);
    assert_eq!(m.get(1, 0), 4);
    assert_eq!(m.get(1, 2), 6);
}

#[test]
fn transpose_swaps_entries() {
    let m = Matrix::from_1d_vec(vec![1, 2, 3, 4, 5, 6], 2, 3);
    let t = m.transpose();
    assert_eq!(t.size(), (3, 2));
    for i in 0..2 {
        for j in 0..3 {
            assert_eq!(t.get(j, i), m.get(i, j));
        }
    }
    assert_eq!(t.get(0, 1), 4);
}

#[test]
fn transpose_twice_restores() {
    let m = Matrix::from_1d_vec(vec![7, -2, 0, 9, 3, 11], 3, 2);
    let tt = m.t().t();
    assert_eq!(tt.size(), m.size());
    for i in 0..3 {
        for j in 0..2 {
            assert_eq!(tt.get(i, j), m.get(i, j));
        }
    }
}

#[test]
fn add_then_sub_restores() {
    let a = Matrix::from_1d_vec(vec![1, -4, 7, 0], 2, 2);
    let b = Matrix::from_1d_vec(vec![10, 20, -30, 40], 2, 2);
    let a2 = Matrix::from_1d_vec(vec![1, -4, 7, 0], 2, 2);
    let b2 = Matrix::from_1d_vec(vec![10, 20, -30, 40], 2, 2);
    let sum = a.add(b).unwrap();
    assert_eq!(sum.get(0, 0), 11);
    assert_eq!(sum.get(1, 0), -23);
    let back = sum.sub(b2).unwrap();
    for i in 0..2 {
        for j in 0..2 {
            assert_eq!(back.get(i, j), a2.get(i, j));
        }
    }
}

#[test]
fn mul_two_by_two_values() {
    let a = Matrix::from_1d_vec(vec![1, 2, 3, 4], 2, 2);
    let b = Matrix::from_1d_vec(vec![5, 6, 7, 8], 2, 2);
    let p = a.mul(b).unwrap();
    assert_eq!(p.size(), (2, 2));
    assert_eq!(p.get(0, 0), 19);
    assert_eq!(p.get(0, 1), 22);
    assert_eq!(p.get(1, 0), 43);
    assert_eq!(p.get(1, 1), 50);
}

#[test]
fn mul_shape_of_result() {
    let a = Matrix::new(3, 4);
    let b = Matrix::new(4, 2);
    let p = a.mul(b).unwrap();
    assert_eq!(p.size(), (3, 2));
}

#[test]
fn identity_times_matrix_is_unchanged() {
    let m = Matrix::from_1d_vec(vec![2, -3, 5, 7, 11, -13], 3, 2);
    let id = Matrix::identity(3);
    let p = id.mul(Matrix::from_1d_vec(vec![2, -3, 5, 7, 11, -13], 3, 2)).unwrap();
    assert_eq!(p.size(), (3, 2));
    for i in 0..3 {
        for j in 0..2 {
            assert_eq!(p.get(i, j), m.get(i, j));
        }
    }
}

#[test]
fn matrix_times_identity_is_unchanged() {
    let m = Matrix::from_1d_vec(vec![2, -3, 5, 7, 11, -13], 3, 2);
    let p = Matrix::from_1d_vec(vec![2, -3, 5, 7, 11, -13], 3, 2)
        .mul(Matrix::identity(2))
        .unwrap();
    for i in 0..3 {
        for j in 0..2 {
            assert_eq!(p.get(i, j), m.get(i, j));
        }
    }
}

#[test]
fn mismatched_add_reports_shapes() {
    let a = Matrix::new(1, 1);
    let b = Matrix::new(1, 2);
    match a.add(b) {
        Ok(_) => panic!("shapes differ, addition must fail"),
        Err(e) => assert_eq!(
            e,
            DimensionError::DimensionMismatch { expected: (1, 1), got: (1, 2) }
        ),
    }
}

#[test]
fn mismatched_sub_reports_shapes() {
    let a = Matrix::new(2, 2);
    let b = Matrix::new(3, 2);
    match a.sub(b) {
        Ok(_) => panic!("shapes differ, subtraction must fail"),
        Err(e) => assert_eq!(
            e,
            DimensionError::DimensionMismatch { expected: (2, 2), got: (3, 2) }
        ),
    }
}

#[test]
fn mismatched_mul_reports_shapes() {
    let a = Matrix::new(2, 3);
    let b = Matrix::new(2, 3);
    match a.mul(b) {
        Ok(_) => panic!("inner dimensions differ, multiplication must fail"),
        Err(e) => assert_eq!(
            e,
            DimensionError::DimensionMismatch { expected: (2, 3), got: (2, 3) }
        ),
    }
}

#[test]
fn rref_returns_unchanged_copy() {
    let m = Matrix::from_1d_vec(vec![6, 2, 4, 1, 3, 2], 2, 3);
    let r = m.rref();
    assert_eq!(r.size(), m.size());
    for i in 0..2 {
        for j in 0..3 {
            assert_eq!(r.get(i, j), m.get(i, j));
        }
    }
}

#[test]
fn iterator_walks_row_major() {
    let m = Matrix::from_1d_vec(vec![1, 2, 3, 4, 5, 6], 2, 3);
    let mut it = m.iter();
    for expected in 1..=6 {
        assert_eq!(it.next(), Some(expected));
    }
    assert_eq!(it.next(), None);
    assert_eq!(it.next(), None);
}

#[test]
fn one_by_one_matrices() {
    let a = Matrix::from_1d_vec(vec![21], 1, 1);
    let b = Matrix::from_1d_vec(vec![2], 1, 1);
    assert_eq!(a.transpose().get(0, 0), 21);
    let p = a.mul(b).unwrap();
    assert_eq!(p.size(), (1, 1));
    assert_eq!(p.get(0, 0), 42);

    let id = Matrix::identity(1);
    assert_eq!(id.size(), (1, 1));
    assert_eq!(id.get(0, 0), 1);
}

#[test]
fn large_zero_matrix_addition() {
    let a = Matrix::new(200, 200);
    let b = Matrix::new(200, 200);
    let sum = a.add(b).unwrap();
    assert_eq!(sum.size(), (200, 200));
    assert_eq!(sum.get(199, 199), 0);
}

#[test]
fn set_leaves_other_entries() {
    let mut m = Matrix::new(2, 2);
    m.set(0, 1, 9);
    assert_eq!(m.get(0, 1), 9);
    assert_eq!(m.get(0, 0), 0);
    assert_eq!(m.get(1, 0), 0);
    assert_eq!(m.get(1, 1), 0);
}
