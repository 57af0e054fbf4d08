use gauss::{DimensionError, Matrix, WideMatrix};

#[test]
fn widening_preserves_shape_and_values() {
    let m = Matrix::from_1d_vec(vec![i32::MAX, i32::MIN, 0, -7, 13, 42], 2, 3);
    let w = m.to_wide();
    assert_eq!(w.size(), m.size());
    for i in 0..2 {
        for j in 0..3 {
            assert_eq!(w.get(i, j), m.get(i, j) as i64);
        }
    }
}

#[test]
fn wide_arithmetic_beyond_narrow_range() {
    let big: i64 = i32::MAX as i64;
    let a = WideMatrix::from_1d_vec(vec![big, big, big, big], 2, 2);
    let b = WideMatrix::from_1d_vec(vec![big, big, big, big], 2, 2);
    let sum = a.add(b).unwrap();
    assert_eq!(sum.get(0, 0), 2 * big);
    assert_eq!(sum.get(1, 1), 2 * big);
}

#[test]
fn wide_mul_values() {
    let a = WideMatrix::from_1d_vec(vec![1, 2, 3, 4], 2, 2);
    let b = WideMatrix::from_1d_vec(vec![5, 6, 7, 8], 2, 2);
    let p = a.mul(b).unwrap();
    assert_eq!(p.get(0, 0), 19);
    assert_eq!(p.get(0, 1), 22);
    assert_eq!(p.get(1, 0), 43);
    assert_eq!(p.get(1, 1), 50);
}

#[test]
fn wide_transpose_and_identity() {
    let m = WideMatrix::from_1d_vec(vec![1, 2, 3, 4, 5, 6], 3, 2);
    let t = m.transpose();
    assert_eq!(t.size(), (2, 3));
    assert_eq!(t.get(1, 2), 6);

    let id = WideMatrix::identity(2);
    let p = id.mul(WideMatrix::from_1d_vec(vec![9, -8, 7, -6], 2, 2)).unwrap();
    assert_eq!(p.get(0, 0), 9);
    assert_eq!(p.get(0, 1), -8);
    assert_eq!(p.get(1, 0), 7);
    assert_eq!(p.get(1, 1), -6);
}

#[test]
fn wide_mismatch_reports_shapes() {
    let a = WideMatrix::new(1, 1);
    let b = WideMatrix::new(1, 2);
    match a.add(b) {
        Ok(_) => panic!("shapes differ, addition must fail"),
        Err(e) => assert_eq!(
            e,
            DimensionError::DimensionMismatch { expected: (1, 1), got: (1, 2) }
        ),
    }
}

#[test]
fn wide_iterator_walks_row_major() {
    let m = WideMatrix::from_1d_vec(vec![4, 3, 2, 1], 2, 2);
    let mut it = m.iter();
    assert_eq!(it.next(), Some(4));
    assert_eq!(it.next(), Some(3));
    assert_eq!(it.next(), Some(2));
    assert_eq!(it.next(), Some(1));
    assert_eq!(it.next(), None);
}
