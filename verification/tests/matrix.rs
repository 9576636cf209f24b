use mat2::matrix::Mat2;

#[test]
fn test_cons() {
    let x: Mat2 = Mat2::new(3, 2);

    let y: Option<Mat2> = Mat2::from_vec(vec![]);
    assert_eq!(y, None);

    let z: Mat2 = Mat2::new_with(3, 2, |_, _| 0);
    assert_eq!(x, z);

    let a: Option<Mat2> = Mat2::from_vec(vec![vec![1, 2, 3], vec![1, 2]]);
    assert_eq!(a, None);
}

#[test]
fn test_get_dimension() {
    let x: Mat2 = Mat2::from_vec(vec![vec![1, 2], vec![3, 4]]).unwrap();
    assert_eq!(x.get_dimension(), (2, 2));
}

#[test]
fn test_swap_rows() {
    let mut x = Mat2::from_vec(vec![vec![1, 2, 3], vec![4, 5, 6], vec![7, 8, 9]]).unwrap();
    x.swap_rows(0, 1);
    assert!(x.get_row(0) == &[4, 5, 6]);
    assert!(x.get_row(1) == &[1, 2, 3]);
    assert!(x.get_row(2) == &[7, 8, 9]);
}

#[test]
fn test_get_row() {
    let x = Mat2::from_vec(vec![vec![1, 2, 3], vec![4, 5, 6], vec![7, 8, 9]]).unwrap();
    assert!(x.get_row(0) == &[1, 2, 3]);
    assert!(x.get_row_opt(3) == None);
}

#[test]
fn test_append_column() {
    let mut x = Mat2::from_vec(vec![vec![1, 2, 3], vec![4, 5, 6], vec![7, 8, 9]]).unwrap();
    assert!(x.get_row(0) == &[1, 2, 3]);
    assert!(x.append_column(vec![0, 0, 0]));
    assert!(x.get_row(0) == &[1, 2, 3, 0]);

    // non-square
    let mut x = Mat2::from_vec(vec![
        vec![1, 2, 3, 0],
        vec![4, 5, 6, 0],
        vec![7, 8, 9, 0],
    ])
    .unwrap();
    assert!(x.get_row(0) == &[1, 2, 3, 0]);
    assert!(x.append_column(vec![0, 0, 0]));
    assert!(!x.append_column(vec![0]));
    assert!(x.get_row(0) == &[1, 2, 3, 0, 0]);

    let mut x = Mat2::from_vec(vec![
        vec![1, 2, 3],
        vec![4, 5, 6],
        vec![7, 8, 9],
        vec![10, 11, 12],
    ])
    .unwrap();
    assert!(x.get_row(0) == &[1, 2, 3]);
    assert!(x.append_column(vec![0, 0, 0, 0]));
    assert!(!x.append_column(vec![0]));
    assert!(x.get_row(0) == &[1, 2, 3, 0]);
}

#[test]
fn test_append_row() {
    let x = Mat2::from_vec(vec![vec![1, 2, 3], vec![4, 5, 6], vec![7, 8, 9]]).unwrap();
    assert!(x.get_row(0) == &[1, 2, 3]);
    assert!(x.get_row_opt(3) == None);
    let mut x = x;
    assert!(x.append_row(vec![10, 11, 12]));
    assert!(!x.append_row(vec![0]));
    let x = x;
    assert!(x.get_row(3) == &[10, 11, 12]);

    // non-square
    let x = Mat2::from_vec(vec![
        vec![1, 2, 3],
        vec![4, 5, 6],
        vec![7, 8, 9],
        vec![10, 11, 12],
    ])
    .unwrap();
    assert!(x.get_row(0) == &[1, 2, 3]);
    assert!(x.get_row_opt(4) == None);
    let mut x = x;
    assert!(x.append_row(vec![10, 11, 12]));
    assert!(!x.append_row(vec![0]));
    let x = x;
    assert!(x.get_row(4) == &[10, 11, 12]);

    let x = Mat2::from_vec(vec![
        vec![1, 2, 3, 0],
        vec![4, 5, 6, 0],
        vec![7, 8, 9, 0],
    ])
    .unwrap();
    assert!(x.get_row(0) == &[1, 2, 3, 0]);
    assert!(x.get_row_opt(3) == None);
    let mut x = x;
    assert!(x.append_row(vec![10, 11, 12, 13]));
    assert!(!x.append_row(vec![0]));
    let x = x;
    assert!(x.get_row(3) == &[10, 11, 12, 13]);
}

#[test]
fn test_row_iter() {
    let x = Mat2::from_vec(vec![vec![1, 2, 3], vec![4, 5, 6], vec![7, 8, 9]]).unwrap();
    let mut it = x.row_iter();
    assert_eq!(it.next().unwrap(), &[1, 2, 3]);
    assert_eq!(it.next().unwrap(), &[4, 5, 6]);
    assert_eq!(it.next().unwrap(), &[7, 8, 9]);
    assert_eq!(it.next(), None);
}

#[test]
fn test_column_iter() {
    let x = Mat2::from_vec(vec![vec![1, 2, 3], vec![4, 5, 6], vec![7, 8, 9]]).unwrap();
    let mut it = x.column_iter(0);
    assert_eq!(it.next().unwrap(), 1);
    assert_eq!(it.next().unwrap(), 4);
    assert_eq!(it.next().unwrap(), 7);
    assert_eq!(it.next(), None);
    let mut it = x.column_iter(1);
    assert_eq!(it.next().unwrap(), 2);
    assert_eq!(it.next().unwrap(), 5);
    assert_eq!(it.next().unwrap(), 8);
    assert_eq!(it.next(), None);
    let mut it = x.column_iter(2);
    assert_eq!(it.next().unwrap(), 3);
    assert_eq!(it.next().unwrap(), 6);
    assert_eq!(it.next().unwrap(), 9);
    assert_eq!(it.next(), None);
    let mut it = x.column_iter(3);
    assert_eq!(it.next(), None);
}

#[test]
fn test_augment() {
    let mut x = Mat2::from_vec(vec![vec![1, 2, 3], vec![4, 5, 6], vec![7, 8, 9]]).unwrap();
    let y = Mat2::from_vec(vec![
        vec![4, 5, 6, 7],
        vec![7, 8, 9, 10],
        vec![10, 11, 12, 13],
    ])
    .unwrap();
    let z = Mat2::from_vec(vec![vec![1, 2]]).unwrap();

    assert!(x.augment(y));
    assert!(!x.augment(z));

    let mut it = x.row_iter();
    assert_eq!(it.next().unwrap(), &[1, 2, 3, 4, 5, 6, 7]);
    assert_eq!(it.next().unwrap(), &[4, 5, 6, 7, 8, 9, 10]);
    assert_eq!(it.next().unwrap(), &[7, 8, 9, 10, 11, 12, 13]);
    assert_eq!(it.next(), None);
}

#[test]
fn test_scale_row() {
    let mut x = Mat2::from_vec(vec![vec![1, 1, 1]]).unwrap();
    x.scale_row(0, 3);
    assert!(x.get_row(0) == &[3, 3, 3]);
}

#[test]
fn test_add_scaled() {
    let mut x = Mat2::from_vec(vec![vec![1, 2, 3], vec![4, 5, 6], vec![7, 8, 9]]).unwrap();
    x.add_scaled(0, 1, 1);
    assert!(x.get_row(0) == &[1, 2, 3]);
    assert!(x.get_row(1) == &[5, 7, 9]);
}

#[test]
fn new_fills_with_zeroes_and_new_with_generates() {
    let x: Mat2 = Mat2::new(2, 3);
    assert_eq!(x.get_dimension(), (3, 2));
    assert!(x.get_row(0) == &[0, 0, 0]);
    assert!(x.get_row(1) == &[0, 0, 0]);

    let y: Mat2 = Mat2::new_with(2, 3, |i, j| (10 * i + j) as i64);
    assert!(y.get_row(0) == &[0, 1, 2]);
    assert!(y.get_row(1) == &[10, 11, 12]);
}

#[test]
fn get_opt_checks_each_index_against_its_own_dimension() {
    // 2 rows, 3 columns: a row index must be checked against the row count
    // and a column index against the column count, not the other way round
    let x = Mat2::from_vec(vec![vec![1, 2, 3], vec![4, 5, 6]]).unwrap();
    assert_eq!(x.get_opt(1, 2), Some(6));
    assert_eq!(x.get_opt(0, 0), Some(1));
    assert_eq!(x.get_opt(2, 0), None);
    assert_eq!(x.get_opt(0, 3), None);
    assert_eq!(x.get_opt(2, 3), None);
}

#[test]
fn mismatched_mutations_leave_matrix_unchanged() {
    let mut x = Mat2::from_vec(vec![vec![1, 2, 3], vec![4, 5, 6]]).unwrap();
    let snapshot = x.clone();

    assert!(!x.append_column(vec![9]));
    assert!(x == snapshot);

    assert!(!x.append_row(vec![9, 9]));
    assert!(x == snapshot);

    let wrong = Mat2::from_vec(vec![vec![1, 2]]).unwrap();
    assert!(!x.augment(wrong));
    assert!(x == snapshot);
}

#[test]
fn exhausted_iterators_stay_exhausted() {
    let x = Mat2::from_vec(vec![vec![1, 2]]).unwrap();
    let mut rows = x.row_iter();
    assert!(rows.next().is_some());
    assert_eq!(rows.next(), None);
    assert_eq!(rows.next(), None);

    let mut col = x.column_iter(9);
    assert_eq!(col.next(), None);
    assert_eq!(col.next(), None);
}
