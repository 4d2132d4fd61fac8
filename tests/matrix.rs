use rust_robotics_algo::matrix::{
    allocate_block_output, block_diag, hstack, kron, vstack, Diagonal, Horizontal, Mat, Vertical,
};

fn rows(m: &Mat<i32>) -> Vec<Vec<i32>> {
    let mut out = Vec::new();
    for i in 0..m.nrows() {
        let mut row = Vec::new();
        for j in 0..m.ncols() {
            row.push(m.get(i, j));
        }
        out.push(row);
    }
    out
}

fn mat(r: Vec<Vec<i32>>, cols: usize) -> Mat<i32> {
    Mat::from_rows(r, cols)
}

#[test]
fn from_element_fills() {
    let m = Mat::from_element(2, 3, 7);
    assert_eq!(rows(&m), vec![vec![7, 7, 7], vec![7, 7, 7]]);
    let e: Mat<i32> = Mat::from_element(0, 4, 0);
    assert_eq!(e.nrows(), 0);
    assert_eq!(e.ncols(), 4);
}

#[test]
fn diagonal_matrix() {
    let m = Mat::from_diagonal(&vec![0, 1, 1, 0], 0);
    assert_eq!(
        rows(&m),
        vec![vec![0, 0, 0, 0], vec![0, 1, 0, 0], vec![0, 0, 1, 0], vec![0, 0, 0, 0]]
    );
}

#[test]
fn identity_and_shifted_identities() {
    assert_eq!(rows(&Mat::eye(3, 0, 0, 1)), vec![vec![1, 0, 0], vec![0, 1, 0], vec![0, 0, 1]]);
    assert_eq!(rows(&Mat::eye(3, 1, 0, 1)), vec![vec![0, 1, 0], vec![0, 0, 1], vec![0, 0, 0]]);
    assert_eq!(rows(&Mat::eye(3, -1, 0, 1)), vec![vec![0, 0, 0], vec![1, 0, 0], vec![0, 1, 0]]);
    assert_eq!(rows(&Mat::eye(2, 5, 0, 1)), vec![vec![0, 0], vec![0, 0]]);
}

#[test]
fn transpose_swaps_rows_and_columns() {
    let m = mat(vec![vec![1, 2, 3], vec![4, 5, 6]], 3);
    let t = m.transpose();
    assert_eq!(t.nrows(), 3);
    assert_eq!(t.ncols(), 2);
    assert_eq!(rows(&t), vec![vec![1, 4], vec![2, 5], vec![3, 6]]);
}

#[test]
fn set_changes_one_entry() {
    let mut m = Mat::from_element(2, 2, 0);
    m.set(1, 0, 5);
    assert_eq!(rows(&m), vec![vec![0, 0], vec![5, 0]]);
}

#[test]
fn stacking() {
    let a = mat(vec![vec![1, 2], vec![3, 4]], 2);
    let b = mat(vec![vec![5], vec![6]], 1);
    assert_eq!(rows(&hstack(&a, &b)), vec![vec![1, 2, 5], vec![3, 4, 6]]);
    let c = mat(vec![vec![7, 8]], 2);
    assert_eq!(rows(&vstack(&a, &c)), vec![vec![1, 2], vec![3, 4], vec![7, 8]]);
}

#[test]
fn block_diagonal() {
    let a = mat(vec![vec![1, 2]], 2);
    let b = mat(vec![vec![3], vec![4]], 1);
    let d = block_diag(&a, &b, 0);
    assert_eq!(rows(&d), vec![vec![1, 2, 0], vec![0, 0, 3], vec![0, 0, 4]]);
}

#[test]
fn block_expressions_populate_their_output() {
    let a = mat(vec![vec![1, 2], vec![3, 4]], 2);
    let b = mat(vec![vec![5], vec![6]], 1);
    let h = Horizontal((a.clone(), b.clone()));
    let mut out = allocate_block_output(h.shape(), 0);
    h.populate(&mut out);
    assert_eq!(rows(&out), vec![vec![1, 2, 5], vec![3, 4, 6]]);

    let v = Vertical((a.clone(), mat(vec![vec![9, 9]], 2)));
    let mut out = allocate_block_output(v.shape(), 0);
    v.populate(&mut out);
    assert_eq!(rows(&out), vec![vec![1, 2], vec![3, 4], vec![9, 9]]);

    let d = Diagonal((a, b));
    assert_eq!(d.shape(), (4, 3));
    let mut out = allocate_block_output(d.shape(), -1);
    d.populate(&mut out);
    assert_eq!(
        rows(&out),
        vec![vec![1, 2, -1], vec![3, 4, -1], vec![-1, -1, 5], vec![-1, -1, 6]]
    );
}

#[test]
fn kronecker_product() {
    let a = mat(vec![vec![1, 2], vec![3, 4]], 2);
    let b = mat(vec![vec![0, 5], vec![6, 7]], 2);
    let k = kron(&a, &b, |x: i32, y: i32| x * y);
    assert_eq!(
        rows(&k),
        vec![
            vec![0, 5, 0, 10],
            vec![6, 7, 12, 14],
            vec![0, 15, 0, 20],
            vec![18, 21, 24, 28],
        ]
    );
}

#[test]
fn kronecker_with_identity_repeats_block() {
    let i3 = Mat::eye(3, 0, 0, 1);
    let q = mat(vec![vec![2]], 1);
    let k = kron(&i3, &q, |x: i32, y: i32| x * y);
    assert_eq!(rows(&k), vec![vec![2, 0, 0], vec![0, 2, 0], vec![0, 0, 2]]);
    let ones = Mat::from_element(2, 1, 1);
    let v = mat(vec![vec![4, 5]], 2);
    assert_eq!(rows(&kron(&ones, &v, |x: i32, y: i32| x * y)), vec![vec![4, 5], vec![4, 5]]);
}
