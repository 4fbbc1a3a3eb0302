use raytracer::matrix::Matrix;
use raytracer::matrix::SIZE;

fn counting() -> Matrix<u32> {
    Matrix([0, 1, 2, 3, 4, 5, 6, 7, 8, 9, 10, 11, 12, 13, 14, 15])
}

#[test]
fn entries_are_stored_row_after_row() {
    let m = counting();
    assert_eq!(SIZE, 4);
    assert_eq!(m.index_for(0, 0), 0);
    assert_eq!(m.index_for(1, 0), 4);
    assert_eq!(m.index_for(2, 3), 11);
    assert_eq!(m.get(0, 0), 0);
    assert_eq!(m.get(0, 3), 3);
    assert_eq!(m.get(1, 0), 4);
    assert_eq!(m.get(3, 3), 15);
    assert_eq!(m.get(0, 15), 15);
}

#[test]
fn set_changes_one_entry() {
    let mut m = counting();
    m.set(2, 1, 99);
    assert!(m == Matrix([0, 1, 2, 3, 4, 5, 6, 7, 8, 99, 10, 11, 12, 13, 14, 15]));
    *m.get_mut(0, 3) = 77;
    assert!(m == Matrix([0, 1, 2, 77, 4, 5, 6, 7, 8, 99, 10, 11, 12, 13, 14, 15]));
    assert_eq!(*m.get_mut(2, 1), 99);
}

#[test]
fn transpose_exchanges_rows_and_columns() {
    let mut m = counting();
    m.transpose();
    assert!(m == Matrix([0, 4, 8, 12, 1, 5, 9, 13, 2, 6, 10, 14, 3, 7, 11, 15]));
    for r in 0..4 {
        for c in 0..4 {
            assert_eq!(m.get(r, c), counting().get(c, r));
        }
    }
}

#[test]
fn transposition_leaves_the_matrix_alone() {
    let m = counting();
    let t = m.transposition();
    assert!(m == counting());
    assert!(t == Matrix([0, 4, 8, 12, 1, 5, 9, 13, 2, 6, 10, 14, 3, 7, 11, 15]));
    assert!(t.transposition() == m);
}

#[test]
fn transpose_of_real_entries() {
    let mut m: Matrix<f32> = Matrix([
        5.0, 2.0, 8.0, 3.0,
        7.0, 3.0, 10.0, 3.0,
        9.0, 3.0, 2.0, 4.0,
        10.0, 8.0, 3.0, 8.0,
    ]);
    m.transpose();
    assert!(m == Matrix([
        5.0, 7.0, 9.0, 10.0,
        2.0, 3.0, 3.0, 8.0,
        8.0, 10.0, 2.0, 3.0,
        3.0, 3.0, 4.0, 8.0,
    ]));
}
