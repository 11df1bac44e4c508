use himeno::tensor::Matrix;

#[test]
fn new_tensor_is_zero_filled() {
    let m = Matrix::new(2, 3, 3, 3);
    for n in 0..2 {
        for r in 0..3 {
            for c in 0..3 {
                for d in 0..3 {
                    assert_eq!(m.at(n, r, c, d), 0);
                }
            }
        }
    }
}

#[test]
fn empty_tensor_has_no_cells() {
    let m = Matrix::empty();
    assert_eq!(m.nums, 0);
    assert_eq!(m.rows, 0);
    assert_eq!(m.cols, 0);
    assert_eq!(m.deps, 0);
}

#[test]
fn set_values_fills_one_plane_only() {
    let mut m = Matrix::new(3, 2, 2, 2);
    m.set_values(1, 11);
    m.set_values(2, 22);
    for r in 0..2 {
        for c in 0..2 {
            for d in 0..2 {
                assert_eq!(m.at(0, r, c, d), 0);
                assert_eq!(m.at(1, r, c, d), 11);
                assert_eq!(m.at(2, r, c, d), 22);
            }
        }
    }
}

#[test]
fn tensor_init_matrix_fills_plane_zero_by_row() {
    let mut m = Matrix::new(2, 3, 2, 2);
    m.set_values(1, 5);
    let row_values = vec![7u64, 8, 9];
    m.init_matrix(&row_values);
    for r in 0..3 {
        for c in 0..2 {
            for d in 0..2 {
                assert_eq!(m.at(0, r, c, d), row_values[r]);
                assert_eq!(m.at(1, r, c, d), 5);
            }
        }
    }
}

#[test]
fn copy_interior_leaves_boundary_and_other_planes() {
    let mut dst = Matrix::new(2, 3, 3, 3);
    dst.set_values(0, 1);
    dst.set_values(1, 2);
    let mut src = Matrix::new(2, 3, 3, 3);
    src.set_values(0, 7);
    src.set_values(1, 8);
    dst.copy_interior_from(&src);
    for r in 0..3 {
        for c in 0..3 {
            for d in 0..3 {
                let interior = r == 1 && c == 1 && d == 1;
                let expect0 = if interior { 7 } else { 1 };
                assert_eq!(dst.at(0, r, c, d), expect0);
                assert_eq!(dst.at(1, r, c, d), 2);
            }
        }
    }
}

#[test]
fn tensor_set_at_changes_one_cell_only() {
    let mut m = Matrix::new(2, 2, 2, 2);
    m.set_at(1, 0, 1, 0, 99);
    for n in 0..2 {
        for r in 0..2 {
            for c in 0..2 {
                for d in 0..2 {
                    let expect = if (n, r, c, d) == (1, 0, 1, 0) { 99 } else { 0 };
                    assert_eq!(m.at(n, r, c, d), expect);
                }
            }
        }
    }
}
