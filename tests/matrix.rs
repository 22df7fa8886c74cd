use clrs::{Matrix, MatrixView};

#[test]
fn test_with_value() {
    let matrix = Matrix::with_value(3, 3, 1.0);
    assert_eq!(matrix.nrows(), 3);
    assert_eq!(matrix.ncols(), 3);
    assert_eq!(matrix.get(0, 0), Some(&1.0));
    assert_eq!(*matrix.index((0, 1)), 1.0);
}

#[test]
fn test_matrix_view() {
    let mut matrix = Matrix::with_value(4, 4, 1.0);

    // Set some test values
    *matrix.index_mut((0, 0)) = 0.0;
    *matrix.index_mut((1, 1)) = 2.0;
    *matrix.index_mut((2, 2)) = 3.0;
    *matrix.index_mut((3, 3)) = 4.0;

    // A 2x2 view starting at (1, 1)
    let view = matrix.view(1, 1, 2, 2);
    assert_eq!(view.size(), (2, 2));
    assert_eq!(*view.index((0, 0)), 2.0); // matrix (1, 1)
    assert_eq!(*view.index((1, 1)), 3.0); // matrix (2, 2)

    // Sub-view
    let sub_view = view.view(0, 0, 1, 1);
    assert_eq!(sub_view.size(), (1, 1));
    assert_eq!(*sub_view.index((0, 0)), 2.0);
}

#[test]
fn test_matrix_view_mut() {
    let mut matrix = Matrix::with_value(3, 3, 0.0);

    {
        let mut view = matrix.view_mut(1, 1, 2, 2);
        *view.index_mut((0, 0)) = 5.0;
        *view.index_mut((1, 1)) = 6.0;
    }

    // The original matrix was modified
    assert_eq!(*matrix.index((1, 1)), 5.0);
    assert_eq!(*matrix.index((2, 2)), 6.0);
    assert_eq!(*matrix.index((0, 0)), 0.0); // unchanged
}

fn numbered(rows: usize, cols: usize) -> Matrix<i64> {
    let mut m = Matrix::with_value(rows, cols, 0i64);
    for r in 0..rows {
        for c in 0..cols {
            *m.index_mut((r, c)) = (r * 10 + c) as i64;
        }
    }
    m
}

#[test]
fn with_value_fills_every_cell() {
    let m = Matrix::with_value(2, 5, 7u8);
    assert_eq!(m.size(), (2, 5));
    for r in 0..2 {
        for c in 0..5 {
            assert_eq!(m.get(r, c), Some(&7));
        }
    }
}

#[test]
fn zeros_fills_with_default() {
    let m: Matrix<f64> = Matrix::zeros(2, 3);
    assert_eq!(m.size(), (2, 3));
    for r in 0..2 {
        for c in 0..3 {
            assert_eq!(*m.index((r, c)), 0.0);
        }
    }
}

#[test]
fn new_has_the_requested_shape() {
    let m: Matrix<u32> = Matrix::new(4, 2);
    assert_eq!(m.nrows(), 4);
    assert_eq!(m.ncols(), 2);
    assert_eq!(m.get(3, 1).is_some(), true);
    assert_eq!(m.get(4, 0), None);
}

#[test]
fn checked_access_refuses_out_of_range() {
    let mut m = numbered(2, 3);
    assert_eq!(m.get(2, 0), None);
    assert_eq!(m.get(0, 3), None);
    assert_eq!(m.get(1, 2), Some(&12));
    assert!(m.get_mut(0, 3).is_none());
    assert!(m.get_mut(5, 5).is_none());
    *m.get_mut(1, 0).unwrap() = 99;
    assert_eq!(*m.index((1, 0)), 99);
    assert_eq!(*m.get_unchecked(0, 2), 2);
    *m.get_unchecked_mut(0, 2) = -2;
    assert_eq!(*m.index((0, 2)), -2);
}

#[test]
fn transpose_swaps_shape_and_positions() {
    let m = numbered(2, 3);
    let t = m.transpose();
    assert_eq!(t.size(), (3, 2));
    for r in 0..2 {
        for c in 0..3 {
            assert_eq!(t.index((c, r)), m.index((r, c)));
        }
    }
    assert_eq!(*t.index((2, 1)), 12);
}

#[test]
fn transpose_twice_gives_back_the_matrix() {
    let m = numbered(3, 4);
    let tt = m.transpose().transpose();
    assert_eq!(tt.size(), m.size());
    for r in 0..3 {
        for c in 0..4 {
            assert_eq!(tt.index((r, c)), m.index((r, c)));
        }
    }
}

#[test]
fn resize_within_capacity_keeps_the_store() {
    let mut m = numbered(3, 3);
    m.resize(2, 2);
    assert_eq!(m.size(), (2, 2));
    // Slot 3 held (1, 0) before and is (1, 1) now.
    assert_eq!(*m.index((1, 1)), 10);
    m.resize(3, 3);
    assert_eq!(m.size(), (3, 3));
    for r in 0..3 {
        for c in 0..3 {
            assert_eq!(*m.index((r, c)), (r * 10 + c) as i64);
        }
    }
    m.resize(1, 9);
    assert_eq!(*m.index((0, 8)), 22);
}

#[test]
fn resize_beyond_capacity_keeps_the_old_slots() {
    let mut m = numbered(2, 2);
    m.resize(3, 4);
    assert_eq!(m.size(), (3, 4));
    // The four old slots keep their order in the new row-major layout.
    assert_eq!(*m.index((0, 0)), 0);
    assert_eq!(*m.index((0, 1)), 1);
    assert_eq!(*m.index((0, 2)), 10);
    assert_eq!(*m.index((0, 3)), 11);
    assert!(m.get(2, 3).is_some());
    assert_eq!(m.get(3, 0), None);
}

#[test]
fn view_of_view_equals_view_at_summed_offsets() {
    let m = numbered(5, 6);
    let outer = m.view(1, 2, 4, 4);
    let inner = outer.view(1, 1, 2, 3);
    let direct: MatrixView<'_, i64> = m.view(2, 3, 2, 3);
    assert_eq!(inner.size(), direct.size());
    for r in 0..2 {
        for c in 0..3 {
            assert_eq!(inner.index((r, c)), direct.index((r, c)));
            assert_eq!(*inner.index((r, c)), ((2 + r) * 10 + 3 + c) as i64);
        }
    }
    assert_eq!(inner.get(2, 0), None);
    assert_eq!(inner.get(0, 3), None);
    assert_eq!(*inner.get_unchecked(1, 2), 35);
}

#[test]
fn write_through_view_lands_at_one_cell_only() {
    let mut m = numbered(4, 5);
    {
        let mut v = m.view_mut(1, 2, 3, 2);
        assert_eq!(v.size(), (3, 2));
        assert_eq!(*v.index((2, 1)), 33);
        *v.get_mut(2, 1).unwrap() = -1;
        assert!(v.get_mut(3, 0).is_none());
        assert!(v.get(0, 2).is_none());
        assert_eq!(v.get(0, 0), Some(&12));
    }
    for r in 0..4 {
        for c in 0..5 {
            let expected = if (r, c) == (3, 3) { -1 } else { (r * 10 + c) as i64 };
            assert_eq!(*m.index((r, c)), expected);
        }
    }
}

#[test]
fn nested_mutable_views_keep_the_original_stride() {
    let mut m = numbered(4, 4);
    {
        let mut outer = m.view_mut(1, 1, 3, 3);
        {
            let mut inner = outer.view_mut(1, 1, 2, 2);
            *inner.index_mut((1, 0)) = 100;
            *inner.get_unchecked_mut(0, 1) = 200;
            assert_eq!(*inner.get_unchecked(1, 0), 100);
        }
        let read = outer.view(1, 0, 2, 3);
        assert_eq!(*read.index((1, 1)), 100);
        assert_eq!(*outer.get_unchecked(1, 2), 200);
    }
    assert_eq!(*m.index((3, 2)), 100);
    assert_eq!(*m.index((2, 3)), 200);
    assert_eq!(*m.index((2, 2)), 22);
}

#[test]
fn checked_write_reads_back_and_leaves_the_rest() {
    let mut m = numbered(3, 3);
    if let Some(p) = m.get_mut(2, 1) {
        *p = 77;
    }
    for r in 0..3 {
        for c in 0..3 {
            let expected = if (r, c) == (2, 1) { 77 } else { (r * 10 + c) as i64 };
            assert_eq!(m.get(r, c), Some(&expected));
        }
    }
}
