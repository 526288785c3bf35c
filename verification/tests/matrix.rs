use stringdiff::matrix::Matrix;

#[test]
fn new_grid_holds_defaults() {
    let m: Matrix<u32> = Matrix::new(3, 4);
    assert_eq!(m.r_cnt, 3);
    assert_eq!(m.c_cnt, 4);
    assert_eq!(m.r_tot_cnt, 3);
    assert_eq!(m.c_tot_cnt, 4);
    for i in 0..3 {
        for j in 0..4 {
            assert_eq!(*m.get(i, j), 0);
        }
    }
}

#[test]
fn empty_grid() {
    let m: Matrix<u32> = Matrix::new(0, 7);
    assert_eq!(m.r_cnt, 0);
    assert_eq!(m.c_cnt, 7);
    assert_eq!(m.data.len(), 0);
}

#[test]
fn set_then_get() {
    let mut m: Matrix<u32> = Matrix::new(3, 4);
    m.set(1, 2, 42);
    m.set(2, 3, 7);
    for i in 0..3 {
        for j in 0..4 {
            let expected = if (i, j) == (1, 2) {
                42
            } else if (i, j) == (2, 3) {
                7
            } else {
                0
            };
            assert_eq!(*m.get(i, j), expected);
        }
    }
}

#[test]
fn rows_are_packed_at_the_logical_width() {
    let mut m: Matrix<u32> = Matrix::new(4, 4);
    for i in 0..4 {
        for j in 0..4 {
            m.set(i, j, (i * 4 + j) as u32);
        }
    }
    m.set_size(2, 3);
    assert_eq!(m.r_cnt, 2);
    assert_eq!(m.c_cnt, 3);
    assert_eq!(m.r_tot_cnt, 4);
    assert_eq!(m.c_tot_cnt, 4);
    // The buffer is untouched, so the cell (i, j) is now the flat cell 3 * i + j.
    assert_eq!(*m.get(0, 2), 2);
    assert_eq!(*m.get(1, 0), 3);
    assert_eq!(*m.get(1, 2), 5);
    m.set_size(4, 4);
    assert_eq!(*m.get(3, 3), 15);
}

#[test]
fn fill_covers_the_logical_cells_only() {
    let mut m: Matrix<u32> = Matrix::new(3, 3);
    m.fill_with_val(9);
    m.set_size(2, 2);
    m.fill_with_val(1);
    assert_eq!(m.data, vec![1, 1, 1, 1, 9, 9, 9, 9, 9]);
    for i in 0..2 {
        for j in 0..2 {
            assert_eq!(*m.get(i, j), 1);
        }
    }
}

#[test]
fn grid_of_strings() {
    let mut m: Matrix<String> = Matrix::new(2, 2);
    assert_eq!(*m.get(1, 1), String::new());
    m.fill_with_val(String::from("x"));
    m.set(0, 1, String::from("y"));
    assert_eq!(*m.get(0, 0), "x");
    assert_eq!(*m.get(0, 1), "y");
    assert_eq!(*m.get(1, 0), "x");
    assert_eq!(*m.get(1, 1), "x");
}
