use spatial_hash::cell::{cell_coord, cell_origin, Pair, CELL_SIZE, CELL_SIZE_LOG2};

#[test]
fn cell_size_is_the_power_of_two_of_its_logarithm() {
    assert_eq!(CELL_SIZE, 256);
    assert_eq!(CELL_SIZE_LOG2, 8);
    assert_eq!(1 << CELL_SIZE_LOG2, CELL_SIZE);
}

#[test]
fn cell_coord_of_negative_position_rounds_down() {
    assert_eq!(cell_coord(-1), -1);
    assert_eq!(cell_coord(-256), -1);
    assert_eq!(cell_coord(-257), -2);
    assert_eq!(cell_coord(i32::MIN as i64), -8388608);
}

#[test]
fn cell_coord_of_non_negative_position() {
    assert_eq!(cell_coord(0), 0);
    assert_eq!(cell_coord(255), 0);
    assert_eq!(cell_coord(256), 1);
    assert_eq!(cell_coord(i32::MAX as i64), 8388607);
    assert_eq!(cell_coord(i32::MAX as i64 + i32::MAX as i64), 16777215);
}

#[test]
fn cell_origin_is_cell_times_cell_size() {
    assert_eq!(cell_origin(0), 0);
    assert_eq!(cell_origin(1), 256);
    assert_eq!(cell_origin(-3), -768);
    assert_eq!(cell_origin(16777215), 4294967040);
    assert_eq!(cell_origin(i32::MIN), -549755813888);
}

#[test]
fn cell_coord_undoes_cell_origin() {
    let cells: Vec<i32> = vec![-8388608, -2, -1, 0, 1, 2, 8388607, 16777215];
    for c in cells {
        assert_eq!(cell_coord(cell_origin(c)), c as i64);
        assert_eq!(cell_coord(cell_origin(c) + 255), c as i64);
    }
}

#[test]
fn from_coords_keeps_column_and_row() {
    let p = Pair::from_coords(3, -2);
    assert_eq!(p.0, 3);
    assert_eq!(p.1, -2);
    assert_eq!(p, Pair(3, -2));
}

#[test]
fn to_index_is_row_times_stride_plus_column() {
    assert_eq!(Pair::from_coords(0, 0).to_index(256), 0);
    assert_eq!(Pair::from_coords(5, 0).to_index(256), 5);
    assert_eq!(Pair::from_coords(0, 1).to_index(256), 256);
    assert_eq!(Pair::from_coords(3, 2).to_index(256), 515);
    assert_eq!(Pair::from_coords(3, -2).to_index(256), -509);
    assert_eq!(Pair::from_coords(-1, 0).to_index(256), -1);
    assert_eq!(Pair::from_coords(7, 9).to_index(0), 7);
}

#[test]
fn to_index_does_not_wrap_at_the_extremes() {
    assert_eq!(
        Pair::from_coords(i32::MAX, i32::MAX).to_index(u32::MAX),
        9223372032559808512
    );
    assert_eq!(
        Pair::from_coords(i32::MIN, i32::MIN).to_index(u32::MAX),
        -9223372036854775808
    );
}

#[test]
fn to_index_aliases_cells_a_stride_apart() {
    assert_eq!(
        Pair::from_coords(256, 0).to_index(256),
        Pair::from_coords(0, 1).to_index(256)
    );
    assert_eq!(
        Pair::from_coords(-1, 0).to_index(256),
        Pair::from_coords(255, -1).to_index(256)
    );
    assert_ne!(
        Pair::from_coords(1, 0).to_index(256),
        Pair::from_coords(0, 1).to_index(256)
    );
}

#[test]
fn from_index_splits_into_remainder_and_quotient() {
    assert_eq!(Pair::from_index(0, 256), Pair(0, 0));
    assert_eq!(Pair::from_index(515, 256), Pair(3, 2));
    assert_eq!(Pair::from_index(255, 256), Pair(255, 0));
    assert_eq!(Pair::from_index(256, 256), Pair(0, 1));
    assert_eq!(Pair::from_index(7, 1), Pair(0, 7));
}

#[test]
fn from_index_of_negative_index_rounds_the_row_down() {
    assert_eq!(Pair::from_index(-1, 256), Pair(255, -1));
    assert_eq!(Pair::from_index(-256, 256), Pair(0, -1));
    assert_eq!(Pair::from_index(-257, 256), Pair(255, -2));
    assert_eq!(Pair::from_index(-509, 256), Pair(3, -2));
}

#[test]
fn from_index_cuts_to_32_bits() {
    assert_eq!(Pair::from_index(4294967295, u32::MAX), Pair(0, 1));
    assert_eq!(Pair::from_index(2147483648, u32::MAX), Pair(i32::MIN, 0));
    assert_eq!(Pair::from_index(i64::MAX, 1), Pair(0, -1));
    assert_eq!(Pair::from_index(i64::MIN, 1), Pair(0, 0));
}

#[test]
fn from_index_undoes_to_index_for_columns_within_the_stride() {
    let rows: Vec<i32> = vec![i32::MIN, -300, -1, 0, 1, 77, i32::MAX];
    let columns: Vec<i32> = vec![0, 1, 100, 255];
    for row in rows {
        for column in columns.clone() {
            let p = Pair::from_coords(column, row);
            assert_eq!(Pair::from_index(p.to_index(256), 256), p);
        }
    }
}
