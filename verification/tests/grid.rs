use spatial_hash::grid::SpatialHashGrid;

fn sorted(mut ids: Vec<usize>) -> Vec<usize> {
    ids.sort();
    ids
}

#[test]
fn query_on_a_new_grid_is_empty() {
    let grid = SpatialHashGrid::new();
    assert!(grid.query(0, 0, 10, 10).is_empty());
    assert!(grid.query(-1000, -1000, 5000, 5000).is_empty());
}

#[test]
fn self_query_reports_entity_at_cell_origin() {
    let mut grid = SpatialHashGrid::new();
    grid.insert(0, 0, 10, 10, 7);
    assert_eq!(grid.query(0, 0, 10, 10), vec![7]);
}

#[test]
fn self_query_reports_entity_that_reaches_a_cell_boundary() {
    let mut grid = SpatialHashGrid::new();
    grid.insert(250, 250, 10, 10, 3);
    assert_eq!(grid.query(250, 250, 10, 10), vec![3]);
    let mut wide = SpatialHashGrid::new();
    wide.insert(100, 100, 101, 101, 4);
    assert_eq!(wide.query(100, 100, 101, 101), vec![4]);
}

#[test]
fn self_query_misses_entity_far_from_every_cell_boundary() {
    let mut grid = SpatialHashGrid::new();
    grid.insert(100, 100, 10, 10, 5);
    assert!(grid.query(100, 100, 10, 10).is_empty());
    let mut edge = SpatialHashGrid::new();
    edge.insert(100, 100, 100, 100, 6);
    assert!(edge.query(100, 100, 100, 100).is_empty());
}

#[test]
fn entities_sharing_a_cell_are_reported_together() {
    let mut grid = SpatialHashGrid::new();
    grid.insert(0, 0, 10, 10, 0);
    grid.insert(9, 9, 10, 10, 1);
    assert_eq!(sorted(grid.query(0, 0, 10, 10)), vec![0, 1]);
}

#[test]
fn one_hit_reports_ids_whose_boxes_are_far_from_the_query() {
    let mut grid = SpatialHashGrid::new();
    grid.insert(0, 0, 10, 10, 0);
    grid.insert(200, 200, 5, 5, 1);
    assert_eq!(sorted(grid.query(0, 0, 10, 10)), vec![0, 1]);
}

#[test]
fn reinsert_overwrites_extent_in_every_cell() {
    let mut grid = SpatialHashGrid::new();
    grid.insert(0, 0, 10, 10, 0);
    grid.insert(9, 9, 10, 10, 1);
    assert!(grid.query(50, 50, 10, 10).is_empty());
    grid.insert(1, 1, 100, 100, 1);
    assert_eq!(sorted(grid.query(50, 50, 10, 10)), vec![0, 1]);
    assert_eq!(sorted(grid.query(0, 0, 10, 10)), vec![0, 1]);
}

#[test]
fn reinsert_with_smaller_extent_shrinks_probes_of_earlier_cells() {
    let mut grid = SpatialHashGrid::new();
    grid.insert(0, 0, 300, 10, 2);
    assert_eq!(grid.query(400, 0, 10, 10), vec![2]);
    grid.insert(0, 0, 10, 10, 2);
    assert!(grid.query(400, 0, 10, 10).is_empty());
}

#[test]
fn usage_example_reports_both_entities() {
    let mut grid = SpatialHashGrid::new();
    grid.insert(0, 0, 10, 10, 0);
    grid.insert(9, 9, 10, 10, 1);
    grid.insert(1, 1, 100, 100, 1);
    assert_eq!(sorted(grid.query(0, 0, 10, 10)), vec![0, 1]);
}

#[test]
fn query_over_unpopulated_cells_is_empty() {
    let mut grid = SpatialHashGrid::new();
    grid.insert(0, 0, 10, 10, 0);
    assert!(grid.query(256, 256, 10, 10).is_empty());
    assert!(grid.query(-256, -256, 10, 10).is_empty());
    assert!(grid.query(1000, 0, 100, 100).is_empty());
}

#[test]
fn insert_at_negative_position_registers_in_negative_cell() {
    let mut grid = SpatialHashGrid::new();
    grid.insert(-1, 0, 0, 0, 7);
    grid.insert(-256, 0, 100, 100, 8);
    assert_eq!(sorted(grid.query(-200, 0, 10, 10)), vec![7, 8]);
    assert!(grid.query(0, 0, 10, 10).is_empty());
}

#[test]
fn insert_at_origin_does_not_register_left_of_it() {
    let mut grid = SpatialHashGrid::new();
    grid.insert(0, 0, 0, 0, 7);
    grid.insert(-256, 0, 100, 100, 8);
    assert_eq!(grid.query(-200, 0, 10, 10), vec![8]);
}

#[test]
fn id_in_several_cells_is_reported_once() {
    let mut grid = SpatialHashGrid::new();
    grid.insert(0, 0, 600, 600, 4);
    let found = grid.query(0, 0, 600, 600);
    assert_eq!(found, vec![4]);
}

#[test]
fn id_inserted_twice_is_reported_once() {
    let mut grid = SpatialHashGrid::new();
    grid.insert(0, 0, 10, 10, 4);
    grid.insert(0, 0, 10, 10, 4);
    grid.insert(5, 5, 10, 10, 4);
    assert_eq!(grid.query(0, 0, 10, 10), vec![4]);
}

#[test]
fn result_does_not_depend_on_insertion_order() {
    let mut first = SpatialHashGrid::new();
    first.insert(0, 0, 300, 300, 1);
    first.insert(10, 10, 20, 20, 2);
    first.insert(300, 300, 50, 50, 3);
    let mut second = SpatialHashGrid::new();
    second.insert(300, 300, 50, 50, 3);
    second.insert(10, 10, 20, 20, 2);
    second.insert(0, 0, 300, 300, 1);
    let a = sorted(first.query(0, 0, 400, 400));
    let b = sorted(second.query(0, 0, 400, 400));
    assert_eq!(a, vec![1, 2, 3]);
    assert_eq!(a, b);
}

#[test]
fn cells_with_the_same_flattened_index_share_their_ids() {
    let mut grid = SpatialHashGrid::new();
    grid.insert(65536, 0, 10, 10, 1);
    grid.insert(0, 256, 10, 10, 2);
    assert_eq!(sorted(grid.query(65536, 0, 10, 10)), vec![1, 2]);
    assert_eq!(sorted(grid.query(0, 256, 10, 10)), vec![1, 2]);
}

#[test]
fn insert_with_far_corner_before_near_corner_changes_nothing() {
    let mut grid = SpatialHashGrid::new();
    grid.insert(0, 0, -1, 10, 9);
    assert!(grid.query(-300, -300, 600, 600).is_empty());
    grid.insert(-256, 0, 100, 100, 8);
    assert_eq!(grid.query(-200, 0, 10, 10), vec![8]);
}

#[test]
fn insert_and_query_beyond_the_largest_coordinate() {
    let mut grid = SpatialHashGrid::new();
    grid.insert(i32::MAX - 5, 0, 10, 10, 1);
    assert_eq!(grid.query(i32::MAX - 5, 0, 1000, 10), vec![1]);
    assert_eq!(grid.query(i32::MAX, 0, i32::MAX, 10), vec![1]);
}

#[test]
fn insert_and_query_at_the_smallest_coordinate() {
    let mut grid = SpatialHashGrid::new();
    grid.insert(i32::MIN, i32::MIN, 10, 10, 1);
    assert_eq!(grid.query(i32::MIN, i32::MIN, 10, 10), vec![1]);
}

#[test]
fn later_insert_of_another_id_keeps_earlier_results() {
    let mut grid = SpatialHashGrid::new();
    grid.insert(0, 0, 10, 10, 0);
    let before = sorted(grid.query(0, 0, 10, 10));
    grid.insert(700, 700, 10, 10, 1);
    grid.insert(3, 3, 1, 1, 2);
    let after = sorted(grid.query(0, 0, 10, 10));
    assert_eq!(before, vec![0]);
    assert_eq!(after, vec![0, 2]);
}

#[test]
fn collides_with_overlapping_rectangles() {
    let grid = SpatialHashGrid::new();
    assert!(grid.collides_with(0, 0, 10, 10, 9, 9, 10, 10));
    assert!(grid.collides_with(9, 9, 10, 10, 0, 0, 10, 10));
    assert!(grid.collides_with(0, 0, 100, 100, 50, 50, 1, 1));
    assert!(grid.collides_with(-5, -5, 10, 10, 0, 0, 1, 1));
}

#[test]
fn collides_with_is_half_open() {
    let grid = SpatialHashGrid::new();
    assert!(!grid.collides_with(0, 0, 10, 10, 10, 0, 10, 10));
    assert!(!grid.collides_with(0, 0, 10, 10, 0, 10, 10, 10));
    assert!(!grid.collides_with(10, 0, 10, 10, 0, 0, 10, 10));
    assert!(!grid.collides_with(0, 0, 10, 10, 20, 20, 5, 5));
}

#[test]
fn collides_with_empty_extent_never_overlaps() {
    let grid = SpatialHashGrid::new();
    assert!(!grid.collides_with(5, 5, 0, 0, 5, 5, 0, 0));
    assert!(!grid.collides_with(0, 0, 0, 10, 0, 0, 10, 10));
    assert!(grid.collides_with(5, 5, 0, 0, 0, 0, 10, 10));
}

#[test]
fn collides_with_does_not_overflow() {
    let grid = SpatialHashGrid::new();
    assert!(grid.collides_with(i64::MAX, i64::MAX, i64::MAX, i64::MAX, i64::MAX, i64::MAX, 1, 1));
    assert!(!grid.collides_with(i64::MIN, 0, i64::MAX, 1, i64::MAX, 0, i64::MAX, 1));
}
