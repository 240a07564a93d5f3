use agent_microtone::MicrotritGrid;

#[test]
fn test_grid_creation() {
    let grid = MicrotritGrid::new(3, 4, 0.0f64);
    assert_eq!(grid.dimensions, (3, 4));
    assert_eq!(grid.cell_count(), 12);
    assert_eq!(grid.get(1, 2), Some(0.0));
}

#[test]
fn test_grid_from_values() {
    let grid = MicrotritGrid::from_values(&[&[0.5f64, -0.3], &[1.0, 0.0]]);
    assert_eq!(grid.dimensions, (2, 2));
    assert!((grid.get(0, 0).unwrap() - 0.5).abs() < 1e-10);
}

#[test]
fn test_grid_set_get() {
    let mut grid = MicrotritGrid::new(2, 2, 0.0f64);
    assert!(grid.set(0, 0, 0.7));
    assert!((grid.get(0, 0).unwrap() - 0.7).abs() < 1e-10);
    assert!(!grid.set(5, 5, 1.0)); // out of bounds
}

#[test]
fn test_grid_map() {
    let grid = MicrotritGrid::from_values(&[&[0.5f64, -0.5]]);
    let negated = grid.map(|m: f64| -m);
    assert!((negated.get(0, 0).unwrap() + 0.5).abs() < 1e-10);
}

#[test]
fn test_grid_add() {
    let a = MicrotritGrid::from_values(&[&[0.5f64, -0.5]]);
    let b = MicrotritGrid::from_values(&[&[0.3f64, 0.3]]);
    let sum = a.add_grid(&b).unwrap();
    assert!((sum.get(0, 0).unwrap() - 0.8).abs() < 1e-10);
}

#[test]
fn test_grid_add_mismatched() {
    let a = MicrotritGrid::new(2, 2, 0.0f64);
    let b = MicrotritGrid::new(3, 3, 0.0f64);
    assert!(a.add_grid(&b).is_none());
}

#[test]
fn new_grid_reads_default_inside_and_nothing_outside() {
    let grid = MicrotritGrid::new(2, 3, 7i32);
    for r in 0..2 {
        for c in 0..3 {
            assert_eq!(grid.get(r, c), Some(7));
        }
    }
    assert_eq!(grid.get(2, 0), None);
    assert_eq!(grid.get(0, 3), None);
    assert_eq!(grid.row_count(), 2);
    assert_eq!(grid.row(1), Some(&[7, 7, 7][..]));
    assert_eq!(grid.row(2), None);
}

#[test]
fn empty_grid_has_no_cells() {
    let grid = MicrotritGrid::new(0, 5, 1u8);
    assert_eq!(grid.dimensions, (0, 5));
    assert_eq!(grid.cell_count(), 0);
    assert_eq!(grid.get(0, 0), None);
    assert_eq!(grid.row_count(), 0);
}

#[test]
fn write_then_read_and_others_unchanged() {
    let mut grid = MicrotritGrid::new(2, 2, 0i32);
    assert!(grid.set(1, 0, 5));
    assert_eq!(grid.get(1, 0), Some(5));
    assert_eq!(grid.get(0, 0), Some(0));
    assert_eq!(grid.get(0, 1), Some(0));
    assert_eq!(grid.get(1, 1), Some(0));
    assert!(grid.set(1, 0, 9));
    assert_eq!(grid.get(1, 0), Some(9));
    assert_eq!(grid.dimensions, (2, 2));
}

#[test]
fn refused_write_leaves_grid_unchanged() {
    let mut grid = MicrotritGrid::from_values(&[&[1, 2], &[3]]);
    assert!(!grid.set(1, 1, 8));
    assert!(!grid.set(0, 2, 8));
    assert!(!grid.set(2, 0, 8));
    assert_eq!(grid.row(0), Some(&[1, 2][..]));
    assert_eq!(grid.row(1), Some(&[3][..]));
}

#[test]
fn from_values_takes_columns_from_first_row() {
    let grid = MicrotritGrid::from_values(&[&[1, 2], &[3, 4, 5]]);
    assert_eq!(grid.dimensions, (2, 2));
    assert_eq!(grid.get(1, 2), Some(5));
    assert_eq!(grid.cell_count(), 4);
    let empty: MicrotritGrid<i32> = MicrotritGrid::from_values(&[]);
    assert_eq!(empty.dimensions, (0, 0));
    assert_eq!(empty.row_count(), 0);
}

#[test]
fn map_keeps_dimensions_and_shape() {
    let grid = MicrotritGrid::from_values(&[&[1, 2, 3], &[4]]);
    let doubled = grid.map(|x: i32| x * 2);
    assert_eq!(doubled.dimensions, (2, 3));
    assert_eq!(doubled.row(0), Some(&[2, 4, 6][..]));
    assert_eq!(doubled.row(1), Some(&[8][..]));
}

#[test]
fn add_grid_sums_overlapping_cells() {
    let a = MicrotritGrid::from_values(&[&[1, 2, 3], &[4, 5]]);
    let b = MicrotritGrid::from_values(&[&[10, 20, 30], &[40, 50, 60]]);
    let sum = a.add_grid(&b).unwrap();
    assert_eq!(sum.dimensions, (2, 3));
    assert_eq!(sum.row(0), Some(&[11, 22, 33][..]));
    assert_eq!(sum.row(1), Some(&[44, 55][..]));
}

#[test]
fn add_grid_refuses_other_dimensions() {
    let a = MicrotritGrid::new(2, 3, 1i32);
    let b = MicrotritGrid::new(3, 2, 1i32);
    assert!(a.add_grid(&b).is_none());
    assert!(b.add_grid(&a).is_none());
}

#[test]
fn clone_copies_every_cell() {
    let grid = MicrotritGrid::from_values(&[&[1, 2], &[3]]);
    let copy = grid.clone();
    assert_eq!(copy.dimensions, grid.dimensions);
    assert_eq!(copy.row(0), grid.row(0));
    assert_eq!(copy.row(1), grid.row(1));
    assert_eq!(copy.row_count(), 2);
}

#[test]
fn sample_corners_around_a_cell() {
    let grid = MicrotritGrid::from_values(&[&[-1.0, 1.0], &[-1.0, 1.0]]);
    assert_eq!(grid.sample_corners(0, 0, 0.0), (-1.0, 1.0, -1.0, 1.0));
    let grid = MicrotritGrid::from_values(&[&[1, 2, 3], &[4, 5, 6], &[7, 8, 9]]);
    assert_eq!(grid.sample_corners(1, 0, 0), (4, 5, 7, 8));
}

#[test]
fn sample_corners_hold_at_last_row_and_column() {
    let grid = MicrotritGrid::from_values(&[&[1, 2, 3], &[4, 5, 6], &[7, 8, 9]]);
    assert_eq!(grid.sample_corners(2, 2, 0), (9, 9, 9, 9));
    assert_eq!(grid.sample_corners(2, 1, 0), (8, 9, 8, 9));
}

#[test]
fn sample_corners_fall_back_where_no_cell() {
    let grid = MicrotritGrid::from_values(&[&[1, 2], &[3]]);
    assert_eq!(grid.sample_corners(0, 0, -1), (1, 2, 3, -1));
    assert_eq!(grid.sample_corners(5, 5, -1), (-1, -1, -1, -1));
}
