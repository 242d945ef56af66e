use perlica::logic::spatial::CellGrid;

/// The cell a world position falls in, as the grid's callers compute it.
fn cell_of(x: f32, z: f32, cell_size: f32) -> (i32, i32) {
    ((x / cell_size).floor() as i32, (z / cell_size).floor() as i32)
}

fn grid_of(positions: Vec<(f32, f32)>, cell_size: f32) -> CellGrid {
    let cells: Vec<(i32, i32)> = positions.iter().map(|&(x, z)| cell_of(x, z, cell_size)).collect();
    CellGrid::build(&cells)
}

fn query(grid: &CellGrid, cx: f32, cz: f32, radius: f32, cell_size: f32) -> Vec<usize> {
    let steps = (radius / cell_size).ceil() as i32;
    let (bx, bz) = cell_of(cx, cz, cell_size);
    grid.query_square(bx, bz, steps)
}

#[test]
fn empty_grid() {
    let grid = grid_of(vec![], 20.0);
    assert!(grid.is_empty());
    assert_eq!(grid.len(), 0);
    assert!(query(&grid, 0.0, 0.0, 100.0, 20.0).is_empty());
}

#[test]
fn single_entry() {
    let grid = grid_of(vec![(50.0, 50.0)], 20.0);
    assert_eq!(grid.len(), 1);
    assert!(!grid.is_empty());
}

#[test]
fn query_finds_nearby() {
    let grid = grid_of(vec![(0.0, 0.0), (500.0, 500.0)], 20.0);
    let hits = query(&grid, 0.0, 0.0, 80.0, 20.0);
    assert!(hits.contains(&0));
    assert!(!hits.contains(&1));
}

#[test]
fn query_excludes_far() {
    let grid = grid_of(vec![(0.0, 0.0), (1000.0, 1000.0)], 50.0);
    let hits = query(&grid, 0.0, 0.0, 100.0, 50.0);
    assert!(hits.contains(&0));
    assert!(!hits.contains(&1));
}

#[test]
fn query_radius_zero_finds_same_cell() {
    let grid = grid_of(vec![(10.0, 10.0), (30.0, 30.0)], 50.0);
    let hits = query(&grid, 10.0, 10.0, 0.0, 50.0);
    assert!(hits.contains(&0));
}

#[test]
fn multiple_entries_same_cell() {
    let grid = grid_of(vec![(1.0, 1.0), (2.0, 2.0), (3.0, 3.0)], 50.0);
    assert_eq!(grid.len(), 3);
    let hits = query(&grid, 2.0, 2.0, 10.0, 50.0);
    assert!(hits.contains(&0));
    assert!(hits.contains(&1));
    assert!(hits.contains(&2));
}

#[test]
fn large_radius_finds_all() {
    let grid = grid_of(vec![(0.0, 0.0), (100.0, 100.0), (500.0, 500.0)], 20.0);
    let hits = query(&grid, 0.0, 0.0, 10000.0, 20.0);
    assert!(hits.contains(&0));
    assert!(hits.contains(&1));
    assert!(hits.contains(&2));
}

#[test]
fn square_query_is_exact_and_once_each() {
    let cells = vec![(0, 0), (1, -1), (2, 0), (0, 0), (-1, 1), (1, 2)];
    let grid = CellGrid::build(&cells);
    let mut hits = grid.query_square(0, 0, 1);
    hits.sort();
    assert_eq!(hits, vec![0, 1, 3, 4]);
}

#[test]
fn negative_steps_find_nothing() {
    let grid = CellGrid::build(&vec![(0, 0), (0, 0)]);
    assert!(grid.query_square(0, 0, -1).is_empty());
    assert_eq!(grid.query_square(0, 0, 0), vec![0, 1]);
}

#[test]
fn square_at_the_edge_of_the_cell_range() {
    let grid = CellGrid::build(&vec![(i32::MAX, i32::MIN), (i32::MAX - 1, i32::MIN + 1), (0, 0)]);
    let mut hits = grid.query_square(i32::MAX, i32::MIN, 1);
    hits.sort();
    assert_eq!(hits, vec![0, 1]);
}

#[test]
fn cloned_grid_answers_alike() {
    let grid = CellGrid::build(&vec![(3, 4), (5, 6)]);
    let copy = grid.clone();
    assert_eq!(copy.len(), 2);
    assert_eq!(copy.query_square(3, 4, 0), vec![0]);
}
