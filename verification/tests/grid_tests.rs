use ecogrid::grid::{Cell, Grid, Quadrant};
use ecogrid::util::Size;

fn numbered(w: u32, h: u32, wrap: bool) -> Grid {
    let mut grid = Grid::with_edge_policy(Size::new(w, h), wrap);
    for y in 0..h {
        for x in 0..w {
            grid.set_cell_at(x, y, Cell::Animal(1 + x + y * w));
        }
    }
    grid
}

fn ids(cells: &[Cell]) -> Vec<u32> {
    cells.iter().map(|c| c.specie_id()).collect()
}

#[test]
fn new_grid_is_empty() {
    let grid = Grid::new(Size::new(4, 3));
    assert_eq!(grid.get_size().w, 4);
    assert_eq!(grid.get_size().h, 3);
    assert_eq!(grid.cell_count(), 12);
    assert!(!grid.edge_wrap());
    for y in 0..3 {
        for x in 0..4 {
            assert_eq!(*grid.get_cell_at(x, y), Cell::Empty);
        }
    }
    assert_eq!(grid.get_cell_specie_ids(), vec![0; 12]);
}

#[test]
fn cells_are_stored_row_major() {
    let mut grid = Grid::new(Size::new(3, 2));
    grid.set_cell_at(2, 0, Cell::Animal(7));
    grid.set_cell_at(1, 1, Cell::Animal(9));
    assert_eq!(*grid.get_cell_at(2, 0), Cell::Animal(7));
    assert_eq!(*grid.get_cell_at(1, 1), Cell::Animal(9));
    assert_eq!(grid.cell_index(2, 0), 2);
    assert_eq!(grid.cell_index(1, 1), 4);
    assert_eq!(grid.get_cell(4), Cell::Animal(9));
    assert_eq!(grid.get_cell_specie_ids(), vec![0, 0, 7, 0, 9, 0]);
    assert_eq!(grid.count_cells(Cell::Empty), 4);
    assert_eq!(grid.count_cells(Cell::Animal(7)), 1);
    assert_eq!(grid.count_animals(), 2);
}

#[test]
fn moore_center_lists_eight_neighbors_column_by_column() {
    let grid = numbered(3, 3, false);
    let around = grid.moore_neighborhood(1, 1, 1, None);
    assert_eq!(ids(&around), vec![1, 4, 7, 2, 8, 3, 6, 9]);
}

#[test]
fn moore_corner_omits_cells_beyond_closed_edges() {
    let grid = numbered(3, 3, false);
    let around = grid.moore_neighborhood(0, 0, 1, None);
    assert_eq!(ids(&around), vec![4, 2, 5]);
    let far = grid.moore_neighborhood(0, 0, 5, None);
    assert_eq!(far.len(), 8);
}

#[test]
fn moore_wraps_on_a_torus() {
    let grid = numbered(3, 3, true);
    let around = grid.moore_neighborhood(0, 0, 1, None);
    assert_eq!(ids(&around), vec![9, 3, 6, 7, 4, 8, 2, 5]);
    let small = numbered(2, 1, true);
    let twice = small.moore_neighborhood(0, 0, 1, None);
    assert_eq!(ids(&twice), vec![2, 2, 2, 1, 1, 2, 2, 2]);
}

#[test]
fn quadrants_share_their_diagonals() {
    let grid = numbered(5, 5, false);
    let east = grid.moore_neighborhood(2, 2, 2, Some(Quadrant::East));
    assert_eq!(ids(&east), vec![9, 14, 19, 5, 10, 15, 20, 25]);
    let north = grid.moore_neighborhood(2, 2, 2, Some(Quadrant::North));
    assert_eq!(ids(&north), vec![1, 2, 7, 3, 8, 4, 9, 5]);
    let west = grid.moore_neighborhood(2, 2, 2, Some(Quadrant::West));
    assert_eq!(ids(&west), vec![1, 6, 11, 16, 21, 7, 12, 17]);
    let south = grid.moore_neighborhood(2, 2, 2, Some(Quadrant::South));
    assert_eq!(ids(&south), vec![21, 17, 22, 18, 23, 19, 24, 25]);
}

#[test]
fn von_neumann_lists_west_north_east_south() {
    let grid = numbered(3, 3, false);
    assert_eq!(ids(&grid.von_neumann_neighborhood_r1(1, 1)), vec![4, 2, 6, 8]);
    assert_eq!(ids(&grid.von_neumann_neighborhood_r1(0, 0)), vec![2, 4]);
    assert_eq!(ids(&grid.von_neumann_neighborhood_r1(2, 2)), vec![8, 6]);
    let torus = numbered(3, 3, true);
    assert_eq!(ids(&torus.von_neumann_neighborhood_r1(0, 0)), vec![3, 7, 2, 4]);
}

#[test]
fn steps_follow_the_edge_policy() {
    let closed = Grid::new(Size::new(3, 2));
    assert_eq!(closed.step_toward(0, 0, Quadrant::East), Some((1, 0)));
    assert_eq!(closed.step_toward(0, 0, Quadrant::West), None);
    assert_eq!(closed.step_toward(0, 0, Quadrant::North), None);
    assert_eq!(closed.step_toward(0, 0, Quadrant::South), Some((0, 1)));
    assert_eq!(closed.step_toward(2, 1, Quadrant::East), None);
    let torus = Grid::with_edge_policy(Size::new(3, 2), true);
    assert_eq!(torus.step_toward(0, 0, Quadrant::West), Some((2, 0)));
    assert_eq!(torus.step_toward(0, 0, Quadrant::North), Some((0, 1)));
    assert_eq!(torus.step_toward(2, 1, Quadrant::East), Some((0, 1)));
    assert_eq!(torus.step_toward(2, 1, Quadrant::South), Some((2, 0)));
}

#[test]
fn a_copy_holds_the_same_cells() {
    let grid = numbered(3, 2, true);
    let copy = grid.copy();
    assert_eq!(copy.get_cell_specie_ids(), grid.get_cell_specie_ids());
    assert!(copy.edge_wrap());
    let blank = grid.empty_like();
    assert_eq!(blank.get_cell_specie_ids(), vec![0; 6]);
    assert!(blank.edge_wrap());
}

#[test]
fn place_if_empty_keeps_an_occupied_cell() {
    let mut grid = Grid::new(Size::new(2, 2));
    assert!(grid.place_if_empty(1, 0, 3));
    assert!(!grid.place_if_empty(1, 0, 4));
    assert_eq!(*grid.get_cell_at(1, 0), Cell::Animal(3));
}
