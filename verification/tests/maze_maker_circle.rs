use cdl_maze::maze_maker::grids::circle_cell::CircleCell;
use cdl_maze::maze_maker::grids::circle_grid::{CircleGrid, RingDirection};
use cdl_maze::maze_maker::grids::{Cell, CellCoord};

fn c(x: i32, y: i32) -> CellCoord {
    CellCoord::new(x, y)
}

fn grid() -> CircleGrid {
    let mut g = CircleGrid::new(3, 10, 5);
    g.init(&vec![8, 16, 16]);
    g
}

fn cell(g: &CircleGrid, x: i32, y: i32) -> CircleCell {
    *g.get_cell(c(x, y)).unwrap()
}

#[test]
fn new_circle_grid_is_empty() {
    let g = CircleGrid::new(3, 10, 5);
    assert!(g.get_cell(c(0, 0)).is_none());
    assert_eq!(g.get_entrance(), c(-1, -1));
    assert_eq!(g.get_exit(), c(-1, -1));
    assert_eq!(g.get_cell_in_dir(c(0, 0), RingDirection::CW), None);
}

#[test]
fn init_builds_and_opens_the_rings() {
    let g = grid();
    assert_eq!(g.get_entrance(), c(0, 0));
    assert_eq!(g.get_exit(), c(2, 0));
    assert!(g.get_cell(c(0, 8)).is_none());
    assert!(g.get_cell(c(1, 15)).is_some());
    assert!(g.get_cell(c(3, 0)).is_none());
    for i in 0..8 {
        let s = cell(&g, 0, i);
        assert_eq!(s.coord, c(0, i));
        assert_eq!(s.ccw, Some(c(0, (i + 1) % 8)));
        assert_eq!(s.cw, Some(c(0, (i + 7) % 8)));
        assert!(s.part_of_maze);
    }
    assert_eq!(cell(&g, 0, 0).outward_1, Some(c(1, 0)));
    let reached = cell(&g, 1, 0);
    assert_eq!(reached.inward, Some(c(0, 0)));
    assert!(!reached.part_of_maze);
    let exit = cell(&g, 2, 0);
    assert_eq!(exit.outward_1, Some(c(-1, -1)));
    assert_eq!(exit.outward_2, Some(c(-10, -10)));
    assert_eq!(cell(&g, 2, 7).outward_1, Some(c(-10, -10)));
    assert_eq!(cell(&g, 1, 7).outward_1, None);
}

#[test]
fn steps_wrap_halve_and_double() {
    let g = grid();
    assert_eq!(g.get_cell_in_dir(c(1, 3), RingDirection::Inward1), Some(c(0, 1)));
    assert_eq!(g.get_cell_in_dir(c(1, 3), RingDirection::Inward2), Some(c(0, 1)));
    assert_eq!(g.get_cell_in_dir(c(0, 3), RingDirection::Outward1), Some(c(1, 6)));
    assert_eq!(g.get_cell_in_dir(c(0, 3), RingDirection::Outward2), Some(c(1, 7)));
    assert_eq!(g.get_cell_in_dir(c(1, 3), RingDirection::Outward2), Some(c(2, 3)));
    assert_eq!(g.get_cell_in_dir(c(2, 3), RingDirection::Inward1), Some(c(1, 3)));
    assert_eq!(g.get_cell_in_dir(c(1, 0), RingDirection::CW), Some(c(1, 15)));
    assert_eq!(g.get_cell_in_dir(c(0, 7), RingDirection::CCW), Some(c(0, 0)));
    assert_eq!(g.get_cell_in_dir(c(2, 5), RingDirection::Outward1), None);
    assert_eq!(g.get_cell_in_dir(c(0, 0), RingDirection::Inward1), None);
    assert_eq!(g.get_cell_in_dir(c(5, 0), RingDirection::CW), None);
}

#[test]
fn carving_links_both_segments() {
    let mut g = grid();
    assert_eq!(
        g.get_allowed_directions(c(1, 1)),
        vec![RingDirection::CW, RingDirection::CCW, RingDirection::Outward1, RingDirection::Outward2]
    );
    g.carve(c(1, 1), RingDirection::Outward2);
    assert_eq!(cell(&g, 1, 1).outward_2, Some(c(2, 1)));
    assert_eq!(cell(&g, 2, 1).inward, Some(c(1, 1)));
    assert!(cell(&g, 2, 1).part_of_maze);
    g.carve(c(1, 1), RingDirection::CW);
    assert_eq!(cell(&g, 1, 1).cw, Some(c(1, 0)));
    assert_eq!(cell(&g, 1, 0).ccw, Some(c(1, 1)));
    assert_eq!(g.get_allowed_directions(c(1, 1)), vec![RingDirection::CCW]);
    assert!(g.can_carve(c(1, 1), RingDirection::CCW));
    assert!(!g.can_carve(c(1, 1), RingDirection::Inward1));
    g.carve(c(2, 4), RingDirection::Outward1);
    assert_eq!(cell(&g, 2, 4).outward_1, Some(c(-10, -10)));
}

#[test]
fn dead_ends_are_segments_with_one_link() {
    let mut g = grid();
    g.find_dead_ends();
    assert_eq!(g.count_dead_ends(), 1);
    assert_eq!(cell(&g, 0, 0).get_neighbours(), vec![c(0, 1), c(0, 7), c(1, 0)]);
    assert_eq!(cell(&g, 2, 0).get_neighbours(), vec![]);
}

#[test]
fn walls_and_sizes() {
    let g = grid();
    assert_eq!(cell(&g, 0, 3).drawn_walls(), (false, true, false));
    assert_eq!(cell(&g, 2, 4).drawn_walls(), (true, true, true));
    assert_eq!(cell(&g, 2, 0).drawn_walls(), (true, true, false));
    assert_eq!(g.get_size_in_pixels(), (60, 60));
    assert_eq!(g.get_num_cells_horizontal(), 3);
    assert_eq!(g.get_num_cells_vertical(), 3);
    assert_eq!(g.get_cell_size(), 10);
    assert_eq!(g.get_margin(), 5);
}

#[test]
fn solution_flag() {
    let mut g = grid();
    assert!(!g.has_solution());
    g.set_has_solution(true);
    assert!(g.has_solution());
    g.clear_solution();
    assert!(!g.has_solution());
    let mut s = CircleCell::new(c(4, 2));
    s.set_distance(3);
    s.set_part_of_maze(true);
    assert_eq!(s.get_distance(), 3);
    assert!(s.is_part_of_maze());
    assert_eq!(s.get_coord(), c(4, 2));
}
