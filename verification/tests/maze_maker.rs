use cdl_maze::maze_maker::grids::cell_connection::{CellConnection, CellConnectionStatus};
use cdl_maze::maze_maker::grids::square_cell::SquareCell;
use cdl_maze::maze_maker::grids::square_grid::SquareGrid2D;
use cdl_maze::maze_maker::grids::tri_cell::TriangleCell;
use cdl_maze::maze_maker::grids::{Cell, CellCoord, Color, Direction, GridType};

fn c(x: i32, y: i32) -> CellCoord {
    CellCoord::new(x, y)
}

#[test]
fn connection_starts_walled() {
    let conn = CellConnection::new(c(0, 0), c(0, 1));
    assert_eq!(conn.is_wall(), true);
    assert_eq!(conn.is_open(), false);
    assert_eq!(conn.cell_1, c(0, 0));
    assert_eq!(conn.cell_2, c(0, 1));
    assert_eq!(CellConnectionStatus::Open.is_open(), true);
    assert_eq!(CellConnectionStatus::Open.is_wall(), false);
    assert_eq!(CellConnectionStatus::Wall.is_wall(), true);
}

#[test]
fn coords_and_kinds() {
    let p = CellCoord::new(3, -4);
    assert_eq!(p.x_pos, 3);
    assert_eq!(p.y_pos, -4);
    assert_eq!(GridType::Hex == GridType::Hex, true);
    assert_eq!(Direction::North == Direction::South, false);
}

#[test]
fn square_cell_neighbours_in_order() {
    let mut cell = SquareCell::default(1, 1);
    assert_eq!(cell.get_neighbours().len(), 0);
    assert_eq!(cell.get_distance(), -1);
    assert_eq!(cell.is_part_of_maze(), false);
    cell.right = Some(c(2, 1));
    cell.top = Some(c(1, 2));
    assert_eq!(cell.get_neighbours(), vec![c(1, 2), c(2, 1)]);
    cell.set_distance(7);
    cell.set_part_of_maze(true);
    cell.set_color(Some(Color { r: 1, g: 2, b: 3, a: 4 }));
    assert_eq!(cell.get_distance(), 7);
    assert_eq!(cell.is_part_of_maze(), true);
    assert_eq!(cell.color, Some(Color { r: 1, g: 2, b: 3, a: 4 }));
    assert_eq!(cell.get_coord(), c(1, 1));
}

#[test]
fn triangle_cell_neighbours_in_order() {
    let mut cell = TriangleCell::default(0, 0);
    cell.left = Some(c(-1, 0));
    cell.bottom = Some(c(0, -1));
    assert_eq!(cell.get_neighbours(), vec![c(0, -1), c(-1, 0)]);
}

#[test]
fn grid_stores_cells_row_by_row() {
    let grid = SquareGrid2D::new(3, 2, 10, 1, 5);
    assert_eq!(grid.get_cell(c(2, 1)).unwrap().coord, c(2, 1));
    // one past the end of a row is the start of the next
    assert_eq!(grid.get_cell(c(3, 0)).unwrap().coord, c(0, 1));
    assert_eq!(grid.get_cell(c(0, 2)).is_none(), true);
    assert_eq!(grid.get_cell(c(-1, 0)).is_none(), true);
    assert_eq!(grid.get_size_in_pixels(), (30, 20));
    assert_eq!(grid.get_num_cells_horizontal(), 3);
    assert_eq!(grid.get_num_cells_vertical(), 2);
    assert_eq!(grid.get_cell_size(), 10);
    assert_eq!(grid.get_margin(), 5);
    assert_eq!(grid.get_entrance(), c(-1, -1));
    assert_eq!(grid.has_solution(), false);
}

#[test]
fn neighbour_positions() {
    let grid = SquareGrid2D::new(3, 2, 10, 1, 5);
    assert_eq!(grid.get_cell_in_dir(c(0, 0), Direction::North), Some(c(0, 1)));
    assert_eq!(grid.get_cell_in_dir(c(0, 0), Direction::South), None);
    assert_eq!(grid.get_cell_in_dir(c(0, 0), Direction::East), Some(c(1, 0)));
    assert_eq!(grid.get_cell_in_dir(c(0, 0), Direction::West), None);
    assert_eq!(grid.get_cell_in_dir(c(2, 1), Direction::East), None);
    assert_eq!(grid.get_cell_in_dir(c(1, 1), Direction::NorthEast), Some(c(1, 1)));
    assert_eq!(grid.get_allowed_directions(c(1, 0)), vec![Direction::North, Direction::East, Direction::West]);
}

#[test]
fn carve_links_both_cells() {
    let mut grid = SquareGrid2D::new(3, 2, 10, 1, 5);
    grid.carve(c(0, 0), Direction::North);
    let a = grid.get_cell(c(0, 0)).unwrap();
    let b = grid.get_cell(c(0, 1)).unwrap();
    assert_eq!(a.top, Some(c(0, 1)));
    assert_eq!(b.bottom, Some(c(0, 0)));
    assert_eq!(a.part_of_maze && b.part_of_maze, true);
    assert_eq!(grid.can_carve(c(1, 1), Direction::West), false);
    assert_eq!(grid.can_carve(c(1, 1), Direction::East), true);
    assert_eq!(grid.get_allowed_directions(c(1, 0)), vec![Direction::North, Direction::East]);
}

#[test]
fn carve_outside_the_bounds_does_nothing() {
    let mut grid = SquareGrid2D::new(2, 2, 10, 1, 5);
    grid.carve(c(0, 0), Direction::South);
    assert_eq!(grid.get_cell(c(0, 0)).unwrap().part_of_maze, false);
    assert_eq!(grid.get_cell(c(0, 0)).unwrap().bottom, None);
}

#[test]
fn init_opens_entrance_and_exit() {
    let mut grid = SquareGrid2D::new(3, 4, 10, 1, 5);
    grid.init();
    assert_eq!(grid.get_entrance(), c(1, 0));
    assert_eq!(grid.get_exit(), c(1, 3));
    assert_eq!(grid.get_cell(c(1, 0)).unwrap().bottom, Some(c(-1, -1)));
    assert_eq!(grid.get_cell(c(1, 3)).unwrap().top, Some(c(-1, -1)));
}

#[test]
fn dead_ends_are_cells_with_one_link() {
    let mut grid = SquareGrid2D::new(3, 1, 10, 1, 5);
    grid.carve(c(0, 0), Direction::East);
    grid.carve(c(1, 0), Direction::East);
    grid.find_dead_ends();
    assert_eq!(grid.count_dead_ends(), 2);
    let walls = grid.kept_dead_end_walls(&vec![true, false]);
    assert_eq!(walls.len(), 1);
    assert_eq!(walls[0].0, c(0, 0));
    assert_eq!(walls[0].1, vec![Direction::North, Direction::South, Direction::West]);
}

#[test]
fn carving_picked_walls() {
    let mut grid = SquareGrid2D::new(2, 2, 10, 1, 5);
    grid.carve(c(0, 0), Direction::East);
    grid.find_dead_ends();
    let walls = grid.kept_dead_end_walls(&vec![true, true]);
    assert_eq!(walls.len(), 2);
    grid.carve_walls(&walls, &vec![0, 0]);
    assert_eq!(grid.get_cell(c(0, 0)).unwrap().top, Some(c(0, 1)));
    assert_eq!(grid.get_cell(c(1, 0)).unwrap().top, Some(c(1, 1)));
    assert_eq!(grid.get_cell(c(1, 1)).unwrap().bottom, Some(c(1, 0)));
}

#[test]
fn removing_dead_ends_only_opens_walls() {
    let mut grid = SquareGrid2D::new(4, 4, 10, 1, 5);
    for x in 0..3 {
        grid.carve(c(x, 0), Direction::East);
    }
    grid.find_dead_ends();
    assert_eq!(grid.count_dead_ends(), 2);
    for _ in 0..20 {
        grid.remove_dead_end();
    }
    for x in 0..3 {
        assert_eq!(grid.get_cell(c(x, 0)).unwrap().right, Some(c(x + 1, 0)));
    }
}

#[test]
fn clear_solution_forgets_colours_and_distances() {
    let mut grid = SquareGrid2D::new(2, 2, 10, 1, 5);
    grid.set_has_solution(true);
    assert_eq!(grid.has_solution(), true);
    grid.clear_solution();
    assert_eq!(grid.has_solution(), false);
    assert_eq!(grid.get_cell(c(1, 1)).unwrap().distance, -1);
    assert_eq!(grid.get_cell(c(1, 1)).unwrap().color, None);
    grid.reset_cell_dist();
    assert_eq!(grid.get_cell(c(0, 1)).unwrap().distance, -1);
}

#[test]
fn square_cells_draw_their_walls() {
    let mut s = SquareCell::default(1, 2);
    assert_eq!(
        s.draw(0, 10, 5),
        vec![((15, 35), (25, 35)), ((15, 25), (25, 25)), ((15, 25), (15, 35)), ((25, 25), (25, 35))]
    );
    s.top = Some(c(1, 3));
    s.right = Some(c(2, 2));
    assert_eq!(s.draw(3, 10, 5), vec![((15, 25), (25, 25)), ((15, 25), (15, 35))]);
    assert_eq!(s.draw_background(10, 20, 5), None);
    let red = Color { r: 255, g: 0, b: 0, a: 255 };
    s.color = Some(red);
    assert_eq!(s.draw_background(10, 20, 5), Some(((15, 45), (25, 65), red)));
}

#[test]
fn square_grid_draws_every_cell() {
    let mut grid = SquareGrid2D::new(2, 1, 10, 0, 5);
    assert_eq!(grid.draw().len(), 8);
    grid.carve(c(0, 0), Direction::East);
    assert_eq!(
        grid.draw(),
        vec![
            ((5, 15), (15, 15)),
            ((5, 5), (15, 5)),
            ((5, 5), (5, 15)),
            ((15, 15), (25, 15)),
            ((15, 5), (25, 5)),
            ((25, 5), (25, 15)),
        ]
    );
    assert_eq!(grid.draw_background(), vec![]);
}

#[test]
fn triangle_orientation_and_walls() {
    let mut t = TriangleCell::default(1, 2);
    assert_eq!(t.points_up(), false);
    assert_eq!(TriangleCell::default(2, 2).points_up(), true);
    assert_eq!(t.drawn_walls(), (true, true, true));
    t.top = Some(c(1, 3));
    t.left = Some(c(0, 2));
    assert_eq!(t.drawn_walls(), (false, true, false));
}
