use cdl_maze::maze::cell::{is_odd, CellCoord, HexCell, SquareCell};
use cdl_maze::maze::common::{Direction, CELL_ACTIVE_COLOR, MARGIN};
use cdl_maze::maze::djikstra::Djikstra;
use cdl_maze::maze::grid::hex_grid::{HexCell as GridHexCell, HexGrid};
use cdl_maze::maze::grid::types::{Cell, CellCoord as GridCoord};
use cdl_maze::maze::growing_tree::{GrowingTreeGenerator, Strategy};
use cdl_maze::maze::maze::{HexGrid as PlainHexGrid, SquareGrid2D};
use cdl_maze::maze_maker::grids::Direction as HexDirection;

fn c(x: i32, y: i32) -> CellCoord {
    CellCoord::new(x, y)
}

fn g(x: i32, y: i32) -> GridCoord {
    GridCoord::new(x, y)
}

fn same(a: CellCoord, b: CellCoord) -> bool {
    a.x_pos == b.x_pos && a.y_pos == b.y_pos
}

fn same_g(a: GridCoord, b: GridCoord) -> bool {
    a.x_pos == b.x_pos && a.y_pos == b.y_pos
}

#[test]
fn odd_numbers() {
    assert_eq!(is_odd(3), true);
    assert_eq!(is_odd(-3), true);
    assert_eq!(is_odd(4), false);
    assert_eq!(is_odd(0), false);
    assert_eq!(MARGIN, 10);
    assert_eq!(CELL_ACTIVE_COLOR, 0xffffff00);
}

#[test]
fn cells_start_walled() {
    let s = SquareCell::default(2, 3);
    assert_eq!(s.get_neighbours().len(), 0);
    assert_eq!(s.distance, -1);
    let mut h = HexCell::default(2, 3);
    assert_eq!(h.get_neighbours().len(), 0);
    h.south_east = Some(c(1, 2));
    h.north = Some(c(2, 4));
    let n = h.get_neighbours();
    assert_eq!(n.len(), 2);
    assert_eq!(same(n[0], c(2, 4)) && same(n[1], c(1, 2)), true);
}

#[test]
fn square_grid_carves_and_checks() {
    let mut grid = SquareGrid2D::new(3, 2, 10, 10, 1);
    assert_eq!(grid.can_carve(c(0, 0), Direction::North), true);
    assert_eq!(grid.can_carve(c(0, 0), Direction::South), false);
    assert_eq!(same(grid.get_cell_in_dir(c(0, 0), Direction::West), c(-1, 0)), true);
    grid.carve(c(0, 0), Direction::North);
    assert_eq!(grid.can_carve(c(1, 1), Direction::West), false);
    let a = grid.get_cell(c(0, 0)).unwrap();
    assert_eq!(same(a.top.unwrap(), c(0, 1)), true);
    let b = grid.get_cell(c(0, 1)).unwrap();
    assert_eq!(same(b.bottom.unwrap(), c(0, 0)), true);
    assert_eq!(grid.get_allowed_directions(c(1, 0)), vec![Direction::North, Direction::East]);
}

#[test]
fn distances_follow_the_passages() {
    let mut grid = SquareGrid2D::new(3, 2, 10, 10, 1);
    grid.carve(c(0, 0), Direction::East);
    grid.carve(c(1, 0), Direction::East);
    grid.carve(c(2, 0), Direction::North);
    grid.reset_cell_dist();
    let mut d = Djikstra::new();
    d.run(c(0, 0), &mut grid);
    assert_eq!(grid.get_cell(c(0, 0)).unwrap().distance, 0);
    assert_eq!(grid.get_cell(c(1, 0)).unwrap().distance, 1);
    assert_eq!(grid.get_cell(c(2, 0)).unwrap().distance, 2);
    assert_eq!(grid.get_cell(c(2, 1)).unwrap().distance, 3);
    assert_eq!(grid.get_cell(c(0, 1)).unwrap().distance, -1);
    assert_eq!(grid.get_cell(c(1, 1)).unwrap().distance, -1);
}

#[test]
fn distances_from_the_other_end() {
    let mut grid = SquareGrid2D::new(2, 1, 10, 10, 1);
    grid.carve(c(0, 0), Direction::East);
    grid.reset_cell_dist();
    let mut d = Djikstra::new();
    d.run(c(1, 0), &mut grid);
    assert_eq!(grid.get_cell(c(0, 0)).unwrap().distance, 1);
    assert_eq!(grid.get_cell(c(1, 0)).unwrap().distance, 0);
}

#[test]
fn plain_hex_grid_has_its_cells() {
    let h = PlainHexGrid::new(4, 3, 10);
    assert_eq!(h.width, 4);
    assert_eq!(h.height, 3);
}

#[test]
fn hex_steps() {
    let grid = HexGrid::new(4, 4, 10);
    assert_eq!(same_g(grid.get_cell_in_dir(g(1, 1), HexDirection::North).unwrap(), g(1, 2)), true);
    assert_eq!(same_g(grid.get_cell_in_dir(g(1, 1), HexDirection::NorthEast).unwrap(), g(2, 2)), true);
    assert_eq!(same_g(grid.get_cell_in_dir(g(2, 1), HexDirection::NorthEast).unwrap(), g(3, 1)), true);
    assert_eq!(same_g(grid.get_cell_in_dir(g(2, 1), HexDirection::SouthWest).unwrap(), g(1, 0)), true);
    // south-east moves west, like south-west
    assert_eq!(same_g(grid.get_cell_in_dir(g(2, 1), HexDirection::SouthEast).unwrap(), g(1, 0)), true);
    assert_eq!(grid.get_cell_in_dir(g(0, 0), HexDirection::South).is_none(), true);
    assert_eq!(same_g(grid.get_cell_in_dir(g(1, 1), HexDirection::East).unwrap(), g(1, 1)), true);
}

#[test]
fn hex_carve_links_both_cells() {
    let mut grid = HexGrid::new(4, 4, 10);
    grid.carve(g(1, 1), HexDirection::NorthEast);
    let a = grid.get_cell(g(1, 1)).unwrap();
    let b = grid.get_cell(g(2, 2)).unwrap();
    assert_eq!(a.is_part_of_maze() && b.is_part_of_maze(), true);
    assert_eq!(same_g(a.get_neighbours()[0], g(2, 2)), true);
    assert_eq!(same_g(b.get_neighbours()[0], g(1, 1)), true);
    assert_eq!(grid.can_carve(g(2, 1), HexDirection::North), false);
    assert_eq!(grid.can_carve(g(1, 2), HexDirection::SouthEast), true);
    assert_eq!(grid.get_allowed_directions(g(0, 0)).len(), 2);
}

#[test]
fn hex_cell_accessors() {
    let mut cell = GridHexCell::default(1, 2);
    assert_eq!(same_g(cell.get_coord(), g(1, 2)), true);
    cell.set_distance(4);
    cell.set_color(Some(7));
    cell.set_part_of_maze(true);
    assert_eq!(cell.get_distance(), 4);
    assert_eq!(cell.is_part_of_maze(), true);
}

#[test]
fn hex_init_opens_the_grid() {
    let mut grid = HexGrid::new(4, 3, 10);
    grid.init();
    let entrance = grid.get_cell(g(2, 0)).unwrap().get_neighbours();
    assert_eq!(same_g(entrance[0], g(-1, -1)), true);
    let exit = grid.get_cell(g(2, 2)).unwrap().get_neighbours();
    assert_eq!(same_g(exit[0], g(-1, -1)), true);
    assert_eq!(grid.get_width(), 4);
    let cell = grid.get_cell(g(2, 0)).unwrap();
    assert_eq!(same_g(cell.link(HexDirection::South).unwrap(), g(-1, -1)), true);
    assert_eq!(cell.link(HexDirection::North).is_none(), true);
    assert_eq!(cell.link(HexDirection::East).is_none(), true);
    assert_eq!(cell.color(), None);
}

fn all_carved(strategy: Strategy) -> bool {
    let mut grid = HexGrid::new(5, 4, 10);
    let mut gen = GrowingTreeGenerator::new(strategy);
    assert_eq!(gen.name(), "Growing Tree");
    gen.init(&mut grid);
    gen.generate(&mut grid);
    assert_eq!(gen.done(), true);
    let mut all = true;
    for y in 0..4 {
        for x in 0..5 {
            all = all && grid.get_cell(g(x, y)).unwrap().is_part_of_maze();
        }
    }
    all
}

#[test]
fn growing_tree_carves_every_cell() {
    assert_eq!(all_carved(Strategy::Last), true);
    assert_eq!(all_carved(Strategy::First), true);
    assert_eq!(all_carved(Strategy::Random), true);
    assert_eq!(all_carved(Strategy::FirstN(3)), true);
    assert_eq!(all_carved(Strategy::LastN(3)), true);
    assert_eq!(all_carved(Strategy::LastAndRandom(4)), true);
}

#[test]
fn growing_tree_step_on_empty_stack_finishes() {
    let mut grid = HexGrid::new(2, 2, 10);
    let mut gen = GrowingTreeGenerator::new(Strategy::Last);
    assert_eq!(gen.done(), false);
    gen.generate_step(&mut grid);
    assert_eq!(gen.done(), true);
}

#[test]
fn one_row_grid_is_not_carved_past_an_odd_start() {
    let mut grid = HexGrid::new(6, 1, 10);
    let mut gen = GrowingTreeGenerator::new(Strategy::Last);
    gen.init(&mut grid);
    gen.generate(&mut grid);
    assert_eq!(grid.get_cell(g(3, 0)).unwrap().is_part_of_maze(), true);
    assert_eq!(grid.get_cell(g(2, 0)).unwrap().is_part_of_maze(), true);
    assert_eq!(grid.get_cell(g(4, 0)).unwrap().is_part_of_maze(), false);
    assert_eq!(grid.get_cell(g(5, 0)).unwrap().is_part_of_maze(), false);
}

#[test]
fn checked_run_refuses_a_start_off_the_grid() {
    let mut grid = SquareGrid2D::new(3, 2, 10, 10, 1);
    grid.carve(c(0, 0), Direction::East);
    grid.reset_cell_dist();
    let mut d = Djikstra::new();
    assert_eq!(d.run_checked(c(7, 7), &mut grid), false);
    assert_eq!(grid.get_cell(c(0, 0)).unwrap().distance, -1);
    let mut d = Djikstra::new();
    assert_eq!(d.run_checked(c(1, 0), &mut grid), true);
    assert_eq!(grid.get_cell(c(1, 0)).unwrap().distance, 0);
    assert_eq!(grid.get_cell(c(0, 0)).unwrap().distance, 1);
    assert_eq!(grid.get_cell(c(2, 1)).unwrap().distance, -1);
}

#[test]
fn a_second_run_sets_only_the_start_its_links_and_unset_cells() {
    let mut grid = SquareGrid2D::new(3, 1, 10, 10, 1);
    grid.carve(c(0, 0), Direction::East);
    grid.carve(c(1, 0), Direction::East);
    grid.reset_cell_dist();
    let mut d = Djikstra::new();
    d.run(c(0, 0), &mut grid);
    let mut d = Djikstra::new();
    d.run(c(2, 0), &mut grid);
    assert_eq!(grid.get_cell(c(2, 0)).unwrap().distance, 0);
    assert_eq!(grid.get_cell(c(1, 0)).unwrap().distance, 1);
    // already set and not linked to the start: kept
    assert_eq!(grid.get_cell(c(0, 0)).unwrap().distance, 0);
}

#[test]
fn a_step_with_given_draws_carves_the_picked_passage() {
    let mut grid = HexGrid::new(4, 4, 10);
    let mut gen = GrowingTreeGenerator::new(Strategy::Last);
    gen.init(&mut grid);
    let count = |grid: &HexGrid| {
        let mut n = 0;
        for y in 0..4 {
            for x in 0..4 {
                if grid.get_cell(g(x, y)).unwrap().is_part_of_maze() {
                    n += 1;
                }
            }
        }
        n
    };
    let before = count(&grid);
    gen.step_at(&mut grid, 0, 0);
    assert_eq!(count(&grid), before + 1);
    assert_eq!(gen.done(), false);
}
