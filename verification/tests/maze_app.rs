use cdl_maze::maze::app_state::{AppState, HEIGHT, WIDTH};
use cdl_maze::maze::grid::types::{Cell, CellCoord};

#[test]
fn new_state_has_the_default_settings() {
    let s = AppState::new();
    assert_eq!(s.generate_steps, 10);
    assert_eq!(s.cell_inset, 0);
    assert_eq!(s.show_dist, false);
    assert_eq!(s.difficulty, 10);
    assert_eq!((s.num_cells_width, s.num_cells_height), (10, 10));
    assert_eq!((s.cell_width, s.cell_height), (20, 20));
    assert_eq!((s.grid.width, s.grid.height, s.grid.cell_size), (10, 10, 20));
    assert_eq!(s.generator.done(), false);
    assert_eq!((WIDTH, HEIGHT), (1000, 1000));
}

#[test]
fn title_names_the_generator_and_settings() {
    let mut s = AppState::new();
    assert_eq!(s.get_title(), "Maze type: Growing Tree -- Difficulty: 10 -- Generation speed: 10 ");
    s.generate_steps = -3;
    s.difficulty = 123;
    assert_eq!(s.get_title(), "Maze type: Growing Tree -- Difficulty: 123 -- Generation speed: -3 ");
}

#[test]
fn speed_is_kept_between_one_and_a_hundred() {
    let mut s = AppState::new();
    s.generate_faster();
    assert_eq!(s.generate_steps, 11);
    s.generate_slower();
    s.generate_slower();
    assert_eq!(s.generate_steps, 9);
    s.generate_steps = 1;
    s.generate_slower();
    assert_eq!(s.generate_steps, 1);
    s.generate_steps = 100;
    s.generate_faster();
    assert_eq!(s.generate_steps, 100);
    s.toggle_show_distance();
    assert_eq!(s.show_dist, true);
    s.toggle_show_distance();
    assert_eq!(s.show_dist, false);
}

#[test]
fn maze_size_adds_the_margins() {
    let s = AppState::new();
    assert_eq!(s.get_maze_size(17), (420, 190));
}

#[test]
fn cell_size_changes_within_bounds() {
    let mut s = AppState::new();
    s.cell_size_smaller();
    assert_eq!((s.cell_width, s.cell_height, s.grid.cell_size), (19, 19, 19));
    s.cell_size_larger(17);
    assert_eq!((s.cell_width, s.cell_height, s.grid.cell_size), (20, 20, 20));
    s.cell_size_larger(200);
    assert_eq!((s.cell_width, s.cell_height, s.grid.cell_size), (20, 20, 20));
    s.cell_width = 5;
    s.cell_height = 9;
    s.cell_size_smaller();
    assert_eq!((s.cell_width, s.cell_height, s.grid.cell_size), (5, 5, 5));
}

#[test]
fn rows_and_columns_change_by_two() {
    let mut s = AppState::new();
    s.num_cell_height_inc(17);
    assert_eq!(s.num_cells_height, 12);
    assert_eq!((s.grid.width, s.grid.height), (10, 12));
    s.num_cell_height_inc(100);
    assert_eq!(s.num_cells_height, 12);
    s.num_cell_width_inc(17);
    assert_eq!(s.num_cells_width, 12);
    s.cell_width = 60;
    s.num_cell_width_inc(17);
    assert_eq!(s.num_cells_width, 14);
    s.num_cell_width_inc(17);
    assert_eq!(s.num_cells_width, 14);
    assert_eq!(s.grid.cell_size, 60);
    s.num_cell_width_dec();
    assert_eq!(s.num_cells_width, 12);
    s.num_cells_height = 2;
    s.num_cell_height_dec();
    assert_eq!(s.num_cells_height, 2);
    s.num_cells_height = 3;
    s.num_cell_height_dec();
    assert_eq!(s.num_cells_height, 1);
    s.num_cells_width = 1;
    s.num_cell_width_dec();
    assert_eq!(s.num_cells_width, 2);
    assert_eq!((s.grid.width, s.grid.height), (2, 1));
}

#[test]
fn difficulty_starts_a_new_maze() {
    let mut s = AppState::new();
    s.difficulty_harder();
    assert_eq!(s.difficulty, 9);
    s.difficulty = 1;
    s.difficulty_harder();
    assert_eq!(s.difficulty, 1);
    s.difficulty_easier();
    assert_eq!(s.difficulty, 2);
    let entrance = s.grid.get_cell(CellCoord::new(5, 0)).unwrap();
    assert_eq!(entrance.is_part_of_maze(), true);
    let other = s.grid.get_cell(CellCoord::new(4, 0)).unwrap();
    assert_eq!(other.is_part_of_maze(), false);
    assert_eq!(s.generator.done(), false);
}

#[test]
fn generating_carves_the_whole_maze() {
    let mut s = AppState::new();
    s.generate_maze();
    assert_eq!(s.generator.done(), true);
    s.generate_new_maze();
    let mut rounds = 0;
    while !s.generator.done() && rounds < 1000 {
        s.generate_maze();
        rounds += 1;
    }
    assert_eq!(s.generator.done(), true);
    for y in 0..10 {
        for x in 0..10 {
            assert_eq!(s.grid.get_cell(CellCoord::new(x, y)).unwrap().is_part_of_maze(), true);
        }
    }
}

#[test]
fn inset_is_kept_between_zero_and_a_quarter_of_the_cell_width() {
    let mut s = AppState::new();
    s.inset_smaller();
    assert_eq!(s.cell_inset, 0);
    for _ in 0..7 {
        s.inset_larger();
    }
    assert_eq!(s.cell_inset, 5);
    s.inset_smaller();
    assert_eq!(s.cell_inset, 4);
    assert_eq!(s.cell_width, 20);
}

#[test]
fn distances_spread_over_a_finished_hex_maze() {
    let mut s = AppState::new();
    s.generate_new_maze();
    while !s.generator.done() {
        s.generate_maze();
    }
    let start = CellCoord::new(2, 3);
    assert_eq!(s.show_distances_from(start), true);
    assert_eq!(s.grid.get_cell(start).unwrap().get_distance(), 0);
    // the cells the start is linked to are one step away
    for n in s.grid.get_cell(start).unwrap().get_neighbours() {
        if n.x_pos != -1 && n.y_pos != -1 {
            assert_eq!(s.grid.get_cell(n).unwrap().get_distance(), 1);
        }
    }
    for y in 0..s.grid.height {
        for x in 0..s.grid.width {
            let cell = s.grid.get_cell(CellCoord::new(x, y)).unwrap();
            let d = cell.get_distance();
            if d == -1 || (x == 2 && y == 3) {
                continue;
            }
            // a reached cell is linked to from a cell one step nearer the start
            // (a carve that overwrites a link can leave links one-way here)
            let mut nearer = false;
            for qy in 0..s.grid.height {
                for qx in 0..s.grid.width {
                    let q = s.grid.get_cell(CellCoord::new(qx, qy)).unwrap();
                    let links_here = q.get_neighbours().iter().any(|n| n.x_pos == x && n.y_pos == y);
                    if links_here && q.get_distance() == d - 1 {
                        nearer = true;
                    }
                }
            }
            assert!(nearer);
        }
    }
}

#[test]
fn distances_are_not_spread_from_outside_the_grid() {
    let mut s = AppState::new();
    s.generate_new_maze();
    assert_eq!(s.show_distances_from(CellCoord::new(50, 50)), false);
    for y in 0..s.grid.height {
        for x in 0..s.grid.width {
            assert_eq!(s.grid.get_cell(CellCoord::new(x, y)).unwrap().get_distance(), -1);
        }
    }
}
