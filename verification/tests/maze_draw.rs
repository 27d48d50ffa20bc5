use cdl_maze::maze::canvas::{Canvas, BACKGROUND_COLOR, FOREGROUND_COLOR};
use cdl_maze::maze::cell::{CellCoord, DrawOp, SquareCell};

fn canvas(width: i32, height: i32) -> Canvas {
    let mut c = Canvas { width, height, offset: 0, buffer: vec![] };
    c.clear();
    c
}

#[test]
fn walled_cell_draws_four_walls() {
    let s = SquareCell::default(1, 2);
    assert_eq!(s.draw_background(0, 10, 10), vec![]);
    assert_eq!(
        s.draw(0, 10, 10),
        vec![
            DrawOp::Color(0),
            DrawOp::Line(10, 30, 20, 30),
            DrawOp::Line(10, 20, 20, 20),
            DrawOp::Line(10, 20, 10, 30),
            DrawOp::Line(20, 20, 20, 30),
        ]
    );
}

#[test]
fn distance_shades_the_background() {
    let mut s = SquareCell::default(0, 0);
    s.top = Some(CellCoord::new(0, 1));
    s.distance = 5;
    let background = vec![DrawOp::Color(0x020201), DrawOp::Fill(2, 2, 6, 6), DrawOp::Fill(2, 8, 6, 2)];
    assert_eq!(s.draw_background(2, 10, 10), background);
    let mut all = background.clone();
    all.extend(vec![
        DrawOp::Color(0),
        DrawOp::Line(2, 2, 8, 2),
        DrawOp::Line(2, 2, 2, 8),
        DrawOp::Line(8, 2, 8, 8),
        DrawOp::Line(2, 10, 2, 8),
        DrawOp::Line(8, 10, 8, 8),
    ]);
    assert_eq!(s.draw(2, 10, 10), all);
}

#[test]
fn colour_is_used_without_a_distance() {
    let mut s = SquareCell::default(0, 0);
    s.color = Some(0x123456);
    assert_eq!(s.draw_background(0, 4, 4), vec![DrawOp::Color(0x123456), DrawOp::Fill(0, 0, 4, 4)]);
    s.distance = 768;
    assert_eq!(s.draw_background(0, 4, 4), vec![DrawOp::Color(0), DrawOp::Fill(0, 0, 4, 4)]);
}

#[test]
fn clear_fills_the_background() {
    let c = canvas(30, 30);
    assert_eq!(c.buffer.len(), 31 * 31);
    assert!(c.buffer.iter().all(|p| *p == BACKGROUND_COLOR));
}

#[test]
fn horizontal_line_paints_its_row() {
    let mut c = canvas(30, 30);
    c.draw_horizontal_line(5, 5, 0, 5);
    for k in 430..435 {
        assert_eq!(c.buffer[k], FOREGROUND_COLOR);
    }
    assert_eq!(c.buffer[429], BACKGROUND_COLOR);
    assert_eq!(c.buffer[435], BACKGROUND_COLOR);
    assert_eq!(c.buffer.iter().filter(|p| **p == FOREGROUND_COLOR).count(), 5);
}

#[test]
fn vertical_line_paints_upwards() {
    let mut c = canvas(30, 30);
    c.draw_vertical_line(3, 6, 3, 2);
    for k in [523, 493, 463, 433] {
        assert_eq!(c.buffer[k], FOREGROUND_COLOR);
    }
    assert_eq!(c.buffer[553], BACKGROUND_COLOR);
    assert_eq!(c.buffer.iter().filter(|p| **p == FOREGROUND_COLOR).count(), 4);
}

#[test]
fn offset_shifts_lines_down() {
    let mut c = canvas(30, 30);
    c.set_offset(2);
    assert_eq!(c.offset, 2);
    c.draw_horizontal_line(0, 5, 5, 5);
    for k in 370..375 {
        assert_eq!(c.buffer[k], FOREGROUND_COLOR);
    }
    assert_eq!(c.buffer[430], BACKGROUND_COLOR);
}

#[test]
fn fill_square_paints_a_rectangle() {
    let mut c = canvas(30, 30);
    c.fill_square(1, 1, 2, 2, 7);
    for k in [551, 552, 521, 522] {
        assert_eq!(c.buffer[k], 7);
    }
    assert_eq!(c.buffer.iter().filter(|p| **p == 7).count(), 4);
    c.fill_square(1, 1, 0, 3, 9);
    assert_eq!(c.buffer.iter().filter(|p| **p == 9).count(), 0);
}
