use crossterm::style::Color;
use graphic_cli::canvas::Canvas;
use graphic_cli::cell::{Cell, Glyph};
use graphic_cli::claim::TerminalClaim;
use graphic_cli::error::ErrorKind;
use graphic_cli::frame::{Frame, PxScale};

fn frame(cols: u16, rows: u16, scale: PxScale) -> Frame {
    Frame { cols, rows, scale }
}

fn full(c: Color) -> Cell {
    Cell { glyph: Glyph::Full, fg: Some(c), bg: None }
}

#[test]
fn second_canvas_is_refused_until_the_first_is_closed() {
    let mut claim = TerminalClaim::new();
    let first = Canvas::new(&mut claim, frame(4, 4, PxScale::Whole)).unwrap();
    assert!(claim.held());
    let second = Canvas::new(&mut claim, frame(4, 4, PxScale::Whole));
    assert!(matches!(second, Err(ErrorKind::AlreadyExists)));
    first.close(&mut claim);
    assert!(!claim.held());
    let third = Canvas::new(&mut claim, frame(4, 4, PxScale::Whole));
    assert!(third.is_ok());
}

#[test]
fn new_canvas_redraws_everything_once() {
    let mut claim = TerminalClaim::new();
    let mut canvas = Canvas::new(&mut claim, frame(3, 2, PxScale::Whole)).unwrap();
    assert_eq!(canvas.layer_count(), 0);
    assert!((0..6).all(|i| canvas.is_dirty(i)));
    let mut writes = canvas.update();
    writes.sort_by_key(|w| w.index);
    assert_eq!(writes.len(), 6);
    for (i, w) in writes.iter().enumerate() {
        assert_eq!(w.index, i);
        assert_eq!((w.col as usize, w.row as usize), (i % 3, i / 3));
        assert_eq!(w.cell, Cell::transparent());
    }
    assert!((0..6).all(|i| !canvas.is_dirty(i)));
    assert!(canvas.update().is_empty());
}

#[test]
fn dirty_set_after_update_is_exactly_the_plotted_cells() {
    let mut claim = TerminalClaim::new();
    let mut canvas = Canvas::new(&mut claim, frame(5, 5, PxScale::HalfWidth)).unwrap();
    let l = canvas.new_layer();
    canvas.update();
    canvas.plot(l, (0, 0), Color::Red).unwrap();
    canvas.plot(l, (1, 0), Color::Red).unwrap();
    canvas.plot(l, (9, 4), Color::Red).unwrap();
    assert!(canvas.plot(l, (10, 4), Color::Red).is_err());
    let dirty: Vec<usize> = (0..25).filter(|&i| canvas.is_dirty(i)).collect();
    assert_eq!(dirty, vec![0, 24]);
    let writes = canvas.update();
    assert_eq!(writes.len(), 2);
    assert!((0..25).all(|i| !canvas.is_dirty(i)));
}

#[test]
fn scenario_top_half_over_blue_layer() {
    let mut claim = TerminalClaim::new();
    let mut canvas = Canvas::new(&mut claim, frame(10, 10, PxScale::HalfHeight)).unwrap();
    assert_eq!(canvas.resolution(), (10, 20));
    let bottom = canvas.new_layer();
    let top = canvas.new_layer();
    canvas.fill_rect(bottom, 0, 0, 10, 20, Color::Blue).unwrap();
    canvas.plot(top, (3, 2), Color::Red).unwrap();
    let writes = canvas.update();
    assert_eq!(writes.len(), 100);
    for w in writes {
        if w.index == 13 {
            assert_eq!((w.col, w.row), (3, 1));
            assert_eq!(
                w.cell,
                Cell { glyph: Glyph::TopHalf, fg: Some(Color::Red), bg: Some(Color::Blue) }
            );
        } else {
            // both halves of every other cell show the blue of the layer below
            assert_eq!(
                w.cell,
                Cell { glyph: Glyph::TopHalf, fg: Some(Color::Blue), bg: Some(Color::Blue) }
            );
        }
    }
}

#[test]
fn scenario_point_three_three_lands_in_the_lower_half() {
    let mut claim = TerminalClaim::new();
    let mut canvas = Canvas::new(&mut claim, frame(10, 10, PxScale::HalfHeight)).unwrap();
    let bottom = canvas.new_layer();
    let top = canvas.new_layer();
    canvas.fill_rect(bottom, 0, 0, 10, 20, Color::Blue).unwrap();
    canvas.update();
    canvas.plot(top, (3, 3), Color::Red).unwrap();
    let writes = canvas.update();
    assert_eq!(writes.len(), 1);
    assert_eq!(writes[0].index, 13);
    // the top half keeps the blue below, the bottom half shows red
    assert_eq!(
        writes[0].cell,
        Cell { glyph: Glyph::TopHalf, fg: Some(Color::Blue), bg: Some(Color::Red) }
    );
}

#[test]
fn compositing_stops_at_the_first_opaque_layer() {
    let mut claim = TerminalClaim::new();
    let mut canvas = Canvas::new(&mut claim, frame(2, 1, PxScale::Whole)).unwrap();
    let a = canvas.new_layer();
    let b = canvas.new_layer();
    let c = canvas.new_layer();
    canvas.plot(a, (0, 0), Color::Green).unwrap();
    canvas.plot(b, (0, 0), Color::Red).unwrap();
    canvas.plot(c, (1, 0), Color::Yellow).unwrap();
    assert_eq!(canvas.composite_at(0), full(Color::Red));
    assert_eq!(canvas.composite_at(1), full(Color::Yellow));
}

#[test]
fn layer_inserted_below_shows_through() {
    let mut claim = TerminalClaim::new();
    let mut canvas = Canvas::new(&mut claim, frame(1, 1, PxScale::HalfWidth)).unwrap();
    let top = canvas.new_layer();
    canvas.plot(top, (0, 0), Color::Red).unwrap();
    canvas.new_layer_at(0);
    assert_eq!(canvas.layer_count(), 2);
    canvas.fill_rect(0, 0, 0, 2, 1, Color::Blue).unwrap();
    assert_eq!(
        canvas.cell(0, 0),
        Cell { glyph: Glyph::LeftHalf, fg: Some(Color::Blue), bg: Some(Color::Blue) }
    );
    assert_eq!(
        canvas.composite_at(0),
        Cell { glyph: Glyph::LeftHalf, fg: Some(Color::Red), bg: Some(Color::Blue) }
    );
}

#[test]
fn line_on_canvas() {
    let mut claim = TerminalClaim::new();
    let mut canvas = Canvas::new(&mut claim, frame(4, 4, PxScale::Whole)).unwrap();
    let l = canvas.new_layer();
    canvas.update();
    canvas.line(l, (0, 0), (3, 3), Color::Red).unwrap();
    let dirty: Vec<usize> = (0..16).filter(|&i| canvas.is_dirty(i)).collect();
    assert_eq!(dirty, vec![0, 5, 10, 15]);
    let img = bmp::Image::new(1, 1);
    assert!(canvas.draw_img(l, 3, 3, &img).is_ok());
    assert!(matches!(canvas.draw_img(l, 4, 3, &img), Err(ErrorKind::OutOfBounds(4, 3))));
}
