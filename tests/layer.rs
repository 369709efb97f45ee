use crossterm::style::Color;
use graphic_cli::cell::{Cell, Glyph};
use graphic_cli::dirty::DirtySet;
use graphic_cli::error::ErrorKind;
use graphic_cli::frame::{Frame, PxScale};
use graphic_cli::layer::Layer;

fn setup(cols: u16, rows: u16, scale: PxScale) -> (Layer, DirtySet) {
    let frame = Frame { cols, rows, scale };
    let layer = Layer::new(frame);
    let mut changed = DirtySet::full(frame.cell_count());
    changed.clear();
    (layer, changed)
}

fn dirty(changed: &DirtySet, n: usize) -> Vec<usize> {
    (0..n).filter(|&i| changed.contains(i)).collect()
}

fn full(c: Color) -> Cell {
    Cell { glyph: Glyph::Full, fg: Some(c), bg: None }
}

#[test]
fn new_layer_is_transparent() {
    let (layer, _) = setup(4, 3, PxScale::Whole);
    assert_eq!(layer.size(), 12);
    for i in 0..12 {
        assert_eq!(layer.cell(i), Cell::transparent());
    }
}

#[test]
fn plot_accumulates_two_halves() {
    let (mut layer, mut changed) = setup(4, 3, PxScale::HalfHeight);
    layer.plot(&mut changed, (1, 2), Color::Red).unwrap();
    assert_eq!(layer.cell(5), Cell { glyph: Glyph::TopHalf, fg: Some(Color::Red), bg: None });
    layer.plot(&mut changed, (1, 3), Color::Green).unwrap();
    assert_eq!(
        layer.cell(5),
        Cell { glyph: Glyph::TopHalf, fg: Some(Color::Red), bg: Some(Color::Green) }
    );
    assert_eq!(dirty(&changed, 12), vec![5]);
}

#[test]
fn plot_out_of_bounds_is_refused_and_changes_nothing() {
    let (mut layer, mut changed) = setup(4, 3, PxScale::HalfHeight);
    let r = layer.plot(&mut changed, (4, 0), Color::Red);
    assert!(matches!(r, Err(ErrorKind::OutOfBounds(4, 0))));
    let r = layer.plot(&mut changed, (0, 6), Color::Red);
    assert!(matches!(r, Err(ErrorKind::OutOfBounds(0, 6))));
    let r = layer.plot(&mut changed, (u16::MAX, u16::MAX), Color::Red);
    assert!(matches!(r, Err(ErrorKind::OutOfBounds(65535, 65535))));
    for i in 0..12 {
        assert_eq!(layer.cell(i), Cell::transparent());
    }
    assert!(dirty(&changed, 12).is_empty());
}

#[test]
fn dirty_set_is_exactly_the_plotted_cells() {
    let (mut layer, mut changed) = setup(5, 5, PxScale::Whole);
    for p in [(0, 0), (4, 4), (2, 3), (0, 0), (9, 9)] {
        let _ = layer.plot(&mut changed, p, Color::Red);
    }
    assert_eq!(dirty(&changed, 25), vec![0, 17, 24]);
    changed.clear();
    assert!(dirty(&changed, 25).is_empty());
}

#[test]
fn line_includes_both_ends_and_is_connected() {
    let (mut layer, mut changed) = setup(20, 20, PxScale::Whole);
    layer.line(&mut changed, (2, 3), (11, 7), Color::Red).unwrap();
    let cells = dirty(&changed, 400);
    assert!(cells.contains(&(3 * 20 + 2)));
    assert!(cells.contains(&(7 * 20 + 11)));
    // one point per column from 2 to 11
    assert_eq!(cells.len(), 10);
    let mut pts: Vec<(usize, usize)> = cells.iter().map(|i| (i % 20, i / 20)).collect();
    pts.sort();
    for w in pts.windows(2) {
        assert_eq!(w[1].0, w[0].0 + 1);
        assert!(w[1].1 >= w[0].1 && w[1].1 - w[0].1 <= 1);
    }
}

#[test]
fn line_rounds_to_the_nearest_point() {
    let (mut layer, mut changed) = setup(10, 10, PxScale::Whole);
    // from (0, 0) to (4, 2): offsets 0, 0.5, 1, 1.5, 2 round to 0, 1, 1, 2, 2
    layer.line(&mut changed, (0, 0), (4, 2), Color::Red).unwrap();
    assert_eq!(dirty(&changed, 100), vec![0, 11, 12, 23, 24]);
}

#[test]
fn line_steep_and_backwards() {
    let (mut layer, mut changed) = setup(10, 10, PxScale::Whole);
    layer.line(&mut changed, (5, 9), (5, 0), Color::Red).unwrap();
    let expected: Vec<usize> = (0..10).map(|y| y * 10 + 5).collect();
    assert_eq!(dirty(&changed, 100), expected);
}

#[test]
fn line_with_equal_ends_is_one_point() {
    let (mut layer, mut changed) = setup(10, 10, PxScale::Whole);
    layer.line(&mut changed, (3, 3), (3, 3), Color::Red).unwrap();
    assert_eq!(dirty(&changed, 100), vec![33]);
    assert_eq!(layer.cell(33), full(Color::Red));
}

#[test]
fn line_with_an_end_off_the_surface_is_refused() {
    let (mut layer, mut changed) = setup(10, 10, PxScale::Whole);
    let r = layer.line(&mut changed, (0, 0), (10, 3), Color::Red);
    assert!(matches!(r, Err(ErrorKind::OutOfBounds(10, 3))));
    let r = layer.line(&mut changed, (12, 0), (10, 3), Color::Red);
    assert!(matches!(r, Err(ErrorKind::OutOfBounds(12, 0))));
    assert!(dirty(&changed, 100).is_empty());
}

#[test]
fn fill_rect_fills_every_point() {
    let (mut layer, mut changed) = setup(6, 4, PxScale::HalfHeight);
    layer.fill_rect(&mut changed, 1, 1, 3, 4, Color::Blue).unwrap();
    // rows 1..5 of points: cell row 0 gets only its bottom half, cell row 1
    // both halves, cell row 2 only its top half
    for col in 1..4 {
        assert_eq!(layer.cell(col).glyph, Glyph::BottomHalf);
        assert_eq!(
            layer.cell(6 + col),
            Cell { glyph: Glyph::TopHalf, fg: Some(Color::Blue), bg: Some(Color::Blue) }
        );
        assert_eq!(layer.cell(12 + col).glyph, Glyph::TopHalf);
    }
    assert_eq!(layer.cell(0), Cell::transparent());
    assert_eq!(dirty(&changed, 24), vec![1, 2, 3, 7, 8, 9, 13, 14, 15]);
}

#[test]
fn fill_rect_up_to_the_edge() {
    let (mut layer, mut changed) = setup(3, 2, PxScale::Whole);
    layer.fill_rect(&mut changed, 0, 0, 3, 2, Color::Red).unwrap();
    for i in 0..6 {
        assert_eq!(layer.cell(i), full(Color::Red));
    }
}

#[test]
fn fill_rect_reaching_off_the_surface_is_refused() {
    let (mut layer, mut changed) = setup(3, 2, PxScale::Whole);
    let r = layer.fill_rect(&mut changed, 1, 0, 3, 1, Color::Red);
    assert!(matches!(r, Err(ErrorKind::OutOfBounds(3, 0))));
    let r = layer.fill_rect(&mut changed, 0, 1, 1, 2, Color::Red);
    assert!(matches!(r, Err(ErrorKind::OutOfBounds(0, 2))));
    let r = layer.fill_rect(&mut changed, 5, 5, 1, 1, Color::Red);
    assert!(matches!(r, Err(ErrorKind::OutOfBounds(5, 5))));
    assert!(dirty(&changed, 6).is_empty());
    for i in 0..6 {
        assert_eq!(layer.cell(i), Cell::transparent());
    }
}

#[test]
fn empty_rect_draws_nothing() {
    let (mut layer, mut changed) = setup(3, 2, PxScale::Whole);
    layer.fill_rect(&mut changed, 1, 0, 0, 2, Color::Red).unwrap();
    layer.fill_rect(&mut changed, 3, 2, 0, 0, Color::Red).unwrap();
    assert!(dirty(&changed, 6).is_empty());
}

#[test]
fn empty_rect_off_the_surface_is_refused() {
    let (mut layer, mut changed) = setup(3, 2, PxScale::Whole);
    let r = layer.fill_rect(&mut changed, 9, 9, 0, 5, Color::Red);
    assert!(matches!(r, Err(ErrorKind::OutOfBounds(9, 9))));
    let r = layer.fill_rect(&mut changed, 4, 0, 0, 1, Color::Red);
    assert!(matches!(r, Err(ErrorKind::OutOfBounds(4, 0))));
    assert!(dirty(&changed, 6).is_empty());
}

#[test]
fn draw_img_plots_each_pixel_in_its_color() {
    let (mut layer, mut changed) = setup(4, 3, PxScale::Whole);
    let mut img = bmp::Image::new(2, 2);
    img.set_pixel(0, 0, bmp::Pixel::new(255, 0, 0));
    img.set_pixel(1, 0, bmp::Pixel::new(0, 0, 255));
    img.set_pixel(0, 1, bmp::Pixel::new(0, 255, 0));
    img.set_pixel(1, 1, bmp::Pixel::new(1, 2, 3));
    layer.draw_img(&mut changed, 1, 1, &img).unwrap();
    assert_eq!(layer.cell(5), full(Color::Rgb { r: 255, g: 0, b: 0 }));
    assert_eq!(layer.cell(6), full(Color::Rgb { r: 0, g: 0, b: 255 }));
    assert_eq!(layer.cell(9), full(Color::Rgb { r: 0, g: 255, b: 0 }));
    assert_eq!(layer.cell(10), full(Color::Rgb { r: 1, g: 2, b: 3 }));
    assert_eq!(dirty(&changed, 12), vec![5, 6, 9, 10]);
}

#[test]
fn draw_img_reaching_off_the_surface_is_refused() {
    let (mut layer, mut changed) = setup(4, 3, PxScale::Whole);
    let img = bmp::Image::new(2, 2);
    let r = layer.draw_img(&mut changed, 3, 0, &img);
    assert!(matches!(r, Err(ErrorKind::OutOfBounds(4, 0))));
    let empty = bmp::Image::new(0, 0);
    let r = layer.draw_img(&mut changed, 5, 5, &empty);
    assert!(matches!(r, Err(ErrorKind::OutOfBounds(5, 5))));
    assert!(layer.draw_img(&mut changed, 4, 3, &empty).is_ok());
    assert!(dirty(&changed, 12).is_empty());
}
