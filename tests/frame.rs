use crossterm::style::Color;
use graphic_cli::cell::{Cell, Glyph};
use graphic_cli::frame::{Frame, PxScale};

#[test]
fn scale_from_tall_cells() {
    // 80x24 cells of 8x16 pixels: aspect ratio 0.5
    assert_eq!(PxScale::from_window_size(80, 24, 640, 384), PxScale::HalfHeight);
}

#[test]
fn scale_from_wide_cells() {
    // cells of 16x8 pixels: aspect ratio 2
    assert_eq!(PxScale::from_window_size(10, 10, 160, 80), PxScale::HalfWidth);
}

#[test]
fn scale_from_square_cells() {
    assert_eq!(PxScale::from_window_size(10, 10, 100, 100), PxScale::Whole);
    // exactly 0.75 and exactly 1.333 stay whole
    assert_eq!(PxScale::from_window_size(4, 4, 3, 4), PxScale::Whole);
    assert_eq!(PxScale::from_window_size(1, 1, 1333, 1000), PxScale::Whole);
    assert_eq!(PxScale::from_window_size(1, 1, 1334, 1000), PxScale::HalfWidth);
}

#[test]
fn scale_defaults_when_size_unknown() {
    assert_eq!(PxScale::from_window_size(80, 24, 0, 0), PxScale::HalfHeight);
    assert_eq!(PxScale::from_window_size(0, 24, 100, 100), PxScale::HalfHeight);
}

#[test]
fn resolution_per_scale() {
    let f = |scale| Frame { cols: 10, rows: 7, scale };
    assert_eq!(f(PxScale::HalfHeight).resolution(), (10, 14));
    assert_eq!(f(PxScale::HalfWidth).resolution(), (20, 7));
    assert_eq!(f(PxScale::Whole).resolution(), (10, 7));
    let big = Frame { cols: 65535, rows: 65535, scale: PxScale::HalfHeight };
    assert_eq!(big.resolution(), (65535, 131070));
    assert_eq!(big.cell_count(), 65535usize * 65535);
}

#[test]
fn locate_maps_points_to_cells_and_halves() {
    let f = Frame { cols: 10, rows: 10, scale: PxScale::HalfHeight };
    let (i, c) = f.locate(3, 2, Color::Red);
    assert_eq!(i, 13);
    assert_eq!(c, Cell { glyph: Glyph::TopHalf, fg: Some(Color::Red), bg: None });
    let (i, c) = f.locate(3, 3, Color::Red);
    assert_eq!(i, 13);
    assert_eq!(c.glyph, Glyph::BottomHalf);
    let f = Frame { cols: 10, rows: 10, scale: PxScale::HalfWidth };
    let (i, c) = f.locate(7, 4, Color::Red);
    assert_eq!(i, 43);
    assert_eq!(c.glyph, Glyph::RightHalf);
    let f = Frame { cols: 10, rows: 10, scale: PxScale::Whole };
    let (i, c) = f.locate(9, 9, Color::Red);
    assert_eq!(i, 99);
    assert_eq!(c.glyph, Glyph::Full);
}

#[test]
fn contains_checks_the_resolution() {
    let f = Frame { cols: 10, rows: 10, scale: PxScale::HalfHeight };
    assert!(f.contains(9, 19));
    assert!(!f.contains(10, 0));
    assert!(!f.contains(0, 20));
}
