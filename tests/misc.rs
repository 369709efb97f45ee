use graphic_cli::chars::{Lines, FULL, LEFT};
use graphic_cli::error::ErrorKind;
use graphic_cli::measurement::{Orientation, ResizeAxis};
use graphic_cli::symbol::Symbol;
use graphic_cli::stdout::SeekStdout;

#[test]
fn box_drawing_sets() {
    assert_eq!(Lines::thin().horizontal, '\u{2500}');
    assert_eq!(Lines::thin().top_left, '\u{250c}');
    assert_eq!(Lines::heavy().vertical, '\u{2503}');
    assert_eq!(Lines::heavy().bottom_right, '\u{251b}');
    assert_eq!(FULL, '\u{2588}');
    assert_eq!(LEFT, '\u{258c}');
}

#[test]
fn symbol_keeps_its_value() {
    let s = Symbol::new(42u32);
    assert_eq!(*s.get(), 42);
    assert_ne!(Orientation::Horizontal, Orientation::Vertical);
    assert_ne!(ResizeAxis::Start, ResizeAxis::End);
}

#[test]
fn seek_stdout_wraps_stdout() {
    let s = SeekStdout::from(std::io::stdout());
    let _inner: std::io::Stdout = s.into_inner();
}

#[test]
fn outside_errors_convert() {
    let e = ErrorKind::from(std::io::Error::new(std::io::ErrorKind::Other, "x"));
    assert!(matches!(e, ErrorKind::IOError(_)));
    let bad: &[u8] = b"not a bitmap";
    let decoded = bmp::from_reader(&mut &bad[..]);
    let e = ErrorKind::from(decoded.err().unwrap());
    assert!(matches!(e, ErrorKind::ImageDecodeError(_)));
}
