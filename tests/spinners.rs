use termspin::ansi::{ClearLine, CursorUp};
use termspin::spinner::{dots, empty, from_array, from_iter, FromArray, Spinner};
use termspin::Frames;

fn glyphs(items: &[&str]) -> Vec<String> {
    items.iter().map(|s| s.to_string()).collect()
}

#[test]
fn cursor_up_codes() {
    assert_eq!(CursorUp(0).to_string(), "");
    assert_eq!(CursorUp(1).to_string(), "\x1B[1A");
    assert_eq!(CursorUp(12).to_string(), "\x1B[12A");
    assert_eq!(CursorUp(305).to_string(), "\x1B[305A");
}

#[test]
fn clear_line_code() {
    assert_eq!(ClearLine.to_string(), "\x1B[2K");
}

#[test]
fn empty_spinner_shows_nothing() {
    let mut e = empty();
    assert_eq!(e.render(), "");
    e.advance();
    assert_eq!(e.render(), "");
    assert_eq!(e.print_len(), Some(0));
    assert_eq!(e.lines(), 0);
    assert_eq!(e.clear(), "");
}

#[test]
fn array_spinner_wraps_after_full_cycle() {
    let mut s = from_array(glyphs(&["a", "b", "c"]));
    assert_eq!(s.render(), "a");
    s.advance();
    assert_eq!(s.render(), "b");
    s.advance();
    assert_eq!(s.render(), "c");
    s.advance();
    assert_eq!(s.render(), "a");
    assert_eq!(s.print_len(), None);
}

#[test]
fn array_spinner_full_cycle_from_any_index() {
    let mut s = FromArray::new(glyphs(&["1", "2", "3", "4"]));
    s.advance();
    assert_eq!(s.render(), "2");
    for _ in 0..4 {
        s.advance();
    }
    assert_eq!(s.render(), "2");
}

#[test]
fn array_spinner_single_glyph() {
    let mut s = from_array(glyphs(&["x"]));
    s.advance();
    s.advance();
    assert_eq!(s.render(), "x");
}

#[test]
fn array_spinner_reset_goes_to_first() {
    let mut s = from_array(glyphs(&["a", "b", "c"]));
    s.advance();
    s.advance();
    s.reset();
    assert_eq!(s.render(), "a");
}

#[test]
fn dots_spinner_cycles() {
    let mut s = dots();
    assert_eq!(s.render(), "⠋");
    s.advance();
    assert_eq!(s.render(), "⠙");
    for _ in 0..10 {
        s.advance();
    }
    assert_eq!(s.render(), "⠙");
}

#[test]
fn iter_spinner_repeats_without_stalling() {
    let mut s = from_iter(glyphs(&["a", "b", "c"]));
    assert_eq!(s.render(), "a");
    let mut seen = Vec::new();
    for _ in 0..7 {
        s.advance();
        seen.push(s.render());
    }
    assert_eq!(seen, vec!["b", "c", "a", "b", "c", "a", "b"]);
}

#[test]
fn iter_spinner_steps_one_glyph_per_advance() {
    let mut s = from_iter(glyphs(&["a", "b", "c"]));
    let mut seen = vec![s.render()];
    for _ in 0..3 {
        s.advance();
        seen.push(s.render());
    }
    assert_eq!(seen, vec!["a", "b", "c", "a"]);
}

#[test]
fn iter_spinner_single_glyph() {
    let mut s = from_iter(glyphs(&["x"]));
    s.advance();
    assert_eq!(s.render(), "x");
    s.advance();
    assert_eq!(s.render(), "x");
}

#[test]
fn iter_spinner_empty_shows_nothing() {
    let mut s = from_iter(Vec::new());
    assert_eq!(s.render(), "");
    s.advance();
    s.advance();
    assert_eq!(s.render(), "");
}

#[test]
fn iter_spinner_reset() {
    let mut s = from_iter(glyphs(&["a", "b", "c"]));
    s.advance();
    s.advance();
    assert_eq!(s.render(), "c");
    s.reset();
    assert_eq!(s.render(), "a");
    s.advance();
    assert_eq!(s.render(), "b");
    s.advance();
    assert_eq!(s.render(), "c");
}

#[test]
fn spinner_enum_delegates() {
    let mut s = Spinner::Array(from_array(glyphs(&["p", "q"])));
    assert_eq!(s.render(), "p");
    s.advance();
    assert_eq!(s.render(), "q");
    assert_eq!(Spinner::Empty(empty()).print_len(), Some(0));
    assert_eq!(s.print_len(), None);
}
