use std::time::Duration;

use termspin::spinner::{empty, from_array, Spinner};
use termspin::{Group, Line, Loop, Node};

fn sample_group() -> Group {
    let mut g = Group::new();
    g.push(Node::Line(
        Line::new(Spinner::Array(from_array(vec!["1".to_string(), "2".to_string()]))).with_text("job"),
    ));
    g
}

#[test]
fn new_loop_is_stopped_with_auto_stop() {
    let mut l = Loop::new(Duration::from_millis(10), sample_group());
    assert!(!l.running());
    assert_eq!(l.delay(), Duration::from_millis(10));
    assert_eq!(l.clear_codes(), "");
    assert!(l.start());
    assert!(l.running());
    assert!(!l.start());
}

#[test]
fn cycles_draw_clear_and_advance() {
    let mut l = Loop::new(Duration::from_millis(10), sample_group());
    l.start();
    assert_eq!(l.next_cycle(false), Some(None));
    let d = l.draw();
    assert_eq!(d.clear, "");
    assert_eq!(d.text, "1 job\n");
    assert_eq!(l.next_cycle(false), Some(None));
    let d = l.draw();
    assert_eq!(d.clear, "\x1B[1A\r\x1B[2K");
    assert_eq!(d.text, "2 job\n");
    assert_eq!(l.clear_codes(), "\x1B[1A\r\x1B[2K");
}

#[test]
fn auto_stop_ends_when_sole_owner() {
    let mut l = Loop::new(Duration::from_millis(5), sample_group());
    l.start();
    assert!(l.next_cycle(false).is_some());
    l.draw();
    assert_eq!(l.next_cycle(true), None);
    assert!(!l.running());
}

#[test]
fn auto_stop_off_keeps_running() {
    let mut l = Loop::new(Duration::from_millis(5), sample_group());
    l.auto_stop(false);
    l.start();
    assert!(l.next_cycle(true).is_some());
    assert!(l.running());
}

#[test]
fn stop_during_sleep_exits_before_next_draw() {
    let mut l = Loop::new(Duration::from_millis(5), sample_group());
    l.start();
    assert!(l.next_cycle(false).is_some());
    l.draw();
    l.stop();
    assert_eq!(l.next_cycle(false), None);
    assert!(!l.running());
    assert!(l.start());
    assert!(l.next_cycle(false).is_some());
}

#[test]
fn wait_is_taken_once() {
    let mut l = Loop::new(Duration::from_millis(5), sample_group());
    l.start();
    l.wait(Duration::from_millis(30));
    assert_eq!(l.next_cycle(false), Some(Some(Duration::from_millis(30))));
    assert_eq!(l.next_cycle(false), Some(None));
}

#[test]
fn reset_replaces_clear() {
    let mut l = Loop::new(Duration::from_millis(5), sample_group());
    l.start();
    l.next_cycle(false);
    l.draw();
    l.next_cycle(false);
    l.reset();
    let d = l.draw();
    assert_eq!(d.clear, "");
    assert_eq!(d.text, "1 job\n");
}

#[test]
fn clear_codes_follow_what_was_drawn() {
    let mut l = Loop::new(Duration::from_millis(5), sample_group());
    l.start();
    l.next_cycle(false);
    l.draw();
    l.inner_mut().push(Node::Line(Line::new(Spinner::Empty(empty())).with_text("late")));
    assert_eq!(l.inner().len(), 2);
    assert_eq!(l.clear_codes(), "\x1B[1A\r\x1B[2K");
    l.finish();
    assert!(!l.running());
}
