use termspin::spinner::{empty, from_array, Spinner};
use termspin::{Frames, Group, Line, Node};

fn spin(items: &[&str]) -> Spinner {
    Spinner::Array(from_array(items.iter().map(|s| s.to_string()).collect()))
}

fn text_line(t: &str) -> Node {
    Node::Line(Line::new(Spinner::Empty(empty())).with_text(t))
}

#[test]
fn line_joins_spinner_and_text() {
    let line = Line::new(spin(&["*", "+"])).with_text("working");
    assert_eq!(line.render(), "* working");
    assert_eq!(line.text(), "working");
    assert_eq!(line.lines(), 1);
}

#[test]
fn line_without_text_has_no_space() {
    let line = Line::new(spin(&["*"]));
    assert_eq!(line.render(), "*");
}

#[test]
fn line_with_empty_spinner_has_no_space() {
    let line = Line::new(Spinner::Empty(empty())).with_text("done");
    assert_eq!(line.render(), "done");
}

#[test]
fn line_hidden_spinner() {
    let mut line = Line::new(spin(&["*"])).with_text("x");
    line.set_spinner_visible(false).set_text("finished");
    assert_eq!(line.render(), "finished");
    let line = line.with_spinner_visible(true);
    assert_eq!(line.render(), "* finished");
}

#[test]
fn line_advances_its_spinner() {
    let mut line = Line::new(spin(&["1", "2"])).with_text("t");
    line.advance();
    assert_eq!(line.render(), "2 t");
    line.reset();
    assert_eq!(line.render(), "1 t");
}

#[test]
fn line_clear_codes() {
    let line = Line::new(spin(&["*"])).with_text("abc");
    assert_eq!(line.clear(), "\r\x1B[2K");
    assert_eq!(Frames::clear(&line), "\r\x1B[2K");
}

#[test]
fn indented_group_of_two_lines_then_remove_first() {
    let mut g = Group::new().with_indent(1);
    g.push(text_line("a"));
    g.push(text_line("b"));
    assert_eq!(g.render(), "  a\n  b\n");
    g.remove(0);
    assert_eq!(g.render(), "  b\n");
}

#[test]
fn group_clear_codes_erase_last_child_first() {
    let mut g = Group::new();
    g.push(text_line("a"));
    g.push(text_line("b"));
    assert_eq!(g.clear(), "\x1B[1A\r\x1B[2K\x1B[1A\r\x1B[2K");
    assert_eq!(g.lines(), 0);
}

#[test]
fn nested_group_renders_and_clears() {
    let mut inner = Group::new().with_indent(1);
    inner.push(text_line("x"));
    inner.push(text_line("y"));
    let mut outer = Group::new();
    outer.push(text_line("top"));
    outer.push(Node::Group(inner));
    outer.push(text_line("end"));
    assert_eq!(outer.render(), "top\n  x\n  y\nend\n");
    assert_eq!(
        outer.clear(),
        "\x1B[1A\r\x1B[2K\x1B[1A\r\x1B[2K\x1B[1A\r\x1B[2K\x1B[1A\r\x1B[2K"
    );
}

#[test]
fn empty_sub_group_is_invisible() {
    let mut g = Group::new().with_indent(2);
    g.push(Node::Group(Group::new()));
    g.push(text_line("a"));
    assert_eq!(g.render(), "    a\n");
    assert_eq!(g.clear(), "\x1B[1A\r\x1B[2K");
}

#[test]
fn empty_group_renders_nothing() {
    let g = Group::new();
    assert!(g.is_empty());
    assert_eq!(g.render(), "");
    assert_eq!(g.clear(), "");
}

#[test]
fn insert_at_length_appends() {
    let mut g = Group::new();
    g.push(text_line("a"));
    g.insert(1, text_line("b"));
    g.insert(0, text_line("z"));
    assert_eq!(g.len(), 3);
    assert_eq!(g.render(), "z\na\nb\n");
}

#[test]
fn remove_out_of_range_is_no_op() {
    let mut g = Group::new();
    g.push(text_line("a"));
    g.push(text_line("b"));
    g.remove(2);
    g.remove(100);
    assert_eq!(g.len(), 2);
    assert_eq!(g.render(), "a\nb\n");
}

#[test]
fn extend_appends_in_order() {
    let mut g = Group::new();
    g.push(text_line("a"));
    g.extend(vec![text_line("b"), text_line("c")]);
    assert_eq!(g.render(), "a\nb\nc\n");
}

#[test]
fn retain_keeps_matching_children_in_order() {
    let mut g = Group::new();
    g.extend(vec![text_line("a"), text_line("bb"), text_line("c"), text_line("dd")]);
    g.retain(|n| match n {
        Node::Line(l) => l.text().len() == 1,
        _ => true,
    });
    assert_eq!(g.render(), "a\nc\n");
}

#[test]
fn iter_and_iter_mut() {
    let mut g = Group::new();
    g.extend(vec![text_line("a"), text_line("b")]);
    assert_eq!(g.iter().len(), 2);
    for n in g.iter_mut() {
        if let Node::Line(l) = n {
            l.set_text("z");
        }
    }
    assert_eq!(g.render(), "z\nz\n");
}

#[test]
fn indent_accessors() {
    let mut g = Group::new();
    assert_eq!(g.get_indent(), 0);
    g.set_indent(3);
    assert_eq!(g.get_indent(), 3);
    g.push(text_line("a"));
    assert_eq!(g.render(), "      a\n");
}

#[test]
fn group_advances_and_resets_children() {
    let mut g = Group::new();
    g.push(Node::Line(Line::new(spin(&["1", "2", "3"])).with_text("a")));
    g.push(Node::Line(Line::new(spin(&["x", "y"])).with_text("b")));
    g.advance();
    assert_eq!(g.render(), "2 a\ny b\n");
    g.advance();
    assert_eq!(g.render(), "3 a\nx b\n");
    g.reset();
    assert_eq!(g.render(), "1 a\nx b\n");
}

#[test]
fn render_clear_render_same_output() {
    let mut g = Group::new().with_indent(1);
    g.push(text_line("a"));
    let first = g.render();
    let codes = g.clear();
    let again = g.render();
    assert_eq!(first, again);
    assert_eq!(codes, "\x1B[1A\r\x1B[2K");
}

#[test]
fn clear_has_one_erase_per_printed_line() {
    let mut inner = Group::new().with_indent(1);
    inner.push(text_line("x"));
    inner.push(Node::Group(Group::new()));
    inner.push(text_line("y"));
    let mut outer = Group::new();
    outer.push(Node::Spinner(spin(&["*"])));
    outer.push(text_line("top"));
    outer.push(Node::Group(inner));
    let shown = outer.render();
    let codes = outer.clear();
    let lines = shown.matches('\n').count();
    assert_eq!(lines, 3);
    assert_eq!(codes.matches("\x1B[2K").count(), lines);
    assert_eq!(codes.matches("\x1B[1A").count(), lines);
    assert_eq!(codes, "\x1B[1A\r\x1B[2K".repeat(lines));
}
