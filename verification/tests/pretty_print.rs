use butter::pretty_print::{
    array_sequence, bracket, indent, multiline_sequence, postfix, prefix, sequence,
    PrettyPrintTree,
};

fn text(s: &str) -> PrettyPrintTree {
    PrettyPrintTree::Text(s.to_string())
}

#[test]
fn nested() {
    let expected = "\
(
    a
    b
)";
    let tree = array_sequence(
        vec![
            text("("),
            indent(array_sequence(vec![text("a"), text("b")], Some(true))),
            text(")"),
        ],
        None,
    );
    assert_eq!(tree.write("    ", 80), expected);
}

#[test]
fn keep_single_line() {
    let expected = "\
a(
    b
)";
    let tree = array_sequence(
        vec![
            text("a"),
            array_sequence(vec![text("("), indent(text("b")), text(")")], Some(true)),
        ],
        Some(false),
    );
    assert_eq!(tree.write("    ", 80), expected);
}

#[test]
fn indent_first() {
    let expected = "    ab";
    let tree = array_sequence(vec![indent(text("a")), indent(text("b"))], Some(false));
    assert_eq!(tree.write("    ", 80), expected);
}

#[test]
fn indent_on_newline() {
    let expected = "    a\n    b";
    let tree = array_sequence(vec![indent(text("a")), indent(text("b"))], Some(true));
    assert_eq!(tree.write("    ", 80), expected);
}

#[test]
fn sequence_fits_on_one_line() {
    let tree = sequence(vec![text("a"), text(" b"), text(" c")]);
    assert_eq!(tree.write("  ", 80), "a b c");
}

#[test]
fn sequence_breaks_when_too_wide() {
    let tree = sequence(vec![text("aaaa"), text(" bbbb"), text(" cccc")]);
    assert_eq!(tree.write("  ", 8), "aaaa\nbbbb\ncccc");
}

#[test]
fn bracket_breaks_inside() {
    let tree = bracket("[", "]", sequence(vec![text("one,"), text(" two")]));
    assert_eq!(tree.write("  ", 80), "[one, two]");
    assert_eq!(tree.write("  ", 5), "[\n  one,\n  two\n]");
}

#[test]
fn prefix_and_postfix_stay_on_one_line() {
    let tree = prefix("-", multiline_sequence(vec![text("x"), text("y")]));
    assert_eq!(tree.write("  ", 80), "-x\ny");
    let tree = postfix(";", text("x"));
    assert_eq!(tree.write("  ", 80), "  x;");
    let tree = butter::pretty_print::line(vec![text("a"), text(" b")]);
    assert_eq!(tree.write("  ", 1), "a b");
}

#[test]
fn leading_white_space_dropped_at_line_start() {
    let tree = multiline_sequence(vec![text("a"), text("   b")]);
    assert_eq!(tree.write("  ", 80), "a\nb");
    let tree = PrettyPrintTree::Text("\u{3000}\tx".to_string());
    assert_eq!(tree.write("  ", 80), "x");
}
