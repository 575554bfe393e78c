use notugly::{bracket, cat, fill, group, nest, spread, text, Format};

#[test]
fn literal_renders_as_itself() {
    assert_eq!(text("hello").pretty(80).to_string(), "hello");
}

#[test]
fn group_collapses_when_it_fits() {
    let doc = group(text("a") / text("b"));
    assert_eq!(doc.pretty(3).to_string(), "a b");
}

#[test]
fn group_expands_when_it_does_not_fit() {
    let doc = group(text("a") / text("b"));
    assert_eq!(doc.pretty(2).to_string(), "a\nb");
}

#[test]
fn bracket_collapses_at_wide_width() {
    let body = spread(&[text("a"), text("b")]);
    assert_eq!(bracket(2, "[", body, "]").pretty(80).to_string(), "[ a b ]");
}

#[test]
fn bracket_expands_at_narrow_width() {
    let body = spread(&[text("a"), text("b")]);
    assert_eq!(bracket(2, "[", body, "]").pretty(5).to_string(), "[\n  a b\n]");
}

#[test]
fn bracket_fits_exactly_at_its_flat_width() {
    let body = spread(&[text("a"), text("b")]);
    assert_eq!(bracket(2, "[", body.clone(), "]").pretty(7).to_string(), "[ a b ]");
    assert_eq!(bracket(2, "[", body, "]").pretty(6).to_string(), "[\n  a b\n]");
}

#[test]
fn fill_packs_two_of_three_items_on_the_first_line() {
    let doc = fill(&[text("aa"), text("bb"), text("cc")]);
    assert_eq!(doc.pretty(6).to_string(), "aa bb\ncc");
}

#[test]
fn fill_at_other_widths() {
    let items = [text("aa"), text("bb"), text("cc")];
    assert_eq!(fill(&items).pretty(8).to_string(), "aa bb cc");
    assert_eq!(fill(&items).pretty(7).to_string(), "aa bb\ncc");
    assert_eq!(fill(&items).pretty(5).to_string(), "aa bb\ncc");
    assert_eq!(fill(&items).pretty(4).to_string(), "aa\nbb\ncc");
    assert_eq!(fill(&items).pretty(0).to_string(), "aa\nbb\ncc");
}

#[test]
fn line_break_is_indented_by_the_enclosing_nest() {
    let doc = nest(2, cat(text("a"), cat(notugly::line(), text("b"))));
    assert_eq!(doc.pretty(80).to_string(), "a\n  b");
}

#[test]
fn nested_indentation_adds_up() {
    let inner = nest(3, text("b") / text("c"));
    let doc = nest(2, text("a") / inner);
    assert_eq!(doc.pretty(80).to_string(), "a\n  b\n     c");
}

#[test]
fn negative_indentation_renders_as_none() {
    let doc = nest(-4, text("a") / text("b"));
    assert_eq!(doc.pretty(80).to_string(), "a\nb");
}

#[test]
fn negative_indentation_cancels_an_outer_one() {
    let doc = nest(4, text("a") / nest(-3, text("b") / text("c")));
    assert_eq!(doc.pretty(80).to_string(), "a\n    b\n c");
}

#[test]
fn width_is_counted_in_bytes() {
    let doc = group(text("\u{e9}") / text("b"));
    assert_eq!(doc.pretty(4).to_string(), "\u{e9} b");
    assert_eq!(doc.pretty(3).to_string(), "\u{e9}\nb");
}

#[test]
fn a_choice_looks_only_at_the_current_line() {
    let head = group(text("a") / text("b"));
    let doc = head / text("a very long line that does not fit");
    assert_eq!(doc.pretty(3).to_string(), "a b\na very long line that does not fit");
}

#[test]
fn a_choice_counts_what_follows_on_the_same_line() {
    let doc = group(text("a") / text("b")) & text("cd");
    assert_eq!(doc.pretty(5).to_string(), "a bcd");
    assert_eq!(doc.pretty(4).to_string(), "a\nbcd");
}

#[test]
fn nested_groups_expand_from_the_outside() {
    let inner = group(text("b") / text("c"));
    let doc = group(text("a") / inner);
    assert_eq!(doc.pretty(5).to_string(), "a b c");
    assert_eq!(doc.pretty(4).to_string(), "a\nb c");
    assert_eq!(doc.pretty(2).to_string(), "a\nb\nc");
}

#[test]
fn negative_width_expands_everything() {
    let doc = group(text("a") / text("b"));
    assert_eq!(doc.pretty(-1).to_string(), "a\nb");
    assert_eq!(group(text("")).pretty(-1).to_string(), "");
}

#[test]
fn two_resolutions_give_the_same_text() {
    let body = spread(&[text("a"), text("b")]);
    let doc = bracket(2, "[", body, "]");
    assert_eq!(doc.pretty(5).to_string(), doc.pretty(5).to_string());
    assert_eq!(doc.pretty(80).to_string(), doc.pretty(80).to_string());
}

#[test]
fn a_document_serves_several_widths() {
    let body = spread(&[text("a"), text("b")]);
    let doc = bracket(2, "[", body, "]");
    let wide = doc.pretty(80).to_string();
    let narrow = doc.pretty(5).to_string();
    assert_eq!(doc.pretty(80).to_string(), wide);
    assert_eq!(narrow, "[\n  a b\n]");
    assert_eq!(wide, "[ a b ]");
}
