use notugly::{
    bracket, cat, fill, fold, group, group_with, nest, nil, spread, stack, text, Document, Format,
    ProcessedFormat,
};

struct Leaf(String);

impl Format for Leaf {
    fn format(&self) -> Document {
        text(&self.0)
    }
}

enum Tree {
    Node(String, Vec<Tree>),
    Leaf(String),
}

impl Format for Tree {
    fn format(&self) -> Document {
        match self {
            Tree::Node(v, t) => text(v) + bracket(4, "[", spread(t), "]"),
            Tree::Leaf(v) => text(v),
        }
    }
}

enum SExpr {
    Number(i32),
    Call(String, Vec<SExpr>),
}

impl Format for SExpr {
    fn format(&self) -> Document {
        match self {
            SExpr::Number(n) => text(&format!("{n}")),
            SExpr::Call(name, v) => group_with(
                "",
                group(text("(") & text(name) & nest(2, notugly::line() & stack(v))) / text(")"),
            ),
        }
    }
}

fn abc() -> [Document; 3] {
    [text("a"), text("b"), text("c")]
}

#[test]
fn nil_renders_as_nothing() {
    assert_eq!(nil().pretty(80).to_string(), "");
    assert_eq!(nil().pretty(-5).to_string(), "");
}

#[test]
fn line_alone_breaks_once() {
    assert_eq!(notugly::line().pretty(80).to_string(), "\n");
}

#[test]
fn cat_puts_the_second_after_the_first() {
    assert_eq!(cat(text("ab"), text("cd")).pretty(1).to_string(), "abcd");
    assert_eq!(cat(nil(), text("cd")).pretty(80).to_string(), "cd");
    assert_eq!(cat(text("ab"), nil()).pretty(80).to_string(), "ab");
}

#[test]
fn operators_join_documents() {
    assert_eq!((text("a") & text("b")).pretty(80).to_string(), "ab");
    assert_eq!((text("a") + text("b")).pretty(80).to_string(), "a b");
    assert_eq!((text("a") / text("b")).pretty(80).to_string(), "a\nb");
    assert_eq!((text("a") * text("b")).pretty(80).to_string(), "a b");
}

#[test]
fn soft_break_breaks_where_the_space_does_not_fit() {
    let doc = text("aaa") * text("bbb");
    assert_eq!(doc.pretty(7).to_string(), "aaa bbb");
    assert_eq!(doc.pretty(6).to_string(), "aaa\nbbb");
}

#[test]
fn soft_break_inside_a_nest_is_indented() {
    let doc = nest(2, text("aaa") * text("bbb"));
    assert_eq!(doc.pretty(6).to_string(), "aaa\n  bbb");
}

#[test]
fn flatten_replaces_breaks_by_spaces() {
    let doc = nest(4, text("a") / text("b") / text("c"));
    assert_eq!(doc.flatten().pretty(0).to_string(), "a b c");
    assert_eq!(doc.flatten().pretty(80).to_string(), "a b c");
}

#[test]
fn flatten_with_replaces_breaks_by_the_separator() {
    let doc = nest(4, text("a") / text("b") / text("c"));
    assert_eq!(doc.flatten_with(", ").pretty(0).to_string(), "a, b, c");
    assert_eq!(doc.flatten_with("").pretty(0).to_string(), "abc");
}

#[test]
fn flatten_takes_the_first_alternative() {
    let doc = group_with("-", text("a") / text("b"));
    assert_eq!(doc.flatten().pretty(80).to_string(), "a-b");
    assert_eq!(doc.flatten_with("+").pretty(80).to_string(), "a-b");
}

#[test]
fn flatten_is_the_same_at_every_width() {
    let body = stack(&abc());
    let doc = bracket(2, "(", body, ")");
    let flat = doc.flatten();
    for w in [-10, 0, 1, 5, 9, 10, 80] {
        assert_eq!(flat.pretty(w).to_string(), "( a b c )");
    }
}

#[test]
fn group_with_uses_its_separator_when_it_fits() {
    let doc = group_with(", ", text("a") / text("b"));
    assert_eq!(doc.pretty(4).to_string(), "a, b");
    assert_eq!(doc.pretty(3).to_string(), "a\nb");
}

#[test]
fn spread_joins_with_spaces() {
    assert_eq!(spread(&abc()).pretty(0).to_string(), "a b c");
    assert_eq!(spread(&abc()).flatten().pretty(80).to_string(), "a b c");
}

#[test]
fn spread_of_none_is_empty_and_of_one_is_that_one() {
    let none: [Document; 0] = [];
    assert_eq!(spread(&none).pretty(80).to_string(), "");
    assert_eq!(spread(&[text("a")]).pretty(80).to_string(), "a");
}

#[test]
fn stack_joins_with_line_breaks_at_every_width() {
    for w in [-1, 0, 1, 5, 80, 100000] {
        assert_eq!(stack(&abc()).pretty(w).to_string(), "a\nb\nc");
    }
}

#[test]
fn stack_breaks_at_the_enclosing_indentation() {
    let doc = nest(3, stack(&abc()));
    assert_eq!(doc.pretty(80).to_string(), "a\n   b\n   c");
}

#[test]
fn stack_of_none_is_empty_and_of_one_is_that_one() {
    let none: [Document; 0] = [];
    assert_eq!(stack(&none).pretty(80).to_string(), "");
    assert_eq!(stack(&[text("a")]).pretty(80).to_string(), "a");
}

#[test]
fn grouped_stack_collapses_as_a_whole() {
    let doc = group(stack(&abc()));
    assert_eq!(doc.pretty(5).to_string(), "a b c");
    assert_eq!(doc.pretty(4).to_string(), "a\nb\nc");
}

#[test]
fn fold_combines_from_the_left() {
    let doc = fold(&abc(), |lhs, rhs| lhs & text("<") & rhs & text(">"));
    assert_eq!(doc.pretty(80).to_string(), "a<b><c>");
}

#[test]
fn fold_of_none_is_empty_and_of_one_is_that_one() {
    let none: [Document; 0] = [];
    assert_eq!(fold(&none, |lhs, rhs| lhs + rhs).pretty(80).to_string(), "");
    assert_eq!(fold(&[text("a")], |_, _| text("never")).pretty(80).to_string(), "a");
}

#[test]
fn fold_formats_items_of_any_type() {
    let leaves = [Leaf("x".to_string()), Leaf("y".to_string())];
    let doc = fold(&leaves, |lhs, rhs| lhs & text(", ") & rhs);
    assert_eq!(doc.pretty(80).to_string(), "x, y");
}

#[test]
fn fill_of_none_is_empty_and_of_one_is_that_one() {
    let none: [Document; 0] = [];
    assert_eq!(fill(&none).pretty(80).to_string(), "");
    assert_eq!(fill(&[text("a") / text("b")]).pretty(80).to_string(), "a\nb");
}

#[test]
fn fill_packs_each_line() {
    let words = [text("aaa"), text("bbb"), text("ccc"), text("ddd"), text("eee")];
    assert_eq!(fill(&words).pretty(7).to_string(), "aaa bbb\nccc ddd\neee");
    assert_eq!(fill(&words).pretty(11).to_string(), "aaa bbb ccc\nddd eee");
    assert_eq!(fill(&words).pretty(19).to_string(), "aaa bbb ccc ddd eee");
    assert_eq!(fill(&words).pretty(3).to_string(), "aaa\nbbb\nccc\nddd\neee");
}

#[test]
fn fill_flattens_an_item_that_stays_on_the_line() {
    let items = [text("x"), text("a") / text("b"), text("y")];
    assert_eq!(fill(&items).pretty(80).to_string(), "x a b y");
    assert_eq!(fill(&items).pretty(2).to_string(), "x\na\nb\ny");
}

#[test]
fn fill_of_user_items() {
    let leaves = [Leaf("aa".to_string()), Leaf("bb".to_string()), Leaf("cc".to_string())];
    assert_eq!(fill(&leaves).pretty(6).to_string(), "aa bb\ncc");
}

#[test]
fn bracket_indents_its_body() {
    let doc = bracket(4, "{", stack(&abc()), "}");
    assert_eq!(doc.pretty(80).to_string(), "{ a b c }");
    assert_eq!(doc.pretty(8).to_string(), "{\n    a\n    b\n    c\n}");
}

#[test]
fn brackets_nest() {
    let inner = bracket(2, "[", spread(&[text("b"), text("c")]), "]");
    let doc = bracket(2, "[", text("a") / inner, "]");
    assert_eq!(doc.pretty(80).to_string(), "[ a [ b c ] ]");
    assert_eq!(doc.pretty(12).to_string(), "[\n  a\n  [ b c ]\n]");
    assert_eq!(doc.pretty(6).to_string(), "[\n  a\n  [\n    b c\n  ]\n]");
}

#[test]
fn tree_of_user_nodes() {
    let tree = Tree::Node(
        "aaa".into(),
        vec![
            Tree::Node("bbbbb".into(), vec![Tree::Leaf("ccc".into()), Tree::Leaf("dd".into())]),
            Tree::Leaf("eee".into()),
        ],
    );
    assert_eq!(tree.pretty(80).to_string(), "aaa [ bbbbb [ ccc dd ] eee ]");
    assert_eq!(
        tree.pretty(24).to_string(),
        "aaa [\n    bbbbb [ ccc dd ] eee\n]"
    );
    assert_eq!(
        tree.pretty(12).to_string(),
        "aaa [\n    bbbbb [\n        ccc dd\n    ] eee\n]"
    );
}

#[test]
fn s_expression() {
    let e = SExpr::Call(
        "add".into(),
        vec![
            SExpr::Call("mul".into(), vec![SExpr::Number(2), SExpr::Number(6)]),
            SExpr::Number(1),
        ],
    );
    assert_eq!(e.pretty(80).to_string(), "(add (mul 2 6) 1)");
    assert_eq!(e.pretty(17).to_string(), "(add (mul 2 6) 1)");
    assert_eq!(e.pretty(16).to_string(), "(add (mul 2 6) 1\n)");
    assert_eq!(e.pretty(11).to_string(), "(add\n  (mul 2 6)\n  1\n)");
    assert_eq!(e.pretty(10).to_string(), "(add\n  (mul 2 6\n  )\n  1\n)");
}

#[test]
fn clone_keeps_the_layouts() {
    let doc = bracket(2, "[", spread(&abc()), "]");
    let copy = doc.clone();
    assert_eq!(copy.pretty(80).to_string(), doc.pretty(80).to_string());
    assert_eq!(copy.pretty(3).to_string(), doc.pretty(3).to_string());
}

#[test]
fn format_of_a_document_is_the_document() {
    let doc = group(text("a") / text("b"));
    assert_eq!(doc.format().pretty(3).to_string(), "a b");
    assert_eq!(doc.format().pretty(2).to_string(), "a\nb");
}

#[test]
fn nesting_in_range_accepts_ordinary_documents() {
    assert!(nil().nesting_in_range());
    assert!(nest(i32::MAX, text("a")).nesting_in_range());
    assert!(nest(i32::MIN, text("a")).nesting_in_range());
    assert!(nest(i32::MAX, nest(-1, text("a"))).nesting_in_range());
    assert!(bracket(2, "[", spread(&abc()), "]").nesting_in_range());
}

#[test]
fn nesting_in_range_rejects_sums_past_32_bits() {
    assert!(!nest(i32::MAX, nest(1, text("a"))).nesting_in_range());
    assert!(!nest(i32::MIN, nest(-1, text("a"))).nesting_in_range());
    assert!(!group(nest(i32::MAX, nest(1, text("a")))).nesting_in_range());
    assert!(!cat(text("a"), nest(i32::MAX, nest(i32::MAX, nil()))).nesting_in_range());
}

#[test]
fn flattening_brings_any_nesting_in_range() {
    let doc = nest(i32::MAX, nest(1, text("a") / text("b")));
    assert!(doc.flatten().nesting_in_range());
    assert_eq!(doc.flatten().pretty(80).to_string(), "a b");
}

#[test]
fn many_choices_in_a_row_are_each_decided_once() {
    let rows: Vec<Document> = (0..300)
        .map(|n| bracket(2, "[", spread(&[text(&format!("{n}")), text("x")]), "]"))
        .collect();
    let doc = stack(&rows);
    let wide = doc.pretty(80).to_string();
    let narrow = doc.pretty(4).to_string();
    assert_eq!(wide.lines().count(), 300);
    assert_eq!(narrow.lines().count(), 900);
    assert!(wide.starts_with("[ 0 x ]\n[ 1 x ]\n"));
    assert!(narrow.starts_with("[\n  0 x\n]\n[\n  1 x\n]\n"));
    assert!(wide.ends_with("\n[ 299 x ]"));
}

#[test]
fn deeply_nested_brackets() {
    let mut doc = text("x");
    for _ in 0..40 {
        doc = bracket(1, "(", doc, ")");
    }
    let wide = doc.pretty(1000).to_string();
    assert_eq!(wide.len(), 40 * 4 + 1);
    assert!(wide.starts_with("( ( ( "));
    let narrow = doc.pretty(0).to_string();
    assert_eq!(narrow.lines().count(), 81);
    assert_eq!(narrow.lines().nth(40), Some(format!("{}x", " ".repeat(40)).as_str()));
}

fn with_breaks_as_spaces(layout: &ProcessedFormat) -> String {
    let mut out = String::new();
    let mut cur = layout;
    loop {
        match cur {
            ProcessedFormat::Nil => return out,
            ProcessedFormat::Text(s, rest) => {
                out.push_str(s);
                cur = rest;
            }
            ProcessedFormat::Line(_, rest) => {
                out.push(' ');
                cur = rest;
            }
        }
    }
}

fn count_breaks(layout: &ProcessedFormat) -> usize {
    let mut n = 0;
    let mut cur = layout;
    loop {
        match cur {
            ProcessedFormat::Nil => return n,
            ProcessedFormat::Text(_, rest) => cur = rest,
            ProcessedFormat::Line(_, rest) => {
                n += 1;
                cur = rest;
            }
        }
    }
}

#[test]
fn every_width_keeps_the_text_of_the_single_line_form() {
    let words = fill(&[text("aaa"), text("bb"), text("c") * text("dddd"), text("e")]);
    let inner = bracket(2, "(", stack(&abc()), ")");
    let doc = bracket(4, "{", spread(&[words, inner, group(text("x") / text("y"))]), "}");
    let flat = doc.flatten().pretty(0).to_string();
    assert_eq!(flat, "{ aaa bb c dddd e ( a b c ) x y }");
    for w in -1..40 {
        assert_eq!(with_breaks_as_spaces(&doc.pretty(w)), flat);
    }
}

#[test]
fn a_stack_keeps_its_breaks_at_every_width() {
    let items = [group(text("a") / text("b")), text("c"), bracket(1, "<", text("d"), ">")];
    for w in -1..20 {
        assert!(count_breaks(&nest(3, stack(&items)).pretty(w)) >= 2);
        assert!(count_breaks(&group(stack(&items)).pretty(w)) >= if w < 11 { 2 } else { 0 });
    }
    assert_eq!(stack(&items).pretty(80).to_string(), "a b\nc\n< d >");
    assert_eq!(stack(&items).pretty(2).to_string(), "a\nb\nc\n<\n d\n>");
}
