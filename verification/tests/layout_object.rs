use mono_core::cssom::{CssParser, Declaration, Selector, StyleSheet};
use mono_core::display_item::DisplayItem;
use mono_core::dom::{Attribute, Element, ElementKind, NodeKind};
use mono_core::layout_object::{
    create_layout_object, LayoutObject, LayoutObjectKind, LayoutPoint, LayoutSize,
};
use mono_core::style::{Color, ComputedStyle, DisplayType, FontSize};
use mono_core::token::{CssToken, CssTokenizer};

fn sheet(css: &str) -> StyleSheet {
    CssParser::new(CssTokenizer::new(css.to_string())).parse_stylesheet()
}

fn element(kind: ElementKind, attrs: &[(&str, &str)]) -> NodeKind {
    NodeKind::Element(Element {
        kind,
        attributes: attrs
            .iter()
            .map(|(n, v)| Attribute { name: n.to_string(), value: v.to_string() })
            .collect(),
    })
}

fn text(t: &str) -> NodeKind {
    NodeKind::Text(t.to_string())
}

fn decl(property: &str, value: CssToken) -> Declaration {
    Declaration { property: property.to_string(), value }
}

fn ident(s: &str) -> CssToken {
    CssToken::Ident(s.to_string())
}

/// A layout object for `node`, styled with defaults only.
fn styled(node: NodeKind, parent: Option<usize>, objects: &Vec<LayoutObject>) -> LayoutObject {
    create_layout_object(&Some(node), &parent, objects, &StyleSheet::new()).unwrap()
}

#[test]
fn create_without_node_gives_none() {
    let objects = vec![];
    assert!(create_layout_object(&None, &None, &objects, &StyleSheet::new()).is_none());
}

#[test]
fn create_block_element_with_initial_style() {
    let objects = vec![];
    let o = styled(element(ElementKind::P, &[]), None, &objects);
    assert_eq!(o.kind(), LayoutObjectKind::Block);
    let style = o.style();
    assert_eq!(style.display(), DisplayType::Block);
    assert_eq!(style.font_size(), FontSize::Medium);
    assert_eq!(style.color().code(), "#000000");
    assert_eq!(style.background_color().code(), "#ffffff");
    assert_eq!(o.point(), LayoutPoint { x: 0, y: 0 });
    assert_eq!(o.size(), LayoutSize { width: 0, height: 0 });
    assert_eq!(o.first_child(), None);
    assert_eq!(o.next_sibling(), None);
    assert_eq!(o.parent(), None);
}

#[test]
fn create_inline_and_text_objects() {
    let objects = vec![];
    assert_eq!(styled(element(ElementKind::A, &[]), None, &objects).kind(), LayoutObjectKind::Inline);
    assert_eq!(styled(text("hi"), None, &objects).kind(), LayoutObjectKind::Text);
    assert_eq!(styled(element(ElementKind::H1, &[]), None, &objects).style().font_size(), FontSize::XXLarge);
    assert_eq!(styled(element(ElementKind::H2, &[]), None, &objects).style().font_size(), FontSize::XLarge);
}

#[test]
fn create_display_none_gives_none() {
    let objects = vec![];
    let css = sheet("p { display: none; }");
    assert!(create_layout_object(&Some(element(ElementKind::P, &[])), &None, &objects, &css).is_none());
    // A rule for another element leaves the paragraph alone.
    let css = sheet("h1 { display: none; }");
    assert!(create_layout_object(&Some(element(ElementKind::P, &[])), &None, &objects, &css).is_some());
}

#[test]
fn create_display_inline_makes_inline_object() {
    let objects = vec![];
    let css = sheet("p { display: inline; }");
    let o = create_layout_object(&Some(element(ElementKind::P, &[])), &None, &objects, &css).unwrap();
    assert_eq!(o.kind(), LayoutObjectKind::Inline);
}

#[test]
fn create_applies_rules_in_order() {
    let objects = vec![];
    let css = sheet("p { color: red; } .note { color: blue; } #main { background-color: green; }");
    let o = create_layout_object(
        &Some(element(ElementKind::P, &[("class", "note"), ("id", "main")])),
        &None,
        &objects,
        &css,
    )
    .unwrap();
    assert_eq!(o.style().color().code(), "#0000ff");
    assert_eq!(o.style().background_color().code(), "#008000");
}

#[test]
fn create_inherits_from_parent() {
    let objects = vec![];
    let css = sheet("body { color: red; }");
    let body = create_layout_object(&Some(element(ElementKind::Body, &[])), &None, &objects, &css).unwrap();
    let objects = vec![body];
    let child = create_layout_object(&Some(element(ElementKind::P, &[])), &Some(0), &objects, &css).unwrap();
    assert_eq!(child.style().color().code(), "#ff0000");
    assert_eq!(child.style().background_color().code(), "#ffffff");
    assert_eq!(child.parent(), Some(0));
}

#[test]
fn is_node_selected_by_each_selector() {
    let objects = vec![];
    let o = styled(element(ElementKind::P, &[("class", "a"), ("id", "b")]), None, &objects);
    assert!(o.is_node_selected(&Selector::TypeSelector("p".to_string())));
    assert!(!o.is_node_selected(&Selector::TypeSelector("h1".to_string())));
    assert!(o.is_node_selected(&Selector::ClassSelector("a".to_string())));
    assert!(!o.is_node_selected(&Selector::ClassSelector("b".to_string())));
    assert!(o.is_node_selected(&Selector::IdSelector("b".to_string())));
    assert!(!o.is_node_selected(&Selector::IdSelector("a".to_string())));
    assert!(!o.is_node_selected(&Selector::UnknownSelector));
    let t = styled(text("p"), None, &objects);
    assert!(!t.is_node_selected(&Selector::TypeSelector("p".to_string())));
}

#[test]
fn cascading_style_sets_colors_and_display() {
    let mut o = LayoutObject::new(element(ElementKind::P, &[]), &None);
    o.cascading_style(vec![
        decl("color", ident("red")),
        decl("background-color", CssToken::HashToken("#0000ff".to_string())),
        decl("display", ident("inline")),
        decl("margin", ident("auto")),
    ]);
    let mut s = o.style();
    assert_eq!(s.color().code(), "#ff0000");
    assert_eq!(s.background_color().code(), "#0000ff");
    assert_eq!(s.display(), DisplayType::Inline);
    s.defaulting(&element(ElementKind::P, &[]), None);
    assert_eq!(s.font_size(), FontSize::Medium);
}

#[test]
fn cascading_style_falls_back_for_unknown_values() {
    let mut o = LayoutObject::new(element(ElementKind::P, &[]), &None);
    o.cascading_style(vec![
        decl("color", ident("nosuchcolor")),
        decl("background-color", ident("nosuchcolor")),
        decl("display", ident("flex")),
    ]);
    let s = o.style();
    assert_eq!(s.color().code(), "#000000");
    assert_eq!(s.background_color().code(), "#ffffff");
    assert_eq!(s.display(), DisplayType::DisplayNone);
}

#[test]
fn cascading_in_two_steps_is_cascading_once() {
    let a = vec![decl("color", ident("red")), decl("display", ident("block"))];
    let b = vec![decl("color", ident("blue"))];
    let mut two = LayoutObject::new(element(ElementKind::P, &[]), &None);
    two.cascading_style(a.clone());
    two.cascading_style(b.clone());
    let mut once = LayoutObject::new(element(ElementKind::P, &[]), &None);
    let mut all = a.clone();
    all.extend(b);
    once.cascading_style(all);
    assert_eq!(two.style(), once.style());
    assert_eq!(two.style().color().code(), "#0000ff");
}

#[test]
fn update_kind_follows_display() {
    let mut o = LayoutObject::new(element(ElementKind::P, &[]), &None);
    o.cascading_style(vec![decl("display", ident("inline"))]);
    o.update_kind();
    assert_eq!(o.kind(), LayoutObjectKind::Inline);
    let mut t = LayoutObject::new(text("x"), &None);
    t.update_kind();
    assert_eq!(t.kind(), LayoutObjectKind::Text);
}

#[test]
fn defaulting_style_keeps_values_and_fills_the_rest() {
    let mut o = LayoutObject::new(element(ElementKind::H1, &[]), &None);
    o.cascading_style(vec![decl("color", ident("green"))]);
    o.defaulting_style(&element(ElementKind::H1, &[]), None);
    let s = o.style();
    assert_eq!(s.color().code(), "#008000");
    assert_eq!(s.font_size(), FontSize::XXLarge);
    assert_eq!(s.display(), DisplayType::Block);
}

#[test]
fn compute_size_of_a_block_stacks_children() {
    // children: block (h 20), inline (h 30), inline (h 40), block (h 50)
    let mut objects: Vec<LayoutObject> = Vec::new();
    let mut c0 = styled(element(ElementKind::P, &[]), None, &objects);
    c0.compute_size(LayoutSize { width: 100, height: 0 }, &vec![]);
    let mut c1 = styled(text("abcd"), None, &objects);
    c1.compute_size(LayoutSize { width: 100, height: 0 }, &vec![]);
    let mut c2 = styled(text("abcdefgh"), None, &objects);
    c2.compute_size(LayoutSize { width: 100, height: 0 }, &vec![]);
    let mut c3 = styled(element(ElementKind::H2, &[]), None, &objects);
    c3.compute_size(LayoutSize { width: 100, height: 0 }, &vec![]);
    assert_eq!(c1.size(), LayoutSize { width: 32, height: 20 });
    assert_eq!(c2.size(), LayoutSize { width: 64, height: 20 });
    c0.set_next_sibling(Some(1));
    c1.set_next_sibling(Some(2));
    c2.set_next_sibling(Some(3));
    objects.push(c0);
    objects.push(c1);
    objects.push(c2);
    objects.push(c3);
    let mut parent = styled(element(ElementKind::Body, &[]), None, &vec![]);
    parent.set_first_child(Some(0));
    parent.compute_size(LayoutSize { width: 580, height: 999 }, &objects);
    // The blocks have no children and no height; of the two texts, which are
    // not blocks, only the one after a block adds its height.
    assert_eq!(parent.size(), LayoutSize { width: 580, height: 20 });
}

#[test]
fn compute_size_of_an_inline_box_adds_children() {
    let mut objects: Vec<LayoutObject> = Vec::new();
    let mut c0 = styled(text("abc"), None, &objects);
    c0.compute_size(LayoutSize { width: 0, height: 0 }, &vec![]);
    let mut c1 = styled(text("abcde"), None, &objects);
    c1.compute_size(LayoutSize { width: 0, height: 0 }, &vec![]);
    c0.set_next_sibling(Some(1));
    objects.push(c0);
    objects.push(c1);
    let mut a = styled(element(ElementKind::A, &[]), None, &vec![]);
    a.set_first_child(Some(0));
    a.compute_size(LayoutSize { width: 600, height: 600 }, &objects);
    assert_eq!(a.size(), LayoutSize { width: 64, height: 40 });
}

#[test]
fn compute_size_of_text_wraps_to_content_area() {
    let mut t = styled(text("hello"), None, &vec![]);
    t.compute_size(LayoutSize { width: 0, height: 0 }, &vec![]);
    assert_eq!(t.size(), LayoutSize { width: 40, height: 20 });
    // 100 bytes of medium text: 800 wide, two lines of the 590 wide area.
    let mut long = styled(text(&"a".repeat(100)), None, &vec![]);
    long.compute_size(LayoutSize { width: 0, height: 0 }, &vec![]);
    assert_eq!(long.size(), LayoutSize { width: 590, height: 40 });
    // Exactly 590 wide fits on one line.
    let mut exact = styled(text(&"a".repeat(590 / 8)), None, &vec![]);
    exact.compute_size(LayoutSize { width: 0, height: 0 }, &vec![]);
    assert_eq!(exact.size(), LayoutSize { width: 584, height: 20 });
    // The width counts bytes: "é" takes two.
    let mut accent = styled(text("é"), None, &vec![]);
    accent.compute_size(LayoutSize { width: 0, height: 0 }, &vec![]);
    assert_eq!(accent.size(), LayoutSize { width: 16, height: 20 });
}

#[test]
fn compute_size_of_large_text() {
    let css = sheet("");
    let objects = vec![];
    let h1 = styled(element(ElementKind::H1, &[]), None, &objects);
    let objects = vec![h1];
    let mut t = create_layout_object(&Some(text("abc")), &Some(0), &objects, &css).unwrap();
    assert_eq!(t.style().font_size(), FontSize::XXLarge);
    t.compute_size(LayoutSize { width: 0, height: 0 }, &vec![]);
    assert_eq!(t.size(), LayoutSize { width: 72, height: 60 });
}

#[test]
fn compute_position_after_siblings() {
    let parent = LayoutPoint { x: 5, y: 7 };
    let prev_point = Some(LayoutPoint { x: 10, y: 20 });
    let prev_size = Some(LayoutSize { width: 30, height: 40 });

    let mut block = styled(element(ElementKind::P, &[]), None, &vec![]);
    block.compute_position(parent, LayoutObjectKind::Inline, prev_point, prev_size);
    assert_eq!(block.point(), LayoutPoint { x: 5, y: 60 });

    let mut inline = styled(element(ElementKind::A, &[]), None, &vec![]);
    inline.compute_position(parent, LayoutObjectKind::Inline, prev_point, prev_size);
    assert_eq!(inline.point(), LayoutPoint { x: 40, y: 20 });
    inline.compute_position(parent, LayoutObjectKind::Block, prev_point, prev_size);
    assert_eq!(inline.point(), LayoutPoint { x: 5, y: 60 });

    let mut t = styled(text("x"), None, &vec![]);
    t.compute_position(parent, LayoutObjectKind::Inline, prev_point, prev_size);
    assert_eq!(t.point(), parent);
    t.compute_position(parent, LayoutObjectKind::Inline, None, prev_size);
    assert_eq!(t.point(), parent);
}

#[test]
fn paint_block_element_draws_its_box() {
    let mut o = styled(element(ElementKind::P, &[]), None, &vec![]);
    o.compute_size(LayoutSize { width: 100, height: 0 }, &vec![]);
    let items = o.paint();
    assert_eq!(items.len(), 1);
    match &items[0] {
        DisplayItem::Rect { style, layout_point, layout_size } => {
            assert_eq!(*style, o.style());
            assert_eq!(*layout_point, LayoutPoint { x: 0, y: 0 });
            assert_eq!(*layout_size, LayoutSize { width: 100, height: 0 });
        }
        _ => panic!("expected a box"),
    }
}

#[test]
fn paint_display_none_draws_nothing() {
    let mut o = LayoutObject::new(element(ElementKind::P, &[]), &None);
    o.cascading_style(vec![decl("display", ident("none"))]);
    o.defaulting_style(&element(ElementKind::P, &[]), None);
    assert!(o.paint().is_empty());
}

fn painted_lines(items: &[DisplayItem]) -> Vec<(String, LayoutPoint)> {
    items
        .iter()
        .map(|i| match i {
            DisplayItem::Text { text, layout_point, .. } => (text.clone(), *layout_point),
            _ => panic!("expected text"),
        })
        .collect()
}

#[test]
fn paint_text_joins_words_with_single_spaces() {
    let mut t = styled(text("  hello   world\nfoo  "), None, &vec![]);
    t.compute_position(LayoutPoint { x: 3, y: 4 }, LayoutObjectKind::Block, None, None);
    let lines = painted_lines(&t.paint());
    assert_eq!(lines, vec![("hello world foo".to_string(), LayoutPoint { x: 3, y: 4 })]);
}

#[test]
fn paint_text_breaks_long_lines_at_spaces() {
    // 605 / 8 = 75 characters fit on a line.
    let word = "abcdefghi"; // 9 characters
    let words: Vec<&str> = std::iter::repeat(word).take(12).collect();
    let source = words.join(" "); // 12 * 9 + 11 = 119 characters
    let mut t = styled(text(&source), None, &vec![]);
    let lines = painted_lines(&t.paint());
    // 7 words and 7 spaces take 70 characters; the 8th word would end at 79.
    let first: Vec<&str> = std::iter::repeat(word).take(7).collect();
    let rest: Vec<&str> = std::iter::repeat(word).take(5).collect();
    assert_eq!(
        lines,
        vec![
            (first.join(" "), LayoutPoint { x: 0, y: 0 }),
            (rest.join(" "), LayoutPoint { x: 0, y: 20 }),
        ]
    );
    for (line, _) in &lines {
        assert!(line.len() as i64 * 8 <= 605);
    }
}

#[test]
fn paint_text_breaks_a_long_word_where_the_width_runs_out() {
    let source = "x".repeat(80);
    let mut t = styled(text(&source), None, &vec![]);
    let lines = painted_lines(&t.paint());
    assert_eq!(
        lines,
        vec![
            ("x".repeat(75), LayoutPoint { x: 0, y: 0 }),
            ("x".repeat(5), LayoutPoint { x: 0, y: 20 }),
        ]
    );
}

#[test]
fn paint_large_text_uses_wider_characters() {
    let objects = vec![styled(element(ElementKind::H1, &[]), None, &vec![])];
    let mut t = create_layout_object(&Some(text(&"y".repeat(30))), &Some(0), &objects, &sheet("")).unwrap();
    // 24 wide characters: 605 / 24 = 25 fit on a line.
    let lines = painted_lines(&t.paint());
    assert_eq!(
        lines,
        vec![
            ("y".repeat(25), LayoutPoint { x: 0, y: 0 }),
            ("y".repeat(5), LayoutPoint { x: 0, y: 20 }),
        ]
    );
}

#[test]
fn node_kind_and_equality() {
    let a = styled(text("t"), None, &vec![]);
    assert_eq!(a.node_kind(), text("t"));
    let b = styled(text("u"), None, &vec![]);
    // Layout objects compare by kind.
    assert!(a == b);
    let c = styled(element(ElementKind::P, &[]), None, &vec![]);
    assert!(a != c);
}

#[test]
fn colors_and_display_names() {
    assert_eq!(Color::from_name("red").unwrap().code(), "#ff0000");
    assert!(Color::from_name("nosuch").is_none());
    assert!(Color::from_code("#00ffff").unwrap().same_as(&Color::from_name("aqua").unwrap()));
    assert!(Color::from_code("#123456").is_none());
    assert!(Color::white().same_as(&Color::from_name("white").unwrap()));
    assert_eq!(DisplayType::from_str("block"), Some(DisplayType::Block));
    assert_eq!(DisplayType::from_str("none"), Some(DisplayType::DisplayNone));
    assert_eq!(DisplayType::from_str("grid"), None);
    assert_eq!(ElementKind::H1.name(), "h1");
    let mut s = ComputedStyle::new();
    s.set_font_size(FontSize::XLarge);
    assert_eq!(s.font_size(), FontSize::XLarge);
}

#[test]
fn paint_text_breaks_at_a_byte_offset() {
    // 10 two-byte characters and 70 one-byte ones: 90 bytes, too wide; the
    // break comes at byte 75, which is character 65.
    let source = format!("{}{}", "é".repeat(10), "x".repeat(70));
    let mut t = styled(text(&source), None, &vec![]);
    let lines = painted_lines(&t.paint());
    assert_eq!(
        lines,
        vec![
            (format!("{}{}", "é".repeat(10), "x".repeat(55)), LayoutPoint { x: 0, y: 0 }),
            ("x".repeat(15), LayoutPoint { x: 0, y: 20 }),
        ]
    );
}

#[test]
fn paint_text_trims_white_space_after_a_break() {
    // A tab after the break is white space too, and is trimmed away.
    let source = format!("{}\t{}", "x".repeat(75), "y".repeat(10));
    let mut t = styled(text(&source), None, &vec![]);
    let lines = painted_lines(&t.paint());
    assert_eq!(
        lines,
        vec![
            ("x".repeat(75), LayoutPoint { x: 0, y: 0 }),
            ("y".repeat(10), LayoutPoint { x: 0, y: 20 }),
        ]
    );
}

#[test]
fn later_rules_win() {
    let objects = vec![];
    let css = sheet("p { color: red; display: inline; } p { color: blue; } .x { display: block; }");
    let o = create_layout_object(&Some(element(ElementKind::P, &[("class", "x")])), &None, &objects, &css)
        .unwrap();
    assert_eq!(o.style().color().code(), "#0000ff");
    assert_eq!(o.style().display(), DisplayType::Block);
    assert_eq!(o.kind(), LayoutObjectKind::Block);
}

#[test]
fn defaulting_twice_changes_nothing() {
    let parent = styled(element(ElementKind::H2, &[]), None, &vec![]);
    let mut s = ComputedStyle::new();
    s.defaulting(&text("x"), Some(parent.style()));
    let once = s.clone();
    s.defaulting(&text("x"), Some(parent.style()));
    assert_eq!(s, once);
    assert_eq!(s.font_size(), FontSize::XLarge);
    assert_eq!(s.display(), DisplayType::Inline);
}

#[test]
fn create_without_node_ignores_the_parent() {
    let objects = vec![];
    assert!(create_layout_object(&None, &Some(7), &objects, &sheet("p { color: red; }")).is_none());
}
