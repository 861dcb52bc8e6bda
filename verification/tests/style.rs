use renderkit::css::{parse, Color, Selector, SimpleSelector, Unit, Value};
use renderkit::dom::{AttrMap, ElementData, Node};
use renderkit::fixed::Fixed;
use renderkit::style::{
    match_rule, matching_rules, sort_matched, specified_values, style_tree,
    Display, PropertyMap, StyledNode,
};

fn element(tag: &str, id: Option<&str>, class: Option<&str>) -> ElementData {
    let mut attrs = AttrMap::new();
    if let Some(id) = id {
        attrs.insert("id".to_string(), id.to_string());
    }
    if let Some(class) = class {
        attrs.insert("class".to_string(), class.to_string());
    }
    ElementData { tag_name: tag.to_string(), attrs }
}

fn styled(props: Vec<(&str, Value)>) -> StyledNode<'static> {
    let node: &'static Node = Box::leak(Box::new(Node::text(String::new())));
    let mut specified_values = PropertyMap::new();
    for (name, value) in props {
        specified_values.insert(name.to_string(), value);
    }
    StyledNode { node, specified_values, children: vec![] }
}

fn px(n: i32) -> Value {
    Value::Length(Fixed::from_int(n), Unit::Px)
}

fn keyword(s: &str) -> Value {
    Value::Keyword(s.to_string())
}

#[test]
fn test_matches_simple_selector() {
    let mut attrs = AttrMap::new();
    attrs.insert("class".to_string(), "test-class".to_string());
    attrs.insert("id".to_string(), "test-id".to_string());

    let elem = ElementData { tag_name: "div".to_string(), attrs };

    let tag_selector = Selector::Simple(SimpleSelector {
        tag_name: Some("div".to_string()),
        id: None,
        class: vec![],
    });
    assert!(renderkit::style::matches(&elem, &tag_selector));

    let class_selector = Selector::Simple(SimpleSelector {
        tag_name: None,
        id: None,
        class: vec!["test-class".to_string()],
    });
    assert!(renderkit::style::matches(&elem, &class_selector));

    let id_selector = Selector::Simple(SimpleSelector {
        tag_name: None,
        id: Some("test-id".to_string()),
        class: vec![],
    });
    assert!(renderkit::style::matches(&elem, &id_selector));

    let non_match_selector = Selector::Simple(SimpleSelector {
        tag_name: Some("span".to_string()),
        id: None,
        class: vec![],
    });
    assert!(!renderkit::style::matches(&elem, &non_match_selector));
}

#[test]
fn a_selector_needs_each_of_its_classes() {
    let elem = element("p", None, Some("a  b\tc\n"));
    let both = Selector::Simple(SimpleSelector {
        tag_name: None,
        id: None,
        class: vec!["c".to_string(), "a".to_string()],
    });
    assert!(renderkit::style::matches(&elem, &both));
    let one_missing = Selector::Simple(SimpleSelector {
        tag_name: None,
        id: None,
        class: vec!["a".to_string(), "d".to_string()],
    });
    assert!(!renderkit::style::matches(&elem, &one_missing));
    let part_of_a_token = Selector::Simple(SimpleSelector {
        tag_name: None,
        id: None,
        class: vec!["a  b".to_string()],
    });
    assert!(!renderkit::style::matches(&elem, &part_of_a_token));
    let empty = Selector::Simple(SimpleSelector {
        tag_name: None,
        id: None,
        class: vec![String::new()],
    });
    assert!(!renderkit::style::matches(&elem, &empty));
}

#[test]
fn a_selector_with_an_id_needs_an_element_with_that_id() {
    let with_id = Selector::Simple(SimpleSelector {
        tag_name: None,
        id: Some("x".to_string()),
        class: vec![],
    });
    assert!(!renderkit::style::matches(&element("p", None, None), &with_id));
    assert!(!renderkit::style::matches(&element("p", Some("y"), None), &with_id));
    assert!(renderkit::style::matches(&element("p", Some("x"), None), &with_id));
    let universal = Selector::Simple(SimpleSelector { tag_name: None, id: None, class: vec![] });
    assert!(renderkit::style::matches(&element("p", None, None), &universal));
}

#[test]
fn id_and_classes_are_read_from_the_attributes() {
    let elem = element("p", Some("main"), Some(" one two  one "));
    assert_eq!(elem.id().unwrap(), "main");
    let mut classes = elem.classes();
    classes.sort();
    classes.dedup();
    assert_eq!(classes, vec!["one", "two"]);
    let bare = element("p", None, None);
    assert!(bare.id().is_none());
    assert!(bare.classes().is_empty());
}

fn classes_of(class: &str) -> Vec<String> {
    let mut classes = element("p", None, Some(class)).classes();
    classes.sort();
    classes
}

#[test]
fn classes_are_separated_by_any_white_space() {
    assert_eq!(classes_of("a b"), vec!["a", "b"]);
    assert_eq!(classes_of("  a\t\tb\u{a0}c\u{2003}d\n"), vec!["a", "b", "c", "d"]);
    assert_eq!(classes_of(""), Vec::<String>::new());
    assert_eq!(classes_of(" \n "), Vec::<String>::new());
    assert_eq!(classes_of("abc"), vec!["abc"]);
}

#[test]
fn a_rule_applies_with_its_most_specific_matching_selector() {
    let sheet = parse("p, .a, #x.a { k: v; } span { k: v; }".to_string());
    assert_eq!(match_rule(&element("p", Some("x"), Some("a")), &sheet.rules[0]), Some((1, 1, 0)));
    assert_eq!(match_rule(&element("p", None, Some("a")), &sheet.rules[0]), Some((0, 1, 0)));
    assert_eq!(match_rule(&element("p", None, None), &sheet.rules[0]), Some((0, 0, 1)));
    assert_eq!(match_rule(&element("div", None, None), &sheet.rules[0]), None);
    assert_eq!(
        matching_rules(&element("span", None, Some("a")), &sheet),
        vec![((0, 1, 0), 0), ((0, 0, 1), 1)]
    );
}

#[test]
fn the_greatest_specificity_counts_whatever_the_order_of_the_selectors() {
    let rule = renderkit::css::Rule {
        selectors: vec![
            Selector::Simple(SimpleSelector {
                tag_name: Some("p".to_string()),
                id: None,
                class: vec![],
            }),
            Selector::Simple(SimpleSelector {
                tag_name: None,
                id: Some("x".to_string()),
                class: vec![],
            }),
        ],
        declarations: vec![],
    };
    assert_eq!(match_rule(&element("p", Some("x"), None), &rule), Some((1, 0, 0)));
}

#[test]
fn matched_rules_are_sorted_by_specificity_and_then_by_place() {
    let matched = vec![((0, 1, 0), 0), ((1, 0, 0), 1), ((0, 0, 2), 2), ((0, 1, 0), 3), ((0, 0, 2), 5)];
    assert_eq!(
        sort_matched(&matched),
        vec![((0, 0, 2), 2), ((0, 0, 2), 5), ((0, 1, 0), 0), ((0, 1, 0), 3), ((1, 0, 0), 1)]
    );
    assert_eq!(sort_matched(&vec![]), vec![]);
}

#[test]
fn the_more_specific_rule_wins_in_either_order() {
    let elem = element("div", Some("main"), Some("note"));
    let red = Value::ColorValue(Color { r: 255, g: 0, b: 0, a: 255 });
    let first = parse(".note { color: #0000ff; } #main { color: #ff0000; }".to_string());
    let second = parse("#main { color: #ff0000; } .note { color: #0000ff; }".to_string());
    assert_eq!(specified_values(&elem, &first).get("color"), Some(&red));
    assert_eq!(specified_values(&elem, &second).get("color"), Some(&red));
}

#[test]
fn of_equally_specific_rules_the_later_wins() {
    let elem = element("div", None, Some("a b"));
    let sheet = parse(".a { x: one; y: one; } .b { x: two; } div { x: three; z: low; }".to_string());
    let values = specified_values(&elem, &sheet);
    assert_eq!(values.get("x"), Some(&keyword("two")));
    assert_eq!(values.get("y"), Some(&keyword("one")));
    assert_eq!(values.get("z"), Some(&keyword("low")));
    assert_eq!(values.len(), 3);
}

#[test]
fn within_a_rule_the_later_declaration_wins() {
    let elem = element("div", None, None);
    let sheet = parse("div { x: one; x: two; }".to_string());
    assert_eq!(specified_values(&elem, &sheet).get("x"), Some(&keyword("two")));
}

#[test]
fn an_element_that_no_rule_matches_has_no_properties() {
    let sheet = parse("p { x: one; }".to_string());
    assert_eq!(specified_values(&element("div", None, None), &sheet).len(), 0);
}

#[test]
fn the_styled_tree_has_the_shape_of_the_document() {
    let document = renderkit::html::parse("<div><p>text</p><span></span></div>".to_string());
    let sheet = parse("p { display: block; } div { display: none; } span { a: b; }".to_string());
    let tree = style_tree(&document, &sheet);
    assert_eq!(tree.children.len(), 2);
    assert_eq!(tree.display(), Display::Hidden);
    assert_eq!(tree.children[0].display(), Display::Block);
    assert_eq!(tree.children[0].children.len(), 1);
    assert_eq!(tree.children[0].children[0].specified_values.len(), 0);
    assert_eq!(tree.children[0].children[0].display(), Display::Inline);
    assert_eq!(tree.children[1].display(), Display::Inline);
    assert_eq!(tree.children[1].value("a"), Some(keyword("b")));
    assert!(std::ptr::eq(tree.children[1].node, &document.children[1]));
}

#[test]
fn display_is_inline_unless_it_is_the_keyword_block_or_none() {
    assert_eq!(styled(vec![]).display(), Display::Inline);
    assert_eq!(styled(vec![("display", keyword("block"))]).display(), Display::Block);
    assert_eq!(styled(vec![("display", keyword("none"))]).display(), Display::Hidden);
    assert_eq!(styled(vec![("display", keyword("inline"))]).display(), Display::Inline);
    assert_eq!(styled(vec![("display", keyword("Block"))]).display(), Display::Inline);
    assert_eq!(styled(vec![("display", px(1))]).display(), Display::Inline);
}

#[test]
fn lookup_falls_back_to_the_shorthand_and_then_to_the_default() {
    let zero = px(0);
    let shorthand = styled(vec![("margin", px(10))]);
    assert_eq!(shorthand.lookup("margin-left", "margin", &zero), px(10));
    let both = styled(vec![("margin", px(10)), ("margin-left", px(5))]);
    assert_eq!(both.lookup("margin-left", "margin", &zero), px(5));
    let neither = styled(vec![("padding", px(3))]);
    assert_eq!(neither.lookup("margin-left", "margin", &zero), zero);
    assert_eq!(neither.value("margin"), None);
    assert_eq!(neither.value("padding"), Some(px(3)));
}
