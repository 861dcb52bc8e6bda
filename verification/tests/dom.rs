use renderkit::dom::{AttrMap, Node, NodeType};

#[test]
fn test_text_node() {
    let node = Node::text("Hello, world!".to_string());
    assert!(matches!(node.node_type, NodeType::Text(_)));
    assert_eq!(node.children.len(), 0);
}

#[test]
fn test_element_node() {
    let mut attrs = AttrMap::new();
    attrs.insert("class".to_string(), "greeting".to_string());

    let text_node = Node::text("Hello, world!".to_string());

    let elem = Node::elem("div".to_string(), attrs, vec![text_node]);

    assert!(matches!(elem.node_type, NodeType::Element(_)));
    assert_eq!(elem.children.len(), 1);
}

#[test]
fn test_pretty_print() {
    let mut attrs = AttrMap::new();
    attrs.insert("class".to_string(), "greeting".to_string());

    let text_node = Node::text("Hello, world!".to_string());

    let elem = Node::elem("div".to_string(), attrs, vec![text_node]);

    let output = elem.pretty_print(0);

    assert!(output.contains("<div"));
    assert!(output.contains("class=\"greeting\""));
    assert!(output.contains("Hello, world!"));
    assert!(output.contains("</div>"));
}

#[test]
fn pretty_print_writes_one_line_for_each_tag_and_text() {
    let mut attrs = AttrMap::new();
    attrs.insert("id".to_string(), "a".to_string());
    attrs.insert("class".to_string(), "x y".to_string());
    attrs.insert("id".to_string(), "b".to_string());
    let inner = Node::elem("p".to_string(), AttrMap::new(), vec![Node::text("Hi".to_string())]);
    let elem = Node::elem("div".to_string(), attrs, vec![inner, Node::text("there".to_string())]);
    assert_eq!(
        elem.pretty_print(1),
        " <div id=\"b\" class=\"x y\">\n   <p>\n     Hi\n   </p>\n   there\n </div>\n"
    );
}

#[test]
fn pretty_print_of_text_is_the_indented_text() {
    assert_eq!(Node::text("x".to_string()).pretty_print(3), "   x\n");
    assert_eq!(Node::text(String::new()).pretty_print(0), "\n");
}

#[test]
fn a_map_keeps_the_last_value_of_a_key() {
    let mut attrs = AttrMap::new();
    assert_eq!(attrs.len(), 0);
    assert!(attrs.get("a").is_none());
    attrs.insert("a".to_string(), "1".to_string());
    attrs.insert("b".to_string(), "2".to_string());
    attrs.insert("a".to_string(), "3".to_string());
    assert_eq!(attrs.len(), 2);
    assert_eq!(attrs.get("a").unwrap(), "3");
    assert_eq!(attrs.get("b").unwrap(), "2");
    assert!(attrs.contains_key("b"));
    assert!(!attrs.contains_key("c"));
    assert_eq!(attrs.key_at(0), "a");
    assert_eq!(attrs.value_at(0), "3");
    assert_eq!(attrs.key_at(1), "b");
}
