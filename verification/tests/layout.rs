use renderkit::css::{Unit, Value};
use renderkit::dom::{AttrMap, ElementData, Node, NodeType};
use renderkit::fixed::Fixed;
use renderkit::layout::{build_layout_tree, BoxType, Dimensions, EdgeSizes, LayoutBox, Rect};
use renderkit::style::{PropertyMap, StyledNode};

/// Create a test styled node with specific display and width properties
fn create_test_styled_node(tag: &str, display: &str, width: Option<Fixed>) -> StyledNode<'static> {
    let mut attrs = AttrMap::new();
    attrs.insert("display".to_string(), display.to_string());

    let elem = ElementData { tag_name: tag.to_string(), attrs };

    let node = Node { children: vec![], node_type: NodeType::Element(elem) };

    let mut specified_values = PropertyMap::new();
    specified_values.insert("display".to_string(), Value::Keyword(display.to_string()));

    if let Some(w) = width {
        specified_values.insert("width".to_string(), Value::Length(w, Unit::Px));
    }

    StyledNode { node: Box::leak(Box::new(node)), specified_values, children: vec![] }
}

/// Create a test dimensions with specific content width and height
fn create_test_dimensions(width: Fixed, height: Fixed) -> Dimensions {
    Dimensions {
        content: Rect { x: Fixed::from_int(0), y: Fixed::from_int(0), width, height },
        padding: EdgeSizes::default(),
        border: EdgeSizes::default(),
        margin: EdgeSizes::default(),
    }
}

fn block(props: Vec<(&str, Value)>) -> &'static StyledNode<'static> {
    let node: &'static Node = Box::leak(Box::new(Node::text(String::new())));
    let mut specified_values = PropertyMap::new();
    specified_values.insert("display".to_string(), Value::Keyword("block".to_string()));
    for (name, value) in props {
        specified_values.insert(name.to_string(), value);
    }
    Box::leak(Box::new(StyledNode { node, specified_values, children: vec![] }))
}

fn with_children(
    display: &str,
    children: Vec<StyledNode<'static>>,
) -> &'static StyledNode<'static> {
    let node: &'static Node = Box::leak(Box::new(Node::text(String::new())));
    let mut specified_values = PropertyMap::new();
    specified_values.insert("display".to_string(), Value::Keyword(display.to_string()));
    Box::leak(Box::new(StyledNode { node, specified_values, children }))
}

fn px(n: i32) -> Value {
    Value::Length(Fixed::from_int(n), Unit::Px)
}

fn auto() -> Value {
    Value::Keyword("auto".to_string())
}

fn f(n: i32) -> Fixed {
    Fixed::from_int(n)
}

fn width_of(props: Vec<(&str, Value)>, containing: i32) -> Dimensions {
    let mut layout_box = LayoutBox::new(BoxType::BlockNode(block(props)));
    layout_box.calculate_block_width(&create_test_dimensions(f(containing), f(0)));
    layout_box.dimensions
}

#[test]
fn test_layout_box_creation() {
    let style_node = create_test_styled_node("div", "block", Some(Fixed::from_int(100)));
    let layout_box = LayoutBox::new(BoxType::BlockNode(&style_node));

    assert!(matches!(layout_box.box_type, BoxType::BlockNode(_)));
    assert_eq!(layout_box.children.len(), 0);
}

#[test]
fn test_block_width_calculation() {
    let style_node = create_test_styled_node("div", "block", Some(Fixed::from_int(200)));
    let containing_block = create_test_dimensions(Fixed::from_int(300), Fixed::from_int(200));

    let mut layout_box = LayoutBox::new(BoxType::BlockNode(&style_node));
    layout_box.calculate_block_width(&containing_block);

    assert_eq!(layout_box.dimensions.content.width, Fixed::from_int(200));
}

#[test]
fn test_block_width_auto() {
    let style_node = create_test_styled_node("div", "block", None);
    let containing_block = create_test_dimensions(Fixed::from_int(300), Fixed::from_int(200));

    let mut layout_box = LayoutBox::new(BoxType::BlockNode(&style_node));
    layout_box.calculate_block_width(&containing_block);

    assert_eq!(layout_box.dimensions.content.width, Fixed::from_int(300));
}

#[test]
fn test_block_position_calculation() {
    let style_node = create_test_styled_node("div", "block", Some(Fixed::from_int(200)));
    let mut containing_block = create_test_dimensions(Fixed::from_int(300), Fixed::from_int(200));
    containing_block.content.height = Fixed::from_int(100);

    let mut layout_box = LayoutBox::new(BoxType::BlockNode(&style_node));
    layout_box.calculate_block_width(&containing_block);
    layout_box.calculate_block_position(&containing_block);

    assert_eq!(layout_box.dimensions.content.x, Fixed::from_int(0));

    assert_eq!(layout_box.dimensions.content.y, Fixed::from_int(100));
}

#[test]
fn test_nested_block_layout() {
    let parent_style_node = create_test_styled_node("div", "block", Some(Fixed::from_int(300)));
    let containing_block = create_test_dimensions(Fixed::from_int(400), Fixed::from_int(200));

    let child_style_node = create_test_styled_node("p", "block", Some(Fixed::from_int(250)));

    let mut parent_layout_box = LayoutBox::new(BoxType::BlockNode(&parent_style_node));
    let child_layout_box = LayoutBox::new(BoxType::BlockNode(&child_style_node));

    parent_layout_box.children.push(child_layout_box);

    parent_layout_box.layout(&containing_block);

    assert_eq!(parent_layout_box.dimensions.content.width, Fixed::from_int(300));

    let child = &parent_layout_box.children[0];
    assert_eq!(child.dimensions.content.width, Fixed::from_int(250));
}

#[test]
fn test_margin_handling() {
    let mut attrs = AttrMap::new();
    attrs.insert("display".to_string(), "block".to_string());
    attrs.insert("margin-left".to_string(), "20px".to_string());
    attrs.insert("margin-right".to_string(), "auto".to_string());

    let elem = ElementData { tag_name: "div".to_string(), attrs };

    let node = Node { children: vec![], node_type: NodeType::Element(elem) };

    let mut specified_values = PropertyMap::new();
    specified_values.insert("display".to_string(), Value::Keyword("block".to_string()));
    specified_values.insert("margin-left".to_string(), Value::Length(Fixed::from_int(20), Unit::Px));
    specified_values.insert("margin-right".to_string(), Value::Keyword("auto".to_string()));
    specified_values.insert("width".to_string(), Value::Length(Fixed::from_int(200), Unit::Px));

    let style_node =
        StyledNode { node: Box::leak(Box::new(node)), specified_values, children: vec![] };

    let containing_block = create_test_dimensions(Fixed::from_int(300), Fixed::from_int(200));

    let mut layout_box = LayoutBox::new(BoxType::BlockNode(&style_node));
    layout_box.calculate_block_width(&containing_block);

    assert_eq!(layout_box.dimensions.margin.left, Fixed::from_int(20));
    assert_eq!(layout_box.dimensions.margin.right, Fixed::from_int(80));
}

#[test]
fn an_unset_width_fills_the_containing_block() {
    let d = width_of(vec![], 300);
    assert_eq!(d.content.width, f(300));
    assert_eq!(d.margin, EdgeSizes::zero());
    assert_eq!(d.border, EdgeSizes::zero());
    assert_eq!(d.padding, EdgeSizes::zero());
}

#[test]
fn two_auto_margins_centre_the_box() {
    let d = width_of(vec![("width", px(200)), ("margin-left", auto()), ("margin-right", auto())], 300);
    assert_eq!(d.margin.left, f(50));
    assert_eq!(d.margin.right, f(50));
    assert_eq!(d.content.width, f(200));
    let shorthand = width_of(vec![("width", px(200)), ("margin", auto())], 301);
    assert_eq!(shorthand.margin.left, Fixed(50_500));
    assert_eq!(shorthand.margin.right, Fixed(50_500));
}

#[test]
fn auto_margins_round_toward_zero_when_halved() {
    let wide = width_of(
        vec![
            ("width", Value::Length(Fixed(200_001), Unit::Px)),
            ("margin", auto()),
        ],
        300,
    );
    assert_eq!(wide.margin.left, Fixed(49_999));
    assert_eq!(wide.margin.right, Fixed(49_999));
    let narrow = width_of(
        vec![
            ("width", Value::Length(Fixed(300_001), Unit::Px)),
            ("margin", auto()),
        ],
        300,
    );
    assert_eq!(narrow.margin.left, Fixed(0));
    let narrower = width_of(
        vec![
            ("width", Value::Length(Fixed(300_003), Unit::Px)),
            ("margin", auto()),
        ],
        300,
    );
    assert_eq!(narrower.margin.left, Fixed(-1));
    assert_eq!(narrower.margin.right, Fixed(-1));
}

#[test]
fn with_nothing_auto_the_right_margin_takes_the_underflow() {
    let d = width_of(
        vec![("width", px(100)), ("margin-left", px(10)), ("margin-right", px(20)), ("padding", px(5)), ("border-width", px(1))],
        300,
    );
    assert_eq!(d.content.width, f(100));
    assert_eq!(d.margin.left, f(10));
    assert_eq!(d.padding.left, f(5));
    assert_eq!(d.padding.right, f(5));
    assert_eq!(d.border.left, f(1));
    assert_eq!(d.border.right, f(1));
    // 300 - (10 + 20 + 1 + 1 + 5 + 5 + 100) = 158
    assert_eq!(d.margin.right, f(178));
    let over = width_of(vec![("width", px(400))], 300);
    assert_eq!(over.content.width, f(400));
    assert_eq!(over.margin.right, f(-100));
}

#[test]
fn one_auto_margin_takes_the_underflow() {
    let left = width_of(vec![("width", px(200)), ("margin-left", auto()), ("margin-right", px(30))], 300);
    assert_eq!(left.margin.left, f(70));
    assert_eq!(left.margin.right, f(30));
    let right = width_of(vec![("width", px(200)), ("margin-left", px(30)), ("margin-right", auto())], 300);
    assert_eq!(right.margin.left, f(30));
    assert_eq!(right.margin.right, f(70));
    let negative = width_of(vec![("width", px(400)), ("margin-left", auto())], 300);
    assert_eq!(negative.margin.left, f(-100));
}

#[test]
fn an_auto_width_takes_the_underflow_and_auto_margins_count_nothing() {
    let d = width_of(
        vec![("width", auto()), ("margin-left", auto()), ("margin-right", px(40)), ("padding-left", px(10))],
        300,
    );
    assert_eq!(d.content.width, f(250));
    assert_eq!(d.margin.left, f(0));
    assert_eq!(d.margin.right, f(40));
    assert_eq!(d.padding.left, f(10));
}

#[test]
fn an_auto_width_is_never_negative() {
    let d = width_of(vec![("margin-left", px(200)), ("margin-right", px(150))], 300);
    assert_eq!(d.content.width, f(0));
    assert_eq!(d.margin.left, f(200));
    assert_eq!(d.margin.right, f(100));
}

#[test]
fn a_side_counts_before_the_shorthand() {
    let d = width_of(
        vec![
            ("width", px(10)),
            ("margin", px(1)),
            ("margin-left", px(2)),
            ("padding", px(3)),
            ("padding-right", px(4)),
            ("border-width", px(5)),
            ("border-left-width", px(6)),
        ],
        100,
    );
    assert_eq!(d.margin.left, f(2));
    assert_eq!(d.padding.left, f(3));
    assert_eq!(d.padding.right, f(4));
    assert_eq!(d.border.left, f(6));
    assert_eq!(d.border.right, f(5));
    // 100 - (2 + 1 + 6 + 5 + 3 + 4 + 10) = 69
    assert_eq!(d.margin.right, f(70));
}

#[test]
fn what_is_not_a_length_counts_zero() {
    let d = width_of(vec![("width", Value::Keyword("wide".to_string())), ("padding", auto())], 300);
    assert_eq!(d.content.width, f(0));
    assert_eq!(d.padding.left, f(0));
    assert_eq!(d.margin.right, f(300));
}

#[test]
fn measures_out_of_range_are_clamped() {
    let mut layout_box = LayoutBox::new(BoxType::BlockNode(block(vec![(
        "margin-left",
        Value::Length(Fixed(i64::MIN), Unit::Px),
    )])));
    layout_box.calculate_block_width(&create_test_dimensions(Fixed(i64::MAX), f(0)));
    assert_eq!(layout_box.dimensions.content.width, Fixed(i64::MAX));
    assert_eq!(layout_box.dimensions.margin.left, Fixed(i64::MIN));
}

#[test]
fn a_block_is_placed_inside_its_own_edges_and_below_what_is_there() {
    let style = block(vec![
        ("width", px(100)),
        ("margin", px(1)),
        ("margin-top", px(2)),
        ("border-width", px(10)),
        ("border-bottom-width", px(20)),
        ("padding", px(100)),
        ("padding-top", px(200)),
    ]);
    let mut containing = create_test_dimensions(f(1000), f(50));
    containing.content.x = f(7);
    containing.content.y = f(9);
    let mut layout_box = LayoutBox::new(BoxType::BlockNode(style));
    layout_box.calculate_block_width(&containing);
    layout_box.calculate_block_position(&containing);
    let d = layout_box.dimensions;
    assert_eq!(d.margin.top, f(2));
    assert_eq!(d.margin.bottom, f(1));
    assert_eq!(d.border.top, f(10));
    assert_eq!(d.border.bottom, f(20));
    assert_eq!(d.padding.top, f(200));
    assert_eq!(d.padding.bottom, f(100));
    assert_eq!(d.content.x, f(7 + 1 + 10 + 100));
    assert_eq!(d.content.y, f(9 + 50 + 2 + 10 + 200));
}

#[test]
fn siblings_are_stacked_and_make_the_parent_as_high_as_their_sum() {
    let mut parent = LayoutBox::new(BoxType::BlockNode(block(vec![])));
    parent.children.push(LayoutBox::new(BoxType::BlockNode(block(vec![("height", px(40))]))));
    parent.children.push(LayoutBox::new(BoxType::BlockNode(block(vec![("height", px(60))]))));
    parent.layout(&create_test_dimensions(f(300), f(0)));
    let first = &parent.children[0].dimensions;
    let second = &parent.children[1].dimensions;
    assert_eq!(first.content.y, f(0));
    assert_eq!(second.content.y, f(40));
    assert_eq!(second.content.y.0 - first.content.y.0, 40_000);
    assert_eq!(parent.dimensions.content.height, f(100));
    assert_eq!(first.content.width, f(300));
}

#[test]
fn margins_borders_and_paddings_of_children_add_to_the_height() {
    let mut parent = LayoutBox::new(BoxType::BlockNode(block(vec![("padding", px(5))])));
    parent.children.push(LayoutBox::new(BoxType::BlockNode(block(vec![
        ("height", px(40)),
        ("margin", px(1)),
        ("border-width", px(2)),
        ("padding", px(3)),
    ]))));
    parent.children.push(LayoutBox::new(BoxType::BlockNode(block(vec![("height", px(10))]))));
    let mut containing = create_test_dimensions(f(300), f(20));
    containing.content.y = f(100);
    parent.layout(&containing);
    assert_eq!(parent.dimensions.content.x, f(5));
    assert_eq!(parent.dimensions.content.y, f(125));
    assert_eq!(parent.dimensions.content.width, f(290));
    assert_eq!(parent.children[0].dimensions.content.x, f(11));
    assert_eq!(parent.children[0].dimensions.content.y, f(131));
    assert_eq!(parent.children[0].dimensions.content.width, f(278));
    assert_eq!(parent.children[1].dimensions.content.y, f(125 + 52));
    assert_eq!(parent.dimensions.content.height, f(62));
}

#[test]
fn a_set_height_replaces_the_height_of_the_children() {
    let mut parent = LayoutBox::new(BoxType::BlockNode(block(vec![("height", px(7))])));
    parent.children.push(LayoutBox::new(BoxType::BlockNode(block(vec![("height", px(40))]))));
    parent.layout(&create_test_dimensions(f(300), f(0)));
    assert_eq!(parent.dimensions.content.height, f(7));
    let mut keyword = LayoutBox::new(BoxType::BlockNode(block(vec![("height", auto())])));
    keyword.children.push(LayoutBox::new(BoxType::BlockNode(block(vec![("height", px(40))]))));
    keyword.layout(&create_test_dimensions(f(300), f(0)));
    assert_eq!(keyword.dimensions.content.height, f(40));
}

#[test]
fn an_inline_box_is_left_alone() {
    let style = create_test_styled_node("span", "inline", Some(f(10)));
    let mut layout_box = LayoutBox::new(BoxType::InlineNode(&style));
    layout_box.children.push(LayoutBox::new(BoxType::AnonymousBlock));
    layout_box.layout(&create_test_dimensions(f(300), f(0)));
    assert_eq!(layout_box.dimensions, Dimensions::default());
    assert_eq!(layout_box.children[0].dimensions, Dimensions::default());
}

#[test]
fn the_layout_tree_leaves_out_what_is_not_displayed() {
    let root = with_children(
        "block",
        vec![
            create_test_styled_node("a", "block", None),
            create_test_styled_node("b", "none", None),
            create_test_styled_node("c", "inline", None),
        ],
    );
    let tree = build_layout_tree(root);
    assert!(matches!(tree.box_type, BoxType::BlockNode(_)));
    assert_eq!(tree.dimensions, Dimensions::default());
    assert_eq!(tree.children.len(), 2);
    assert!(matches!(tree.children[0].box_type, BoxType::BlockNode(s) if std::ptr::eq(s, &root.children[0])));
    assert!(matches!(tree.children[1].box_type, BoxType::AnonymousBlock));
    assert_eq!(tree.children[1].children.len(), 1);
    assert!(matches!(tree.children[1].children[0].box_type, BoxType::InlineNode(s) if std::ptr::eq(s, &root.children[2])));
}

#[test]
fn a_block_inside_an_inline_box_gets_an_anonymous_block() {
    let root = with_children(
        "inline",
        vec![
            create_test_styled_node("a", "block", None),
            create_test_styled_node("c", "inline", None),
        ],
    );
    let tree = build_layout_tree(root);
    assert!(matches!(tree.box_type, BoxType::InlineNode(_)));
    assert_eq!(tree.children.len(), 2);
    assert!(matches!(tree.children[0].box_type, BoxType::AnonymousBlock));
    assert!(matches!(tree.children[0].children[0].box_type, BoxType::BlockNode(_)));
    assert!(matches!(tree.children[1].box_type, BoxType::InlineNode(_)));
}

#[test]
fn the_boxes_round_the_content_are_nested() {
    let d = Dimensions {
        content: Rect { x: f(10), y: f(20), width: f(100), height: f(50) },
        padding: EdgeSizes { left: f(1), right: f(2), top: f(3), bottom: f(4) },
        border: EdgeSizes { left: f(5), right: f(6), top: f(7), bottom: f(8) },
        margin: EdgeSizes { left: f(9), right: f(10), top: f(11), bottom: f(12) },
    };
    assert_eq!(d.content_box(), d.content);
    assert_eq!(d.content_rect(), d.content);
    assert_eq!(d.padding_box(), Rect { x: f(9), y: f(17), width: f(103), height: f(57) });
    assert_eq!(d.border_box(), Rect { x: f(4), y: f(10), width: f(114), height: f(72) });
    assert_eq!(d.margin_box(), Rect { x: f(-5), y: f(-1), width: f(133), height: f(95) });
    assert_eq!(d.padding_rect(), d.padding_box());
    assert_eq!(d.border_rect(), d.border_box());
    assert_eq!(d.margin_rect(), d.margin_box());
    assert_eq!(d.content.expanded_by(d.padding), d.padding_box());
    assert_eq!(d.padding_box().expanded_by(d.border), d.border_box());
}

#[test]
fn with_edges_of_zero_the_boxes_are_the_content() {
    let d = create_test_dimensions(f(100), f(50));
    assert_eq!(d.padding_box(), d.content);
    assert_eq!(d.border_box(), d.content);
    assert_eq!(d.margin_box(), d.content);
    assert_eq!(EdgeSizes::zero(), EdgeSizes::default());
    assert_eq!(EdgeSizes::zero().left, Fixed(0));
}

#[test]
fn a_tree_can_be_laid_out_unless_layout_reaches_an_anonymous_block() {
    let mut parent = LayoutBox::new(BoxType::BlockNode(block(vec![])));
    assert!(parent.layout_ready());
    parent.children.push(LayoutBox::new(BoxType::BlockNode(block(vec![]))));
    let inline = create_test_styled_node("span", "inline", None);
    let mut inline_box = LayoutBox::new(BoxType::InlineNode(&inline));
    inline_box.children.push(LayoutBox::new(BoxType::AnonymousBlock));
    assert!(inline_box.layout_ready());
    parent.children.push(inline_box);
    assert!(parent.layout_ready());
    parent.children[0].children.push(LayoutBox::new(BoxType::AnonymousBlock));
    assert!(!parent.layout_ready());
    assert!(!LayoutBox::new(BoxType::AnonymousBlock).layout_ready());
}
