use renderkit::css::{Color, Unit, Value};
use renderkit::dom::{AttrMap, ElementData, Node, NodeType};
use renderkit::fixed::Fixed;
use renderkit::layout::{BoxType, EdgeSizes, LayoutBox, Rect as LayoutRect};
use renderkit::painting::{
    build_display_list, get_color, paint, white, Canvas, DisplayCommand, Rect,
};
use renderkit::style::{PropertyMap, StyledNode};

/// Create a test styled node with a background color
fn create_test_styled_node(tag: &str, background: Color) -> StyledNode<'static> {
    let mut attrs = AttrMap::new();
    attrs.insert("display".to_string(), "block".to_string());

    let elem = ElementData { tag_name: tag.to_string(), attrs };

    let node = Node { children: vec![], node_type: NodeType::Element(elem) };

    let mut specified_values = PropertyMap::new();
    specified_values.insert("display".to_string(), Value::Keyword("block".to_string()));
    specified_values.insert("background".to_string(), Value::ColorValue(background.clone()));

    StyledNode { node: Box::leak(Box::new(node)), specified_values, children: vec![] }
}

fn styled(props: Vec<(&str, Value)>) -> &'static StyledNode<'static> {
    let node: &'static Node = Box::leak(Box::new(Node::text(String::new())));
    let mut specified_values = PropertyMap::new();
    for (name, value) in props {
        specified_values.insert(name.to_string(), value);
    }
    Box::leak(Box::new(StyledNode { node, specified_values, children: vec![] }))
}

fn f(n: i32) -> Fixed {
    Fixed::from_int(n)
}

fn rect(x: i32, y: i32, width: i32, height: i32) -> Rect {
    Rect { x: f(x), y: f(y), width: f(width), height: f(height) }
}

fn boxed(style: &'static StyledNode<'static>, x: i32, y: i32, w: i32, h: i32) -> LayoutBox<'static> {
    let mut layout_box = LayoutBox::new(BoxType::BlockNode(style));
    layout_box.dimensions.content = LayoutRect { x: f(x), y: f(y), width: f(w), height: f(h) };
    layout_box
}

const RED: Color = Color { r: 255, g: 0, b: 0, a: 255 };
const BLUE: Color = Color { r: 0, g: 0, b: 255, a: 255 };
const GREEN: Color = Color { r: 0, g: 255, b: 0, a: 255 };
const WHITE: Color = Color { r: 255, g: 255, b: 255, a: 255 };

#[test]
fn test_canvas_creation() {
    let canvas = Canvas::new(100, 100);
    assert_eq!(canvas.width, 100);
    assert_eq!(canvas.height, 100);
    assert_eq!(canvas.pixels.len(), 10000);
}

#[test]
fn test_display_list_generation() {
    let red = Color { r: 255, g: 0, b: 0, a: 255 };
    let style_node = create_test_styled_node("div", red.clone());

    let mut layout_box = LayoutBox::new(BoxType::BlockNode(&style_node));

    layout_box.dimensions.content.x = Fixed::from_int(0);
    layout_box.dimensions.content.y = Fixed::from_int(0);
    layout_box.dimensions.content.width = Fixed::from_int(100);
    layout_box.dimensions.content.height = Fixed::from_int(100);
    layout_box.dimensions.padding = EdgeSizes::zero();
    layout_box.dimensions.border = EdgeSizes::zero();
    layout_box.dimensions.margin = EdgeSizes::zero();

    let display_list = build_display_list(&layout_box);
    assert_eq!(display_list.len(), 1);

    match &display_list[0] {
        DisplayCommand::SolidColor(color, _) => {
            assert_eq!(*color, red);
        }
    }
}

#[test]
fn test_paint_single_box() {
    let red = Color { r: 255, g: 0, b: 0, a: 255 };
    let style_node = create_test_styled_node("div", red.clone());

    let mut layout_box = LayoutBox::new(BoxType::BlockNode(&style_node));

    layout_box.dimensions.content.x = Fixed::from_int(0);
    layout_box.dimensions.content.y = Fixed::from_int(0);
    layout_box.dimensions.content.width = Fixed::from_int(100);
    layout_box.dimensions.content.height = Fixed::from_int(100);
    layout_box.dimensions.padding = EdgeSizes::zero();
    layout_box.dimensions.border = EdgeSizes::zero();
    layout_box.dimensions.margin = EdgeSizes::zero();

    let canvas = paint(
        &layout_box,
        LayoutRect {
            x: Fixed::from_int(0),
            y: Fixed::from_int(0),
            width: Fixed::from_int(100),
            height: Fixed::from_int(100),
        },
    );

    assert_eq!(canvas.pixels[0], red);
}

#[test]
fn a_new_canvas_is_white() {
    let canvas = Canvas::new(3, 2);
    assert_eq!(canvas.pixels, vec![WHITE; 6]);
    assert_eq!(white(), WHITE);
    let empty = Canvas::new(0, 5);
    assert_eq!(empty.pixels.len(), 0);
    assert_eq!(empty.height, 5);
}

#[test]
fn a_command_fills_its_rectangle_and_nothing_else() {
    let mut canvas = Canvas::new(4, 3);
    canvas.paint_item(&DisplayCommand::SolidColor(RED, rect(1, 1, 2, 1)));
    let w = WHITE;
    let r = RED;
    assert_eq!(canvas.pixels, vec![w, w, w, w, w, r, r, w, w, w, w, w]);
    assert_eq!(canvas.width, 4);
    assert_eq!(canvas.height, 3);
}

#[test]
fn a_rectangle_is_clipped_to_the_canvas() {
    let mut canvas = Canvas::new(3, 2);
    canvas.paint_item(&DisplayCommand::SolidColor(RED, rect(-5, -5, 7, 100)));
    let w = WHITE;
    let r = RED;
    assert_eq!(canvas.pixels, vec![r, r, w, r, r, w]);
    canvas.paint_item(&DisplayCommand::SolidColor(BLUE, rect(2, 1, 100, 100)));
    assert_eq!(canvas.pixels, vec![r, r, w, r, r, BLUE]);
    canvas.paint_item(&DisplayCommand::SolidColor(GREEN, rect(3, 0, 5, 5)));
    canvas.paint_item(&DisplayCommand::SolidColor(GREEN, rect(-9, 0, 9, 5)));
    canvas.paint_item(&DisplayCommand::SolidColor(GREEN, rect(0, 2, 5, 5)));
    assert_eq!(canvas.pixels, vec![r, r, w, r, r, BLUE]);
}

#[test]
fn a_rectangle_without_area_or_with_a_negative_size_paints_nothing() {
    let mut canvas = Canvas::new(3, 2);
    canvas.paint_item(&DisplayCommand::SolidColor(RED, rect(1, 0, 0, 2)));
    canvas.paint_item(&DisplayCommand::SolidColor(RED, rect(1, 0, 2, 0)));
    canvas.paint_item(&DisplayCommand::SolidColor(RED, rect(2, 1, -2, -1)));
    assert_eq!(canvas.pixels, vec![WHITE; 6]);
}

#[test]
fn edges_are_cut_down_to_whole_pixels() {
    let mut canvas = Canvas::new(4, 1);
    canvas.paint_item(&DisplayCommand::SolidColor(
        RED,
        Rect { x: Fixed(1_999), y: Fixed(0), width: Fixed(1_002), height: Fixed(1_000) },
    ));
    // from 1.999 to 3.001: columns 1 and 2
    assert_eq!(canvas.pixels, vec![WHITE, RED, RED, WHITE]);
    let mut thin = Canvas::new(4, 1);
    thin.paint_item(&DisplayCommand::SolidColor(
        RED,
        Rect { x: Fixed(1_100), y: Fixed(0), width: Fixed(800), height: Fixed(1_000) },
    ));
    assert_eq!(thin.pixels, vec![WHITE; 4]);
    let mut low = Canvas::new(4, 1);
    low.paint_item(&DisplayCommand::SolidColor(
        RED,
        Rect { x: Fixed(0), y: Fixed(0), width: Fixed(4_000), height: Fixed(999) },
    ));
    assert_eq!(low.pixels, vec![WHITE; 4]);
}

#[test]
fn a_rectangle_at_the_end_of_the_range_is_clipped() {
    let mut canvas = Canvas::new(2, 2);
    canvas.paint_item(&DisplayCommand::SolidColor(
        RED,
        Rect { x: Fixed(i64::MAX), y: Fixed(i64::MIN), width: Fixed(i64::MAX), height: Fixed(i64::MAX) },
    ));
    assert_eq!(canvas.pixels, vec![WHITE; 4]);
    canvas.paint_item(&DisplayCommand::SolidColor(
        RED,
        Rect { x: Fixed(i64::MIN), y: Fixed(0), width: Fixed(i64::MAX), height: Fixed(i64::MAX) },
    ));
    assert_eq!(canvas.pixels, vec![WHITE; 4]);
    canvas.paint_item(&DisplayCommand::SolidColor(
        RED,
        Rect { x: Fixed(-1), y: Fixed(1_000), width: Fixed(i64::MAX), height: Fixed(i64::MAX) },
    ));
    assert_eq!(canvas.pixels, vec![WHITE, WHITE, RED, RED]);
}

#[test]
fn the_background_covers_the_border_box() {
    let style = styled(vec![("background", Value::ColorValue(RED))]);
    let mut layout_box = boxed(style, 10, 20, 100, 50);
    layout_box.dimensions.padding = EdgeSizes { left: f(1), right: f(2), top: f(3), bottom: f(4) };
    layout_box.dimensions.border = EdgeSizes { left: f(5), right: f(6), top: f(7), bottom: f(8) };
    layout_box.dimensions.margin = EdgeSizes { left: f(9), right: f(9), top: f(9), bottom: f(9) };
    assert_eq!(
        build_display_list(&layout_box),
        vec![DisplayCommand::SolidColor(RED, rect(4, 10, 114, 72))]
    );
}

#[test]
fn the_border_is_four_strips() {
    let style = styled(vec![("border-color", Value::ColorValue(BLUE))]);
    let mut layout_box = boxed(style, 10, 20, 100, 50);
    layout_box.dimensions.border = EdgeSizes { left: f(1), right: f(2), top: f(3), bottom: f(4) };
    assert_eq!(
        build_display_list(&layout_box),
        vec![
            DisplayCommand::SolidColor(BLUE, rect(9, 17, 1, 57)),
            DisplayCommand::SolidColor(BLUE, rect(110, 17, 2, 57)),
            DisplayCommand::SolidColor(BLUE, rect(9, 17, 103, 3)),
            DisplayCommand::SolidColor(BLUE, rect(9, 70, 103, 4)),
        ]
    );
}

#[test]
fn a_box_is_painted_before_its_children_and_they_in_order() {
    let parent_style = styled(vec![
        ("background", Value::ColorValue(RED)),
        ("border-color", Value::ColorValue(GREEN)),
    ]);
    let mut parent = boxed(parent_style, 0, 0, 10, 10);
    let mut first = boxed(styled(vec![("background", Value::ColorValue(BLUE))]), 0, 0, 5, 5);
    first.children.push(boxed(styled(vec![("background", Value::ColorValue(WHITE))]), 0, 0, 1, 1));
    parent.children.push(first);
    let mut anonymous = LayoutBox::new(BoxType::AnonymousBlock);
    anonymous.children.push(boxed(styled(vec![("background", Value::ColorValue(GREEN))]), 5, 5, 5, 5));
    parent.children.push(anonymous);
    let colors: Vec<Color> = build_display_list(&parent)
        .iter()
        .map(|c| match c {
            DisplayCommand::SolidColor(color, _) => *color,
        })
        .collect();
    assert_eq!(colors, vec![RED, GREEN, GREEN, GREEN, GREEN, BLUE, WHITE, GREEN]);
}

#[test]
fn a_box_without_colours_paints_nothing() {
    let style = styled(vec![
        ("background", Value::Keyword("red".to_string())),
        ("border-color", Value::Length(f(1), Unit::Px)),
    ]);
    let layout_box = boxed(style, 0, 0, 10, 10);
    assert_eq!(build_display_list(&layout_box), vec![]);
    assert_eq!(get_color(&layout_box, "background"), None);
    assert_eq!(build_display_list(&LayoutBox::new(BoxType::AnonymousBlock)), vec![]);
    assert_eq!(get_color(&LayoutBox::new(BoxType::AnonymousBlock), "background"), None);
    let coloured = boxed(styled(vec![("background", Value::ColorValue(RED))]), 0, 0, 1, 1);
    assert_eq!(get_color(&coloured, "background"), Some(RED));
    assert_eq!(get_color(&coloured, "border-color"), None);
}

#[test]
fn a_child_is_painted_over_its_parent() {
    let mut parent = boxed(styled(vec![("background", Value::ColorValue(RED))]), 0, 0, 4, 4);
    parent.children.push(boxed(styled(vec![("background", Value::ColorValue(BLUE))]), 1, 1, 2, 2));
    let canvas = paint(&parent, LayoutRect { x: f(0), y: f(0), width: f(4), height: f(4) });
    let r = RED;
    let b = BLUE;
    assert_eq!(canvas.pixels, vec![r, r, r, r, r, b, b, r, r, b, b, r, r, r, r, r]);
    let mut same = boxed(styled(vec![("background", Value::ColorValue(RED))]), 0, 0, 2, 2);
    same.children.push(boxed(styled(vec![("background", Value::ColorValue(BLUE))]), 0, 0, 2, 2));
    let canvas = paint(&same, LayoutRect { x: f(0), y: f(0), width: f(2), height: f(2) });
    assert_eq!(canvas.pixels, vec![b; 4]);
}

#[test]
fn the_canvas_has_the_size_of_the_bounds_in_whole_pixels() {
    let layout_box = boxed(styled(vec![]), 0, 0, 0, 0);
    let canvas = paint(
        &layout_box,
        LayoutRect { x: f(5), y: f(5), width: Fixed(3_999), height: Fixed(2_000) },
    );
    assert_eq!((canvas.width, canvas.height), (3, 2));
    assert_eq!(canvas.pixels, vec![WHITE; 6]);
    let none = paint(&layout_box, LayoutRect { x: f(0), y: f(0), width: f(-3), height: f(2) });
    assert_eq!((none.width, none.height, none.pixels.len()), (0, 2, 0));
}

#[test]
fn a_layout_rectangle_converts_to_a_device_rectangle() {
    let r = Rect::from(LayoutRect { x: f(1), y: f(2), width: f(3), height: f(4) });
    assert_eq!(r, rect(1, 2, 3, 4));
}
