use renderkit::css::Color;
use renderkit::fixed::Fixed;
use renderkit::layout::{build_layout_tree, Dimensions, Rect};
use renderkit::painting::paint;
use renderkit::style::style_tree;
use renderkit::RenderKit;

#[test]
fn test_render_rectangle() {
    let engine = RenderKit::new();
    let canvas = engine.render_rectangle(
        Fixed::from_int(100),
        Fixed::from_int(100),
        Color { r: 255, g: 0, b: 0, a: 255 },
    );

    assert_eq!(canvas.width, 100);
    assert_eq!(canvas.height, 100);
    assert_eq!(canvas.pixels[0], Color { r: 255, g: 0, b: 0, a: 255 });
}

#[test]
fn test_render_simple_html() {
    let engine = RenderKit::new();
    let html = r#"<div>Hello</div>"#;
    let css = "div { background: red; }";
    let result = engine.render(html, css);
    assert!(result.is_ok());
}

#[test]
fn a_rendered_rectangle_is_all_of_one_colour() {
    let green = Color { r: 0, g: 255, b: 0, a: 255 };
    let canvas = RenderKit::new().render_rectangle(Fixed(3_500), Fixed::from_int(2), green);
    assert_eq!((canvas.width, canvas.height), (3, 2));
    assert_eq!(canvas.pixels, vec![green; 6]);
}

#[test]
fn a_rendered_document_has_no_pixels() {
    let canvas = RenderKit::new()
        .render("<div><p>Hello</p></div>", "div { display: block; width: 100px; } p { display: block; height: 20px; }")
        .unwrap();
    assert_eq!((canvas.width, canvas.height, canvas.pixels.len()), (0, 0, 0));
}

#[test]
fn a_document_of_blocks_goes_through_all_stages() {
    let document = renderkit::html::parse(
        "<div><p></p><p class=\"b\"></p><p class=\"gone\"></p></div>".to_string(),
    );
    let sheet = renderkit::css::parse(
        "div { display: block; }
         p { display: block; height: 2px; background: #ff0000; }
         .b { background: #0000ff; width: 2px; }
         .gone { display: none; }"
            .to_string(),
    );
    let styled = style_tree(&document, &sheet);
    let mut root = build_layout_tree(&styled);
    assert_eq!(root.children.len(), 2);
    assert!(root.layout_ready());

    let mut viewport = Dimensions::default();
    viewport.content.width = Fixed::from_int(4);
    root.layout(&viewport);
    assert_eq!(
        root.dimensions.content,
        Rect {
            x: Fixed::from_int(0),
            y: Fixed::from_int(0),
            width: Fixed::from_int(4),
            height: Fixed::from_int(4)
        }
    );
    assert_eq!(root.children[1].dimensions.content.y, Fixed::from_int(2));
    assert_eq!(root.children[1].dimensions.margin.right, Fixed::from_int(2));

    let canvas = paint(&root, root.dimensions.content);
    let r = Color { r: 255, g: 0, b: 0, a: 255 };
    let b = Color { r: 0, g: 0, b: 255, a: 255 };
    let w = Color { r: 255, g: 255, b: 255, a: 255 };
    assert_eq!((canvas.width, canvas.height), (4, 4));
    assert_eq!(canvas.pixels, vec![r, r, r, r, r, r, r, r, b, b, w, w, b, b, w, w]);
}

#[test]
fn text_inside_a_block_stands_in_an_anonymous_block() {
    let document = renderkit::html::parse("<div>Hello</div>".to_string());
    let sheet = renderkit::css::parse("div { display: block; }".to_string());
    let styled = style_tree(&document, &sheet);
    let root = build_layout_tree(&styled);
    assert_eq!(root.children.len(), 1);
    assert!(matches!(root.children[0].box_type, renderkit::BoxType::AnonymousBlock));
    assert!(!root.layout_ready());
}
