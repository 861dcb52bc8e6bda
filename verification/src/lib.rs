//! A small rendering pipeline: style resolution, box layout and painting.
//!
//! A document tree and a style sheet are turned into a styled tree ([`style`]), that
//! into a tree of boxes with positions and sizes ([`layout`]), and that into a list of
//! drawing commands and, by carrying these out, into a grid of pixels ([`painting`]).
//! [`html`] and [`css`] read the two inputs from text. All numbers are fixed-point
//! ([`fixed`]).

pub mod css;
pub mod dom;
pub mod fixed;
pub mod html;
pub mod layout;
pub mod painting;
pub mod strmap;
pub mod style;
pub mod text;

pub use css::{Color, Stylesheet, Value};
pub use dom::{ElementData, Node, NodeType};
pub use fixed::Fixed;
pub use layout::{BoxType, EdgeSizes, LayoutBox, Rect};
pub use painting::{paint, Canvas, DisplayCommand};
pub use style::StyledNode;

use vstd::prelude::*;

verus! {

/// The pipeline as one object.
pub struct RenderKit;

impl RenderKit {
    /// A pipeline; it holds no state.
    pub fn new() -> (r: Self) {
        RenderKit
    }

    /// Reads the document and the style sheet, styles the document, builds its layout
    /// tree and paints that on a canvas of the size of the root box's content. The tree
    /// is painted as it is built, with all measures 0, so the canvas has no pixels.
    pub fn render(&self, html: &str, css: &str) -> (r: Result<Canvas, String>)
        requires
            html::spec_parse(html@) is Some,
            css::spec_parse(css@) is Some,
            style::spec_display(
                style::spec_style_tree(html::spec_parse(html@)->0, css::spec_parse(css@)->0).props,
            ) != style::Display::Hidden,
        ensures
            r matches Ok(canvas) && canvas.well_formed() && canvas.width == 0 && canvas.height == 0,
    {
        let dom = html::parse(html.to_owned());
        let stylesheet = css::parse(css.to_owned());
        let styled_node = style::style_tree(&dom, &stylesheet);
        let layout_root = layout::build_layout_tree(&styled_node);
        proof {
            layout_root.lemma_view();
        }
        let canvas = painting::paint(&layout_root, layout_root.dimensions.content);
        Ok(canvas)
    }

    /// A canvas of the given size, in whole pixels, filled with `color`: it is what
    /// painting one block of that size with that background gives.
    pub fn render_rectangle(&self, width: Fixed, height: Fixed, color: Color) -> (canvas: Canvas)
        requires
            width.spec_pixels() * height.spec_pixels() <= usize::MAX,
        ensures
            canvas.well_formed(),
            canvas.width == width.spec_pixels(),
            canvas.height == height.spec_pixels(),
            forall|x: int, y: int|
                0 <= x < canvas.width && 0 <= y < canvas.height ==> #[trigger] canvas.pixel(x, y)
                    == color,
    {
        let node = Node::elem("div".to_owned(), strmap::StrMap::new(), Vec::new());
        let mut specified_values = strmap::StrMap::new();
        specified_values.insert("background".to_owned(), Value::ColorValue(color));
        let styled_node = StyledNode { node: &node, specified_values, children: Vec::new() };

        let mut layout_box = LayoutBox::new(BoxType::BlockNode(&styled_node));
        layout_box.dimensions.content = Rect { x: Fixed::zero(), y: Fixed::zero(), width, height };

        let canvas = painting::paint(&layout_box, layout_box.dimensions.content);
        proof {
            reveal_strlit("background");
            reveal_strlit("border-color");
            let props = styled_node.props();
            assert(props.contains_key("background"@));
            assert(props["background"@] == css::ValueView::ColorValue(color));
            assert(!props.contains_key("border-color"@)) by {
                assert("background"@.len() != "border-color"@.len());
            }
            layout_box.lemma_view();
            let view = layout_box@;
            let command = DisplayCommand::SolidColor(
                color,
                painting::device_rect(view.dimensions.spec_border_box()),
            );
            assert(painting::background_commands(view) =~= seq![command]);
            assert(painting::border_commands(view) =~= Seq::empty());
            assert(painting::children_commands(view, 0) =~= Seq::empty());
            assert(painting::spec_display_list(view) =~= seq![command]);
            assert forall|x: int, y: int|
                0 <= x < canvas.width && 0 <= y < canvas.height implies #[trigger] canvas.pixel(x, y)
                == color by {
                assert(command.rect().covers(canvas.width as int, canvas.height as int, x, y));
            }
        }
        canvas
    }
}

} // verus!
