//! Box-model layout: building the tree of boxes and giving each its place and size.

use vstd::prelude::*;
use crate::css::{Unit, Value, ValueView};
use crate::fixed::{half, halve, Fixed};
use crate::style::{spec_display, spec_lookup, spec_value, Display, StyledNode};

verus! {

/// A rectangle: the position of its top left corner, and its size.
#[derive(Debug, Clone, Copy, PartialEq, Eq, Structural)]
pub struct Rect {
    pub x: Fixed,
    pub y: Fixed,
    pub width: Fixed,
    pub height: Fixed,
}

/// The widths of the four sides of a padding, border or margin.
#[derive(Debug, Clone, Copy, PartialEq, Eq, Structural)]
pub struct EdgeSizes {
    pub left: Fixed,
    pub right: Fixed,
    pub top: Fixed,
    pub bottom: Fixed,
}

/// The content area of a box and the edges around it.
#[derive(Debug, Clone, Copy, PartialEq, Eq, Structural)]
pub struct Dimensions {
    pub content: Rect,
    pub padding: EdgeSizes,
    pub border: EdgeSizes,
    pub margin: EdgeSizes,
}

/// `v` is within the range of the raw values.
pub open spec fn representable(v: int) -> bool {
    i64::MIN <= v <= i64::MAX
}

impl Rect {
    /// The rectangle of no size at the origin.
    pub open spec fn spec_zero() -> Rect {
        Rect { x: Fixed(0), y: Fixed(0), width: Fixed(0), height: Fixed(0) }
    }

    /// The rectangle grown by `edge` on each side.
    pub open spec fn spec_expanded_by(self, edge: EdgeSizes) -> Rect {
        Rect {
            x: Fixed::of(self.x.0 - edge.left.0),
            y: Fixed::of(self.y.0 - edge.top.0),
            width: Fixed::of(self.width.0 + edge.left.0 + edge.right.0),
            height: Fixed::of(self.height.0 + edge.top.0 + edge.bottom.0),
        }
    }

    /// `self` covers `inner`: no side of `inner` lies outside it.
    pub open spec fn contains(self, inner: Rect) -> bool {
        &&& self.x.0 <= inner.x.0
        &&& self.y.0 <= inner.y.0
        &&& inner.x.0 + inner.width.0 <= self.x.0 + self.width.0
        &&& inner.y.0 + inner.height.0 <= self.y.0 + self.height.0
    }

    /// The rectangle grown by `edge` on each side.
    pub fn expanded_by(self, edge: EdgeSizes) -> (r: Rect)
        ensures
            r == self.spec_expanded_by(edge),
    {
        Rect {
            x: Fixed::from_units(self.x.wide() - edge.left.wide()),
            y: Fixed::from_units(self.y.wide() - edge.top.wide()),
            width: Fixed::from_units(self.width.wide() + edge.left.wide() + edge.right.wide()),
            height: Fixed::from_units(self.height.wide() + edge.top.wide() + edge.bottom.wide()),
        }
    }
}

impl Default for Rect {
    fn default() -> (r: Rect)
        ensures
            r == Rect::spec_zero(),
    {
        Rect { x: Fixed(0), y: Fixed(0), width: Fixed(0), height: Fixed(0) }
    }
}

impl EdgeSizes {
    /// Edges of no width.
    pub open spec fn spec_zero() -> EdgeSizes {
        EdgeSizes { left: Fixed(0), right: Fixed(0), top: Fixed(0), bottom: Fixed(0) }
    }

    /// No side is negative.
    pub open spec fn non_negative(self) -> bool {
        self.left.0 >= 0 && self.right.0 >= 0 && self.top.0 >= 0 && self.bottom.0 >= 0
    }

    /// Edges of no width.
    pub fn zero() -> (r: EdgeSizes)
        ensures
            r == EdgeSizes::spec_zero(),
    {
        EdgeSizes { top: Fixed(0), right: Fixed(0), bottom: Fixed(0), left: Fixed(0) }
    }
}

impl Default for EdgeSizes {
    fn default() -> (r: EdgeSizes)
        ensures
            r == EdgeSizes::spec_zero(),
    {
        EdgeSizes::zero()
    }
}

impl Dimensions {
    /// All measures 0.
    pub open spec fn spec_zero() -> Dimensions {
        Dimensions {
            content: Rect::spec_zero(),
            padding: EdgeSizes::spec_zero(),
            border: EdgeSizes::spec_zero(),
            margin: EdgeSizes::spec_zero(),
        }
    }

    /// The content area grown by the padding.
    pub open spec fn spec_padding_box(self) -> Rect {
        let c = self.content;
        let p = self.padding;
        Rect {
            x: Fixed::of(c.x.0 - p.left.0),
            y: Fixed::of(c.y.0 - p.top.0),
            width: Fixed::of(c.width.0 + p.left.0 + p.right.0),
            height: Fixed::of(c.height.0 + p.top.0 + p.bottom.0),
        }
    }

    /// The content area grown by padding and border.
    pub open spec fn spec_border_box(self) -> Rect {
        let c = self.content;
        let p = self.padding;
        let b = self.border;
        Rect {
            x: Fixed::of(c.x.0 - p.left.0 - b.left.0),
            y: Fixed::of(c.y.0 - p.top.0 - b.top.0),
            width: Fixed::of(c.width.0 + p.left.0 + p.right.0 + b.left.0 + b.right.0),
            height: Fixed::of(c.height.0 + p.top.0 + p.bottom.0 + b.top.0 + b.bottom.0),
        }
    }

    /// The content area grown by padding, border and margin.
    pub open spec fn spec_margin_box(self) -> Rect {
        let c = self.content;
        let p = self.padding;
        let b = self.border;
        let m = self.margin;
        Rect {
            x: Fixed::of(c.x.0 - p.left.0 - b.left.0 - m.left.0),
            y: Fixed::of(c.y.0 - p.top.0 - b.top.0 - m.top.0),
            width: Fixed::of(
                c.width.0 + p.left.0 + p.right.0 + b.left.0 + b.right.0 + m.left.0 + m.right.0,
            ),
            height: Fixed::of(
                c.height.0 + p.top.0 + p.bottom.0 + b.top.0 + b.bottom.0 + m.top.0 + m.bottom.0,
            ),
        }
    }

    /// None of the three boxes round the content had to be clamped: each of their
    /// measures is the exact sum of the measures that make it up.
    pub open spec fn fits(self) -> bool {
        let c = self.content;
        let p = self.padding;
        let b = self.border;
        let m = self.margin;
        &&& representable(c.x.0 - p.left.0)
        &&& representable(c.y.0 - p.top.0)
        &&& representable(c.width.0 + p.left.0 + p.right.0)
        &&& representable(c.height.0 + p.top.0 + p.bottom.0)
        &&& representable(c.x.0 - p.left.0 - b.left.0)
        &&& representable(c.y.0 - p.top.0 - b.top.0)
        &&& representable(c.width.0 + p.left.0 + p.right.0 + b.left.0 + b.right.0)
        &&& representable(c.height.0 + p.top.0 + p.bottom.0 + b.top.0 + b.bottom.0)
        &&& representable(c.x.0 - p.left.0 - b.left.0 - m.left.0)
        &&& representable(c.y.0 - p.top.0 - b.top.0 - m.top.0)
        &&& representable(
            c.width.0 + p.left.0 + p.right.0 + b.left.0 + b.right.0 + m.left.0 + m.right.0,
        )
        &&& representable(
            c.height.0 + p.top.0 + p.bottom.0 + b.top.0 + b.bottom.0 + m.top.0 + m.bottom.0,
        )
    }

    /// With edges that are not negative, each box covers the next one inside it: the
    /// margin box the border box, that the padding box, and that the content.
    pub proof fn lemma_boxes_nested(self)
        requires
            self.padding.non_negative(),
            self.border.non_negative(),
            self.margin.non_negative(),
            self.fits(),
        ensures
            self.spec_margin_box().contains(self.spec_border_box()),
            self.spec_border_box().contains(self.spec_padding_box()),
            self.spec_padding_box().contains(self.content),
    {
    }

    /// Two neighbouring boxes are the same rectangle exactly if the edge between them
    /// is 0 on all four sides.
    pub proof fn lemma_boxes_equal(self)
        requires
            self.fits(),
        ensures
            self.spec_margin_box() == self.spec_border_box() <==> self.margin
                == EdgeSizes::spec_zero(),
            self.spec_border_box() == self.spec_padding_box() <==> self.border
                == EdgeSizes::spec_zero(),
            self.spec_padding_box() == self.content <==> self.padding == EdgeSizes::spec_zero(),
    {
    }

    /// The content area.
    pub fn content_box(&self) -> (r: Rect)
        ensures
            r == self.content,
    {
        self.content
    }

    /// The content area grown by the padding.
    pub fn padding_box(&self) -> (r: Rect)
        ensures
            r == self.spec_padding_box(),
    {
        self.padding_rect()
    }

    /// The content area grown by padding and border.
    pub fn border_box(&self) -> (r: Rect)
        ensures
            r == self.spec_border_box(),
    {
        self.border_rect()
    }

    /// The content area grown by padding, border and margin.
    pub fn margin_box(&self) -> (r: Rect)
        ensures
            r == self.spec_margin_box(),
    {
        self.margin_rect()
    }

    /// The content area.
    pub fn content_rect(&self) -> (r: Rect)
        ensures
            r == self.content,
    {
        Rect {
            x: self.content.x,
            y: self.content.y,
            width: self.content.width,
            height: self.content.height,
        }
    }

    /// The content area grown by the padding.
    pub fn padding_rect(&self) -> (r: Rect)
        ensures
            r == self.spec_padding_box(),
    {
        let c = &self.content;
        let p = &self.padding;
        Rect {
            x: Fixed::from_units(c.x.wide() - p.left.wide()),
            y: Fixed::from_units(c.y.wide() - p.top.wide()),
            width: Fixed::from_units(c.width.wide() + p.left.wide() + p.right.wide()),
            height: Fixed::from_units(c.height.wide() + p.top.wide() + p.bottom.wide()),
        }
    }

    /// The content area grown by padding and border.
    pub fn border_rect(&self) -> (r: Rect)
        ensures
            r == self.spec_border_box(),
    {
        let c = &self.content;
        let p = &self.padding;
        let b = &self.border;
        Rect {
            x: Fixed::from_units(c.x.wide() - p.left.wide() - b.left.wide()),
            y: Fixed::from_units(c.y.wide() - p.top.wide() - b.top.wide()),
            width: Fixed::from_units(
                c.width.wide() + p.left.wide() + p.right.wide() + b.left.wide() + b.right.wide(),
            ),
            height: Fixed::from_units(
                c.height.wide() + p.top.wide() + p.bottom.wide() + b.top.wide() + b.bottom.wide(),
            ),
        }
    }

    /// The content area grown by padding, border and margin.
    pub fn margin_rect(&self) -> (r: Rect)
        ensures
            r == self.spec_margin_box(),
    {
        let c = &self.content;
        let p = &self.padding;
        let b = &self.border;
        let m = &self.margin;
        Rect {
            x: Fixed::from_units(c.x.wide() - p.left.wide() - b.left.wide() - m.left.wide()),
            y: Fixed::from_units(c.y.wide() - p.top.wide() - b.top.wide() - m.top.wide()),
            width: Fixed::from_units(
                c.width.wide() + p.left.wide() + p.right.wide() + b.left.wide() + b.right.wide()
                    + m.left.wide() + m.right.wide(),
            ),
            height: Fixed::from_units(
                c.height.wide() + p.top.wide() + p.bottom.wide() + b.top.wide() + b.bottom.wide()
                    + m.top.wide() + m.bottom.wide(),
            ),
        }
    }
}

impl Default for Dimensions {
    fn default() -> (r: Dimensions)
        ensures
            r == Dimensions::spec_zero(),
    {
        Dimensions {
            content: Rect::default(),
            padding: EdgeSizes::zero(),
            border: EdgeSizes::zero(),
            margin: EdgeSizes::zero(),
        }
    }
}

/// What a box stands for: a styled node laid out as a block or inline, or a block
/// without a style of its own that was put round a child.
#[derive(Debug, Clone, Copy)]
pub enum BoxType<'a> {
    BlockNode(&'a StyledNode<'a>),
    InlineNode(&'a StyledNode<'a>),
    AnonymousBlock,
}

/// A box of the layout tree.
#[derive(Debug)]
pub struct LayoutBox<'a> {
    pub dimensions: Dimensions,
    pub box_type: BoxType<'a>,
    pub children: Vec<LayoutBox<'a>>,
}

/// Model of a [`LayoutBox`].
pub struct LayoutBoxView<'a> {
    pub dimensions: Dimensions,
    pub box_type: BoxType<'a>,
    pub children: Seq<LayoutBoxView<'a>>,
}

/// The model of `b`.
pub open spec fn box_view<'a>(b: LayoutBox<'a>) -> LayoutBoxView<'a>
    decreases b,
{
    LayoutBoxView {
        dimensions: b.dimensions,
        box_type: b.box_type,
        children: Seq::new(
            b.children@.len(),
            |i: int|
                if 0 <= i < b.children@.len() {
                    box_view(b.children@[i])
                } else {
                    arbitrary()
                },
        ),
    }
}

impl<'a> View for LayoutBox<'a> {
    type V = LayoutBoxView<'a>;

    open spec fn view(&self) -> LayoutBoxView<'a> {
        box_view(*self)
    }
}

impl<'a> BoxType<'a> {
    /// The properties of the styled node; none for an anonymous block.
    pub open spec fn props(self) -> Map<Seq<char>, ValueView> {
        match self {
            BoxType::BlockNode(s) => s.props(),
            BoxType::InlineNode(s) => s.props(),
            BoxType::AnonymousBlock => Map::empty(),
        }
    }
}

/// The horizontal measures of a block: its width and the left and right edges.
#[derive(Debug, Clone, Copy, PartialEq, Eq, Structural)]
pub struct BlockWidth {
    pub width: Fixed,
    pub margin_left: Fixed,
    pub margin_right: Fixed,
    pub border_left: Fixed,
    pub border_right: Fixed,
    pub padding_left: Fixed,
    pub padding_right: Fixed,
}

/// The keyword `auto`.
pub open spec fn auto_keyword() -> ValueView {
    ValueView::Keyword("auto"@)
}

/// A length of 0.
pub open spec fn zero_length() -> ValueView {
    ValueView::Length(Fixed(0), Unit::Px)
}

/// The horizontal measures of a block with properties `props` in a containing block whose
/// content is `containing_width` wide.
///
/// Margins, borders and paddings are those of the side, else of the shorthand, else 0;
/// the width is `auto` where it is not set. Whatever is not a length counts 0. The
/// underflow is what the containing width exceeds the sum of the seven measures by.
/// - Width `auto`: the width takes the underflow; where that is negative, the width is 0
///   and the right margin takes it.
/// - Else both margins `auto`: each takes half the underflow.
/// - Else one margin `auto`: it takes the underflow.
/// - Else: the underflow is added to the right margin.
pub open spec fn resolve_width(props: Map<Seq<char>, ValueView>, containing_width: Fixed)
    -> BlockWidth {
    let width = match spec_value(props, "width"@) {
        Some(v) => v,
        None => auto_keyword(),
    };
    let margin_left = spec_lookup(props, "margin-left"@, "margin"@, zero_length());
    let margin_right = spec_lookup(props, "margin-right"@, "margin"@, zero_length());
    let border_left = spec_lookup(props, "border-left-width"@, "border-width"@, zero_length());
    let border_right = spec_lookup(props, "border-right-width"@, "border-width"@, zero_length());
    let padding_left = spec_lookup(props, "padding-left"@, "padding"@, zero_length());
    let padding_right = spec_lookup(props, "padding-right"@, "padding"@, zero_length());
    solve_width(
        containing_width,
        BlockWidth {
            width: width.to_px(),
            margin_left: margin_left.to_px(),
            margin_right: margin_right.to_px(),
            border_left: border_left.to_px(),
            border_right: border_right.to_px(),
            padding_left: padding_left.to_px(),
            padding_right: padding_right.to_px(),
        },
        width == auto_keyword(),
        margin_left == auto_keyword(),
        margin_right == auto_keyword(),
    )
}

/// The measures `given`, with those that are `auto` worked out for a containing block
/// whose content is `containing_width` wide; see [`resolve_width`].
pub open spec fn solve_width(
    containing_width: Fixed,
    given: BlockWidth,
    width_auto: bool,
    left_auto: bool,
    right_auto: bool,
) -> BlockWidth {
    let total: int = given.margin_left.0 + given.margin_right.0 + given.border_left.0
        + given.border_right.0 + given.padding_left.0 + given.padding_right.0 + given.width.0;
    let underflow: int = containing_width.0 - total;
    if width_auto {
        if underflow >= 0 {
            BlockWidth { width: Fixed::of(underflow), ..given }
        } else {
            BlockWidth {
                width: Fixed(0),
                margin_right: Fixed::of(given.margin_right.0 + underflow),
                ..given
            }
        }
    } else if left_auto && right_auto {
        BlockWidth {
            margin_left: Fixed::of(half(underflow)),
            margin_right: Fixed::of(half(underflow)),
            ..given
        }
    } else if right_auto {
        BlockWidth { margin_right: Fixed::of(underflow), ..given }
    } else if left_auto {
        BlockWidth { margin_left: Fixed::of(underflow), ..given }
    } else {
        BlockWidth { margin_right: Fixed::of(given.margin_right.0 + underflow), ..given }
    }
}

/// Works out the measures that are `auto`; see [`solve_width`].
pub fn solve_block_width(
    containing_width: Fixed,
    given: BlockWidth,
    width_auto: bool,
    left_auto: bool,
    right_auto: bool,
) -> (r: BlockWidth)
    ensures
        r == solve_width(containing_width, given, width_auto, left_auto, right_auto),
{
    let total: i128 = given.margin_left.wide() + given.margin_right.wide()
        + given.border_left.wide() + given.border_right.wide() + given.padding_left.wide()
        + given.padding_right.wide() + given.width.wide();
    let underflow: i128 = containing_width.wide() - total;
    let mut r = given;
    if width_auto {
        if underflow >= 0 {
            r.width = Fixed::from_units(underflow);
        } else {
            r.width = Fixed::zero();
            r.margin_right = Fixed::from_units(given.margin_right.wide() + underflow);
        }
    } else if left_auto && right_auto {
        r.margin_left = Fixed::from_units(halve(underflow));
        r.margin_right = Fixed::from_units(halve(underflow));
    } else if right_auto {
        r.margin_right = Fixed::from_units(underflow);
    } else if left_auto {
        r.margin_left = Fixed::from_units(underflow);
    } else {
        r.margin_right = Fixed::from_units(given.margin_right.wide() + underflow);
    }
    r
}

/// `d` with the horizontal measures `w`.
pub open spec fn with_width(d: Dimensions, w: BlockWidth) -> Dimensions {
    Dimensions {
        content: Rect { width: w.width, ..d.content },
        padding: EdgeSizes { left: w.padding_left, right: w.padding_right, ..d.padding },
        border: EdgeSizes { left: w.border_left, right: w.border_right, ..d.border },
        margin: EdgeSizes { left: w.margin_left, right: w.margin_right, ..d.margin },
    }
}

/// `d` with the vertical edges that `props` give and with its content placed in the
/// containing block `cb`: at the left of its content, inside the box's own left edges,
/// and below what `cb` holds so far, inside the box's own top edges.
pub open spec fn with_position(
    d: Dimensions,
    props: Map<Seq<char>, ValueView>,
    cb: Dimensions,
) -> Dimensions {
    let margin_top = spec_lookup(props, "margin-top"@, "margin"@, zero_length()).to_px();
    let margin_bottom = spec_lookup(props, "margin-bottom"@, "margin"@, zero_length()).to_px();
    let border_top = spec_lookup(props, "border-top-width"@, "border-width"@, zero_length()).to_px();
    let border_bottom = spec_lookup(
        props,
        "border-bottom-width"@,
        "border-width"@,
        zero_length(),
    ).to_px();
    let padding_top = spec_lookup(props, "padding-top"@, "padding"@, zero_length()).to_px();
    let padding_bottom = spec_lookup(props, "padding-bottom"@, "padding"@, zero_length()).to_px();
    Dimensions {
        content: Rect {
            x: Fixed::of(cb.content.x.0 + d.margin.left.0 + d.border.left.0 + d.padding.left.0),
            y: Fixed::of(
                cb.content.height.0 + cb.content.y.0 + margin_top.0 + border_top.0 + padding_top.0,
            ),
            ..d.content
        },
        padding: EdgeSizes { top: padding_top, bottom: padding_bottom, ..d.padding },
        border: EdgeSizes { top: border_top, bottom: border_bottom, ..d.border },
        margin: EdgeSizes { top: margin_top, bottom: margin_bottom, ..d.margin },
    }
}

/// `d` made taller by `h`.
pub open spec fn grown(d: Dimensions, h: Fixed) -> Dimensions {
    Dimensions { content: Rect { height: Fixed::of(d.content.height.0 + h.0), ..d.content }, ..d }
}

/// `d` with the height that `props` set, where they set a length; else `d`.
pub open spec fn with_height(d: Dimensions, props: Map<Seq<char>, ValueView>) -> Dimensions {
    match spec_value(props, "height"@) {
        Some(ValueView::Length(h, Unit::Px)) => Dimensions {
            content: Rect { height: h, ..d.content },
            ..d
        },
        _ => d,
    }
}

/// The box `b` laid out in the containing block `cb`.
///
/// An inline box is left as it is. A block gets its horizontal measures, then its
/// position, then its children are laid out one after the other, each in the block as
/// it stands by then and each making it taller by the height of its margin box; last the
/// block gets the height that its properties set, if they set one.
pub open spec fn spec_layout<'a>(b: LayoutBoxView<'a>, cb: Dimensions) -> LayoutBoxView<'a>
    decreases b, b.children.len() + 1,
{
    match b.box_type {
        BoxType::InlineNode(_) => b,
        _ => {
            let props = b.box_type.props();
            let d1 = with_width(b.dimensions, resolve_width(props, cb.content.width));
            let d2 = with_position(d1, props, cb);
            let (children, d3) = spec_layout_children(b, d2, b.children.len());
            LayoutBoxView { dimensions: with_height(d3, props), box_type: b.box_type, children }
        },
    }
}

/// The children of `b` once the first `n` of them are laid out, and the dimensions of the
/// block by then; `d` are the dimensions of the block before the first.
pub open spec fn spec_layout_children<'a>(b: LayoutBoxView<'a>, d: Dimensions, n: nat) -> (
    Seq<LayoutBoxView<'a>>,
    Dimensions,
)
    decreases b, n,
{
    if n == 0 || n > b.children.len() {
        (b.children, d)
    } else {
        let (done, before) = spec_layout_children(b, d, (n - 1) as nat);
        let child = spec_layout(b.children[n - 1], before);
        (done.update(n - 1, child), grown(before, child.dimensions.spec_margin_box().height))
    }
}

/// Layout reaches no anonymous block: `b` is inline, or it is a styled block and the same
/// holds of each of its children.
pub open spec fn can_layout(b: LayoutBoxView) -> bool
    decreases b,
{
    match b.box_type {
        BoxType::InlineNode(_) => true,
        BoxType::AnonymousBlock => false,
        BoxType::BlockNode(_) => forall|i: int|
            0 <= i < b.children.len() ==> can_layout(#[trigger] b.children[i]),
    }
}

impl<'a> LayoutBox<'a> {
    /// The model of a box holds the models of its children, in order.
    pub proof fn lemma_view(self)
        ensures
            self@.dimensions == self.dimensions,
            self@.box_type == self.box_type,
            self@.children.len() == self.children@.len(),
            forall|k: int|
                0 <= k < self.children@.len() ==> #[trigger] self@.children[k] == self.children@[k]@,
    {
    }

    /// A box of the given type, without children and with all measures 0.
    pub fn new(box_type: BoxType<'a>) -> (r: LayoutBox<'a>)
        ensures
            r.box_type == box_type,
            r.dimensions == Dimensions::spec_zero(),
            r.children@.len() == 0,
    {
        LayoutBox { box_type, dimensions: Dimensions::default(), children: Vec::new() }
    }

    /// The styled node of a box that has one.
    pub fn get_style_node(&self) -> (r: &'a StyledNode<'a>)
        requires
            !(self.box_type is AnonymousBlock),
        ensures
            r.props() == self.box_type.props(),
            self.box_type == BoxType::BlockNode(r) || self.box_type == BoxType::InlineNode(r),
    {
        match self.box_type {
            BoxType::BlockNode(node) => node,
            BoxType::InlineNode(node) => node,
            BoxType::AnonymousBlock => vstd::pervasive::unreached(),
        }
    }

    /// Gives the box its horizontal measures; see [`resolve_width`].
    pub fn calculate_block_width(&mut self, containing_block: &Dimensions)
        requires
            !(old(self).box_type is AnonymousBlock),
        ensures
            final(self).dimensions == with_width(
                old(self).dimensions,
                resolve_width(old(self).box_type.props(), containing_block.content.width),
            ),
            final(self).box_type == old(self).box_type,
            final(self).children == old(self).children,
    {
        let style = self.get_style_node();
        let zero = Value::Length(Fixed::zero(), Unit::Px);

        let width = style.value("width");
        let margin_left = style.lookup("margin-left", "margin", &zero);
        let margin_right = style.lookup("margin-right", "margin", &zero);
        let border_left = style.lookup("border-left-width", "border-width", &zero);
        let border_right = style.lookup("border-right-width", "border-width", &zero);
        let padding_left = style.lookup("padding-left", "padding", &zero);
        let padding_right = style.lookup("padding-right", "padding", &zero);

        let (width_px, width_auto) = match &width {
            Some(v) => (v.to_px(), v.is_keyword("auto")),
            None => (Fixed::zero(), true),
        };
        let given = BlockWidth {
            width: width_px,
            margin_left: margin_left.to_px(),
            margin_right: margin_right.to_px(),
            border_left: border_left.to_px(),
            border_right: border_right.to_px(),
            padding_left: padding_left.to_px(),
            padding_right: padding_right.to_px(),
        };
        let solved = solve_block_width(
            containing_block.content.width,
            given,
            width_auto,
            margin_left.is_keyword("auto"),
            margin_right.is_keyword("auto"),
        );

        self.dimensions.content.width = solved.width;
        self.dimensions.margin.left = solved.margin_left;
        self.dimensions.margin.right = solved.margin_right;
        self.dimensions.border.left = solved.border_left;
        self.dimensions.border.right = solved.border_right;
        self.dimensions.padding.left = solved.padding_left;
        self.dimensions.padding.right = solved.padding_right;
    }

    /// Gives the box its vertical edges and its position; see [`with_position`].
    pub fn calculate_block_position(&mut self, containing_block: &Dimensions)
        requires
            !(old(self).box_type is AnonymousBlock),
        ensures
            final(self).dimensions == with_position(
                old(self).dimensions,
                old(self).box_type.props(),
                *containing_block,
            ),
            final(self).box_type == old(self).box_type,
            final(self).children == old(self).children,
    {
        let style = self.get_style_node();
        let zero = Value::Length(Fixed::zero(), Unit::Px);

        let margin_top = style.lookup("margin-top", "margin", &zero).to_px();
        let margin_bottom = style.lookup("margin-bottom", "margin", &zero).to_px();
        let border_top = style.lookup("border-top-width", "border-width", &zero).to_px();
        let border_bottom = style.lookup("border-bottom-width", "border-width", &zero).to_px();
        let padding_top = style.lookup("padding-top", "padding", &zero).to_px();
        let padding_bottom = style.lookup("padding-bottom", "padding", &zero).to_px();

        let x = Fixed::from_units(
            containing_block.content.x.wide() + self.dimensions.margin.left.wide()
                + self.dimensions.border.left.wide() + self.dimensions.padding.left.wide(),
        );
        let y = Fixed::from_units(
            containing_block.content.height.wide() + containing_block.content.y.wide()
                + margin_top.wide() + border_top.wide() + padding_top.wide(),
        );

        self.dimensions.margin.top = margin_top;
        self.dimensions.margin.bottom = margin_bottom;
        self.dimensions.border.top = border_top;
        self.dimensions.border.bottom = border_bottom;
        self.dimensions.padding.top = padding_top;
        self.dimensions.padding.bottom = padding_bottom;
        self.dimensions.content.x = x;
        self.dimensions.content.y = y;
    }

    /// Gives the box the height that its properties set, where they set a length.
    pub fn calculate_block_height(&mut self)
        requires
            !(old(self).box_type is AnonymousBlock),
        ensures
            final(self).dimensions == with_height(old(self).dimensions, old(self).box_type.props()),
            final(self).box_type == old(self).box_type,
            final(self).children == old(self).children,
    {
        if let Some(Value::Length(h, Unit::Px)) = self.get_style_node().value("height") {
            self.dimensions.content.height = h;
        }
    }
}

/// Laying out the first `n` children keeps the number of boxes and leaves the others as
/// they were.
pub proof fn lemma_layout_children_rest<'a>(b: LayoutBoxView<'a>, d: Dimensions, n: nat)
    ensures
        spec_layout_children(b, d, n).0.len() == b.children.len(),
        forall|j: int|
            n <= j < b.children.len() ==> spec_layout_children(b, d, n).0[j] == b.children[j],
    decreases n,
{
    if n == 0 || n > b.children.len() {
    } else {
        lemma_layout_children_rest(b, d, (n - 1) as nat);
    }
}

impl<'a> LayoutBox<'a> {
    /// Whether the box can be laid out; see [`can_layout`].
    pub fn layout_ready(&self) -> (r: bool)
        ensures
            r == can_layout(self@),
        decreases self,
    {
        proof {
            self.lemma_view();
        }
        match self.box_type {
            BoxType::InlineNode(_) => true,
            BoxType::AnonymousBlock => false,
            BoxType::BlockNode(_) => {
                let mut i: usize = 0;
                while i < self.children.len()
                    invariant
                        i <= self.children.len(),
                        self@.box_type is BlockNode,
                        self@.children.len() == self.children@.len(),
                        forall|k: int|
                            0 <= k < self.children@.len() ==> #[trigger] self@.children[k]
                                == self.children@[k]@,
                        forall|k: int| 0 <= k < i ==> can_layout(#[trigger] self@.children[k]),
                    decreases self.children.len() - i,
                {
                    if !self.children[i].layout_ready() {
                        assert(!can_layout(self@.children[i as int]));
                        assert(can_layout(self@) ==> can_layout(self@.children[i as int]));
                        return false;
                    }
                    i += 1;
                }
                true
            },
        }
    }

    /// Lays out the box and what is below it in the containing block; see
    /// [`spec_layout`].
    pub fn layout(&mut self, containing_block: &Dimensions)
        requires
            can_layout(old(self)@),
        ensures
            final(self)@ == spec_layout(old(self)@, *containing_block),
        decreases old(self).children, 2nat,
    {
        match self.box_type {
            BoxType::BlockNode(_) => self.layout_block(containing_block),
            BoxType::InlineNode(_) => {},
            BoxType::AnonymousBlock => self.layout_block(containing_block),
        }
    }

    /// Lays out a block: width, position, children, height, in this order.
    pub fn layout_block(&mut self, containing_block: &Dimensions)
        requires
            can_layout(old(self)@),
            !(old(self).box_type is InlineNode),
        ensures
            final(self)@ == spec_layout(old(self)@, *containing_block),
        decreases old(self).children, 1nat,
    {
        let ghost b0 = self@;
        proof {
            self.lemma_view();
        }
        self.calculate_block_width(containing_block);
        self.calculate_block_position(containing_block);
        proof {
            self.lemma_view();
            assert(self@.children =~= b0.children);
            assert forall|i: int| 0 <= i < self.children@.len() implies can_layout(
                #[trigger] self.children@[i]@,
            ) by {
                assert(b0.children[i] == self.children@[i]@);
            }
        }
        let ghost d2 = self.dimensions;
        let ghost b2 = self@;
        self.layout_block_children();
        proof {
            lemma_same_children(b2, b0, d2, b0.children.len());
        }
        let ghost children = self@.children;
        proof {
            self.lemma_view();
        }
        self.calculate_block_height();
        proof {
            self.lemma_view();
            assert(self@.children =~= children);
        }
    }

    /// Lays out the children one after the other, each in the box as it stands by then,
    /// and each making the box taller by the height of its margin box.
    pub fn layout_block_children(&mut self)
        requires
            forall|i: int|
                0 <= i < old(self).children@.len() ==> can_layout(
                    #[trigger] old(self).children@[i]@,
                ),
        ensures
            final(self)@.children == spec_layout_children(
                old(self)@,
                old(self).dimensions,
                old(self).children@.len() as nat,
            ).0,
            final(self).dimensions == spec_layout_children(
                old(self)@,
                old(self).dimensions,
                old(self).children@.len() as nat,
            ).1,
            final(self).box_type == old(self).box_type,
        decreases old(self).children, 0nat,
    {
        let n = self.children.len();
        let ghost b0 = self@;
        let ghost d0 = self.dimensions;
        proof {
            self.lemma_view();
        }
        let mut i: usize = 0;
        while i < n
            invariant
                i <= n,
                n == self.children@.len(),
                n == old(self).children@.len(),
                self.box_type == old(self).box_type,
                b0 == old(self)@,
                b0.children.len() == n,
                forall|j: int| 0 <= j < n ==> #[trigger] b0.children[j] == old(self).children@[j]@,
                forall|j: int| i <= j < n ==> #[trigger] self.children@[j] == old(self).children@[j],
                self.dimensions == spec_layout_children(b0, d0, i as nat).1,
                forall|j: int|
                    0 <= j < i ==> (#[trigger] self.children@[j])@ == spec_layout_children(
                        b0,
                        d0,
                        i as nat,
                    ).0[j],
                forall|j: int|
                    0 <= j < n ==> can_layout(#[trigger] old(self).children@[j]@),
            decreases n - i,
        {
            let d = self.dimensions;
            let ghost before = self.children@;
            let child = &mut self.children[i];
            child.layout(&d);
            let h = child.dimensions.margin_box().height;
            self.dimensions.content.height = Fixed::from_units(
                self.dimensions.content.height.wide() + h.wide(),
            );
            proof {
                lemma_layout_children_rest(b0, d0, i as nat);
                let (done, prev) = spec_layout_children(b0, d0, i as nat);
                let laid = spec_layout(b0.children[i as int], prev);
                assert(self.children@[i as int]@ == laid);
                self.children@[i as int].lemma_view();
                assert(spec_layout_children(b0, d0, (i + 1) as nat).0 == done.update(
                    i as int,
                    laid,
                ));
                assert forall|j: int| 0 <= j < i + 1 implies (#[trigger] self.children@[j])@
                    == spec_layout_children(b0, d0, (i + 1) as nat).0[j] by {
                    if j < i {
                        assert(self.children@[j] == before[j]);
                    }
                }
            }
            i += 1;
        }
        proof {
            self.lemma_view();
            lemma_layout_children_rest(b0, d0, n as nat);
            assert(self@.children =~= spec_layout_children(b0, d0, n as nat).0);
        }
    }
}

/// What laying out the children gives depends on the children alone, not on the
/// dimensions that the box itself had.
pub proof fn lemma_same_children<'a>(
    a: LayoutBoxView<'a>,
    b: LayoutBoxView<'a>,
    d: Dimensions,
    n: nat,
)
    requires
        a.children == b.children,
    ensures
        spec_layout_children(a, d, n) == spec_layout_children(b, d, n),
    decreases n,
{
    if n == 0 || n > a.children.len() {
    } else {
        lemma_same_children(a, b, d, (n - 1) as nat);
    }
}

/// The type of the box of a styled node that is displayed: a block for `Block`, inline
/// otherwise.
pub open spec fn box_type_of<'a>(style_node: &'a StyledNode<'a>) -> BoxType<'a> {
    if spec_display(style_node.props()) == Display::Block {
        BoxType::BlockNode(style_node)
    } else {
        BoxType::InlineNode(style_node)
    }
}

/// An anonymous block that holds the one box `inner`.
pub open spec fn anonymous_around<'a>(inner: LayoutBoxView<'a>) -> LayoutBoxView<'a> {
    LayoutBoxView {
        dimensions: Dimensions::spec_zero(),
        box_type: BoxType::AnonymousBlock,
        children: seq![inner],
    }
}

/// The layout tree of a styled node: a box of the node's own type, and below it the
/// boxes of the children that are displayed; see [`spec_build_children`].
pub open spec fn spec_build<'a>(style_node: &'a StyledNode<'a>) -> LayoutBoxView<'a>
    decreases style_node, style_node.children@.len() + 1,
{
    LayoutBoxView {
        dimensions: Dimensions::spec_zero(),
        box_type: box_type_of(style_node),
        children: spec_build_children(style_node, style_node.children@.len()),
    }
}

/// The boxes that the first `n` children of `style_node` give, in order. A child that is
/// not displayed gives none. The box of a block child of an inline parent, and that of
/// an inline child of a block parent, stands inside an anonymous block of its own.
pub open spec fn spec_build_children<'a>(style_node: &'a StyledNode<'a>, n: nat) -> Seq<
    LayoutBoxView<'a>,
>
    decreases style_node, n,
{
    if n == 0 || n > style_node.children@.len() {
        Seq::empty()
    } else {
        let before = spec_build_children(style_node, (n - 1) as nat);
        let child = &style_node.children@[n - 1];
        let parent_is_block = spec_display(style_node.props()) == Display::Block;
        match spec_display(child.props()) {
            Display::Hidden => before,
            Display::Block => if parent_is_block {
                before.push(spec_build(child))
            } else {
                before.push(anonymous_around(spec_build(child)))
            },
            Display::Inline => if parent_is_block {
                before.push(anonymous_around(spec_build(child)))
            } else {
                before.push(spec_build(child))
            },
        }
    }
}

/// Builds the layout tree of a styled node that is displayed; see [`spec_build`].
pub fn build_layout_tree<'a>(style_node: &'a StyledNode<'a>) -> (root: LayoutBox<'a>)
    requires
        spec_display(style_node.props()) != Display::Hidden,
    ensures
        root@ == spec_build(style_node),
    decreases style_node,
{
    let box_type = match style_node.display() {
        Display::Block => BoxType::BlockNode(style_node),
        Display::Inline => BoxType::InlineNode(style_node),
        Display::Hidden => vstd::pervasive::unreached(),
    };
    let mut root = LayoutBox::new(box_type);
    let parent_is_block = matches!(root.box_type, BoxType::BlockNode(_));

    let mut i: usize = 0;
    while i < style_node.children.len()
        invariant
            i <= style_node.children.len(),
            root.box_type == box_type_of(style_node),
            root.dimensions == Dimensions::spec_zero(),
            parent_is_block == (spec_display(style_node.props()) == Display::Block),
            root.children@.len() == spec_build_children(style_node, i as nat).len(),
            forall|k: int|
                0 <= k < root.children@.len() ==> (#[trigger] root.children@[k])@
                    == spec_build_children(style_node, i as nat)[k],
        decreases style_node.children.len() - i,
    {
        let child = &style_node.children[i];
        let ghost before = root.children@;
        match child.display() {
            Display::Block => {
                if parent_is_block {
                    root.children.push(build_layout_tree(child));
                } else {
                    let mut anonymous = LayoutBox::new(BoxType::AnonymousBlock);
                    anonymous.children.push(build_layout_tree(child));
                    proof {
                        anonymous.lemma_view();
                        assert(anonymous@.children =~= seq![spec_build(child)]);
                    }
                    root.children.push(anonymous);
                }
            },
            Display::Inline => {
                if parent_is_block {
                    let mut anonymous = LayoutBox::new(BoxType::AnonymousBlock);
                    anonymous.children.push(build_layout_tree(child));
                    proof {
                        anonymous.lemma_view();
                        assert(anonymous@.children =~= seq![spec_build(child)]);
                    }
                    root.children.push(anonymous);
                } else {
                    root.children.push(build_layout_tree(child));
                }
            },
            Display::Hidden => {},
        }
        proof {
            assert forall|k: int| 0 <= k < root.children@.len() implies (
            #[trigger] root.children@[k])@ == spec_build_children(style_node, (i + 1) as nat)[k] by {
                if k < before.len() {
                    assert(root.children@[k] == before[k]);
                }
            }
        }
        i += 1;
    }
    proof {
        root.lemma_view();
        assert(root@.children =~= spec_build_children(style_node, style_node.children@.len()));
    }
    root
}

/// The left and right margins, borders and paddings that `props` give are all 0.
pub open spec fn no_horizontal_edges(props: Map<Seq<char>, ValueView>) -> bool {
    &&& spec_lookup(props, "margin-left"@, "margin"@, zero_length()).to_px() == Fixed(0)
    &&& spec_lookup(props, "margin-right"@, "margin"@, zero_length()).to_px() == Fixed(0)
    &&& spec_lookup(props, "border-left-width"@, "border-width"@, zero_length()).to_px() == Fixed(0)
    &&& spec_lookup(props, "border-right-width"@, "border-width"@, zero_length()).to_px()
        == Fixed(0)
    &&& spec_lookup(props, "padding-left"@, "padding"@, zero_length()).to_px() == Fixed(0)
    &&& spec_lookup(props, "padding-right"@, "padding"@, zero_length()).to_px() == Fixed(0)
}

/// The top and bottom margins, borders and paddings that `props` give are all 0.
pub open spec fn no_vertical_edges(props: Map<Seq<char>, ValueView>) -> bool {
    &&& spec_lookup(props, "margin-top"@, "margin"@, zero_length()).to_px() == Fixed(0)
    &&& spec_lookup(props, "margin-bottom"@, "margin"@, zero_length()).to_px() == Fixed(0)
    &&& spec_lookup(props, "border-top-width"@, "border-width"@, zero_length()).to_px() == Fixed(0)
    &&& spec_lookup(props, "border-bottom-width"@, "border-width"@, zero_length()).to_px()
        == Fixed(0)
    &&& spec_lookup(props, "padding-top"@, "padding"@, zero_length()).to_px() == Fixed(0)
    &&& spec_lookup(props, "padding-bottom"@, "padding"@, zero_length()).to_px() == Fixed(0)
}

/// A block whose width is not set, or is `auto`, and which has no margins, borders or
/// paddings at its sides is as wide as the content of its containing block.
pub proof fn lemma_auto_width_fills(props: Map<Seq<char>, ValueView>, containing_width: Fixed)
    requires
        spec_value(props, "width"@) is None || spec_value(props, "width"@) == Some(auto_keyword()),
        no_horizontal_edges(props),
        containing_width.0 >= 0,
    ensures
        resolve_width(props, containing_width).width == containing_width,
        resolve_width(props, containing_width).margin_left == Fixed(0),
        resolve_width(props, containing_width).margin_right == Fixed(0),
{
}

/// A block of a set width whose two margins are `auto` stands in the middle: each margin
/// is half of what the containing width exceeds the width, the borders and the paddings
/// by.
pub proof fn lemma_auto_margins_center(
    props: Map<Seq<char>, ValueView>,
    containing_width: Fixed,
    width: ValueView,
)
    requires
        spec_value(props, "width"@) == Some(width),
        width != auto_keyword(),
        spec_lookup(props, "margin-left"@, "margin"@, zero_length()) == auto_keyword(),
        spec_lookup(props, "margin-right"@, "margin"@, zero_length()) == auto_keyword(),
    ensures
        ({
            let r = resolve_width(props, containing_width);
            let rest = containing_width.0 - width.to_px().0 - r.border_left.0 - r.border_right.0
                - r.padding_left.0 - r.padding_right.0;
            &&& r.width == width.to_px()
            &&& r.margin_left == Fixed::of(half(rest))
            &&& r.margin_right == r.margin_left
        }),
{
}

/// Blocks are stacked: where a block of no set height holds two blocks that have set
/// heights, no children and no margins, borders or paddings above or below, the second
/// lies below the first by the height of the first, and the block is as high as the two
/// together, as far as these sums are within range.
pub proof fn lemma_siblings_stack<'a>(
    parent: LayoutBoxView<'a>,
    containing_block: Dimensions,
    first_height: Fixed,
    second_height: Fixed,
)
    requires
        !(parent.box_type is InlineNode),
        parent.dimensions.content.height == Fixed(0),
        !(spec_value(parent.box_type.props(), "height"@) matches Some(ValueView::Length(_, _))),
        parent.children.len() == 2,
        forall|k: int|
            0 <= k < 2 ==> {
                let child = #[trigger] parent.children[k];
                &&& !(child.box_type is InlineNode)
                &&& child.children.len() == 0
                &&& no_vertical_edges(child.box_type.props())
            },
        spec_value(parent.children[0].box_type.props(), "height"@) == Some(
            ValueView::Length(first_height, Unit::Px),
        ),
        spec_value(parent.children[1].box_type.props(), "height"@) == Some(
            ValueView::Length(second_height, Unit::Px),
        ),
        representable(
            spec_layout(parent, containing_block).dimensions.content.y.0 + first_height.0,
        ),
        representable(first_height.0 + second_height.0),
    ensures
        ({
            let laid = spec_layout(parent, containing_block);
            &&& laid.children.len() == 2
            &&& laid.children[0].dimensions.content.y == laid.dimensions.content.y
            &&& laid.children[1].dimensions.content.y.0 == laid.children[0].dimensions.content.y.0
                + first_height.0
            &&& laid.dimensions.content.height.0 == first_height.0 + second_height.0
        }),
{
    let props = parent.box_type.props();
    let d1 = with_width(
        parent.dimensions,
        resolve_width(props, containing_block.content.width),
    );
    let d2 = with_position(d1, props, containing_block);
    reveal_with_fuel(spec_layout_children, 3);
    let first = spec_layout(parent.children[0], d2);
    let step = spec_layout_children(parent, d2, 1);
    assert(spec_layout_children(parent.children[0], first.dimensions, 0).1 == first.dimensions);
    assert(first.dimensions.content.height == first_height);
    assert(first.dimensions.spec_margin_box().height == first_height);
    assert(step.1 == grown(d2, first_height));
    let second = spec_layout(parent.children[1], step.1);
    assert(second.dimensions.content.height == second_height);
    assert(second.dimensions.spec_margin_box().height == second_height);
    let all = spec_layout_children(parent, d2, 2);
    assert(all.0 == step.0.update(1, second));
    assert(step.0 == parent.children.update(0, first));
}

} // verus!
