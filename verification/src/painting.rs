//! Painting: from the layout tree to a list of drawing commands, and from the list to
//! pixels.

use vstd::prelude::*;
use crate::css::{Color, Value, ValueView};
use crate::fixed::{pixel_edge, to_pixel_edge, Fixed};
use crate::layout::{BoxType, LayoutBox, LayoutBoxView, Rect as LayoutRect};
use crate::style::spec_value;

verus! {

/// A rectangle in device coordinates.
#[derive(Debug, Clone, Copy, PartialEq, Eq, Structural)]
pub struct Rect {
    pub x: Fixed,
    pub y: Fixed,
    pub width: Fixed,
    pub height: Fixed,
}

/// One drawing instruction.
#[derive(Debug, Clone, Copy, PartialEq, Eq, Structural)]
pub enum DisplayCommand {
    /// Fill the rectangle with the colour.
    SolidColor(Color, Rect),
}

/// Drawing commands in the order in which they are carried out.
pub type DisplayList = Vec<DisplayCommand>;

/// A grid of pixels, row by row from the top.
pub struct Canvas {
    pub pixels: Vec<Color>,
    pub width: usize,
    pub height: usize,
}

impl Clone for Canvas {
    fn clone(&self) -> (r: Canvas)
        ensures
            r.width == self.width,
            r.height == self.height,
            r.pixels@ == self.pixels@,
    {
        let pixels = self.pixels.clone();
        assert(pixels@ =~= self.pixels@);
        Canvas { pixels, width: self.width, height: self.height }
    }
}

impl From<LayoutRect> for Rect {
    fn from(layout_rect: LayoutRect) -> (r: Rect) {
        Rect {
            x: layout_rect.x,
            y: layout_rect.y,
            width: layout_rect.width,
            height: layout_rect.height,
        }
    }
}

impl vstd::std_specs::convert::FromSpecImpl<LayoutRect> for Rect {
    open spec fn obeys_from_spec() -> bool {
        true
    }

    open spec fn from_spec(v: LayoutRect) -> Rect {
        device_rect(v)
    }
}

/// The same rectangle, as the painter's own type.
pub open spec fn device_rect(v: LayoutRect) -> Rect {
    Rect { x: v.x, y: v.y, width: v.width, height: v.height }
}

/// Opaque white, the colour of a canvas that nothing was painted on.
pub open spec fn spec_white() -> Color {
    Color { r: 255, g: 255, b: 255, a: 255 }
}

/// Opaque white.
pub fn white() -> (c: Color)
    ensures
        c == spec_white(),
{
    Color { r: 255, g: 255, b: 255, a: 255 }
}

impl Rect {
    /// First pixel column of the rectangle on a canvas `width` pixels wide.
    pub open spec fn left(self, width: int) -> int {
        pixel_edge(self.x.0 as int, width)
    }

    /// The pixel column after the last one of the rectangle.
    pub open spec fn right(self, width: int) -> int {
        pixel_edge(self.x.0 + self.width.0, width)
    }

    /// First pixel row of the rectangle on a canvas `height` pixels high.
    pub open spec fn top(self, height: int) -> int {
        pixel_edge(self.y.0 as int, height)
    }

    /// The pixel row after the last one of the rectangle.
    pub open spec fn bottom(self, height: int) -> int {
        pixel_edge(self.y.0 + self.height.0, height)
    }

    /// Whether the pixel in column `x` and row `y` lies in the rectangle, clipped to a
    /// canvas of the given size.
    pub open spec fn covers(self, width: int, height: int, x: int, y: int) -> bool {
        &&& self.left(width) <= x < self.right(width)
        &&& self.top(height) <= y < self.bottom(height)
    }
}

impl DisplayCommand {
    /// The colour to fill with.
    pub open spec fn color(self) -> Color {
        match self {
            DisplayCommand::SolidColor(c, _) => c,
        }
    }

    /// The rectangle to fill.
    pub open spec fn rect(self) -> Rect {
        match self {
            DisplayCommand::SolidColor(_, r) => r,
        }
    }
}

/// Rows of `w` pixels each: the pixel in column `x` of row `y` has a place among
/// `w * h` pixels, and no other pixel shares it.
pub proof fn lemma_pixel_index(w: int, h: int, x: int, y: int)
    requires
        0 <= x < w,
        0 <= y < h,
    ensures
        0 <= y * w,
        0 <= x + y * w < w * h,
        (x + y * w) % w == x,
        (x + y * w) / w == y,
{
    assert(0 <= y * w) by (nonlinear_arith)
        requires
            0 <= y,
            0 <= w,
    ;
    assert(x + y * w < w * h) by (nonlinear_arith)
        requires
            0 <= x < w,
            0 <= y < h,
    {
        assert((y + 1) * w <= h * w);
    }
    vstd::arithmetic::div_mod::lemma_fundamental_div_mod_converse(x + y * w, w, y, x);
}

impl Canvas {
    /// The pixels are as many as the size says.
    pub open spec fn well_formed(&self) -> bool {
        self.pixels@.len() == self.width * self.height
    }

    /// The colour of the pixel in column `x` of row `y`.
    pub open spec fn pixel(&self, x: int, y: int) -> Color {
        self.pixels@[x + y * self.width]
    }

    /// The colour of the pixel in column `x` of row `y` once `item` is carried out: that
    /// of the command where its rectangle, clipped to the canvas, covers the pixel; else
    /// the colour the pixel had.
    pub open spec fn painted(&self, item: DisplayCommand, x: int, y: int) -> Color {
        if item.rect().covers(self.width as int, self.height as int, x, y) {
            item.color()
        } else {
            self.pixel(x, y)
        }
    }

    /// A canvas of the given size, all white.
    pub fn new(width: usize, height: usize) -> (r: Canvas)
        requires
            width * height <= usize::MAX,
        ensures
            r.well_formed(),
            r.width == width,
            r.height == height,
            forall|i: int| 0 <= i < width * height ==> #[trigger] r.pixels@[i] == spec_white(),
    {
        assert(0 <= width * height) by (nonlinear_arith)
            requires
                0 <= width,
                0 <= height,
        ;
        let white = white();
        Canvas { pixels: vec![white; width * height], width, height }
    }

    /// Carries out one drawing command: every pixel of the rectangle, clipped to the
    /// canvas, takes the colour; the others stay as they are.
    pub fn paint_item(&mut self, item: &DisplayCommand)
        requires
            old(self).well_formed(),
        ensures
            final(self).well_formed(),
            final(self).width == old(self).width,
            final(self).height == old(self).height,
            forall|x: int, y: int|
                0 <= x < old(self).width && 0 <= y < old(self).height ==> #[trigger] final(self).pixel(
                    x,
                    y,
                ) == old(self).painted(*item, x, y),
    {
        match item {
            DisplayCommand::SolidColor(color, rect) => {
                let w = self.width;
                let h = self.height;
                let count = self.pixels.len();
                let x0 = to_pixel_edge(rect.x.wide(), w);
                let y0 = to_pixel_edge(rect.y.wide(), h);
                let x1 = to_pixel_edge(rect.x.wide() + rect.width.wide(), w);
                let y1 = to_pixel_edge(rect.y.wide() + rect.height.wide(), h);

                let mut y: usize = y0;
                while y < y1
                    invariant
                        w == self.width,
                        h == self.height,
                        w * h == count,
                        w == old(self).width,
                        h == old(self).height,
                        self.well_formed(),
                        x0 <= w,
                        x1 <= w,
                        y1 <= h,
                        y0 <= y,
                        y <= y1 || y == y0,
                        forall|px: int, py: int|
                            0 <= px < w && 0 <= py < h ==> #[trigger] self.pixel(px, py) == if x0
                                <= px < x1 && y0 <= py < y {
                                *color
                            } else {
                                old(self).pixel(px, py)
                            },
                    decreases y1 - y,
                {
                    let mut x: usize = x0;
                    while x < x1
                        invariant
                            w == self.width,
                            h == self.height,
                            w * h == count,
                            w == old(self).width,
                            h == old(self).height,
                            self.well_formed(),
                            x0 <= w,
                            x1 <= w,
                            y < y1 <= h,
                            y0 <= y,
                            x0 <= x,
                            x <= x1 || x == x0,
                            forall|px: int, py: int|
                                0 <= px < w && 0 <= py < h ==> #[trigger] self.pixel(px, py) == if (
                                x0 <= px < x1 && y0 <= py < y) || (py == y && x0 <= px < x) {
                                    *color
                                } else {
                                    old(self).pixel(px, py)
                                },
                        decreases x1 - x,
                    {
                        proof {
                            lemma_pixel_index(w as int, h as int, x as int, y as int);
                        }
                        let ghost before = *self;
                        let i: usize = x + y * w;
                        self.pixels[i] = *color;
                        proof {
                            assert forall|px: int, py: int| 0 <= px < w && 0 <= py < h implies
                                #[trigger] self.pixel(px, py) == if (x0 <= px < x1 && y0 <= py < y)
                                || (py == y && x0 <= px < x + 1) {
                                *color
                            } else {
                                old(self).pixel(px, py)
                            } by {
                                lemma_pixel_index(w as int, h as int, px, py);
                                if px + py * w != x + y * w {
                                    assert(self.pixel(px, py) == before.pixel(px, py));
                                }
                            }
                        }
                        x += 1;
                    }
                    y += 1;
                }
                proof {
                    assert forall|px: int, py: int| 0 <= px < w && 0 <= py < h implies
                        #[trigger] self.pixel(px, py) == old(self).painted(*item, px, py) by {
                        assert(item.rect().left(w as int) == x0);
                        assert(item.rect().right(w as int) == x1);
                        assert(item.rect().top(h as int) == y0);
                        assert(item.rect().bottom(h as int) == y1);
                    }
                }
            },
        }
    }
}

/// The colour that `props` give the property `name`, where its value is a colour.
pub open spec fn spec_color(props: Map<Seq<char>, ValueView>, name: Seq<char>) -> Option<Color> {
    match spec_value(props, name) {
        Some(ValueView::ColorValue(c)) => Some(c),
        _ => None,
    }
}

/// The command that paints the background of `b`: its border box in the colour of
/// `background`. None where the box has no such colour.
pub open spec fn background_commands(b: LayoutBoxView) -> Seq<DisplayCommand> {
    match spec_color(b.box_type.props(), "background"@) {
        Some(c) => seq![DisplayCommand::SolidColor(c, device_rect(b.dimensions.spec_border_box()))],
        None => Seq::empty(),
    }
}

/// The commands that paint the border of `b` in the colour of `border-color`: the left,
/// right, top and bottom strips of its border box, each as thick as the border on that
/// side. None where the box has no such colour.
pub open spec fn border_commands(b: LayoutBoxView) -> Seq<DisplayCommand> {
    match spec_color(b.box_type.props(), "border-color"@) {
        Some(c) => {
            let d = b.dimensions;
            let bb = d.spec_border_box();
            seq![
                DisplayCommand::SolidColor(
                    c,
                    Rect { x: bb.x, y: bb.y, width: d.border.left, height: bb.height },
                ),
                DisplayCommand::SolidColor(
                    c,
                    Rect {
                        x: Fixed::of(bb.x.0 + bb.width.0 - d.border.right.0),
                        y: bb.y,
                        width: d.border.right,
                        height: bb.height,
                    },
                ),
                DisplayCommand::SolidColor(
                    c,
                    Rect { x: bb.x, y: bb.y, width: bb.width, height: d.border.top },
                ),
                DisplayCommand::SolidColor(
                    c,
                    Rect {
                        x: bb.x,
                        y: Fixed::of(bb.y.0 + bb.height.0 - d.border.bottom.0),
                        width: bb.width,
                        height: d.border.bottom,
                    },
                ),
            ]
        },
        None => Seq::empty(),
    }
}

/// The commands that paint `b` and what is below it: its background, its border, then
/// its children in order.
pub open spec fn spec_display_list(b: LayoutBoxView) -> Seq<DisplayCommand>
    decreases b, b.children.len() + 1,
{
    background_commands(b) + border_commands(b) + children_commands(b, b.children.len())
}

/// The commands that paint the first `n` children of `b`.
pub open spec fn children_commands(b: LayoutBoxView, n: nat) -> Seq<DisplayCommand>
    decreases b, n,
{
    if n == 0 || n > b.children.len() {
        Seq::empty()
    } else {
        children_commands(b, (n - 1) as nat) + spec_display_list(b.children[n - 1])
    }
}

/// The colour of the pixel in column `x` of row `y` once the commands of `list` are
/// carried out in order on a white canvas of the given size: the colour of the last
/// command that covers the pixel, white where none does.
pub open spec fn pixel_color(list: Seq<DisplayCommand>, width: int, height: int, x: int, y: int)
    -> Color
    decreases list.len(),
{
    if list.len() == 0 {
        spec_white()
    } else if list.last().rect().covers(width, height, x, y) {
        list.last().color()
    } else {
        pixel_color(list.drop_last(), width, height, x, y)
    }
}

/// The colour that the box has for the property `name`, if it has one.
pub fn get_color(layout_box: &LayoutBox, name: &str) -> (r: Option<Color>)
    ensures
        r == spec_color(layout_box.box_type.props(), name@),
{
    match layout_box.box_type {
        BoxType::BlockNode(style) | BoxType::InlineNode(style) => {
            match style.value(name) {
                Some(Value::ColorValue(color)) => Some(color),
                _ => None,
            }
        },
        BoxType::AnonymousBlock => None,
    }
}

/// Adds the command for the background of the box to `list`.
pub fn render_background(list: &mut DisplayList, layout_box: &LayoutBox)
    ensures
        final(list)@ == old(list)@ + background_commands(layout_box@),
{
    proof {
        layout_box.lemma_view();
    }
    match get_color(layout_box, "background") {
        Some(color) => {
            list.push(DisplayCommand::SolidColor(color, Rect::from(layout_box.dimensions.border_box())));
        },
        None => {},
    }
}

/// Adds the commands for the border of the box to `list`.
pub fn render_borders(list: &mut DisplayList, layout_box: &LayoutBox)
    ensures
        final(list)@ == old(list)@ + border_commands(layout_box@),
{
    proof {
        layout_box.lemma_view();
    }
    let color = match get_color(layout_box, "border-color") {
        Some(color) => color,
        None => {
            return ;
        },
    };

    let d = &layout_box.dimensions;
    let border_box = d.border_box();

    list.push(
        DisplayCommand::SolidColor(
            color,
            Rect { x: border_box.x, y: border_box.y, width: d.border.left, height: border_box.height },
        ),
    );
    list.push(
        DisplayCommand::SolidColor(
            color,
            Rect {
                x: Fixed::from_units(
                    border_box.x.wide() + border_box.width.wide() - d.border.right.wide(),
                ),
                y: border_box.y,
                width: d.border.right,
                height: border_box.height,
            },
        ),
    );
    list.push(
        DisplayCommand::SolidColor(
            color,
            Rect { x: border_box.x, y: border_box.y, width: border_box.width, height: d.border.top },
        ),
    );
    list.push(
        DisplayCommand::SolidColor(
            color,
            Rect {
                x: border_box.x,
                y: Fixed::from_units(
                    border_box.y.wide() + border_box.height.wide() - d.border.bottom.wide(),
                ),
                width: border_box.width,
                height: d.border.bottom,
            },
        ),
    );
}

/// Adds the commands for the box and what is below it to `list`.
pub fn render_layout_box(list: &mut DisplayList, layout_box: &LayoutBox)
    ensures
        final(list)@ == old(list)@ + spec_display_list(layout_box@),
    decreases layout_box,
{
    proof {
        layout_box.lemma_view();
    }
    render_background(list, layout_box);
    render_borders(list, layout_box);

    let ghost own = list@;
    let mut i: usize = 0;
    while i < layout_box.children.len()
        invariant
            i <= layout_box.children.len(),
            layout_box@.children.len() == layout_box.children@.len(),
            forall|k: int|
                0 <= k < layout_box.children@.len() ==> #[trigger] layout_box@.children[k]
                    == layout_box.children@[k]@,
            list@ == own + children_commands(layout_box@, i as nat),
        decreases layout_box.children.len() - i,
    {
        render_layout_box(list, &layout_box.children[i]);
        i += 1;
    }
}

/// The commands that paint the layout tree, in the order in which they are to be
/// carried out.
pub fn build_display_list(layout_root: &LayoutBox) -> (list: DisplayList)
    ensures
        list@ == spec_display_list(layout_root@),
{
    let mut list = Vec::new();
    render_layout_box(&mut list, layout_root);
    list
}

/// Paints the layout tree on a white canvas of the size of `bounds`, in whole pixels.
pub fn paint(layout_root: &LayoutBox, bounds: LayoutRect) -> (canvas: Canvas)
    requires
        bounds.width.spec_pixels() * bounds.height.spec_pixels() <= usize::MAX,
    ensures
        canvas.well_formed(),
        canvas.width == bounds.width.spec_pixels(),
        canvas.height == bounds.height.spec_pixels(),
        forall|x: int, y: int|
            0 <= x < canvas.width && 0 <= y < canvas.height ==> #[trigger] canvas.pixel(x, y)
                == pixel_color(
                spec_display_list(layout_root@),
                canvas.width as int,
                canvas.height as int,
                x,
                y,
            ),
{
    let display_list = build_display_list(layout_root);
    let mut canvas = Canvas::new(bounds.width.pixels(), bounds.height.pixels());
    let ghost w = canvas.width as int;
    let ghost h = canvas.height as int;
    proof {
        assert forall|x: int, y: int| 0 <= x < w && 0 <= y < h implies #[trigger] canvas.pixel(x, y)
            == spec_white() by {
            lemma_pixel_index(w, h, x, y);
        }
    }

    let mut i: usize = 0;
    while i < display_list.len()
        invariant
            i <= display_list.len(),
            canvas.well_formed(),
            canvas.width == w,
            canvas.height == h,
            forall|x: int, y: int|
                0 <= x < w && 0 <= y < h ==> #[trigger] canvas.pixel(x, y) == pixel_color(
                    display_list@.take(i as int),
                    w,
                    h,
                    x,
                    y,
                ),
        decreases display_list.len() - i,
    {
        let ghost before = canvas;
        canvas.paint_item(&display_list[i]);
        proof {
            let next = display_list@.take(i + 1);
            assert(next.drop_last() == display_list@.take(i as int));
            assert(next.last() == display_list@[i as int]);
            assert forall|x: int, y: int| 0 <= x < w && 0 <= y < h implies #[trigger] canvas.pixel(
                x,
                y,
            ) == pixel_color(next, w, h, x, y) by {
                assert(canvas.pixel(x, y) == before.painted(display_list@[i as int], x, y));
                assert(before.pixel(x, y) == pixel_color(display_list@.take(i as int), w, h, x, y));
            }
        }
        i += 1;
    }
    proof {
        assert(display_list@.take(i as int) == display_list@);
    }
    canvas
}

/// Painting is overwriting: a pixel has the colour of the last command that covers it.
pub proof fn lemma_last_cover_wins(
    list: Seq<DisplayCommand>,
    width: int,
    height: int,
    x: int,
    y: int,
    i: int,
)
    requires
        0 <= i < list.len(),
        list[i].rect().covers(width, height, x, y),
        forall|k: int| i < k < list.len() ==> !(#[trigger] list[k]).rect().covers(width, height, x, y),
    ensures
        pixel_color(list, width, height, x, y) == list[i].color(),
    decreases list.len(),
{
    if i < list.len() - 1 {
        let front = list.drop_last();
        assert(front[i] == list[i]);
        assert forall|k: int| i < k < front.len() implies !(#[trigger] front[k]).rect().covers(
            width,
            height,
            x,
            y,
        ) by {
            assert(front[k] == list[k]);
        }
        lemma_last_cover_wins(front, width, height, x, y, i);
    }
}

/// A pixel that no command covers stays white.
pub proof fn lemma_uncovered_is_white(
    list: Seq<DisplayCommand>,
    width: int,
    height: int,
    x: int,
    y: int,
)
    requires
        forall|k: int| 0 <= k < list.len() ==> !(#[trigger] list[k]).rect().covers(width, height, x, y),
    ensures
        pixel_color(list, width, height, x, y) == spec_white(),
    decreases list.len(),
{
    if list.len() > 0 {
        let front = list.drop_last();
        assert forall|k: int| 0 <= k < front.len() implies !(#[trigger] front[k]).rect().covers(
            width,
            height,
            x,
            y,
        ) by {
            assert(front[k] == list[k]);
        }
        assert(list.last() == list[list.len() - 1]);
        lemma_uncovered_is_white(front, width, height, x, y);
    }
}

/// A child is painted after its parent: where a box holds one child, which has a
/// background colour, no border colour and no children, every pixel that the child's
/// border box covers has the child's colour, whatever the parent paints.
pub proof fn lemma_child_paints_over_parent(
    parent: LayoutBoxView,
    child_color: Color,
    width: int,
    height: int,
    x: int,
    y: int,
)
    requires
        parent.children.len() == 1,
        parent.children[0].children.len() == 0,
        spec_color(parent.children[0].box_type.props(), "background"@) == Some(child_color),
        spec_color(parent.children[0].box_type.props(), "border-color"@) is None,
        device_rect(parent.children[0].dimensions.spec_border_box()).covers(width, height, x, y),
    ensures
        pixel_color(spec_display_list(parent), width, height, x, y) == child_color,
{
    let child = parent.children[0];
    let own = background_commands(parent) + border_commands(parent);
    let command = DisplayCommand::SolidColor(
        child_color,
        device_rect(child.dimensions.spec_border_box()),
    );
    assert(children_commands(child, 0) =~= Seq::empty());
    assert(spec_display_list(child) =~= seq![command]);
    assert(children_commands(parent, 0) =~= Seq::empty());
    assert(children_commands(parent, 1) =~= seq![command]);
    assert(spec_display_list(parent) =~= own.push(command));
}

} // verus!
