//! What a screen is made of: areas of the terminal and what is drawn in each.

use vstd::prelude::*;

verus! {

// ── Areas ────────────────────────────────────────────────────────────────────

/// An area of the terminal.
#[derive(Debug, Clone, Copy, PartialEq, Eq, Structural)]
pub struct Rect {
    pub x: u16,
    pub y: u16,
    pub width: u16,
    pub height: u16,
}

impl DeepView for Rect {
    type V = Rect;

    open spec fn deep_view(&self) -> Rect {
        *self
    }
}

impl Rect {
    /// The column behind the last one.
    pub open spec fn right(self) -> int {
        self.x + self.width
    }

    /// The row below the last one.
    pub open spec fn bottom(self) -> int {
        self.y + self.height
    }

    /// The area has no cell that a terminal cannot address.
    pub open spec fn addressable(self) -> bool {
        self.right() <= u16::MAX && self.bottom() <= u16::MAX
    }

    /// The area lies within another.
    pub open spec fn inside(self, other: Rect) -> bool {
        &&& other.x <= self.x
        &&& self.right() <= other.right()
        &&& other.y <= self.y
        &&& self.bottom() <= other.bottom()
    }
}

/// Whether an area has no cell that a terminal cannot address.
pub fn is_addressable(area: Rect) -> (r: bool)
    ensures
        r == area.addressable(),
{
    area.x as u32 + area.width as u32 <= 65535 && area.y as u32 + area.height as u32 <= 65535
}

pub open spec fn smaller(a: int, b: int) -> int {
    if a <= b {
        a
    } else {
        b
    }
}

/// What is left of `a` when `b` is taken away.
pub open spec fn less(a: int, b: int) -> int {
    if a >= b {
        a - b
    } else {
        0
    }
}

/// An area of at most the given size in the middle of another.
pub open spec fn centered(width: u16, height: u16, area: Rect) -> Rect {
    Rect {
        x: (area.x + less(area.width as int, width as int) / 2) as u16,
        y: (area.y + less(area.height as int, height as int) / 2) as u16,
        width: smaller(width as int, area.width as int) as u16,
        height: smaller(height as int, area.height as int) as u16,
    }
}

pub fn centered_rect(width: u16, height: u16, area: Rect) -> (r: Rect)
    requires
        area.addressable(),
    ensures
        r == centered(width, height, area),
        r.inside(area),
{
    Rect {
        x: area.x + area.width.saturating_sub(width) / 2,
        y: area.y + area.height.saturating_sub(height) / 2,
        width: if width <= area.width {
            width
        } else {
            area.width
        },
        height: if height <= area.height {
            height
        } else {
            area.height
        },
    }
}

// ── Text ─────────────────────────────────────────────────────────────────────

#[derive(Debug, Clone, Copy, PartialEq, Eq, Structural)]
pub enum Color {
    Black,
    Red,
    Green,
    Yellow,
    Blue,
    Magenta,
    Cyan,
    Gray,
    DarkGray,
    White,
}

#[derive(Debug, Clone, Copy, PartialEq, Eq, Structural)]
pub struct Style {
    pub fg: Option<Color>,
    pub bg: Option<Color>,
    pub bold: bool,
}

/// The terminal's own style.
#[verifier::allow_in_spec]
pub fn plain() -> Style
    returns
        (Style { fg: None, bg: None, bold: false }),
{
    Style { fg: None, bg: None, bold: false }
}

#[verifier::allow_in_spec]
pub fn fg(color: Color) -> Style
    returns
        (Style { fg: Some(color), bg: None, bold: false }),
{
    Style { fg: Some(color), bg: None, bold: false }
}

#[verifier::allow_in_spec]
pub fn bold_fg(color: Color) -> Style
    returns
        (Style { fg: Some(color), bg: None, bold: true }),
{
    Style { fg: Some(color), bg: None, bold: true }
}

#[verifier::allow_in_spec]
pub fn on(bg: Color, color: Color) -> Style
    returns
        (Style { fg: Some(color), bg: Some(bg), bold: false }),
{
    Style { fg: Some(color), bg: Some(bg), bold: false }
}

/// The style of the selected item of a list.
#[verifier::allow_in_spec]
pub fn highlight() -> Style
    returns
        (Style { fg: None, bg: Some(Color::DarkGray), bold: true }),
{
    Style { fg: None, bg: Some(Color::DarkGray), bold: true }
}

/// A text in one style.
#[derive(Debug, PartialEq)]
pub struct Span {
    pub text: String,
    pub style: Style,
}

pub struct SpanView {
    pub text: Seq<char>,
    pub style: Style,
}

impl DeepView for Span {
    type V = SpanView;

    open spec fn deep_view(&self) -> SpanView {
        SpanView { text: self.text@, style: self.style }
    }
}

pub open spec fn span(text: Seq<char>, style: Style) -> SpanView {
    SpanView { text, style }
}

/// A line of text.
pub type Line = Vec<Span>;

pub type LineView = Seq<SpanView>;

pub fn styled(text: String, style: Style) -> (r: Span)
    ensures
        r.deep_view() == span(text@, style),
{
    Span { text, style }
}

pub fn styled_str(text: &str, style: Style) -> (r: Span)
    ensures
        r.deep_view() == span(text@, style),
{
    Span { text: text.to_string(), style }
}

pub fn raw(text: &str) -> (r: Span)
    ensures
        r.deep_view() == span(text@, plain()),
{
    Span { text: text.to_string(), style: plain() }
}

/// No items.
pub fn none<T: DeepView>() -> (r: Vec<T>)
    ensures
        r.deep_view() == Seq::<T::V>::empty(),
        r@.len() == 0,
{
    let r: Vec<T> = Vec::new();
    assert(r.deep_view() =~= Seq::<T::V>::empty());
    r
}

/// The items and one more.
pub fn with<T: DeepView>(items: Vec<T>, item: T) -> (r: Vec<T>)
    ensures
        r.deep_view() == items.deep_view().push(item.deep_view()),
{
    let mut r = items;
    let ghost before = r.deep_view();
    r.push(item);
    assert(r.deep_view() =~= before.push(item.deep_view()));
    r
}

/// The items and some more.
pub fn with_all<T: DeepView>(items: Vec<T>, more: Vec<T>) -> (r: Vec<T>)
    ensures
        r.deep_view() == items.deep_view() + more.deep_view(),
{
    let mut r = items;
    let mut rest = more;
    let ghost before = r.deep_view();
    let ghost added = rest.deep_view();
    r.append(&mut rest);
    assert(r.deep_view() =~= before + added);
    r
}

/// A line of one span.
pub fn line(a: Span) -> (r: Line)
    ensures
        r.deep_view() == seq![a.deep_view()],
{
    with(none(), a)
}

pub fn line2(a: Span, b: Span) -> (r: Line)
    ensures
        r.deep_view() == seq![a.deep_view(), b.deep_view()],
{
    with(line(a), b)
}

pub fn line3(a: Span, b: Span, c: Span) -> (r: Line)
    ensures
        r.deep_view() == seq![a.deep_view(), b.deep_view(), c.deep_view()],
{
    with(line2(a, b), c)
}

pub fn line4(a: Span, b: Span, c: Span, d: Span) -> (r: Line)
    ensures
        r.deep_view() == seq![a.deep_view(), b.deep_view(), c.deep_view(), d.deep_view()],
{
    with(line3(a, b, c), d)
}

/// An empty line, which still takes up a row.
pub open spec fn blank() -> LineView {
    seq![]
}

pub fn blank_line() -> (r: Line)
    ensures
        r.deep_view() == blank(),
{
    none()
}

// ── Widgets ──────────────────────────────────────────────────────────────────

/// A frame round an area, on the given sides.
#[derive(Debug, PartialEq)]
pub struct Block {
    pub left: bool,
    pub top: bool,
    pub right: bool,
    pub bottom: bool,
    /// What is written into the top row.
    pub title: Option<Span>,
    pub border: Style,
}

pub struct BlockView {
    pub left: bool,
    pub top: bool,
    pub right: bool,
    pub bottom: bool,
    pub title: Option<SpanView>,
    pub border: Style,
}

impl DeepView for Block {
    type V = BlockView;

    open spec fn deep_view(&self) -> BlockView {
        BlockView {
            left: self.left,
            top: self.top,
            right: self.right,
            bottom: self.bottom,
            title: self.title.deep_view(),
            border: self.border,
        }
    }
}

/// A frame on all sides.
pub open spec fn boxed(title: Option<SpanView>, border: Style) -> BlockView {
    BlockView { left: true, top: true, right: true, bottom: true, title, border }
}

pub fn bordered(title: Option<Span>, border: Style) -> (r: Block)
    ensures
        r.deep_view() == boxed(title.deep_view(), border),
{
    Block { left: true, top: true, right: true, bottom: true, title, border }
}

/// What a frame leaves of an area. A title takes up the top row even where
/// there is no border.
pub open spec fn within(block: BlockView, area: Rect) -> Rect {
    let headed = block.top || block.title is Some;
    Rect {
        x: (if block.left && area.width > 0 {
            area.x + 1
        } else {
            area.x as int
        }) as u16,
        y: (if headed && area.height > 0 {
            area.y + 1
        } else {
            area.y as int
        }) as u16,
        width: less(less(area.width as int, block.left as int), block.right as int) as u16,
        height: less(less(area.height as int, headed as int), block.bottom as int) as u16,
    }
}

impl Block {
    /// What the frame leaves of an area.
    pub fn inner(&self, area: Rect) -> (r: Rect)
        requires
            area.addressable(),
        ensures
            r == within(self.deep_view(), area),
            r.inside(area),
    {
        let mut r = area;
        if self.left {
            if r.width > 0 {
                r.x = r.x + 1;
            }
            r.width = r.width.saturating_sub(1);
        }
        if self.top || self.title.is_some() {
            if r.height > 0 {
                r.y = r.y + 1;
            }
            r.height = r.height.saturating_sub(1);
        }
        if self.right {
            r.width = r.width.saturating_sub(1);
        }
        if self.bottom {
            r.height = r.height.saturating_sub(1);
        }
        r
    }
}

/// Something to draw.
#[derive(Debug, PartialEq)]
pub enum Widget {
    /// Wipes out what is there.
    Clear,
    Block(Block),
    /// Lines of text from line `scroll` on, in a frame or without one.
    Text { lines: Vec<Line>, style: Style, scroll: u16, framed: bool },
    /// A list with one of its items highlighted, scrolled to where that is seen.
    List { items: Vec<Line>, selected: Option<usize> },
}

pub enum WidgetView {
    Clear,
    Block(BlockView),
    Text { lines: Seq<LineView>, style: Style, scroll: u16, framed: bool },
    List { items: Seq<LineView>, selected: Option<int> },
}

impl DeepView for Widget {
    type V = WidgetView;

    open spec fn deep_view(&self) -> WidgetView {
        match self {
            Widget::Clear => WidgetView::Clear,
            Widget::Block(block) => WidgetView::Block(block.deep_view()),
            Widget::Text { lines, style, scroll, framed } => WidgetView::Text {
                lines: lines.deep_view(),
                style: *style,
                scroll: *scroll,
                framed: *framed,
            },
            Widget::List { items, selected } => WidgetView::List {
                items: items.deep_view(),
                selected: match selected {
                    Some(i) => Some(*i as int),
                    None => None,
                },
            },
        }
    }
}

/// A widget and where it is drawn.
#[derive(Debug, PartialEq)]
pub struct Draw {
    pub area: Rect,
    pub widget: Widget,
}

pub struct DrawView {
    pub area: Rect,
    pub widget: WidgetView,
}

impl DeepView for Draw {
    type V = DrawView;

    open spec fn deep_view(&self) -> DrawView {
        DrawView { area: self.area, widget: self.widget.deep_view() }
    }
}

pub open spec fn cleared(area: Rect) -> DrawView {
    DrawView { area, widget: WidgetView::Clear }
}

pub open spec fn block_at(area: Rect, block: BlockView) -> DrawView {
    DrawView { area, widget: WidgetView::Block(block) }
}

/// Lines of text in the terminal's own style, from the first on.
pub open spec fn text_at(area: Rect, lines: Seq<LineView>) -> DrawView {
    scrolled_at(area, lines, 0)
}

/// Lines of text in the terminal's own style.
pub open spec fn scrolled_at(area: Rect, lines: Seq<LineView>, scroll: u16) -> DrawView {
    DrawView { area, widget: WidgetView::Text { lines, style: plain(), scroll, framed: false } }
}

/// Lines of text on a ground of the given style.
pub open spec fn painted_at(area: Rect, lines: Seq<LineView>, style: Style) -> DrawView {
    DrawView { area, widget: WidgetView::Text { lines, style, scroll: 0, framed: false } }
}

pub open spec fn list_at(area: Rect, items: Seq<LineView>, selected: Option<int>) -> DrawView {
    DrawView { area, widget: WidgetView::List { items, selected } }
}

pub fn clear(area: Rect) -> (r: Draw)
    ensures
        r.deep_view() == cleared(area),
{
    Draw { area, widget: Widget::Clear }
}

pub fn block(area: Rect, frame: Block) -> (r: Draw)
    ensures
        r.deep_view() == block_at(area, frame.deep_view()),
{
    Draw { area, widget: Widget::Block(frame) }
}

pub fn text(area: Rect, lines: Vec<Line>) -> (r: Draw)
    ensures
        r.deep_view() == text_at(area, lines.deep_view()),
{
    Draw { area, widget: Widget::Text { lines, style: plain(), scroll: 0, framed: false } }
}

pub fn scrolled(area: Rect, lines: Vec<Line>, scroll: u16) -> (r: Draw)
    ensures
        r.deep_view() == scrolled_at(area, lines.deep_view(), scroll),
{
    Draw { area, widget: Widget::Text { lines, style: plain(), scroll, framed: false } }
}

pub fn painted(area: Rect, lines: Vec<Line>, style: Style) -> (r: Draw)
    ensures
        r.deep_view() == painted_at(area, lines.deep_view(), style),
{
    Draw { area, widget: Widget::Text { lines, style, scroll: 0, framed: false } }
}

// ── Laws ─────────────────────────────────────────────────────────────────────

/// A centered area has the size asked for, as far as there is room, and as much
/// room before it as behind it, to the nearest cell.
pub proof fn centered_is_in_the_middle(width: u16, height: u16, area: Rect)
    requires
        area.addressable(),
    ensures
        ({
            let r = centered(width, height, area);
            &&& r.inside(area)
            &&& width <= area.width ==> r.width == width
            &&& width > area.width ==> r.width == area.width
            &&& height <= area.height ==> r.height == height
            &&& height > area.height ==> r.height == area.height
            &&& 0 <= (area.right() - r.right()) - (r.x - area.x) <= 1
            &&& 0 <= (area.bottom() - r.bottom()) - (r.y - area.y) <= 1
        }),
{
}

/// A frame on all sides leaves everything but the outermost cells.
pub proof fn a_frame_takes_the_outermost_cells(title: Option<SpanView>, border: Style, area: Rect)
    requires
        area.width >= 2,
        area.height >= 2,
        area.addressable(),
    ensures
        within(boxed(title, border), area) == (Rect {
            x: (area.x + 1) as u16,
            y: (area.y + 1) as u16,
            width: (area.width - 2) as u16,
            height: (area.height - 2) as u16,
        }),
{
}

} // verus!
