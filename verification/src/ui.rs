//! The screen: which panels are drawn where. Panels are laid out first, then
//! filled; `render` does both.

use ratatui::layout::{Constraint, Layout};
use vstd::prelude::*;

use crate::app::App;
use crate::model;
use crate::model::AppView;
use crate::panels;
use crate::review::{ConffileReviewState, DiffState, DiffView, ReviewView};
use crate::scene;
use crate::scene::{
    bold_fg,
    bordered,
    centered_rect,
    fg,
    line,
    none,
    on,
    plain,
    styled,
    styled_str,
    with,
    with_all,
    Block,
    BlockView,
    Color,
    Draw,
    DrawView,
    Line,
    LineView,
    Rect,
    Style,
    Widget,
    WidgetView,
};
use crate::sidebar;
use crate::state::{HostState, HostStatus, HostStatusView, HostView, RebootConfirmState, RebootView};
use crate::task;
use crate::text;

verus! {

// ── Layout ───────────────────────────────────────────────────────────────────

/// How an area is cut: into columns or into rows.
#[derive(Debug, Clone, Copy, PartialEq, Eq, Structural)]
pub enum Direction {
    Horizontal,
    Vertical,
}

/// How much of an area a part of it takes.
#[derive(Debug, Clone, Copy, PartialEq, Eq, Structural)]
pub enum Size {
    /// That many rows or columns.
    Length(u16),
    /// What is left over.
    Rest,
    /// A part of what is left over, in proportion to the other shares.
    Share(u16),
}

/// Where an area starts in a direction.
pub open spec fn start(direction: Direction, area: Rect) -> int {
    match direction {
        Direction::Horizontal => area.x as int,
        Direction::Vertical => area.y as int,
    }
}

/// How far an area goes in a direction.
pub open spec fn extent(direction: Direction, area: Rect) -> int {
    match direction {
        Direction::Horizontal => area.width as int,
        Direction::Vertical => area.height as int,
    }
}

/// The part has the whole extent of the area across the direction.
pub open spec fn spans_across(direction: Direction, part: Rect, area: Rect) -> bool {
    match direction {
        Direction::Horizontal => part.y == area.y && part.height == area.height,
        Direction::Vertical => part.x == area.x && part.width == area.width,
    }
}

/// What a size comes to where `spare` is left over.
pub open spec fn extent_of(size: Size, spare: int) -> int {
    match size {
        Size::Length(n) => n as int,
        Size::Rest => spare,
        Size::Share(_) => 0,
    }
}

/// What the first `n` sizes come to.
pub open spec fn offset(sizes: Seq<Size>, n: nat, spare: int) -> int
    decreases n,
{
    if n == 0 {
        0
    } else {
        offset(sizes, (n - 1) as nat, spare) + extent_of(sizes[n - 1], spare)
    }
}

/// What the lengths come to.
pub open spec fn needed(sizes: Seq<Size>) -> int {
    offset(sizes, sizes.len(), 0)
}

/// One size is the rest, and all others are lengths.
pub open spec fn one_rest(sizes: Seq<Size>) -> bool {
    exists|k: int|
        0 <= k < sizes.len() && #[trigger] sizes[k] is Rest && forall|i: int|
            0 <= i < sizes.len() && i != k ==> #[trigger] sizes[i] is Length
}

/// The factors of the shares among the first `n` sizes, added up.
pub open spec fn factors(sizes: Seq<Size>, n: nat) -> int
    decreases n,
{
    if n == 0 {
        0
    } else {
        factors(sizes, (n - 1) as nat) + match sizes[n - 1] {
            Size::Share(k) => k as int,
            _ => 0,
        }
    }
}

/// Some sizes are shares, and all others are lengths.
pub open spec fn shared(sizes: Seq<Size>) -> bool {
    &&& factors(sizes, sizes.len()) > 0
    &&& forall|i: int| 0 <= i < sizes.len() ==> !(#[trigger] sizes[i] is Rest)
}

/// Where an area ends in a direction.
pub open spec fn end(direction: Direction, area: Rect) -> int {
    start(direction, area) + extent(direction, area)
}

/// Part `i` starts where the one before it ends, and the first where the area
/// starts.
pub open spec fn adjoins(direction: Direction, area: Rect, parts: Seq<Rect>, i: int) -> bool {
    start(direction, parts[i]) == if i == 0 {
        start(direction, area)
    } else {
        end(direction, parts[i - 1])
    }
}

/// Some size is the rest or a share.
pub open spec fn grows(sizes: Seq<Size>) -> bool {
    exists|i: int| 0 <= i < sizes.len() && !(#[trigger] sizes[i] is Length)
}

/// What the shares in front of part `i` take, besides the lengths there.
pub open spec fn taken_before(
    direction: Direction,
    sizes: Seq<Size>,
    area: Rect,
    parts: Seq<Rect>,
    i: int,
) -> int {
    start(direction, parts[i]) - start(direction, area) - offset(sizes, i as nat, 0)
}

/// `a` is the `k`-th of `t` equal parts of `whole`, rounded to a whole number.
pub open spec fn rounded_part(a: int, k: int, t: int, whole: int) -> bool {
    -t <= 2 * (t * a - k * whole) <= t
}

/// The sizes are such as the layout knows to handle.
pub open spec fn modest(sizes: Seq<Size>) -> bool {
    &&& 0 < sizes.len() <= 4
    &&& forall|i: int|
        0 <= i < sizes.len() ==> ((#[trigger] sizes[i]) matches Size::Share(n) ==> 1 <= n <= 3)
}

/// The parts are what an area is cut into. They lie within it, one behind the
/// other from its start, and fill it where anything can grow or the lengths take
/// all of it. Where the lengths fit, they are kept, and what they leave goes to
/// the rest, or is divided in proportion to the shares, each cut rounded to the
/// nearest cell. Where they do not fit, nothing is left for rest and shares, and
/// no length is exceeded.
pub open spec fn cuts(
    direction: Direction,
    sizes: Seq<Size>,
    area: Rect,
    parts: Seq<Rect>,
) -> bool {
    let spare = extent(direction, area) - needed(sizes);
    &&& parts.len() == sizes.len()
    &&& forall|i: int|
        0 <= i < parts.len() ==> (#[trigger] parts[i]).inside(area) && spans_across(
            direction,
            parts[i],
            area,
        )
    &&& forall|i: int| 0 <= i < parts.len() ==> #[trigger] adjoins(direction, area, parts, i)
    &&& parts.len() > 0 && (grows(sizes) || spare <= 0) ==> end(direction, parts.last()) == end(
        direction,
        area,
    )
    &&& spare < 0 ==> forall|i: int|
        0 <= i < parts.len() ==> extent(direction, #[trigger] parts[i]) <= extent_of(sizes[i], 0)
    &&& spare >= 0 ==> forall|i: int|
        0 <= i < parts.len() ==> (#[trigger] sizes[i] matches Size::Length(n) ==> extent(
            direction,
            parts[i],
        ) == n)
    &&& spare >= 0 && one_rest(sizes) ==> forall|i: int|
        0 <= i < parts.len() ==> start(direction, #[trigger] parts[i]) == start(direction, area)
            + offset(sizes, i as nat, spare) && extent(direction, parts[i]) == extent_of(
            sizes[i],
            spare,
        )
    &&& spare >= 0 && shared(sizes) ==> forall|i: int|
        0 <= i < parts.len() ==> rounded_part(
            #[trigger] taken_before(direction, sizes, area, parts, i),
            factors(sizes, i as nat),
            factors(sizes, sizes.len()),
            spare,
        )
}

/// Calls `ratatui::layout::Layout::split`, with a length as
/// `Constraint::Length`, the rest as `Constraint::Min(0)` and a share as
/// `Constraint::Fill`. There is one part for each size, within the area and
/// across the whole of it; the parts follow each other without a gap, and fill
/// the area where anything can grow or the lengths take all of it. Lengths that
/// fit are kept, since they come before growing; one `Min(0)` among lengths grows
/// to fill what they leave; and `Fill`s among lengths fill it together, in
/// proportion to their factors, with every cut rounded to the nearest cell.
/// Where the lengths do not fit, the others get nothing and no length is
/// exceeded. Left unsaid is which of the lengths give way then.
#[verifier::external_body]
fn split(direction: Direction, sizes: &[Size], area: Rect) -> (r: Vec<Rect>)
    requires
        area.addressable(),
        modest(sizes@),
    ensures
        cuts(direction, sizes@, area, r@),
{
    let constraints = sizes.iter().map(|size| match *size {
        Size::Length(n) => Constraint::Length(n),
        Size::Rest => Constraint::Min(0),
        Size::Share(n) => Constraint::Fill(n),
    });
    let layout = match direction {
        Direction::Horizontal => Layout::horizontal(constraints),
        Direction::Vertical => Layout::vertical(constraints),
    };
    let area = ratatui::layout::Rect { x: area.x, y: area.y, width: area.width, height: area.height };
    let parts = layout.split(area);
    parts.iter().map(|p| Rect { x: p.x, y: p.y, width: p.width, height: p.height }).collect()
}

/// The areas that the screen is cut into.
#[derive(Debug)]
pub struct Frames {
    /// Title bar, body and status bar.
    pub main: Vec<Rect>,
    /// Sidebar and detail panel.
    pub body: Vec<Rect>,
    /// Host header, kernel, packages and task output of the detail panel.
    pub panes: Vec<Rect>,
    /// Upgradable and autoremovable packages.
    pub packages: Vec<Rect>,
    /// Status line and output of a task.
    pub task: Vec<Rect>,
    /// Header, output and footer of the full view of a task.
    pub log: Vec<Rect>,
    /// File list, diff and footer of the conffile review.
    pub review: Vec<Rect>,
}

pub struct FramesView {
    pub main: Seq<Rect>,
    pub body: Seq<Rect>,
    pub panes: Seq<Rect>,
    pub packages: Seq<Rect>,
    pub task: Seq<Rect>,
    pub log: Seq<Rect>,
    pub review: Seq<Rect>,
}

impl View for Frames {
    type V = FramesView;

    open spec fn view(&self) -> FramesView {
        FramesView {
            main: self.main@,
            body: self.body@,
            panes: self.panes@,
            packages: self.packages@,
            task: self.task@,
            log: self.log@,
            review: self.review@,
        }
    }
}

pub open spec fn main_sizes() -> Seq<Size> {
    seq![Size::Length(1), Size::Rest, Size::Length(2)]
}

pub open spec fn body_sizes(sidebar_width: u16) -> Seq<Size> {
    seq![Size::Length(sidebar_width), Size::Rest]
}

/// The task output takes up a large share where there is any.
pub open spec fn pane_sizes(has_task: bool) -> Seq<Size> {
    seq![
        Size::Length(3),
        Size::Length(6),
        Size::Share(1),
        if has_task {
            Size::Share(3)
        } else {
            Size::Length(3)
        },
    ]
}

pub open spec fn package_sizes() -> Seq<Size> {
    seq![Size::Share(2), Size::Share(1)]
}

pub open spec fn task_sizes() -> Seq<Size> {
    seq![Size::Length(1), Size::Rest]
}

pub open spec fn log_sizes() -> Seq<Size> {
    seq![Size::Length(3), Size::Rest, Size::Length(1)]
}

/// The file list gets a third of the height, capped so a long list can't crowd
/// out the diff entirely.
pub open spec fn list_height(files: nat, height: u16) -> u16 {
    let wanted = scene::smaller(files as int % 65536 + 1, height as int / 3);
    (if wanted >= 2 {
        wanted
    } else {
        2
    }) as u16
}

pub open spec fn review_sizes(list_height: u16) -> Seq<Size> {
    seq![Size::Length(list_height), Size::Rest, Size::Length(1)]
}

/// A frame with a title in the terminal's own style.
pub open spec fn titled(title: Seq<char>) -> BlockView {
    scene::boxed(Some(scene::span(title, plain())), plain())
}

/// A frame without a title.
pub open spec fn untitled() -> BlockView {
    scene::boxed(None, plain())
}

/// What the detail panel has for its contents.
pub open spec fn detail_area(app: AppView, area: Rect, f: FramesView) -> Rect {
    if app.detail_zoom {
        area
    } else {
        scene::within(titled(" Detail "@), f.body[1])
    }
}

/// The only selected host has a task.
pub open spec fn shows_task(app: AppView) -> bool {
    let idxs = app.selected_hosts();
    idxs.len() == 1 && app.hosts[idxs[0]].task is Some
}

/// The conffile review covers nearly the whole screen.
pub open spec fn review_area(area: Rect) -> Rect {
    scene::centered(
        (if area.width >= 46 {
            area.width - 6
        } else {
            40
        }) as u16,
        (if area.height >= 16 {
            area.height - 4
        } else {
            12
        }) as u16,
        area,
    )
}

pub open spec fn review_block(hostname: Seq<char>) -> BlockView {
    scene::boxed(
        Some(
            scene::span(" Pending config files — "@ + hostname + " "@, bold_fg(Color::Magenta)),
        ),
        fg(Color::Magenta),
    )
}

/// What the conffile review has for its contents.
pub open spec fn review_inner(area: Rect) -> Rect {
    scene::within(titled(""@), review_area(area))
}

pub open spec fn reviewed_files(app: AppView) -> nat {
    match app.review {
        Some(s) => s.files.len(),
        None => 0,
    }
}

/// The frames are what the screen is cut into for the state.
pub open spec fn laid_out(app: AppView, area: Rect, f: FramesView) -> bool {
    &&& cuts(Direction::Vertical, main_sizes(), area, f.main)
    &&& cuts(Direction::Horizontal, body_sizes(app.sidebar_width), f.main[1], f.body)
    &&& cuts(
        Direction::Vertical,
        pane_sizes(shows_task(app)),
        detail_area(app, area, f),
        f.panes,
    )
    &&& cuts(Direction::Horizontal, package_sizes(), f.panes[2], f.packages)
    &&& cuts(
        Direction::Vertical,
        task_sizes(),
        scene::within(titled(""@), f.panes[3]),
        f.task,
    )
    &&& cuts(Direction::Vertical, log_sizes(), area, f.log)
    &&& cuts(
        Direction::Vertical,
        review_sizes(list_height(reviewed_files(app), review_inner(area).height)),
        review_inner(area),
        f.review,
    )
}

fn review_rect(area: Rect) -> (r: Rect)
    requires
        area.addressable(),
    ensures
        r == review_area(area),
        r.inside(area),
{
    let width: u16 = if area.width >= 46 {
        area.width - 6
    } else {
        40
    };
    let height: u16 = if area.height >= 16 {
        area.height - 4
    } else {
        12
    };
    centered_rect(width, height, area)
}

fn list_rows(files: usize, height: u16) -> (r: u16)
    ensures
        r == list_height(files as nat, height),
{
    let wanted: usize = files % 65536 + 1;
    let third: u16 = height / 3;
    let rows: u16 = if wanted <= third as usize {
        wanted as u16
    } else {
        third
    };
    if rows >= 2 {
        rows
    } else {
        2
    }
}

fn titled_block(title: &str) -> (r: Block)
    ensures
        r.deep_view() == titled(title@),
{
    bordered(Some(styled_str(title, plain())), plain())
}

/// Cuts the screen into the areas that the state needs.
pub fn lay_out(app: &App, area: Rect) -> (r: Frames)
    requires
        app.deep_view().valid(),
        area.addressable(),
    ensures
        laid_out(app.deep_view(), area, r@),
{
    let frame = titled_block("");
    let main = split(
        Direction::Vertical,
        [Size::Length(1), Size::Rest, Size::Length(2)].as_slice(),
        area,
    );
    assert(main@[1].inside(area));
    let body = split(
        Direction::Horizontal,
        [Size::Length(app.sidebar_width), Size::Rest].as_slice(),
        main[1],
    );
    assert(body@[1].inside(main@[1]));
    let detail = if app.detail_zoom {
        area
    } else {
        titled_block(" Detail ").inner(body[1])
    };
    let idxs = app.selected_host_indices();
    let has_task: bool = if idxs.len() == 1 {
        assert(sidebar::ints(idxs@)[0] == idxs@[0]);
        assert(app.deep_view().hosts[idxs@[0] as int] == app.hosts@[idxs@[0] as int].deep_view());
        app.hosts[idxs[0]].task.is_some()
    } else {
        false
    };
    let task_size = if has_task {
        Size::Share(3)
    } else {
        Size::Length(3)
    };
    let panes = split(
        Direction::Vertical,
        [Size::Length(3), Size::Length(6), Size::Share(1), task_size].as_slice(),
        detail,
    );
    assert(panes@[2].inside(detail) && panes@[3].inside(detail));
    let packages = split(
        Direction::Horizontal,
        [Size::Share(2), Size::Share(1)].as_slice(),
        panes[2],
    );
    let task = split(
        Direction::Vertical,
        [Size::Length(1), Size::Rest].as_slice(),
        frame.inner(panes[3]),
    );
    let log = split(
        Direction::Vertical,
        [Size::Length(3), Size::Rest, Size::Length(1)].as_slice(),
        area,
    );
    let files: usize = match &app.conffile_review {
        Some(state) => state.files.len(),
        None => 0,
    };
    let inner = frame.inner(review_rect(area));
    let rows: u16 = list_rows(files, inner.height);
    let review = split(
        Direction::Vertical,
        [Size::Length(rows), Size::Rest, Size::Length(1)].as_slice(),
        inner,
    );
    Frames { main, body, panes, packages, task, log, review }
}

// ── Main screen ──────────────────────────────────────────────────────────────

pub open spec fn title_bar(area: Rect) -> DrawView {
    scene::painted_at(
        area,
        seq![seq![scene::span(" aptmatic — apt manager"@, plain())]],
        Style { fg: Some(Color::Black), bg: Some(Color::Blue), bold: true },
    )
}

fn render_title_bar(area: Rect) -> (r: Draw)
    ensures
        r.deep_view() == title_bar(area),
{
    scene::painted(
        area,
        with(none(), line(styled_str(" aptmatic — apt manager", plain()))),
        Style { fg: Some(Color::Black), bg: Some(Color::Blue), bold: true },
    )
}

/// Whether a host is being gathered.
pub open spec fn refreshes() -> spec_fn(HostView) -> bool {
    |h: HostView|
        h.status == HostStatusView::Connecting || h.status == HostStatusView::Gathering
}

pub open spec fn status_bar(app: AppView, area: Rect) -> DrawView {
    scene::painted_at(
        area,
        panels::status_bar_lines(app.hosts.filter(refreshes()).len()),
        on(Color::DarkGray, Color::White),
    )
}

fn count_refreshing(app: &App) -> (r: usize)
    ensures
        r == app.deep_view().hosts.filter(refreshes()).len(),
{
    let ghost all = app.hosts.deep_view();
    let n: usize = app.hosts.len();
    let mut count: usize = 0;
    let mut i: usize = 0;
    proof {
        reveal(Seq::filter);
    }
    while i < n
        invariant
            n == app.hosts@.len(),
            all == app.hosts.deep_view(),
            i <= n,
            count <= i,
            count == all.take(i as int).filter(refreshes()).len(),
        decreases n - i,
    {
        proof {
            assert(all.take(i + 1) =~= all.take(i as int).push(all[i as int]));
            all.take(i as int).lemma_filter_push(all[i as int], refreshes());
        }
        match app.hosts[i].status {
            HostStatus::Connecting | HostStatus::Gathering => {
                count += 1;
            },
            _ => {},
        }
        i += 1;
    }
    assert(all.take(n as int) =~= all);
    count
}

fn render_status_bar(app: &App, area: Rect) -> (r: Draw)
    ensures
        r.deep_view() == status_bar(app.deep_view(), area),
{
    scene::painted(
        area,
        panels::status_lines(count_refreshing(app)),
        on(Color::DarkGray, Color::White),
    )
}

pub open spec fn sidebar_block(title: Seq<char>) -> BlockView {
    BlockView {
        left: false,
        top: false,
        right: true,
        bottom: false,
        title: Some(scene::span(title, plain())),
        border: plain(),
    }
}

/// The rows that the filter leaves visible, with the selected one highlighted.
pub open spec fn sidebar_items(app: AppView) -> Seq<LineView> {
    app.visible().map_values(
        |i: int| panels::sidebar_line(app.rows[i], app.hosts, app.tick),
    )
}

pub open spec fn sidebar_scene(app: AppView, area: Rect) -> Seq<DrawView> {
    let block = sidebar_block(panels::sidebar_title(app.filter, app.filter_editing));
    let inner = scene::within(block, area);
    seq![
        scene::block_at(area, block),
        if app.visible().len() == 0 {
            scene::painted_at(
                inner,
                seq![seq![scene::span(" no matches"@, plain())]],
                fg(Color::DarkGray),
            )
        } else {
            scene::list_at(
                inner,
                sidebar_items(app),
                app.visible().index_of_first(app.selected_row),
            )
        },
    ]
}

fn show_rows(app: &App, filtered: &Vec<usize>) -> (r: Vec<Line>)
    requires
        app.deep_view().valid(),
        sidebar::ints(filtered@) == app.deep_view().visible(),
    ensures
        r.deep_view() == sidebar_items(app.deep_view()),
{
    let ghost all = sidebar_items(app.deep_view());
    let n: usize = filtered.len();
    let mut r: Vec<Line> = none();
    let mut i: usize = 0;
    while i < n
        invariant
            app.deep_view().valid(),
            n == filtered@.len(),
            sidebar::ints(filtered@) == app.deep_view().visible(),
            all == sidebar_items(app.deep_view()),
            i <= n,
            r.deep_view() =~= all.take(i as int),
        decreases n - i,
    {
        let k: usize = filtered[i];
        proof {
            assert(app.deep_view().visible()[i as int] == k);
            sidebar::lemma_visible_in_range(
                app.deep_view().rows,
                app.deep_view().hosts,
                app.deep_view().matched(),
                i as int,
            );
            assert(app.deep_view().rows[k as int] == app.sidebar_rows@[k as int].deep_view());
        }
        r = with(r, panels::row_line(&app.sidebar_rows[k], &app.hosts, app.tick));
        i += 1;
    }
    assert(all.take(n as int) =~= all);
    r
}

fn render_sidebar(app: &App, area: Rect) -> (r: Vec<Draw>)
    requires
        app.deep_view().valid(),
        area.addressable(),
    ensures
        r.deep_view() == sidebar_scene(app.deep_view(), area),
{
    let title = panels::hosts_title(app.filter.as_str(), app.filter_editing);
    let frame = Block {
        left: false,
        top: false,
        right: true,
        bottom: false,
        title: Some(styled(title, plain())),
        border: plain(),
    };
    let inner = frame.inner(area);
    let r: Vec<Draw> = with(none(), scene::block(area, frame));
    let filtered = app.filtered_row_indices();
    assert(sidebar::ints(filtered@).len() == filtered@.len());
    if filtered.len() == 0 {
        let lines = with(none(), line(styled_str(" no matches", plain())));
        return with(r, scene::painted(inner, lines, fg(Color::DarkGray)));
    }
    let items = show_rows(app, &filtered);
    let selected = app.position(&filtered);
    with(r, Draw { area: inner, widget: Widget::List { items, selected } })
}

// ── Detail panel ─────────────────────────────────────────────────────────────

/// The contents of the detail panel: of a group a summary, of a host everything.
pub open spec fn detail_contents(app: AppView, area: Rect, f: FramesView) -> Seq<DrawView> {
    let idxs = app.selected_hosts();
    let inner = detail_area(app, area, f);
    if idxs.len() == 0 {
        seq![scene::text_at(inner, seq![seq![scene::span("No selection"@, plain())]])]
    } else if idxs.len() > 1 {
        seq![
            scene::text_at(
                inner,
                idxs.map_values(|i: int| panels::summary_line(app.hosts[i], app.tick)),
            ),
        ]
    } else {
        host_scene(app.hosts[idxs[0]], app.tick, f)
    }
}

/// The detail panel. Zoomed it fills the screen without a frame, so that a
/// selection copies only content.
pub open spec fn detail_scene(app: AppView, area: Rect, f: FramesView) -> Seq<DrawView> {
    if app.detail_zoom {
        detail_contents(app, area, f)
    } else {
        seq![scene::block_at(f.body[1], titled(" Detail "@))] + detail_contents(app, area, f)
    }
}

pub open spec fn host_scene(h: HostView, tick: u64, f: FramesView) -> Seq<DrawView> {
    header_scene(h, f.panes[0]) + kernel_scene(h, f.panes[1]) + upgradable_scene(
        h,
        f.packages[0],
    ) + autoremovable_scene(h, f.packages[1]) + task_scene(h, tick, f.panes[3], f.task)
}

pub open spec fn header_scene(h: HostView, area: Rect) -> Seq<DrawView> {
    seq![
        scene::block_at(area, untitled()),
        scene::text_at(scene::within(untitled(), area), panels::header_lines(h)),
    ]
}

pub open spec fn kernel_scene(h: HostView, area: Rect) -> Seq<DrawView> {
    seq![
        scene::block_at(area, titled(" Kernel "@)),
        scene::text_at(scene::within(titled(" Kernel "@), area), panels::kernel_lines(h)),
    ]
}

/// The upgradable packages, scrolled to the end where they overflow.
pub open spec fn upgradable_scene(h: HostView, area: Rect) -> Seq<DrawView> {
    match h.info {
        None => seq![scene::block_at(area, titled(" Upgradable "@))],
        Some(info) => {
            let block = titled(panels::upgradable_title(info));
            let inner = scene::within(block, area);
            let lines = panels::upgradable_lines(info);
            seq![
                scene::block_at(area, block),
                scene::scrolled_at(inner, lines, panels::overflow(lines.len(), inner.height)),
            ]
        },
    }
}

pub open spec fn autoremovable_scene(h: HostView, area: Rect) -> Seq<DrawView> {
    let block = titled(panels::autoremovable_title(h));
    let inner = scene::within(block, area);
    let frame = seq![scene::block_at(area, block)];
    match h.info {
        Some(info) if info.autoremovable.len() > 0 => frame.push(
            scene::scrolled_at(
                inner,
                panels::autoremovable_lines(info),
                panels::overflow(info.autoremovable.len(), inner.height),
            ),
        ),
        _ => frame,
    }
}

/// The end of the output of a host's task, below a line on how it stands.
pub open spec fn task_scene(h: HostView, tick: u64, area: Rect, parts: Seq<Rect>) -> Seq<
    DrawView,
> {
    match h.task {
        None => seq![scene::block_at(area, titled(" Task output: none "@))],
        Some(t) => {
            let block = titled(" Task: "@ + task::label_of(t.kind) + " "@);
            let rows = scene::less(scene::within(block, area).height as int, 1);
            seq![
                scene::block_at(area, block),
                scene::text_at(
                    parts[0],
                    seq![
                        seq![
                            scene::span(
                                " "@ + panels::task_status(t, tick),
                                panels::task_style(t.status),
                            ),
                        ],
                    ],
                ),
                scene::text_at(
                    parts[1],
                    panels::raw_lines(t.output.skip(scene::less(t.output.len() as int, rows))),
                ),
            ]
        },
    }
}

fn render_host_header(h: &HostState, area: Rect) -> (r: Vec<Draw>)
    requires
        area.addressable(),
    ensures
        r.deep_view() == header_scene(h.deep_view(), area),
{
    let frame = bordered(None, plain());
    let inner = frame.inner(area);
    with(with(none(), scene::block(area, frame)), scene::text(inner, panels::header(h)))
}

fn render_kernel_panel(h: &HostState, area: Rect) -> (r: Vec<Draw>)
    requires
        area.addressable(),
    ensures
        r.deep_view() == kernel_scene(h.deep_view(), area),
{
    let frame = titled_block(" Kernel ");
    let inner = frame.inner(area);
    with(with(none(), scene::block(area, frame)), scene::text(inner, panels::kernel(h)))
}

fn render_upgradable_panel(h: &HostState, area: Rect) -> (r: Vec<Draw>)
    requires
        area.addressable(),
    ensures
        r.deep_view() == upgradable_scene(h.deep_view(), area),
{
    let info = match &h.info {
        Some(info) => info,
        None => {
            return with(none(), scene::block(area, titled_block(" Upgradable ")));
        },
    };
    let title = panels::title_of_upgradable(info);
    let frame = titled_block(title.as_str());
    let inner = frame.inner(area);
    let lines = panels::show_upgradable(info);
    assert(lines.deep_view().len() == lines@.len());
    let scroll: u16 = panels::overflowing(lines.len(), inner.height);
    with(with(none(), scene::block(area, frame)), scene::scrolled(inner, lines, scroll))
}

fn render_autoremovable_panel(h: &HostState, area: Rect) -> (r: Vec<Draw>)
    requires
        area.addressable(),
    ensures
        r.deep_view() == autoremovable_scene(h.deep_view(), area),
{
    let title = panels::title_of_autoremovable(h);
    let frame = titled_block(title.as_str());
    let inner = frame.inner(area);
    let r: Vec<Draw> = with(none(), scene::block(area, frame));
    match &h.info {
        Some(info) => {
            assert(info.autoremovable.deep_view().len() == info.autoremovable@.len());
            if info.autoremovable.len() > 0 {
                let lines = panels::show_autoremovable(info);
                let scroll: u16 = panels::overflowing(info.autoremovable.len(), inner.height);
                with(r, scene::scrolled(inner, lines, scroll))
            } else {
                r
            }
        },
        None => r,
    }
}

fn render_task_panel(h: &HostState, tick: u64, area: Rect, parts: &Vec<Rect>) -> (r: Vec<Draw>)
    requires
        area.addressable(),
        parts@.len() == 2,
    ensures
        r.deep_view() == task_scene(h.deep_view(), tick, area, parts@),
{
    let task = match &h.task {
        Some(task) => task,
        None => {
            return with(none(), scene::block(area, titled_block(" Task output: none ")));
        },
    };
    let mut title = " Task: ".to_string();
    title.append(task.kind.label().as_str());
    title.append(" ");
    let frame = titled_block(title.as_str());
    // Reserve one row for the status line, the rest for output.
    let rows: u16 = frame.inner(area).height.saturating_sub(1);
    let first: usize = task.output.len().saturating_sub(rows as usize);
    let status = styled(
        text::cat(" ", panels::describe_task(task, tick).as_str()),
        panels::style_of_task(&task.status),
    );
    let r: Vec<Draw> = with(none(), scene::block(area, frame));
    let r = with(r, scene::text(parts[0], with(none(), line(status))));
    with(r, scene::text(parts[1], panels::output_from(task, first)))
}

fn render_host_detail(h: &HostState, tick: u64, frames: &Frames) -> (r: Vec<Draw>)
    requires
        frames.panes@.len() == 4,
        frames.packages@.len() == 2,
        frames.task@.len() == 2,
        forall|i: int| 0 <= i < 4 ==> (#[trigger] frames.panes@[i]).addressable(),
        forall|i: int| 0 <= i < 2 ==> (#[trigger] frames.packages@[i]).addressable(),
    ensures
        r.deep_view() == host_scene(h.deep_view(), tick, frames@),
{
    let r = render_host_header(h, frames.panes[0]);
    let r = with_all(r, render_kernel_panel(h, frames.panes[1]));
    let r = with_all(r, render_upgradable_panel(h, frames.packages[0]));
    let r = with_all(r, render_autoremovable_panel(h, frames.packages[1]));
    with_all(r, render_task_panel(h, tick, frames.panes[3], &frames.task))
}

fn render_group_detail(app: &App, idxs: &Vec<usize>) -> (r: Vec<Line>)
    requires
        forall|i: int| 0 <= i < idxs@.len() ==> #[trigger] idxs@[i] < app.hosts@.len(),
    ensures
        r.deep_view() == sidebar::ints(idxs@).map_values(
            |i: int| panels::summary_line(app.deep_view().hosts[i], app.tick),
        ),
{
    let ghost all = sidebar::ints(idxs@).map_values(
        |i: int| panels::summary_line(app.deep_view().hosts[i], app.tick),
    );
    let n: usize = idxs.len();
    let mut r: Vec<Line> = none();
    let mut i: usize = 0;
    while i < n
        invariant
            n == idxs@.len(),
            forall|i: int| 0 <= i < idxs@.len() ==> #[trigger] idxs@[i] < app.hosts@.len(),
            all == sidebar::ints(idxs@).map_values(
                |i: int| panels::summary_line(app.deep_view().hosts[i], app.tick),
            ),
            i <= n,
            r.deep_view() =~= all.take(i as int),
        decreases n - i,
    {
        let k: usize = idxs[i];
        assert(app.deep_view().hosts[k as int] == app.hosts@[k as int].deep_view());
        r = with(r, panels::summarize(&app.hosts[k], app.tick));
        i += 1;
    }
    assert(all.take(n as int) =~= all);
    r
}

fn render_detail(app: &App, area: Rect, frames: &Frames) -> (r: Vec<Draw>)
    requires
        app.deep_view().valid(),
        area.addressable(),
        laid_out(app.deep_view(), area, frames@),
    ensures
        r.deep_view() == detail_scene(app.deep_view(), area, frames@),
{
    proof {
        lemma_frames_inside(app.deep_view(), area, frames@);
    }
    let idxs = app.selected_host_indices();
    assert(sidebar::ints(idxs@).len() == idxs@.len());
    let inner = if app.detail_zoom {
        area
    } else {
        titled_block(" Detail ").inner(frames.body[1])
    };
    let contents: Vec<Draw> = if idxs.len() == 0 {
        let lines = with(none(), line(styled_str("No selection", plain())));
        with(none(), scene::text(inner, lines))
    } else if idxs.len() > 1 {
        with(none(), scene::text(inner, render_group_detail(app, &idxs)))
    } else {
        assert(sidebar::ints(idxs@)[0] == idxs@[0]);
        assert(app.deep_view().hosts[idxs@[0] as int] == app.hosts@[idxs@[0] as int].deep_view());
        render_host_detail(&app.hosts[idxs[0]], app.tick, frames)
    };
    if app.detail_zoom {
        contents
    } else {
        with_all(
            with(none(), scene::block(frames.body[1], titled_block(" Detail "))),
            contents,
        )
    }
}

/// There are as many frames as are drawn in, and all of them lie in the area.
spec fn frames_inside(app: AppView, area: Rect, f: FramesView) -> bool {
    &&& f.main.len() == 3
    &&& f.body.len() == 2
    &&& f.panes.len() == 4
    &&& f.packages.len() == 2
    &&& f.task.len() == 2
    &&& f.log.len() == 3
    &&& f.review.len() == 3
    &&& forall|i: int| 0 <= i < 3 ==> (#[trigger] f.main[i]).inside(area)
    &&& forall|i: int| 0 <= i < 2 ==> (#[trigger] f.body[i]).inside(area)
    &&& forall|i: int| 0 <= i < 4 ==> (#[trigger] f.panes[i]).inside(area)
    &&& forall|i: int| 0 <= i < 2 ==> (#[trigger] f.packages[i]).inside(area)
    &&& forall|i: int| 0 <= i < 2 ==> (#[trigger] f.task[i]).inside(area)
    &&& forall|i: int| 0 <= i < 3 ==> (#[trigger] f.log[i]).inside(area)
    &&& forall|i: int| 0 <= i < 3 ==> (#[trigger] f.review[i]).inside(area)
    &&& detail_area(app, area, f).inside(area)
    &&& review_inner(area).inside(review_area(area))
    &&& review_area(area).inside(area)
}

proof fn lemma_frames_inside(app: AppView, area: Rect, f: FramesView)
    requires
        area.addressable(),
        laid_out(app, area, f),
    ensures
        frames_inside(app, area, f),
{
    assert(f.main[1].inside(area));
    assert(f.body[1].inside(f.main[1]));
    assert(f.panes[2].inside(detail_area(app, area, f)));
    assert(f.panes[3].inside(detail_area(app, area, f)));
    lemma_within_inside(titled(" Detail "@), f.body[1]);
    lemma_within_inside(titled(""@), f.panes[3]);
    lemma_within_inside(titled(""@), review_area(area));
}

proof fn lemma_within_inside(block: BlockView, area: Rect)
    requires
        area.addressable(),
    ensures
        scene::within(block, area).inside(area),
{
}

// ── Full view of a task ──────────────────────────────────────────────────────

/// The output of a host's task on the whole screen. It is followed to the end
/// until the user scrolls.
pub open spec fn log_scene(h: HostView, tick: u64, area: Rect, parts: Seq<Rect>) -> Seq<
    DrawView,
> {
    match h.task {
        None => seq![],
        Some(t) => {
            let inner = scene::within(titled(" Output "@), parts[1]);
            let total = t.output.len() as int % 65536;
            seq![
                scene::cleared(area),
                DrawView {
                    area: parts[0],
                    widget: WidgetView::Text {
                        lines: panels::raw_lines(
                            text::lines(panels::task_heading(h.cfg.hostname, t, tick)),
                        ),
                        style: bold_fg(Color::Cyan),
                        scroll: 0,
                        framed: true,
                    },
                },
                scene::block_at(parts[1], titled(" Output "@)),
                scene::scrolled_at(
                    inner,
                    panels::raw_lines(t.output),
                    if t.auto_scroll {
                        scene::less(total, inner.height as int) as u16
                    } else {
                        t.scroll_offset
                    },
                ),
                scene::painted_at(
                    parts[2],
                    seq![
                        seq![
                            scene::span(
                                if t.auto_scroll {
                                    " ↑/↓/PgUp/PgDn:scroll  G/End:tail(auto)  Esc/q:close"@
                                } else {
                                    " ↑/↓/PgUp/PgDn:scroll  G/End:tail       Esc/q:close"@
                                },
                                plain(),
                            ),
                        ],
                    ],
                    on(Color::DarkGray, Color::White),
                ),
            ]
        },
    }
}

fn render_task_view(h: &HostState, tick: u64, area: Rect, parts: &Vec<Rect>) -> (r: Vec<Draw>)
    requires
        parts@.len() == 3,
        parts@[1].addressable(),
    ensures
        r.deep_view() == log_scene(h.deep_view(), tick, area, parts@),
{
    let task = match &h.task {
        Some(task) => task,
        None => {
            return none();
        },
    };
    let heading = panels::heading(h.cfg.hostname.as_str(), task, tick);
    let frame = titled_block(" Output ");
    let inner = frame.inner(parts[1]);
    let total: u16 = (task.output.len() % 65536) as u16;
    let scroll: u16 = if task.auto_scroll {
        total.saturating_sub(inner.height)
    } else {
        task.scroll_offset
    };
    let hint = if task.auto_scroll {
        " ↑/↓/PgUp/PgDn:scroll  G/End:tail(auto)  Esc/q:close"
    } else {
        " ↑/↓/PgUp/PgDn:scroll  G/End:tail       Esc/q:close"
    };
    let output = panels::output_from(task, 0);
    assert(task.deep_view().output.skip(0) =~= task.deep_view().output);
    let r: Vec<Draw> = with(none(), scene::clear(area));
    let r = with(
        r,
        Draw {
            area: parts[0],
            widget: Widget::Text {
                lines: panels::text_lines(heading.as_str()),
                style: bold_fg(Color::Cyan),
                scroll: 0,
                framed: true,
            },
        },
    );
    let r = with(r, scene::block(parts[1], frame));
    let r = with(r, scene::scrolled(inner, output, scroll));
    let footer = with(none(), line(styled_str(hint, plain())));
    with(r, scene::painted(parts[2], footer, on(Color::DarkGray, Color::White)))
}

// ── Modals ───────────────────────────────────────────────────────────────────

/// The frame above the diff.
pub open spec fn rule() -> BlockView {
    BlockView {
        left: false,
        top: true,
        right: false,
        bottom: false,
        title: None,
        border: plain(),
    }
}

/// The diff of the selected file, or why there is none to see.
pub open spec fn diff_scene(diff: Option<DiffView>, scroll: u16, tick: u64, area: Rect) -> DrawView {
    match diff {
        Some(DiffView::Loaded(lines)) => if lines.len() == 0 {
            scene::text_at(
                area,
                seq![
                    seq![
                        scene::span(
                            " no differences — the new file matches the live one"@,
                            fg(Color::DarkGray),
                        ),
                    ],
                ],
            )
        } else {
            scene::scrolled_at(
                area,
                panels::diff_lines(lines),
                scene::smaller(
                    scroll as int,
                    scene::less(lines.len() as int % 65536, area.height as int),
                ) as u16,
            )
        },
        Some(DiffView::Failed(e)) => scene::text_at(
            area,
            seq![seq![scene::span(" diff failed: "@ + e, fg(Color::Red))]],
        ),
        _ => scene::text_at(
            area,
            seq![
                seq![
                    scene::span(
                        " "@ + panels::spinner_at(tick) + " loading diff…"@,
                        fg(Color::Yellow),
                    ),
                ],
            ],
        ),
    }
}

pub open spec fn review_scene(
    hostname: Seq<char>,
    s: ReviewView,
    tick: u64,
    area: Rect,
    parts: Seq<Rect>,
) -> Seq<DrawView> {
    seq![
        scene::cleared(review_area(area)),
        scene::block_at(review_area(area), review_block(hostname)),
        scene::list_at(parts[0], panels::review_lines(s), Some(s.selected)),
        scene::block_at(parts[1], rule()),
        diff_scene(s.diff(), s.scroll, tick, scene::within(rule(), parts[1])),
        scene::text_at(parts[2], seq![panels::review_footer(s)]),
    ]
}

fn render_diff(state: &ConffileReviewState, tick: u64, area: Rect) -> (r: Draw)
    ensures
        r.deep_view() == diff_scene(state.deep_view().diff(), state.scroll, tick, area),
{
    match state.selected_diff() {
        Some(DiffState::Loaded(lines)) => {
            assert(lines.deep_view().len() == lines@.len());
            if lines.len() == 0 {
                let note = styled_str(
                    " no differences — the new file matches the live one",
                    fg(Color::DarkGray),
                );
                scene::text(area, with(none(), line(note)))
            } else {
                let last: u16 = ((lines.len() % 65536) as u16).saturating_sub(area.height);
                let scroll: u16 = if state.scroll <= last {
                    state.scroll
                } else {
                    last
                };
                scene::scrolled(area, panels::show_diff(lines), scroll)
            }
        },
        Some(DiffState::Failed(e)) => {
            let note = styled(text::cat(" diff failed: ", e.as_str()), fg(Color::Red));
            scene::text(area, with(none(), line(note)))
        },
        _ => {
            let mut note = " ".to_string();
            note.append(panels::spinner(tick));
            note.append(" loading diff…");
            scene::text(area, with(none(), line(styled(note, fg(Color::Yellow)))))
        },
    }
}

fn render_conffile_review_modal(
    hostname: &str,
    state: &ConffileReviewState,
    tick: u64,
    area: Rect,
    parts: &Vec<Rect>,
) -> (r: Vec<Draw>)
    requires
        area.addressable(),
        parts@.len() == 3,
        parts@[1].addressable(),
    ensures
        r.deep_view() == review_scene(hostname@, state.deep_view(), tick, area, parts@),
{
    let modal = review_rect(area);
    let mut title = " Pending config files — ".to_string();
    title.append(hostname);
    title.append(" ");
    let frame = bordered(Some(styled(title, bold_fg(Color::Magenta))), fg(Color::Magenta));
    let above = Block {
        left: false,
        top: true,
        right: false,
        bottom: false,
        title: None,
        border: plain(),
    };
    let diff_area = above.inner(parts[1]);
    let r: Vec<Draw> = with(none(), scene::clear(modal));
    let r = with(r, scene::block(modal, frame));
    let r = with(
        r,
        Draw {
            area: parts[0],
            widget: Widget::List {
                items: panels::show_files(state),
                selected: Some(state.selected),
            },
        },
    );
    let r = with(r, scene::block(parts[1], above));
    let r = with(r, render_diff(state, tick, diff_area));
    with(r, scene::text(parts[2], with(none(), panels::footer(state))))
}

/// The frame of a confirmation.
pub open spec fn warning(title: Seq<char>, border: Color) -> BlockView {
    scene::boxed(Some(scene::span(title, bold_fg(Color::Red))), fg(border))
}

/// A confirmation in the middle of the screen.
pub open spec fn modal(
    width: u16,
    height: u16,
    area: Rect,
    block: BlockView,
    lines: Seq<LineView>,
) -> Seq<DrawView> {
    let at = scene::centered(width, height, area);
    seq![
        scene::cleared(at),
        scene::block_at(at, block),
        scene::text_at(scene::within(block, at), lines),
    ]
}

fn render_modal(width: u16, height: u16, area: Rect, frame: Block, lines: Vec<Line>) -> (r: Vec<
    Draw,
>)
    requires
        area.addressable(),
    ensures
        r.deep_view() == modal(width, height, area, frame.deep_view(), lines.deep_view()),
{
    let at = centered_rect(width, height, area);
    let inner = frame.inner(at);
    let r: Vec<Draw> = with(none(), scene::clear(at));
    let r = with(r, scene::block(at, frame));
    with(r, scene::text(inner, lines))
}

pub open spec fn reboot_scene(hostname: Seq<char>, s: RebootView, area: Rect) -> Seq<DrawView> {
    modal(
        60,
        11,
        area,
        warning(
            " ⚠  Confirm Reboot "@,
            if s.mismatch {
                Color::Red
            } else {
                Color::Yellow
            },
        ),
        panels::reboot_lines(hostname, s.input, s.mismatch),
    )
}

pub open spec fn quit_scene(running: nat, area: Rect) -> Seq<DrawView> {
    modal(
        56,
        8,
        area,
        warning(" ⚠  Confirm Quit "@, Color::Yellow),
        panels::quit_lines(running),
    )
}

fn warning_block(title: &str, border: Color) -> (r: Block)
    ensures
        r.deep_view() == warning(title@, border),
{
    bordered(Some(styled_str(title, bold_fg(Color::Red))), fg(border))
}

fn render_reboot_confirm_modal(hostname: &str, state: &RebootConfirmState, area: Rect) -> (r: Vec<
    Draw,
>)
    requires
        area.addressable(),
    ensures
        r.deep_view() == reboot_scene(hostname@, state.deep_view(), area),
{
    let border = if state.mismatch {
        Color::Red
    } else {
        Color::Yellow
    };
    let lines = panels::reboot_text(hostname, state.input.as_str(), state.mismatch);
    render_modal(60, 11, area, warning_block(" ⚠  Confirm Reboot ", border), lines)
}

fn render_quit_confirm_modal(running: usize, area: Rect) -> (r: Vec<Draw>)
    requires
        area.addressable(),
    ensures
        r.deep_view() == quit_scene(running as nat, area),
{
    let frame = warning_block(" ⚠  Confirm Quit ", Color::Yellow);
    render_modal(56, 8, area, frame, panels::quit_text(running))
}

// ── The screen ───────────────────────────────────────────────────────────────

/// What is below the modals.
pub open spec fn backdrop(app: AppView, area: Rect, f: FramesView) -> Seq<DrawView> {
    if app.viewing_task is Some {
        log_scene(app.hosts[app.viewing_task->0], app.tick, area, f.log)
    } else if app.detail_zoom {
        detail_scene(app, area, f)
    } else {
        seq![title_bar(f.main[0])] + sidebar_scene(app, f.body[0]) + detail_scene(app, area, f)
            + seq![status_bar(app, f.main[2])]
    }
}

/// Everything that is drawn, in order: the modals on top, the quit
/// confirmation last.
pub open spec fn screen(app: AppView, area: Rect, f: FramesView) -> Seq<DrawView> {
    backdrop(app, area, f) + (match app.review {
        Some(s) => review_scene(
            app.hosts[s.host_idx].cfg.hostname,
            s,
            app.tick,
            area,
            f.review,
        ),
        None => seq![],
    }) + (match app.reboot {
        Some(s) => reboot_scene(app.hosts[s.host_idx].cfg.hostname, s, area),
        None => seq![],
    }) + (if app.quit_confirm {
        quit_scene(app.hosts.filter(model::works()).len(), area)
    } else {
        seq![]
    })
}

fn render_backdrop(app: &App, area: Rect, frames: &Frames) -> (r: Vec<Draw>)
    requires
        app.deep_view().valid(),
        area.addressable(),
        laid_out(app.deep_view(), area, frames@),
    ensures
        r.deep_view() == backdrop(app.deep_view(), area, frames@),
{
    proof {
        lemma_frames_inside(app.deep_view(), area, frames@);
    }
    if let Some(i) = app.viewing_task {
        assert(app.deep_view().hosts[i as int] == app.hosts@[i as int].deep_view());
        return render_task_view(&app.hosts[i], app.tick, area, &frames.log);
    }
    let detail = render_detail(app, area, frames);
    if app.detail_zoom {
        return detail;
    }
    let r: Vec<Draw> = with(none(), render_title_bar(frames.main[0]));
    let r = with_all(r, render_sidebar(app, frames.body[0]));
    let r = with_all(r, detail);
    with_all(r, with(none(), render_status_bar(app, frames.main[2])))
}

/// What is drawn where the screen is cut as `frames` says.
pub fn draw(app: &App, area: Rect, frames: &Frames) -> (r: Vec<Draw>)
    requires
        app.deep_view().valid(),
        area.addressable(),
        laid_out(app.deep_view(), area, frames@),
    ensures
        r.deep_view() == screen(app.deep_view(), area, frames@),
{
    proof {
        lemma_frames_inside(app.deep_view(), area, frames@);
    }
    let r = render_backdrop(app, area, frames);
    let review: Vec<Draw> = match &app.conffile_review {
        Some(state) => {
            assert(app.deep_view().hosts[state.host_idx as int]
                == app.hosts@[state.host_idx as int].deep_view());
            let hostname = app.hosts[state.host_idx].cfg.hostname.as_str();
            render_conffile_review_modal(hostname, state, app.tick, area, &frames.review)
        },
        None => none(),
    };
    let reboot: Vec<Draw> = match &app.reboot_confirm {
        Some(state) => {
            assert(app.deep_view().hosts[state.host_idx as int]
                == app.hosts@[state.host_idx as int].deep_view());
            let hostname = app.hosts[state.host_idx].cfg.hostname.as_str();
            render_reboot_confirm_modal(hostname, state, area)
        },
        None => none(),
    };
    let quit: Vec<Draw> = if app.quit_confirm {
        render_quit_confirm_modal(app.active_operation_count(), area)
    } else {
        none()
    };
    with_all(with_all(with_all(r, review), reboot), quit)
}

/// Everything that is drawn on a screen that covers `area`.
pub fn render(app: &App, area: Rect) -> (r: Vec<Draw>)
    requires
        app.deep_view().valid(),
        area.addressable(),
    ensures
        exists|f: FramesView|
            laid_out(app.deep_view(), area, f) && r.deep_view() == screen(
                app.deep_view(),
                area,
                f,
            ),
{
    let frames = lay_out(app, area);
    draw(app, area, &frames)
}

// ── Laws ─────────────────────────────────────────────────────────────────────

pub open spec fn all_inside(draws: Seq<DrawView>, area: Rect) -> bool {
    forall|i: int| 0 <= i < draws.len() ==> (#[trigger] draws[i]).area.inside(area)
}

proof fn lemma_all_inside_add(a: Seq<DrawView>, b: Seq<DrawView>, area: Rect)
    requires
        all_inside(a, area),
        all_inside(b, area),
    ensures
        all_inside(a + b, area),
{
}

/// However small the screen is, nothing is drawn outside it.
pub proof fn nothing_is_drawn_outside(app: AppView, area: Rect, f: FramesView)
    requires
        app.valid(),
        area.addressable(),
        laid_out(app, area, f),
    ensures
        all_inside(screen(app, area, f), area),
{
    lemma_frames_inside(app, area, f);
    lemma_backdrop_inside(app, area, f);
    let below = backdrop(app, area, f);
    let review = match app.review {
        Some(s) => review_scene(
            app.hosts[s.host_idx].cfg.hostname,
            s,
            app.tick,
            area,
            f.review,
        ),
        None => seq![],
    };
    let reboot = match app.reboot {
        Some(s) => reboot_scene(app.hosts[s.host_idx].cfg.hostname, s, area),
        None => seq![],
    };
    let quit = if app.quit_confirm {
        quit_scene(app.hosts.filter(model::works()).len(), area)
    } else {
        seq![]
    };
    assert(all_inside(review, area)) by {
        if app.review is Some {
            let s = app.review->0;
            let name = app.hosts[s.host_idx].cfg.hostname;
            lemma_review_inside(name, s, app.tick, area, f.review);
        }
    }
    assert(all_inside(reboot, area)) by {
        if app.reboot is Some {
            let s = app.reboot->0;
            let border = if s.mismatch {
                Color::Red
            } else {
                Color::Yellow
            };
            let lines = panels::reboot_lines(
                app.hosts[s.host_idx].cfg.hostname,
                s.input,
                s.mismatch,
            );
            lemma_modal_inside(60, 11, area, warning(" ⚠  Confirm Reboot "@, border), lines);
        }
    }
    assert(all_inside(quit, area)) by {
        let lines = panels::quit_lines(app.hosts.filter(model::works()).len());
        lemma_modal_inside(56, 8, area, warning(" ⚠  Confirm Quit "@, Color::Yellow), lines);
    }
    lemma_all_inside_add(below, review, area);
    lemma_all_inside_add(below + review, reboot, area);
    lemma_all_inside_add(below + review + reboot, quit, area);
}

proof fn lemma_review_inside(
    hostname: Seq<char>,
    s: ReviewView,
    tick: u64,
    area: Rect,
    parts: Seq<Rect>,
)
    requires
        area.addressable(),
        parts.len() == 3,
        forall|i: int| 0 <= i < 3 ==> (#[trigger] parts[i]).inside(area),
        review_area(area).inside(area),
    ensures
        all_inside(review_scene(hostname, s, tick, area, parts), area),
{
    assert(parts[0].inside(area) && parts[1].inside(area) && parts[2].inside(area));
    lemma_within_inside(rule(), parts[1]);
}

proof fn lemma_modal_inside(
    width: u16,
    height: u16,
    area: Rect,
    block: BlockView,
    lines: Seq<LineView>,
)
    requires
        area.addressable(),
    ensures
        all_inside(modal(width, height, area, block, lines), area),
{
    let at = scene::centered(width, height, area);
    assert(at.inside(area));
    lemma_within_inside(block, at);
}

proof fn lemma_backdrop_inside(app: AppView, area: Rect, f: FramesView)
    requires
        area.addressable(),
        frames_inside(app, area, f),
    ensures
        all_inside(backdrop(app, area, f), area),
{
    lemma_detail_inside(app, area, f);
    assert(f.main[0].inside(area) && f.main[2].inside(area));
    assert(f.body[0].inside(area));
    assert(f.log[0].inside(area) && f.log[1].inside(area) && f.log[2].inside(area));
    lemma_within_inside(titled(" Output "@), f.log[1]);
    lemma_within_inside(
        sidebar_block(panels::sidebar_title(app.filter, app.filter_editing)),
        f.body[0],
    );
    let title = seq![title_bar(f.main[0])];
    let hosts = sidebar_scene(app, f.body[0]);
    let detail = detail_scene(app, area, f);
    assert(all_inside(title, area));
    assert(all_inside(hosts, area));
    lemma_all_inside_add(title, hosts, area);
    lemma_all_inside_add(title + hosts, detail, area);
}

proof fn lemma_detail_inside(app: AppView, area: Rect, f: FramesView)
    requires
        area.addressable(),
        frames_inside(app, area, f),
    ensures
        all_inside(detail_scene(app, area, f), area),
{
    assert(f.body[1].inside(area));
    let idxs = app.selected_hosts();
    if idxs.len() == 1 {
        lemma_host_scene_inside(app.hosts[idxs[0]], app.tick, area, f);
    }
    assert(all_inside(detail_contents(app, area, f), area));
}

proof fn lemma_host_scene_inside(h: HostView, tick: u64, area: Rect, f: FramesView)
    requires
        area.addressable(),
        f.panes.len() == 4,
        f.packages.len() == 2,
        f.task.len() == 2,
        forall|i: int| 0 <= i < 4 ==> (#[trigger] f.panes[i]).inside(area),
        forall|i: int| 0 <= i < 2 ==> (#[trigger] f.packages[i]).inside(area),
        forall|i: int| 0 <= i < 2 ==> (#[trigger] f.task[i]).inside(area),
    ensures
        all_inside(host_scene(h, tick, f), area),
{
    let (p0, p1, p3) = (f.panes[0], f.panes[1], f.panes[3]);
    let (q0, q1) = (f.packages[0], f.packages[1]);
    assert(p0.inside(area) && p1.inside(area) && p3.inside(area));
    assert(q0.inside(area) && q1.inside(area));
    assert(f.task[0].inside(area) && f.task[1].inside(area));
    lemma_within_inside(untitled(), p0);
    lemma_within_inside(titled(" Kernel "@), p1);
    if h.info is Some {
        lemma_within_inside(titled(panels::upgradable_title(h.info->0)), q0);
    }
    lemma_within_inside(titled(panels::autoremovable_title(h)), q1);
    assert(all_inside(header_scene(h, p0), area));
    assert(all_inside(kernel_scene(h, p1), area));
    assert(all_inside(upgradable_scene(h, q0), area));
    assert(all_inside(autoremovable_scene(h, q1), area));
    assert(all_inside(task_scene(h, tick, p3, f.task), area));
    lemma_all_inside_add(header_scene(h, p0), kernel_scene(h, p1), area);
}

/// On a screen that is large enough, the title bar is the first row, the status
/// bar the last two, and the sidebar starts at the left edge and is as wide as
/// was asked for. So the column in which the divider can be taken hold of is
/// the one in which it is drawn.
pub proof fn the_divider_is_where_it_is_drawn(app: AppView, area: Rect, f: FramesView)
    requires
        area.addressable(),
        laid_out(app, area, f),
        area.height >= 3,
        area.width >= app.sidebar_width,
    ensures
        f.main[0] == (Rect { height: 1, ..area }),
        f.main[2] == (Rect { y: (area.y + area.height - 2) as u16, height: 2, ..area }),
        f.body[0] == (Rect {
            y: (area.y + 1) as u16,
            width: app.sidebar_width,
            height: (area.height - 3) as u16,
            ..area
        }),
        f.body[1].right() == area.right(),
        app.sidebar_width > 0 && area.x == 0 ==> f.body[0].right() - 1 == model::clamped(
            app.sidebar_width - 1,
            0,
            u16::MAX as int,
        ),
{
    let ms = main_sizes();
    let bs = body_sizes(app.sidebar_width);
    reveal_with_fuel(offset, 4);
    assert(needed(ms) == 3);
    assert(needed(bs) == app.sidebar_width);
    assert(ms[1] is Rest && ms[0] is Length && ms[2] is Length);
    assert(one_rest(ms)) by {
        assert forall|i: int| 0 <= i < ms.len() && i != 1 implies #[trigger] ms[i] is Length by {
            assert(i == 0 || i == 2);
        }
    }
    assert(bs[1] is Rest && bs[0] is Length);
    assert(one_rest(bs)) by {
        assert forall|i: int| 0 <= i < bs.len() && i != 1 implies #[trigger] bs[i] is Length by {
            assert(i == 0);
        }
    }
    let spare = area.height - 3;
    assert(start(Direction::Vertical, f.main[0]) == area.y + offset(ms, 0, spare));
    assert(start(Direction::Vertical, f.main[1]) == area.y + offset(ms, 1, spare));
    assert(start(Direction::Vertical, f.main[2]) == area.y + offset(ms, 2, spare));
    assert(spans_across(Direction::Vertical, f.main[0], area));
    assert(spans_across(Direction::Vertical, f.main[1], area));
    assert(spans_across(Direction::Vertical, f.main[2], area));
    let room = area.width - app.sidebar_width;
    assert(start(Direction::Horizontal, f.body[0]) == area.x + offset(bs, 0, room));
    assert(start(Direction::Horizontal, f.body[1]) == area.x + offset(bs, 1, room));
    assert(spans_across(Direction::Horizontal, f.body[0], f.main[1]));
    assert(spans_across(Direction::Horizontal, f.body[1], f.main[1]));
}

/// The rows, or columns, of an area are divided among its parts in order: the
/// first part starts where the area does, each other where the one before it
/// ends, and the last ends where the area does.
pub open spec fn tiles(direction: Direction, area: Rect, parts: Seq<Rect>) -> bool {
    &&& parts.len() > 0
    &&& forall|i: int| 0 <= i < parts.len() ==> #[trigger] adjoins(direction, area, parts, i)
    &&& end(direction, parts.last()) == end(direction, area)
}

/// However small the screen is, its parts keep their order and leave no gap:
/// title above body above status bar, sidebar beside detail panel, host header
/// above kernel above packages above task output, and so on.
pub proof fn the_parts_follow_each_other(app: AppView, area: Rect, f: FramesView)
    requires
        laid_out(app, area, f),
    ensures
        tiles(Direction::Vertical, area, f.main),
        tiles(Direction::Horizontal, f.main[1], f.body),
        tiles(Direction::Vertical, detail_area(app, area, f), f.panes),
        tiles(Direction::Horizontal, f.panes[2], f.packages),
        tiles(Direction::Vertical, scene::within(titled(""@), f.panes[3]), f.task),
        tiles(Direction::Vertical, area, f.log),
        tiles(Direction::Vertical, review_inner(area), f.review),
{
    let height = list_height(reviewed_files(app), review_inner(area).height);
    assert(grows(main_sizes())) by {
        assert(!(main_sizes()[1] is Length));
    }
    assert(grows(body_sizes(app.sidebar_width))) by {
        assert(!(body_sizes(app.sidebar_width)[1] is Length));
    }
    assert(grows(pane_sizes(shows_task(app)))) by {
        assert(!(pane_sizes(shows_task(app))[2] is Length));
    }
    assert(grows(package_sizes())) by {
        assert(!(package_sizes()[0] is Length));
    }
    assert(grows(task_sizes())) by {
        assert(!(task_sizes()[1] is Length));
    }
    assert(grows(log_sizes())) by {
        assert(!(log_sizes()[1] is Length));
    }
    assert(grows(review_sizes(height))) by {
        assert(!(review_sizes(height)[1] is Length));
    }
}

/// In a detail panel that is high enough, the panes of a host stand below each
/// other: header, kernel, packages, task output. A task that is shown gets three
/// times the height of the packages, and the upgradable packages get twice the
/// width of the autoremovable ones, to the nearest cell.
pub proof fn the_panes_stand_in_order(app: AppView, area: Rect, f: FramesView)
    requires
        area.addressable(),
        laid_out(app, area, f),
        needed(pane_sizes(shows_task(app))) <= detail_area(app, area, f).height,
    ensures
        ({
            let d = detail_area(app, area, f);
            let p = f.panes;
            let q = f.packages;
            &&& p[0] == (Rect { height: 3, ..d })
            &&& p[1] == (Rect { y: (d.y + 3) as u16, height: 6, ..d })
            &&& p[2].y == d.y + 9
            &&& p[3].y == p[2].bottom()
            &&& p[3].bottom() == d.bottom()
            &&& !shows_task(app) ==> p[3].height == 3
            &&& shows_task(app) ==> -2 <= 4 * p[2].height - (d.height - 9) <= 2
            &&& q[0].x == d.x
            &&& q[1].x == q[0].right()
            &&& q[1].right() == d.right()
            &&& -3 <= 2 * (3 * q[0].width - 2 * d.width) <= 3
        }),
{
    let d = detail_area(app, area, f);
    let v = Direction::Vertical;
    let h = Direction::Horizontal;
    let ps = pane_sizes(shows_task(app));
    let qs = package_sizes();
    lemma_frames_inside(app, area, f);
    reveal_with_fuel(offset, 5);
    reveal_with_fuel(factors, 5);
    assert(ps.len() == 4 && qs.len() == 2);
    let spare = d.height - needed(ps);
    let t = factors(ps, 4);
    assert(shared(ps)) by {
        assert forall|i: int| 0 <= i < ps.len() implies !(#[trigger] ps[i] is Rest) by {
            assert(i == 0 || i == 1 || i == 2 || i == 3);
        }
    }
    assert(shared(qs)) by {
        assert forall|i: int| 0 <= i < qs.len() implies !(#[trigger] qs[i] is Rest) by {
            assert(i == 0 || i == 1);
        }
    }
    let a0 = taken_before(v, ps, d, f.panes, 0);
    let a1 = taken_before(v, ps, d, f.panes, 1);
    let a2 = taken_before(v, ps, d, f.panes, 2);
    let a3 = taken_before(v, ps, d, f.panes, 3);
    assert(rounded_part(a0, 0, t, spare) && rounded_part(a1, 0, t, spare));
    assert(rounded_part(a2, 0, t, spare) && rounded_part(a3, 1, t, spare));
    let b0 = taken_before(h, qs, f.panes[2], f.packages, 0);
    let b1 = taken_before(h, qs, f.panes[2], f.packages, 1);
    assert(rounded_part(b0, 0, 3, d.width as int) && rounded_part(b1, 2, 3, d.width as int));
    the_parts_follow_each_other(app, area, f);
    assert(adjoins(v, d, f.panes, 0) && adjoins(v, d, f.panes, 1));
    assert(adjoins(v, d, f.panes, 2) && adjoins(v, d, f.panes, 3));
    assert(adjoins(h, f.panes[2], f.packages, 0) && adjoins(h, f.panes[2], f.packages, 1));
    assert(ps[0] == Size::Length(3) && ps[1] == Size::Length(6));
    assert(spans_across(v, f.panes[0], d) && spans_across(v, f.panes[1], d));
    assert(spans_across(v, f.panes[2], d) && spans_across(v, f.panes[3], d));
    if shows_task(app) {
        assert(t == 4);
    } else {
        assert(t == 1);
        assert(ps[3] == Size::Length(3));
    }
}

/// Where there is room, the full view of a task has three rows of header and one of
/// footer, its panel one row of status, and the review its list and one row of
/// footer; the rest goes to the output and to the diff.
pub proof fn the_views_leave_the_rest_to_the_output(app: AppView, area: Rect, f: FramesView)
    requires
        laid_out(app, area, f),
        area.height >= 4,
        list_height(reviewed_files(app), review_inner(area).height) + 1 <= review_inner(
            area,
        ).height,
    ensures
        f.log[0].height == 3 && f.log[2].height == 1 && f.log[1].height == area.height - 4,
        ({
            let inner = scene::within(titled(""@), f.panes[3]);
            inner.height >= 1 ==> f.task[0].height == 1 && f.task[1].height == inner.height - 1
        }),
        ({
            let inner = review_inner(area);
            let rows = list_height(reviewed_files(app), inner.height);
            f.review[0].height == rows && f.review[2].height == 1 && f.review[1].height
                == inner.height - rows - 1
        }),
{
    let inner = review_inner(area);
    let rows = list_height(reviewed_files(app), inner.height);
    lemma_rest_between(3, 1, area, f.log);
    lemma_rest_between(rows, 1, inner, f.review);
    lemma_rest_behind(1, scene::within(titled(""@), f.panes[3]), f.task);
}

proof fn lemma_rest_between(a: u16, b: u16, area: Rect, parts: Seq<Rect>)
    requires
        cuts(
            Direction::Vertical,
            seq![Size::Length(a), Size::Rest, Size::Length(b)],
            area,
            parts,
        ),
        a + b <= area.height,
    ensures
        parts[0].height == a && parts[1].height == area.height - a - b && parts[2].height == b,
{
    let s = seq![Size::Length(a), Size::Rest, Size::Length(b)];
    reveal_with_fuel(offset, 4);
    assert(s[0] is Length && s[1] is Rest && s[2] is Length);
    assert(needed(s) == a + b);
    assert(one_rest(s)) by {
        assert forall|i: int| 0 <= i < s.len() && i != 1 implies #[trigger] s[i] is Length by {
            assert(i == 0 || i == 2);
        }
    }
    let v = Direction::Vertical;
    assert(extent(v, parts[0]) == a && extent(v, parts[2]) == b);
    assert(extent(v, parts[1]) == extent_of(s[1], area.height - (a + b)));
}

proof fn lemma_rest_behind(a: u16, area: Rect, parts: Seq<Rect>)
    requires
        cuts(Direction::Vertical, seq![Size::Length(a), Size::Rest], area, parts),
    ensures
        a <= area.height ==> parts[0].height == a && parts[1].height == area.height - a,
{
    let s = seq![Size::Length(a), Size::Rest];
    reveal_with_fuel(offset, 3);
    assert(s[0] is Length && s[1] is Rest);
    assert(needed(s) == a);
    assert(one_rest(s)) by {
        assert forall|i: int| 0 <= i < s.len() && i != 1 implies #[trigger] s[i] is Length by {
            assert(i == 0);
        }
    }
    if a <= area.height {
        let v = Direction::Vertical;
        assert(extent(v, parts[0]) == a);
        assert(extent(v, parts[1]) == extent_of(s[1], area.height - a));
    }
}

} // verus!
