use aptmatic::app::App;
use aptmatic::apt::{HeldPackage, HoldReason, HostInfo, Package, PendingConffile, RcPackage};
use aptmatic::cache::Cache;
use aptmatic::config::{Config, Defaults, RawConfig, RawGroup, RawHost};
use aptmatic::panels::{
    diff_line, host_indicator, host_status_str, overflowing, section_header, spinner, status_color,
};
use aptmatic::review::{ConffileReviewState, DiffState};
use aptmatic::scene::{
    bold_fg, centered_rect, fg, highlight, is_addressable, plain, raw, Block, Color, Draw, Line,
    Rect, Style, Widget,
};
use aptmatic::state::{HostState, HostStatus, RebootConfirmState};
use aptmatic::table::Table;
use aptmatic::task::{ConffileAction, TaskKind, TaskState, TaskStatus};
use aptmatic::ui::{draw, lay_out, render, Frames};
use ratatui::backend::TestBackend;
use ratatui::Terminal;

// ── Drawing on a test terminal ───────────────────────────────────────────────

fn tui_color(color: Color) -> ratatui::style::Color {
    match color {
        Color::Black => ratatui::style::Color::Black,
        Color::Red => ratatui::style::Color::Red,
        Color::Green => ratatui::style::Color::Green,
        Color::Yellow => ratatui::style::Color::Yellow,
        Color::Blue => ratatui::style::Color::Blue,
        Color::Magenta => ratatui::style::Color::Magenta,
        Color::Cyan => ratatui::style::Color::Cyan,
        Color::Gray => ratatui::style::Color::Gray,
        Color::DarkGray => ratatui::style::Color::DarkGray,
        Color::White => ratatui::style::Color::White,
    }
}

fn tui_style(style: Style) -> ratatui::style::Style {
    let mut r = ratatui::style::Style::default();
    if let Some(c) = style.fg {
        r = r.fg(tui_color(c));
    }
    if let Some(c) = style.bg {
        r = r.bg(tui_color(c));
    }
    if style.bold {
        r = r.add_modifier(ratatui::style::Modifier::BOLD);
    }
    r
}

fn tui_line(line: &Line) -> ratatui::text::Line<'static> {
    ratatui::text::Line::from(
        line.iter()
            .map(|s| ratatui::text::Span::styled(s.text.clone(), tui_style(s.style)))
            .collect::<Vec<_>>(),
    )
}

fn tui_block(block: &Block) -> ratatui::widgets::Block<'static> {
    let mut borders = ratatui::widgets::Borders::NONE;
    if block.left {
        borders |= ratatui::widgets::Borders::LEFT;
    }
    if block.top {
        borders |= ratatui::widgets::Borders::TOP;
    }
    if block.right {
        borders |= ratatui::widgets::Borders::RIGHT;
    }
    if block.bottom {
        borders |= ratatui::widgets::Borders::BOTTOM;
    }
    let mut r = ratatui::widgets::Block::default()
        .borders(borders)
        .border_style(tui_style(block.border));
    if let Some(title) = &block.title {
        r = r.title(ratatui::text::Span::styled(title.text.clone(), tui_style(title.style)));
    }
    r
}

fn tui_rect(r: Rect) -> ratatui::layout::Rect {
    ratatui::layout::Rect { x: r.x, y: r.y, width: r.width, height: r.height }
}

fn paint(f: &mut ratatui::Frame, draws: &[Draw]) {
    for d in draws {
        let area = tui_rect(d.area);
        match &d.widget {
            Widget::Clear => f.render_widget(ratatui::widgets::Clear, area),
            Widget::Block(block) => f.render_widget(tui_block(block), area),
            Widget::Text { lines, style, scroll, framed } => {
                let text: Vec<ratatui::text::Line> = lines.iter().map(tui_line).collect();
                let mut p = ratatui::widgets::Paragraph::new(text)
                    .style(tui_style(*style))
                    .scroll((*scroll, 0));
                if *framed {
                    p = p.block(
                        ratatui::widgets::Block::default().borders(ratatui::widgets::Borders::ALL),
                    );
                }
                f.render_widget(p, area);
            }
            Widget::List { items, selected } => {
                let items: Vec<ratatui::widgets::ListItem> =
                    items.iter().map(|l| ratatui::widgets::ListItem::new(tui_line(l))).collect();
                let mut state = ratatui::widgets::ListState::default();
                state.select(*selected);
                let list = ratatui::widgets::List::new(items).highlight_style(tui_style(highlight()));
                f.render_stateful_widget(list, area, &mut state);
            }
        }
    }
}

fn draw_at(app: &mut App, width: u16, height: u16) -> Vec<String> {
    let mut terminal = Terminal::new(TestBackend::new(width, height)).unwrap();
    let area = rect(0, 0, width, height);
    terminal.draw(|f| paint(f, &render(app, area))).unwrap();
    let buffer = terminal.backend().buffer().clone();
    (0..height)
        .map(|y| {
            (0..width)
                .map(|x| buffer.cell((x, y)).unwrap().symbol().to_string())
                .collect::<Vec<_>>()
                .concat()
        })
        .collect()
}

fn rect(x: u16, y: u16, width: u16, height: u16) -> Rect {
    Rect { x, y, width, height }
}

// ── Fixtures ─────────────────────────────────────────────────────────────────

fn raw_host(hostname: &str) -> RawHost {
    RawHost {
        hostname: hostname.to_string(),
        user: None,
        port: None,
        use_sudo: None,
        identity_file: None,
    }
}

fn one_host() -> App {
    let raw = RawConfig {
        defaults: Defaults { user: Some("alice".to_string()), ..Default::default() },
        hosts: vec![raw_host("web01.invalid")],
        ..Default::default()
    };
    App::new(&Config { raw }, Cache::new(), None)
}

fn group_of_two() -> App {
    let raw = RawConfig {
        defaults: Defaults { user: Some("alice".to_string()), ..Default::default() },
        groups: vec![RawGroup {
            name: "web".to_string(),
            user: None,
            port: None,
            use_sudo: None,
            identity_file: None,
            hosts: vec![raw_host("web1"), raw_host("web2")],
        }],
        ..Default::default()
    };
    App::new(&Config { raw }, Cache::new(), None)
}

fn app_with_review(diff: DiffState) -> App {
    let mut app = one_host();
    let files: Vec<PendingConffile> = (0..8)
        .map(|i| PendingConffile {
            pending_path: format!("/etc/service{i}/config.conf.dpkg-dist"),
            live_path: format!("/etc/service{i}/config.conf"),
            package: Some(format!("package-{i}")),
        })
        .collect();
    app.hosts[0].info = Some(HostInfo { pending_conffiles: files.clone(), ..Default::default() });
    let mut diffs = Table::new();
    diffs.insert(files[0].pending_path.clone(), diff);
    // A mix of marked and undecided files, so every marker style renders.
    let mut decisions = vec![None; files.len()];
    decisions[0] = Some(ConffileAction::Discard);
    decisions[1] = Some(ConffileAction::Apply);
    app.conffile_review = Some(ConffileReviewState {
        host_idx: 0,
        decisions,
        files,
        selected: 0,
        diffs,
        scroll: 0,
        confirm_execute: false,
        notice: None,
    });
    app
}

fn full_info() -> HostInfo {
    HostInfo {
        running_kernel: "6.1.0-28-amd64".to_string(),
        latest_kernel: Some("linux-image-6.1.0-32-amd64".to_string()),
        reboot_required: true,
        upgradable: vec![
            Package {
                name: "curl".to_string(),
                new_version: "7.88.1-10+deb12u8".to_string(),
                current_version: Some("7.88.1-10".to_string()),
                is_security: true,
            },
            Package {
                name: "vim".to_string(),
                new_version: "9.0".to_string(),
                current_version: None,
                is_security: false,
            },
        ],
        rc_packages: vec![RcPackage { name: "oldpkg".to_string() }],
        held_packages: vec![
            HeldPackage { name: "held".to_string(), reason: HoldReason::ManualHold, detail: None },
            HeldPackage {
                name: "kept".to_string(),
                reason: HoldReason::KeptBack,
                detail: Some("needs: libfoo".to_string()),
            },
        ],
        autoremovable: vec!["libold".to_string()],
        pending_conffiles: vec![PendingConffile {
            pending_path: "/etc/a.conf.dpkg-dist".to_string(),
            live_path: "/etc/a.conf".to_string(),
            package: Some("a".to_string()),
        }],
    }
}

fn line_text(line: &Line) -> String {
    line.iter().map(|s| s.text.as_str()).collect::<Vec<_>>().concat()
}

fn texts_at(draws: &[Draw], k: usize) -> Vec<String> {
    match &draws[k].widget {
        Widget::Text { lines, .. } => lines.iter().map(line_text).collect(),
        Widget::List { items, .. } => items.iter().map(line_text).collect(),
        _ => panic!("no text"),
    }
}

fn all_text(draws: &[Draw]) -> Vec<String> {
    let mut r = vec![];
    for d in draws {
        match &d.widget {
            Widget::Text { lines, .. } => r.extend(lines.iter().map(line_text)),
            Widget::List { items, .. } => r.extend(items.iter().map(line_text)),
            Widget::Block(b) => {
                if let Some(t) = &b.title {
                    r.push(t.text.clone());
                }
            }
            Widget::Clear => {}
        }
    }
    r
}

// ── The whole screen ─────────────────────────────────────────────────────────

/// The review modal sizes itself from the terminal, so it has to survive
/// being drawn into one far smaller than its content.
#[test]
fn review_modal_renders_at_any_terminal_size() {
    let diff = DiffState::Loaded(
        (0..200)
            .map(|i| format!("+ line {i} of a very long configuration file diff"))
            .collect(),
    );
    for (w, h) in [(1, 1), (10, 3), (40, 10), (80, 24), (200, 60)] {
        draw_at(&mut app_with_review(diff.clone()), w, h);
    }
}

#[test]
fn review_modal_renders_every_diff_state() {
    for diff in [
        DiffState::Loading,
        DiffState::Loaded(vec![]),
        DiffState::Failed("permission denied".to_string()),
    ] {
        draw_at(&mut app_with_review(diff), 80, 24);
    }
}

#[test]
fn review_modal_renders_confirm_and_notice_footers() {
    let mut app = app_with_review(DiffState::Loaded(vec!["-old".into(), "+new".into()]));
    app.conffile_review.as_mut().unwrap().confirm_execute = true;
    draw_at(&mut app, 80, 24);

    let state = app.conffile_review.as_mut().unwrap();
    state.confirm_execute = false;
    state.notice = Some("a task is already running on this host".to_string());
    draw_at(&mut app, 80, 24);
}

/// A scroll offset left over from a longer diff must not index past a
/// shorter one.
#[test]
fn review_modal_clamps_stale_scroll_offset() {
    let mut app = app_with_review(DiffState::Loaded(vec!["-old".into(), "+new".into()]));
    app.conffile_review.as_mut().unwrap().scroll = 5_000;
    draw_at(&mut app, 80, 24);
}

#[test]
fn sidebar_and_detail_render_with_pending_conffiles() {
    let mut app = app_with_review(DiffState::Loading);
    app.conffile_review = None;
    draw_at(&mut app, 80, 24);
}

#[test]
fn the_screen_has_a_title_above_and_two_lines_of_keys_below() {
    let mut app = one_host();
    app.hosts[0].status = HostStatus::Ready;
    app.hosts[0].info = Some(full_info());
    let rows = draw_at(&mut app, 120, 40);
    assert!(rows[0].starts_with(" aptmatic — apt manager"));
    assert!(rows[1].starts_with("Hosts"));
    assert!(rows[38].starts_with(" r:update+refresh  R:update+refresh all"));
    assert!(rows[39].starts_with(" a:autoremove  A:autoremove all"));
    assert!(rows[2].starts_with("   ● web01.invalid [6.1.0-28-amd64]"));
}

#[test]
fn the_divider_is_drawn_in_the_column_that_starts_a_drag() {
    let mut app = one_host();
    app.sidebar_width = 28;
    let rows = draw_at(&mut app, 100, 30);
    for y in 1..28 {
        assert_eq!(rows[y].chars().nth(27), Some('│'));
    }
    app.handle_mouse(
        aptmatic::keys::MouseEventKind::Down(aptmatic::keys::MouseButton::Left),
        27,
        Some(100),
    );
    assert!(app.dragging_sidebar);
}

#[test]
fn nothing_is_drawn_outside_the_area() {
    let mut app = app_with_review(DiffState::Loading);
    app.hosts[0].info = Some(full_info());
    app.hosts[0].task = Some(TaskState::new(TaskKind::Upgrade));
    app.quit_confirm = true;
    app.reboot_confirm =
        Some(RebootConfirmState { host_idx: 0, input: "we".to_string(), mismatch: true });
    for (w, h) in [(0, 0), (1, 1), (3, 2), (10, 3), (40, 10), (80, 24), (200, 60)] {
        for zoom in [false, true] {
            for view in [None, Some(0)] {
                app.detail_zoom = zoom;
                app.viewing_task = view;
                let area = rect(5, 7, w, h);
                for d in render(&app, area) {
                    assert!(d.area.x >= 5 && d.area.x + d.area.width <= 5 + w);
                    assert!(d.area.y >= 7 && d.area.y + d.area.height <= 7 + h);
                }
            }
        }
    }
}

#[test]
fn modals_are_drawn_in_the_order_of_their_priority() {
    let mut app = app_with_review(DiffState::Loading);
    app.reboot_confirm =
        Some(RebootConfirmState { host_idx: 0, input: String::new(), mismatch: false });
    app.quit_confirm = true;
    let texts = all_text(&render(&app, rect(0, 0, 120, 40)));
    let at = |s: &str| texts.iter().position(|t| t == s).unwrap();
    assert!(at(" Pending config files — web01.invalid ") < at(" ⚠  Confirm Reboot "));
    assert!(at(" ⚠  Confirm Reboot ") < at(" ⚠  Confirm Quit "));
}

#[test]
fn zooming_leaves_nothing_but_the_detail() {
    let mut app = one_host();
    app.hosts[0].info = Some(full_info());
    app.detail_zoom = true;
    let texts = all_text(&render(&app, rect(0, 0, 100, 40)));
    assert!(!texts.iter().any(|t| t.contains("aptmatic")));
    assert!(!texts.contains(&" Detail ".to_string()));
    assert!(texts.contains(&" Kernel ".to_string()));
}

// ── Layout ───────────────────────────────────────────────────────────────────

#[test]
fn frames_follow_the_sizes_that_are_asked_for() {
    let mut app = one_host();
    for width in [10u16, 28, 40, 79] {
        for (w, h) in [(80u16, 3u16), (80, 4), (80, 24), (81, 25), (137, 61), (200, 60)] {
            app.sidebar_width = width;
            let f = lay_out(&app, rect(2, 3, w, h));
            assert_eq!(f.main, vec![rect(2, 3, w, 1), rect(2, 4, w, h - 3), rect(2, 3 + h - 2, w, 2)]);
            assert_eq!(
                f.body,
                vec![rect(2, 4, width, h - 3), rect(2 + width, 4, w - width, h - 3)]
            );
            if h >= 4 {
                assert_eq!(f.log, vec![rect(2, 3, w, 3), rect(2, 6, w, h - 4), rect(2, 3 + h - 1, w, 1)]);
            }
        }
    }
}

#[test]
fn lengths_that_fit_are_kept_beside_shares() {
    let mut app = one_host();
    for task in [false, true] {
        app.hosts[0].task = if task { Some(TaskState::new(TaskKind::Update)) } else { None };
        let least = if task { 9 } else { 12 };
        for h in least..120u16 {
            app.detail_zoom = true;
            let f = lay_out(&app, rect(0, 0, 90, h));
            assert_eq!(f.panes.len(), 4);
            assert_eq!(f.panes[0].height, 3);
            assert_eq!(f.panes[1].height, 6);
            if !task {
                assert_eq!(f.panes[3].height, 3);
            }
            for p in f.panes.iter() {
                assert_eq!((p.x, p.width), (0, 90));
                assert!(p.y + p.height <= h);
            }
            for p in f.packages.iter() {
                assert_eq!((p.y, p.height), (f.panes[2].y, f.panes[2].height));
                assert!(p.x + p.width <= 90);
            }
        }
    }
}

#[test]
fn shares_divide_what_is_left_in_proportion() {
    let mut app = one_host();
    app.detail_zoom = true;
    app.hosts[0].task = Some(TaskState::new(TaskKind::Update));
    let f = lay_out(&app, rect(0, 0, 90, 49));
    assert_eq!(
        f.panes,
        vec![rect(0, 0, 90, 3), rect(0, 3, 90, 6), rect(0, 9, 90, 10), rect(0, 19, 90, 30)]
    );
    assert_eq!(f.packages, vec![rect(0, 9, 60, 10), rect(60, 9, 30, 10)]);
    app.hosts[0].task = None;
    let f = lay_out(&app, rect(0, 0, 90, 49));
    assert_eq!(
        f.panes,
        vec![rect(0, 0, 90, 3), rect(0, 3, 90, 6), rect(0, 9, 90, 37), rect(0, 46, 90, 3)]
    );
}

#[test]
fn shares_are_rounded_to_the_nearest_cell() {
    let mut app = one_host();
    app.detail_zoom = true;
    app.hosts[0].task = Some(TaskState::new(TaskKind::Update));
    for w in 0..150i64 {
        for h in [9i64, 10, 11, 12, 13, 30, 31, 32, 33, 87] {
            let f = lay_out(&app, rect(4, 2, w as u16, h as u16));
            let packages = f.panes[2].height as i64;
            assert!((4 * packages - (h - 9)).abs() <= 2);
            assert_eq!(f.panes[3].y, f.panes[2].y + f.panes[2].height);
            assert_eq!(f.panes[3].y + f.panes[3].height, 2 + h as u16);
            let upgradable = f.packages[0].width as i64;
            assert!((2 * (3 * upgradable - 2 * w)).abs() <= 3);
            assert_eq!(f.packages[0].x, 4);
            assert_eq!(f.packages[1].x, 4 + f.packages[0].width);
            assert_eq!(f.packages[1].x + f.packages[1].width, 4 + w as u16);
        }
    }
}

#[test]
fn frames_reach_to_the_last_cell_that_can_be_addressed() {
    let mut app = one_host();
    app.sidebar_width = 4000;
    let area = rect(60000, 65000, 5535, 535);
    let f = lay_out(&app, area);
    assert_eq!(f.main[2], rect(60000, 65533, 5535, 2));
    assert_eq!(f.body[0], rect(60000, 65001, 4000, 532));
    assert_eq!(f.body[1], rect(64000, 65001, 1535, 532));
}

#[test]
fn areas_that_are_too_small_are_still_cut_inside() {
    let app = app_with_review(DiffState::Loading);
    for w in 0u16..25 {
        for h in 0u16..25 {
            let f = lay_out(&app, rect(1, 1, w, h));
            assert_eq!(f.main[0].y, 1);
            assert_eq!(f.main[2].y + f.main[2].height, 1 + h);
            assert_eq!(f.body[0].x, 1);
            assert_eq!(f.body[1].x + f.body[1].width, 1 + w);
            // Where three rows are too many, nothing is left between the bars.
            if h < 3 {
                assert_eq!(f.main[1].height, 0);
                assert!(f.main[0].height <= 1 && f.main[2].height <= 2);
            }
            let sizes = [3, 2, 4, 2, 2, 3, 3];
            let all = [&f.main, &f.body, &f.panes, &f.packages, &f.task, &f.log, &f.review];
            for k in 0..7 {
                assert_eq!(all[k].len(), sizes[k]);
                // The parts keep their order and leave no gap.
                for pair in all[k].windows(2) {
                    if k == 1 || k == 3 {
                        assert_eq!(pair[1].x, pair[0].x + pair[0].width);
                    } else {
                        assert_eq!(pair[1].y, pair[0].y + pair[0].height);
                    }
                }
                for p in all[k].iter() {
                    assert!(p.x >= 1 && p.x + p.width <= 1 + w);
                    assert!(p.y >= 1 && p.y + p.height <= 1 + h);
                }
            }
        }
    }
}

#[test]
fn a_centered_area_fits() {
    assert_eq!(centered_rect(60, 11, rect(0, 0, 80, 24)), rect(10, 6, 60, 11));
    assert_eq!(centered_rect(60, 11, rect(0, 0, 40, 8)), rect(0, 0, 40, 8));
    assert_eq!(centered_rect(3, 3, rect(10, 20, 8, 8)), rect(12, 22, 3, 3));
    assert!(is_addressable(rect(0, 0, 65535, 65535)));
    assert!(!is_addressable(rect(1, 0, 65535, 1)));
}

#[test]
fn a_frame_leaves_what_the_terminal_library_says() {
    for bits in 0..32u8 {
        let block = Block {
            left: bits & 1 != 0,
            top: bits & 2 != 0,
            right: bits & 4 != 0,
            bottom: bits & 8 != 0,
            title: if bits & 16 != 0 { Some(raw("t")) } else { None },
            border: plain(),
        };
        for w in 0..4 {
            for h in 0..4 {
                let area = rect(3, 4, w, h);
                let ours = block.inner(area);
                let theirs = tui_block(&block).inner(tui_rect(area));
                assert_eq!(tui_rect(ours), theirs);
            }
        }
    }
}

// ── Panels ───────────────────────────────────────────────────────────────────

fn host(status: HostStatus) -> HostState {
    let mut app = one_host();
    let mut h = app.hosts.remove(0);
    h.status = status;
    h
}

#[test]
fn indicators_tell_the_status() {
    assert_eq!(host_indicator(&host(HostStatus::Unknown), 0), "?");
    assert_eq!(host_indicator(&host(HostStatus::Ready), 0), "●");
    assert_eq!(host_indicator(&host(HostStatus::Error("x".to_string())), 0), "✗");
    assert_eq!(host_indicator(&host(HostStatus::Connecting), 4), "⠹");
    let mut h = host(HostStatus::Ready);
    h.task = Some(TaskState::new(TaskKind::Update));
    assert_eq!(host_indicator(&h, 2), "⠙");
    assert_eq!(spinner(19), "⠏");
    assert_eq!(spinner(20), "⠋");
    assert_eq!(spinner(u64::MAX), "⠧");
}

#[test]
fn status_in_words() {
    assert_eq!(host_status_str(&host(HostStatus::Unknown)), "unknown");
    let mut h = host(HostStatus::Connecting);
    assert_eq!(host_status_str(&h), "connecting…");
    h.is_stale = true;
    assert_eq!(host_status_str(&h), "connecting… (showing cached data)");
    h.status = HostStatus::Gathering;
    assert_eq!(host_status_str(&h), "gathering… (showing cached data)");
    h.status = HostStatus::Error("no route".to_string());
    assert_eq!(host_status_str(&h), "error: no route");
    h.status = HostStatus::Ready;
    assert_eq!(host_status_str(&h), "up to date");
    h.info = Some(full_info());
    assert_eq!(host_status_str(&h), "2 upgrade(s) available (1 security)");
    h.info.as_mut().unwrap().upgradable.remove(0);
    assert_eq!(host_status_str(&h), "1 upgrade(s) available");
    assert_eq!(status_color(&HostStatus::Ready), fg(Color::Green));
    assert_eq!(status_color(&HostStatus::Gathering), fg(Color::Yellow));
    assert_eq!(status_color(&HostStatus::Unknown), fg(Color::Gray));
}

#[test]
fn a_host_row_shows_its_badges() {
    let mut app = one_host();
    app.hosts[0].status = HostStatus::Ready;
    app.hosts[0].info = Some(full_info());
    let draws = render(&app, rect(0, 0, 120, 40));
    assert_eq!(
        texts_at(&draws, 2),
        vec!["   ● web01.invalid [6.1.0-28-amd64] [2] [1 sec] [1 cfg] [R]"]
    );
}

#[test]
fn the_sidebar_shows_the_filter() {
    let mut app = group_of_two();
    app.filter = "web1".to_string();
    let draws = render(&app, rect(0, 0, 120, 40));
    assert!(all_text(&draws).contains(&"Hosts  (filter: web1)".to_string()));
    assert_eq!(texts_at(&draws, 2), vec![" ▸ web", "   ? web1"]);
    app.filter_editing = true;
    app.filter = "zzz".to_string();
    let draws = render(&app, rect(0, 0, 120, 40));
    assert!(all_text(&draws).contains(&"Hosts  /zzz".to_string()));
    assert_eq!(texts_at(&draws, 2), vec![" no matches"]);
}

#[test]
fn a_group_is_summarized() {
    let mut app = group_of_two();
    app.hosts[1].status = HostStatus::Error("down".to_string());
    let texts = all_text(&render(&app, rect(0, 0, 120, 40)));
    assert!(texts.contains(&"? web1                            unknown".to_string()));
    assert!(texts.contains(&"✗ web2                            error: down".to_string()));
}

#[test]
fn no_selection_is_said() {
    let mut app = one_host();
    app.selected_row = 7;
    let texts = all_text(&render(&app, rect(0, 0, 120, 40)));
    assert!(texts.contains(&"No selection".to_string()));
}

#[test]
fn a_host_is_shown_in_full() {
    let mut app = one_host();
    app.hosts[0].status = HostStatus::Ready;
    app.hosts[0].info = Some(full_info());
    let texts = all_text(&render(&app, rect(0, 0, 120, 60)));
    for expected in [
        " web01.invalid   user: alice  port: 22  sudo: true",
        " Status: 2 upgrade(s) available (1 security)",
        " Running: 6.1.0-28-amd64",
        " Latest:  6.1.0-32-amd64 ← reboot to activate",
        " ⚠ Reboot required",
        " Upgradable (2, 1 security) ",
        " curl (7.88.1-10 →) 7.88.1-10+deb12u8 [security]",
        " vim 9.0",
        " Held / kept back (2)",
        "  held [manual hold]",
        "  kept [kept back: needs: libfoo]",
        " Pending config files (1)",
        "  /etc/a.conf [a]",
        "  Press c to review",
        " RC packages (1)",
        "  oldpkg",
        "  Press p to purge",
        " Autoremovable (1) ",
        " libold",
        " Task output: none ",
    ] {
        assert!(texts.contains(&expected.to_string()), "{expected}");
    }
}

#[test]
fn a_host_without_information_is_gathering() {
    let app = one_host();
    let texts = all_text(&render(&app, rect(0, 0, 120, 60)));
    for expected in [" gathering…", " Upgradable ", " Autoremovable "] {
        assert!(texts.contains(&expected.to_string()), "{expected}");
    }
}

#[test]
fn the_running_kernel_is_recognized_as_the_latest() {
    let mut app = one_host();
    let mut info = full_info();
    info.latest_kernel = Some("linux-image-6.1.0-28-amd64".to_string());
    info.reboot_required = false;
    info.upgradable.clear();
    info.autoremovable.clear();
    app.hosts[0].info = Some(info);
    let texts = all_text(&render(&app, rect(0, 0, 120, 60)));
    assert!(texts.contains(&" Latest:  6.1.0-28-amd64".to_string()));
    assert!(!texts.iter().any(|t| t.contains("Reboot required")));
    assert!(texts.contains(&" Upgradable: none ".to_string()));
    assert!(texts.contains(&" Autoremovable: none ".to_string()));
}

#[test]
fn long_lists_are_scrolled_to_their_end() {
    assert_eq!(overflowing(10, 4), 6);
    assert_eq!(overflowing(3, 4), 0);
    assert_eq!(overflowing(70000, 0), 4464);
}

#[test]
fn a_task_is_described() {
    let mut app = one_host();
    let mut task = TaskState::new(TaskKind::Upgrade);
    for i in 0..100 {
        task.push_line(format!("line {i}"));
    }
    app.hosts[0].task = Some(task);
    let show = |app: &App| all_text(&render(app, rect(0, 0, 120, 40)));
    let texts = show(&app);
    assert!(texts.contains(&" Task: apt-get upgrade ".to_string()));
    assert!(texts.contains(&" ⠋ apt-get upgrade running…  t:full view".to_string()));
    assert!(texts.contains(&"line 99".to_string()));
    assert!(!texts.contains(&"line 0".to_string()));
    app.hosts[0].task.as_mut().unwrap().status = TaskStatus::Done(0);
    assert!(show(&app).contains(&" ✓ apt-get upgrade done  t:full view".to_string()));
    app.hosts[0].task.as_mut().unwrap().status = TaskStatus::Done(-1);
    assert!(show(&app).contains(&" ✗ apt-get upgrade exited -1  t:full view".to_string()));
    app.hosts[0].task.as_mut().unwrap().status = TaskStatus::Failed("lost".to_string());
    assert!(show(&app).contains(&" ✗ apt-get upgrade: lost  t:full view".to_string()));
}

#[test]
fn the_full_view_follows_the_output() {
    let mut app = one_host();
    let mut task = TaskState::new(TaskKind::Update);
    for i in 0..100 {
        task.push_line(format!("line {i}"));
    }
    app.hosts[0].task = Some(task);
    app.viewing_task = Some(0);
    let draws = render(&app, rect(0, 0, 80, 24));
    assert_eq!(draws.len(), 5);
    assert_eq!(draws[0].widget, Widget::Clear);
    assert_eq!(texts_at(&draws, 1), vec!["  web01.invalid — apt-get update  [⠋ running…]"]);
    match &draws[3].widget {
        Widget::Text { lines, scroll, .. } => {
            assert_eq!(lines.len(), 100);
            // 24 rows less header, footer and frame leave 18.
            assert_eq!(*scroll, 82);
        }
        _ => panic!("no output"),
    }
    app.hosts[0].task.as_mut().unwrap().auto_scroll = false;
    app.hosts[0].task.as_mut().unwrap().scroll_offset = 7;
    let draws = render(&app, rect(0, 0, 80, 24));
    assert!(matches!(draws[3].widget, Widget::Text { scroll: 7, .. }));
    assert_eq!(
        texts_at(&draws, 4),
        vec![" ↑/↓/PgUp/PgDn:scroll  G/End:tail       Esc/q:close"]
    );
}

#[test]
fn a_view_of_a_task_that_is_gone_draws_nothing() {
    let mut app = one_host();
    app.viewing_task = Some(0);
    assert!(render(&app, rect(0, 0, 80, 24)).is_empty());
}

#[test]
fn diff_lines_are_colored() {
    assert_eq!(diff_line("+++ b")[0].style, bold_fg(Color::White));
    assert_eq!(diff_line("--- a")[0].style, bold_fg(Color::White));
    assert_eq!(diff_line("@@ -1 +1 @@")[0].style, fg(Color::Cyan));
    assert_eq!(diff_line("+x")[0].style, fg(Color::Green));
    assert_eq!(diff_line("-x")[0].style, fg(Color::Red));
    assert_eq!(diff_line(" x")[0].style, fg(Color::Gray));
    assert_eq!(diff_line("")[0].text, "");
    assert_eq!(section_header("Title")[0].text, " Title");
}

#[test]
fn the_review_lists_its_files_and_says_what_the_keys_do() {
    let mut app = app_with_review(DiffState::Loaded(vec!["+a".to_string(), "-b".to_string()]));
    let tail = |app: &App| {
        let draws = render(app, rect(0, 0, 160, 40));
        let n = draws.len();
        (texts_at(&draws, n - 4), texts_at(&draws, n - 2), texts_at(&draws, n - 1))
    };
    let (files, diff, footer) = tail(&app);
    assert_eq!(files[0], " > [discard] /etc/service0/config.conf.dpkg-dist  [package-0]");
    assert_eq!(files[1], "   [apply  ] /etc/service1/config.conf.dpkg-dist  [package-1]");
    assert_eq!(files[2], "   [       ] /etc/service2/config.conf.dpkg-dist  [package-2]");
    assert_eq!(diff, vec!["+a", "-b"]);
    assert_eq!(
        footer,
        vec![" ↑/↓:file  PgUp/PgDn:scroll  d:mark discard  a:mark apply  u:unmark  Enter:execute 2 marked  Esc:close"]
    );
    app.conffile_review.as_mut().unwrap().confirm_execute = true;
    assert_eq!(
        tail(&app).2,
        vec![" Execute 1 discard(s), 1 apply(ies), replacing 1 live config(s) (old kept as .dpkg-old)?  y: confirm   any other key: cancel"]
    );
    let state = app.conffile_review.as_mut().unwrap();
    state.confirm_execute = false;
    state.notice = Some("wait".to_string());
    assert_eq!(tail(&app).2, vec![" ⚠ wait"]);
    app.conffile_review.as_mut().unwrap().selected = 1;
    assert_eq!(tail(&app).1, vec![" ⠋ loading diff…"]);
}

#[test]
fn diffs_that_are_not_there_are_explained() {
    for (diff, expected) in [
        (DiffState::Loading, " ⠋ loading diff…"),
        (DiffState::Loaded(vec![]), " no differences — the new file matches the live one"),
        (DiffState::Failed("denied".to_string()), " diff failed: denied"),
    ] {
        let app = app_with_review(diff);
        let draws = render(&app, rect(0, 0, 100, 40));
        assert_eq!(texts_at(&draws, draws.len() - 2), vec![expected]);
    }
}

#[test]
fn confirmations_say_what_they_are_about() {
    let mut app = group_of_two();
    app.hosts[0].status = HostStatus::Connecting;
    app.quit_confirm = true;
    let last = |app: &App| {
        let draws = render(app, rect(0, 0, 100, 40));
        texts_at(&draws, draws.len() - 1)
    };
    assert_eq!(last(&app)[1], "  1 background operation still running.");
    app.hosts[1].status = HostStatus::Gathering;
    assert_eq!(last(&app)[1], "  2 background operations still running.");
    app.quit_confirm = false;
    app.reboot_confirm =
        Some(RebootConfirmState { host_idx: 1, input: "we".to_string(), mismatch: true });
    let lines = last(&app);
    assert_eq!(lines[1], "  Type web2 to confirm:");
    assert_eq!(lines[3], "  > we█");
    assert_eq!(lines[5], "  ✗ hostname does not match");
    assert_eq!(lines[6], "  Enter: confirm reboot   Esc: cancel");
}

#[test]
fn the_status_bar_counts_refreshing_hosts() {
    let mut app = group_of_two();
    app.hosts[0].status = HostStatus::Connecting;
    app.hosts[1].status = HostStatus::Gathering;
    let draws = render(&app, rect(0, 0, 100, 40));
    let bar = texts_at(&draws, draws.len() - 1);
    assert!(bar[0].starts_with("  [2 refreshing…]  r:update+refresh"));
}

/// What is drawn depends on where the parts of the screen are, and on nothing
/// else that the layout decides.
#[test]
fn drawing_takes_the_frames_as_they_are() {
    let app = one_host();
    let area = rect(0, 0, 80, 24);
    let frames: Frames = lay_out(&app, area);
    assert_eq!(draw(&app, area, &frames), render(&app, area));
}
