//! The text of each panel of the dashboard.

use vstd::prelude::*;

use crate::apt;
use crate::apt::{
    HeldPackage,
    HeldPackageView,
    HoldReason,
    HostInfo,
    HostInfoView,
    Package,
    PackageView,
    PendingConffile,
    PendingConffileView,
};
use crate::config::{SidebarRow, SidebarRowView};
use crate::review::{ConffileReviewState, ReviewView};
use crate::scene;
use crate::scene::{
    blank_line,
    bold_fg,
    fg,
    line,
    line2,
    line3,
    line4,
    none,
    on,
    plain,
    raw,
    styled,
    styled_str,
    with,
    with_all,
    Color,
    Line,
    LineView,
    Span,
    SpanView,
    Style,
};
use crate::state::{HostState, HostStatus, HostStatusView, HostView};
use crate::task;
use crate::task::{ConffileAction, TaskState, TaskStatus, TaskStatusView, TaskView};
use crate::text;

verus! {

// ── Indicators ───────────────────────────────────────────────────────────────

pub open spec fn spinner_frames() -> Seq<Seq<char>> {
    seq!["⠋"@, "⠙"@, "⠹"@, "⠸"@, "⠼"@, "⠴"@, "⠦"@, "⠧"@, "⠇"@, "⠏"@]
}

/// The spinner at a tick; it moves at every other one.
pub open spec fn spinner_at(tick: u64) -> Seq<char> {
    spinner_frames()[(tick / 2) as int % 10]
}

pub fn spinner(tick: u64) -> (r: &'static str)
    ensures
        r@ == spinner_at(tick),
{
    match (tick / 2) % 10 {
        0 => "⠋",
        1 => "⠙",
        2 => "⠹",
        3 => "⠸",
        4 => "⠼",
        5 => "⠴",
        6 => "⠦",
        7 => "⠧",
        8 => "⠇",
        _ => "⠏",
    }
}

/// The sign in front of a host's name.
pub open spec fn indicator(h: HostView, tick: u64) -> Seq<char> {
    match h.status {
        HostStatusView::Unknown => "?"@,
        HostStatusView::Connecting | HostStatusView::Gathering => spinner_at(tick),
        HostStatusView::Ready => if h.running() {
            spinner_at(tick)
        } else {
            "●"@
        },
        HostStatusView::Error(_) => "✗"@,
    }
}

pub fn host_indicator(h: &HostState, tick: u64) -> (r: &'static str)
    ensures
        r@ == indicator(h.deep_view(), tick),
{
    match &h.status {
        HostStatus::Unknown => "?",
        HostStatus::Connecting | HostStatus::Gathering => spinner(tick),
        HostStatus::Ready => {
            if h.is_running() {
                spinner(tick)
            } else {
                "●"
            }
        },
        HostStatus::Error(_) => "✗",
    }
}

pub open spec fn upgrade_count(h: HostView) -> nat {
    match h.info {
        Some(info) => info.upgradable.len(),
        None => 0,
    }
}

pub open spec fn security_count(h: HostView) -> nat {
    match h.info {
        Some(info) => apt::security_names(info.upgradable).len(),
        None => 0,
    }
}

pub open spec fn conffile_count(h: HostView) -> nat {
    match h.info {
        Some(info) => info.pending_conffiles.len(),
        None => 0,
    }
}

fn count_upgrades(h: &HostState) -> (r: usize)
    ensures
        r == upgrade_count(h.deep_view()),
{
    match &h.info {
        Some(info) => info.upgradable.len(),
        None => 0,
    }
}

fn count_security(h: &HostState) -> (r: usize)
    ensures
        r == security_count(h.deep_view()),
{
    match &h.info {
        Some(info) => info.security_count(),
        None => 0,
    }
}

fn count_conffiles(h: &HostState) -> (r: usize)
    ensures
        r == conffile_count(h.deep_view()),
{
    match &h.info {
        Some(info) => info.pending_conffiles.len(),
        None => 0,
    }
}

/// A host's status in words.
pub open spec fn status_text(h: HostView) -> Seq<char> {
    match h.status {
        HostStatusView::Unknown => "unknown"@,
        HostStatusView::Connecting => if h.is_stale {
            "connecting… (showing cached data)"@
        } else {
            "connecting…"@
        },
        HostStatusView::Gathering => if h.is_stale {
            "gathering… (showing cached data)"@
        } else {
            "gathering…"@
        },
        HostStatusView::Ready => {
            let upgrades = upgrade_count(h);
            let security = security_count(h);
            if upgrades > 0 && security > 0 {
                text::decimal(upgrades) + " upgrade(s) available ("@ + text::decimal(security)
                    + " security)"@
            } else if upgrades > 0 {
                text::decimal(upgrades) + " upgrade(s) available"@
            } else {
                "up to date"@
            }
        },
        HostStatusView::Error(e) => "error: "@ + e,
    }
}

pub fn host_status_str(h: &HostState) -> (r: String)
    ensures
        r@ == status_text(h.deep_view()),
{
    match &h.status {
        HostStatus::Unknown => "unknown".to_string(),
        HostStatus::Connecting => if h.is_stale {
            "connecting… (showing cached data)".to_string()
        } else {
            "connecting…".to_string()
        },
        HostStatus::Gathering => if h.is_stale {
            "gathering… (showing cached data)".to_string()
        } else {
            "gathering…".to_string()
        },
        HostStatus::Ready => {
            let upgrades: usize = count_upgrades(h);
            let security: usize = count_security(h);
            if upgrades > 0 {
                let mut r = text::number(upgrades as u64);
                if security > 0 {
                    r.append(" upgrade(s) available (");
                    r.append(text::number(security as u64).as_str());
                    r.append(" security)");
                } else {
                    r.append(" upgrade(s) available");
                }
                r
            } else {
                "up to date".to_string()
            }
        },
        HostStatus::Error(e) => text::cat("error: ", e.as_str()),
    }
}

pub open spec fn status_style(status: HostStatusView) -> Style {
    match status {
        HostStatusView::Ready => fg(Color::Green),
        HostStatusView::Error(_) => fg(Color::Red),
        HostStatusView::Connecting | HostStatusView::Gathering => fg(Color::Yellow),
        HostStatusView::Unknown => fg(Color::Gray),
    }
}

pub fn status_color(status: &HostStatus) -> (r: Style)
    ensures
        r == status_style(status.deep_view()),
{
    match status {
        HostStatus::Ready => fg(Color::Green),
        HostStatus::Error(_) => fg(Color::Red),
        HostStatus::Connecting | HostStatus::Gathering => fg(Color::Yellow),
        HostStatus::Unknown => fg(Color::Gray),
    }
}

/// How far a text of `total` lines is scrolled so that its end is seen in
/// `visible` rows.
pub open spec fn overflow(total: nat, visible: u16) -> u16 {
    (scene::less(total as int, visible as int) % 65536) as u16
}

pub fn overflowing(total: usize, visible: u16) -> (r: u16)
    ensures
        r == overflow(total as nat, visible),
{
    (total.saturating_sub(visible as usize) % 65536) as u16
}

// ── Sidebar ──────────────────────────────────────────────────────────────────

/// A count in brackets, where there is anything to count.
pub open spec fn count_badge(n: nat, unit: Seq<char>, color: Color) -> SpanView {
    if n > 0 {
        scene::span(" ["@ + text::decimal(n) + unit, fg(color))
    } else {
        scene::span(""@, plain())
    }
}

fn badge(n: usize, unit: &str, color: Color) -> (r: Span)
    ensures
        r.deep_view() == count_badge(n as nat, unit@, color),
{
    if n > 0 {
        let mut s = " [".to_string();
        s.append(text::number(n as u64).as_str());
        s.append(unit);
        styled(s, fg(color))
    } else {
        raw("")
    }
}

pub open spec fn kernel_badge(h: HostView) -> SpanView {
    match h.info {
        Some(info) if info.running_kernel.len() > 0 => scene::span(
            " ["@ + info.running_kernel + "]"@,
            fg(Color::Yellow),
        ),
        _ => scene::span(""@, plain()),
    }
}

fn running_kernel_badge(h: &HostState) -> (r: Span)
    ensures
        r.deep_view() == kernel_badge(h.deep_view()),
{
    match &h.info {
        Some(info) => {
            if info.running_kernel.as_str().unicode_len() > 0 {
                let mut s = " [".to_string();
                s.append(info.running_kernel.as_str());
                s.append("]");
                styled(s, fg(Color::Yellow))
            } else {
                raw("")
            }
        },
        None => raw(""),
    }
}

pub open spec fn name_style(status: HostStatusView) -> Style {
    match status {
        HostStatusView::Error(_) => fg(Color::Red),
        HostStatusView::Ready => fg(Color::Green),
        _ => fg(Color::Gray),
    }
}

/// A host's row in the sidebar: its name and what there is to know at a glance.
pub open spec fn host_row(h: HostView, tick: u64) -> LineView {
    seq![
        scene::span("   "@, plain()),
        scene::span(indicator(h, tick), fg(Color::Gray)),
        scene::span(" "@, plain()),
        scene::span(h.cfg.hostname, name_style(h.status)),
        kernel_badge(h),
        count_badge(upgrade_count(h), "]"@, Color::Cyan),
        count_badge(security_count(h), " sec]"@, Color::Red),
        count_badge(conffile_count(h), " cfg]"@, Color::Magenta),
        scene::span(
            if h.info is Some && h.info->0.reboot_required {
                " [R]"@
            } else {
                ""@
            },
            plain(),
        ),
    ]
}

pub fn host_line(h: &HostState, tick: u64) -> (r: Line)
    ensures
        r.deep_view() == host_row(h.deep_view(), tick),
{
    let style = match &h.status {
        HostStatus::Error(_) => fg(Color::Red),
        HostStatus::Ready => fg(Color::Green),
        _ => fg(Color::Gray),
    };
    let reboot: bool = match &h.info {
        Some(info) => info.reboot_required,
        None => false,
    };
    let r = line4(
        raw("   "),
        styled_str(host_indicator(h, tick), fg(Color::Gray)),
        raw(" "),
        styled_str(h.cfg.hostname.as_str(), style),
    );
    let r = with(r, running_kernel_badge(h));
    let r = with(r, badge(count_upgrades(h), "]", Color::Cyan));
    let r = with(r, badge(count_security(h), " sec]", Color::Red));
    let r = with(r, badge(count_conffiles(h), " cfg]", Color::Magenta));
    with(
        r,
        if reboot {
            raw(" [R]")
        } else {
            raw("")
        },
    )
}

/// A row of the sidebar.
pub open spec fn sidebar_line(
    row: SidebarRowView,
    hosts: Seq<HostView>,
    tick: u64,
) -> LineView {
    match row {
        SidebarRowView::Group { name } => seq![
            scene::span(" ▸ "@ + name, bold_fg(Color::Yellow)),
        ],
        SidebarRowView::Host { host_idx } => host_row(hosts[host_idx], tick),
    }
}

pub fn row_line(row: &SidebarRow, hosts: &Vec<HostState>, tick: u64) -> (r: Line)
    requires
        row matches SidebarRow::Host { host_idx } ==> host_idx < hosts@.len(),
    ensures
        r.deep_view() == sidebar_line(row.deep_view(), hosts.deep_view(), tick),
{
    match row {
        SidebarRow::Group { name } => line(
            styled(text::cat(" ▸ ", name.as_str()), bold_fg(Color::Yellow)),
        ),
        SidebarRow::Host { host_idx } => {
            assert(hosts.deep_view()[*host_idx as int] == hosts@[*host_idx as int].deep_view());
            host_line(&hosts[*host_idx], tick)
        },
    }
}

/// The title of the sidebar, which shows the filter.
pub open spec fn sidebar_title(filter: Seq<char>, editing: bool) -> Seq<char> {
    if editing {
        "Hosts  /"@ + filter
    } else if filter.len() > 0 {
        "Hosts  (filter: "@ + filter + ")"@
    } else {
        "Hosts"@
    }
}

pub fn hosts_title(filter: &str, editing: bool) -> (r: String)
    ensures
        r@ == sidebar_title(filter@, editing),
{
    if editing {
        text::cat("Hosts  /", filter)
    } else if filter.unicode_len() > 0 {
        let mut r = "Hosts  (filter: ".to_string();
        r.append(filter);
        r.append(")");
        r
    } else {
        "Hosts".to_string()
    }
}

// ── Bars ─────────────────────────────────────────────────────────────────────

/// The two lines at the bottom of the screen.
pub open spec fn status_bar_lines(refreshing: nat) -> Seq<LineView> {
    seq![
        seq![
            scene::span(
                " "@ + (if refreshing > 0 {
                    " ["@ + text::decimal(refreshing) + " refreshing…]  "@
                } else {
                    ""@
                })
                    + "r:update+refresh  R:update+refresh all  u:upgrade  U:upgrade all  f:full-upgrade  F:full-upgrade all  s:sec-upgrade  S:sec-upgrade all"@,
                plain(),
            ),
        ],
        seq![
            scene::span(
                " a:autoremove  A:autoremove all  p:purge-rc  c:config files  b:reboot  t:task output  z:zoom  /:search  q:quit"@,
                plain(),
            ),
        ],
    ]
}

pub fn status_lines(refreshing: usize) -> (r: Vec<Line>)
    ensures
        r.deep_view() == status_bar_lines(refreshing as nat),
{
    let note = if refreshing > 0 {
        let mut s = " [".to_string();
        s.append(text::number(refreshing as u64).as_str());
        s.append(" refreshing…]  ");
        s
    } else {
        "".to_string()
    };
    let mut first = " ".to_string();
    first.append(note.as_str());
    first.append(
        "r:update+refresh  R:update+refresh all  u:upgrade  U:upgrade all  f:full-upgrade  F:full-upgrade all  s:sec-upgrade  S:sec-upgrade all",
    );
    let second =
        " a:autoremove  A:autoremove all  p:purge-rc  c:config files  b:reboot  t:task output  z:zoom  /:search  q:quit";
    with(with(none(), line(styled(first, plain()))), line(raw(second)))
}

// ── Host detail ──────────────────────────────────────────────────────────────

/// A host's line in the summary of a group.
pub open spec fn summary_line(h: HostView, tick: u64) -> LineView {
    seq![
        scene::span(indicator(h, tick) + " "@, plain()),
        scene::span(
            text::padded(h.cfg.hostname, 30),
            match h.status {
                HostStatusView::Error(_) => fg(Color::Red),
                HostStatusView::Ready => if upgrade_count(h) > 0 {
                    fg(Color::Cyan)
                } else {
                    fg(Color::Green)
                },
                _ => fg(Color::Gray),
            },
        ),
        scene::span("  "@, plain()),
        scene::span(status_text(h), fg(Color::Gray)),
    ]
}

pub fn summarize(h: &HostState, tick: u64) -> (r: Line)
    ensures
        r.deep_view() == summary_line(h.deep_view(), tick),
{
    let style = match &h.status {
        HostStatus::Error(_) => fg(Color::Red),
        HostStatus::Ready => if count_upgrades(h) > 0 {
            fg(Color::Cyan)
        } else {
            fg(Color::Green)
        },
        _ => fg(Color::Gray),
    };
    line4(
        styled(text::cat(host_indicator(h, tick), " "), plain()),
        styled(text::pad_right(h.cfg.hostname.as_str(), 30), style),
        raw("  "),
        styled(host_status_str(h), fg(Color::Gray)),
    )
}

pub open spec fn yes_no(b: bool) -> Seq<char> {
    if b {
        "true"@
    } else {
        "false"@
    }
}

pub open spec fn header_lines(h: HostView) -> Seq<LineView> {
    seq![
        seq![
            scene::span(" "@ + h.cfg.hostname + " "@, bold_fg(Color::Cyan)),
            scene::span(
                "  user: "@ + h.cfg.user + "  port: "@ + text::decimal(h.cfg.port as nat)
                    + "  sudo: "@ + yes_no(h.cfg.use_sudo),
                fg(Color::DarkGray),
            ),
        ],
        seq![
            scene::span(" Status: "@, Style { fg: None, bg: None, bold: true }),
            scene::span(status_text(h), status_style(h.status)),
        ],
    ]
}

pub fn header(h: &HostState) -> (r: Vec<Line>)
    ensures
        r.deep_view() == header_lines(h.deep_view()),
{
    let mut name = " ".to_string();
    name.append(h.cfg.hostname.as_str());
    name.append(" ");
    let mut settings = "  user: ".to_string();
    settings.append(h.cfg.user.as_str());
    settings.append("  port: ");
    settings.append(text::number(h.cfg.port as u64).as_str());
    settings.append("  sudo: ");
    settings.append(
        if h.cfg.use_sudo {
            "true"
        } else {
            "false"
        },
    );
    let first = line2(styled(name, bold_fg(Color::Cyan)), styled(settings, fg(Color::DarkGray)));
    let second = line2(
        styled_str(" Status: ", Style { fg: None, bg: None, bold: true }),
        styled(host_status_str(h), status_color(&h.status)),
    );
    with(with(none(), first), second)
}

/// The version that a kernel package is for.
pub open spec fn kernel_version(package: Seq<char>) -> Seq<char> {
    text::without_leading(package, "linux-image-"@)
}

pub open spec fn latest_kernel_lines(info: HostInfoView) -> Seq<LineView> {
    match info.latest_kernel {
        Some(latest) => if kernel_version(latest) != info.running_kernel {
            seq![
                seq![
                    scene::span(" Latest:  "@, plain()),
                    scene::span(kernel_version(latest), fg(Color::Yellow)),
                    scene::span(" ← reboot to activate"@, fg(Color::DarkGray)),
                ],
            ]
        } else {
            seq![
                seq![
                    scene::span(" Latest:  "@, plain()),
                    scene::span(kernel_version(latest), fg(Color::Green)),
                ],
            ]
        },
        None => seq![],
    }
}

pub open spec fn kernel_lines(h: HostView) -> Seq<LineView> {
    match h.info {
        Some(info) => {
            let lines = seq![
                seq![
                    scene::span(" Running: "@, plain()),
                    scene::span(info.running_kernel, fg(Color::White)),
                ],
            ] + latest_kernel_lines(info);
            if info.reboot_required {
                lines.push(seq![scene::span(" ⚠ Reboot required"@, bold_fg(Color::Yellow))])
            } else {
                lines
            }
        },
        None => seq![seq![scene::span(" gathering…"@, fg(Color::DarkGray))]],
    }
}

fn latest_kernel(info: &HostInfo) -> (r: Vec<Line>)
    ensures
        r.deep_view() == latest_kernel_lines(info.deep_view()),
{
    match &info.latest_kernel {
        Some(latest) => {
            proof {
                reveal_strlit("linux-image-");
            }
            let version = text::strip_leading(latest.as_str(), "linux-image-");
            if !text::same_text(version.as_str(), info.running_kernel.as_str()) {
                with(
                    none(),
                    line3(
                        raw(" Latest:  "),
                        styled(version, fg(Color::Yellow)),
                        styled_str(" ← reboot to activate", fg(Color::DarkGray)),
                    ),
                )
            } else {
                with(none(), line2(raw(" Latest:  "), styled(version, fg(Color::Green))))
            }
        },
        None => none(),
    }
}

pub fn kernel(h: &HostState) -> (r: Vec<Line>)
    ensures
        r.deep_view() == kernel_lines(h.deep_view()),
{
    match &h.info {
        Some(info) => {
            let running = line2(
                raw(" Running: "),
                styled_str(info.running_kernel.as_str(), fg(Color::White)),
            );
            let lines = with_all(with(none(), running), latest_kernel(info));
            if info.reboot_required {
                with(lines, line(styled_str(" ⚠ Reboot required", bold_fg(Color::Yellow))))
            } else {
                lines
            }
        },
        None => with(none(), line(styled_str(" gathering…", fg(Color::DarkGray)))),
    }
}

// ── Packages ─────────────────────────────────────────────────────────────────

pub open spec fn upgradable_title(info: HostInfoView) -> Seq<char> {
    let total = info.upgradable.len();
    let security = apt::security_names(info.upgradable).len();
    if total == 0 {
        " Upgradable: none "@
    } else if security > 0 {
        " Upgradable ("@ + text::decimal(total) + ", "@ + text::decimal(security) + " security) "@
    } else {
        " Upgradable ("@ + text::decimal(total) + ") "@
    }
}

pub fn title_of_upgradable(info: &HostInfo) -> (r: String)
    ensures
        r@ == upgradable_title(info.deep_view()),
{
    let total: usize = info.upgradable.len();
    let security: usize = info.security_count();
    if total == 0 {
        " Upgradable: none ".to_string()
    } else {
        let mut r = " Upgradable (".to_string();
        r.append(text::number(total as u64).as_str());
        if security > 0 {
            r.append(", ");
            r.append(text::number(security as u64).as_str());
            r.append(" security) ");
        } else {
            r.append(") ");
        }
        r
    }
}

pub open spec fn package_line(p: PackageView) -> LineView {
    seq![
        scene::span(
            " "@ + p.name + (match p.current_version {
                Some(v) => " ("@ + v + " →)"@,
                None => ""@,
            }) + " "@,
            plain(),
        ),
        scene::span(p.new_version, fg(Color::Cyan)),
        if p.is_security {
            scene::span(" [security]"@, fg(Color::Red))
        } else {
            scene::span(""@, plain())
        },
    ]
}

fn show_package(p: &Package) -> (r: Line)
    ensures
        r.deep_view() == package_line(p.deep_view()),
{
    let from = match &p.current_version {
        Some(v) => {
            let mut s = " (".to_string();
            s.append(v.as_str());
            s.append(" →)");
            s
        },
        None => "".to_string(),
    };
    let mut name = " ".to_string();
    name.append(p.name.as_str());
    name.append(from.as_str());
    name.append(" ");
    line3(
        styled(name, plain()),
        styled_str(p.new_version.as_str(), fg(Color::Cyan)),
        if p.is_security {
            styled_str(" [security]", fg(Color::Red))
        } else {
            raw("")
        },
    )
}

pub open spec fn held_line(p: HeldPackageView) -> LineView {
    seq![
        scene::span("  "@ + p.name + " "@, plain()),
        match p.reason {
            HoldReason::ManualHold => scene::span("[manual hold]"@, fg(Color::Yellow)),
            HoldReason::KeptBack => scene::span(
                match p.detail {
                    Some(d) => "[kept back: "@ + d + "]"@,
                    None => "[kept back]"@,
                },
                fg(Color::Magenta),
            ),
        },
    ]
}

fn show_held(p: &HeldPackage) -> (r: Line)
    ensures
        r.deep_view() == held_line(p.deep_view()),
{
    let mut name = "  ".to_string();
    name.append(p.name.as_str());
    name.append(" ");
    let reason = match p.reason {
        HoldReason::ManualHold => styled_str("[manual hold]", fg(Color::Yellow)),
        HoldReason::KeptBack => {
            let label = match &p.detail {
                Some(d) => {
                    let mut s = "[kept back: ".to_string();
                    s.append(d.as_str());
                    s.append("]");
                    s
                },
                None => "[kept back]".to_string(),
            };
            styled(label, fg(Color::Magenta))
        },
    };
    line2(styled(name, plain()), reason)
}

pub open spec fn conffile_line(f: PendingConffileView) -> LineView {
    seq![
        scene::span("  "@ + f.live_path, plain()),
        scene::span(
            match f.package {
                Some(p) => " ["@ + p + "]"@,
                None => ""@,
            },
            fg(Color::DarkGray),
        ),
    ]
}

fn show_conffile(f: &PendingConffile) -> (r: Line)
    ensures
        r.deep_view() == conffile_line(f.deep_view()),
{
    let owner = match &f.package {
        Some(p) => {
            let mut s = " [".to_string();
            s.append(p.as_str());
            s.append("]");
            s
        },
        None => "".to_string(),
    };
    line2(
        styled(text::cat("  ", f.live_path.as_str()), plain()),
        styled(owner, fg(Color::DarkGray)),
    )
}

pub open spec fn header_line(title: Seq<char>) -> LineView {
    seq![scene::span(" "@ + title, bold_fg(Color::Blue))]
}

pub fn section_header(title: &str) -> (r: Line)
    ensures
        r.deep_view() == header_line(title@),
{
    line(styled(text::cat(" ", title), bold_fg(Color::Blue)))
}

/// The lines and a section behind them, set off by an empty line. There is no
/// section without items.
pub open spec fn section(
    before: Seq<LineView>,
    title: Seq<char>,
    items: Seq<LineView>,
    footer: Seq<LineView>,
) -> Seq<LineView> {
    if items.len() == 0 {
        before
    } else {
        (if before.len() == 0 {
            before
        } else {
            before.push(scene::blank())
        }).push(header_line(title + " ("@ + text::decimal(items.len()) + ")"@)) + items + footer
    }
}

fn with_section(before: Vec<Line>, title: &str, items: Vec<Line>, footer: Vec<Line>) -> (r: Vec<
    Line,
>)
    ensures
        r.deep_view() == section(
            before.deep_view(),
            title@,
            items.deep_view(),
            footer.deep_view(),
        ),
{
    assert(items.deep_view().len() == items@.len());
    assert(before.deep_view().len() == before@.len());
    if items.len() == 0 {
        return before;
    }
    let mut heading = title.to_string();
    heading.append(" (");
    heading.append(text::number(items.len() as u64).as_str());
    heading.append(")");
    let r = if before.len() == 0 {
        before
    } else {
        with(before, blank_line())
    };
    let r = with(r, section_header(heading.as_str()));
    with_all(with_all(r, items), footer)
}

pub open spec fn package_lines(info: HostInfoView) -> Seq<LineView> {
    Seq::new(info.upgradable.len(), |i: int| package_line(info.upgradable[i]))
}

pub open spec fn held_lines(info: HostInfoView) -> Seq<LineView> {
    Seq::new(info.held_packages.len(), |i: int| held_line(info.held_packages[i]))
}

pub open spec fn conffile_lines(info: HostInfoView) -> Seq<LineView> {
    Seq::new(info.pending_conffiles.len(), |i: int| conffile_line(info.pending_conffiles[i]))
}

pub open spec fn rc_lines(info: HostInfoView) -> Seq<LineView> {
    Seq::new(
        info.rc_packages.len(),
        |i: int| seq![scene::span("  "@ + info.rc_packages[i].name, plain())],
    )
}

pub open spec fn autoremovable_lines(info: HostInfoView) -> Seq<LineView> {
    Seq::new(
        info.autoremovable.len(),
        |i: int| seq![scene::span(" "@ + info.autoremovable[i], plain())],
    )
}

pub open spec fn hint(s: Seq<char>) -> Seq<LineView> {
    seq![seq![scene::span(s, fg(Color::DarkGray))]]
}

fn hint_line(s: &str) -> (r: Vec<Line>)
    ensures
        r.deep_view() == hint(s@),
{
    with(none(), line(styled_str(s, fg(Color::DarkGray))))
}

/// What can be upgraded, and what stands in the way or is left over.
pub open spec fn upgradable_lines(info: HostInfoView) -> Seq<LineView> {
    let a = package_lines(info);
    let b = section(a, "Held / kept back"@, held_lines(info), seq![]);
    let c = section(
        b,
        "Pending config files"@,
        conffile_lines(info),
        hint("  Press c to review"@),
    );
    section(c, "RC packages"@, rc_lines(info), hint("  Press p to purge"@))
}

fn show_packages(info: &HostInfo) -> (r: Vec<Line>)
    ensures
        r.deep_view() == package_lines(info.deep_view()),
{
    let ghost all = package_lines(info.deep_view());
    let n: usize = info.upgradable.len();
    let mut r: Vec<Line> = none();
    let mut i: usize = 0;
    while i < n
        invariant
            n == info.upgradable@.len(),
            all == package_lines(info.deep_view()),
            i <= n,
            r.deep_view() =~= all.take(i as int),
        decreases n - i,
    {
        r = with(r, show_package(&info.upgradable[i]));
        i += 1;
    }
    assert(all.take(n as int) =~= all);
    r
}

fn show_all_held(info: &HostInfo) -> (r: Vec<Line>)
    ensures
        r.deep_view() == held_lines(info.deep_view()),
{
    let ghost all = held_lines(info.deep_view());
    let n: usize = info.held_packages.len();
    let mut r: Vec<Line> = none();
    let mut i: usize = 0;
    while i < n
        invariant
            n == info.held_packages@.len(),
            all == held_lines(info.deep_view()),
            i <= n,
            r.deep_view() =~= all.take(i as int),
        decreases n - i,
    {
        r = with(r, show_held(&info.held_packages[i]));
        i += 1;
    }
    assert(all.take(n as int) =~= all);
    r
}

fn show_conffiles(info: &HostInfo) -> (r: Vec<Line>)
    ensures
        r.deep_view() == conffile_lines(info.deep_view()),
{
    let ghost all = conffile_lines(info.deep_view());
    let n: usize = info.pending_conffiles.len();
    let mut r: Vec<Line> = none();
    let mut i: usize = 0;
    while i < n
        invariant
            n == info.pending_conffiles@.len(),
            all == conffile_lines(info.deep_view()),
            i <= n,
            r.deep_view() =~= all.take(i as int),
        decreases n - i,
    {
        r = with(r, show_conffile(&info.pending_conffiles[i]));
        i += 1;
    }
    assert(all.take(n as int) =~= all);
    r
}

fn show_rc(info: &HostInfo) -> (r: Vec<Line>)
    ensures
        r.deep_view() == rc_lines(info.deep_view()),
{
    let ghost all = rc_lines(info.deep_view());
    let n: usize = info.rc_packages.len();
    let mut r: Vec<Line> = none();
    let mut i: usize = 0;
    while i < n
        invariant
            n == info.rc_packages@.len(),
            all == rc_lines(info.deep_view()),
            i <= n,
            r.deep_view() =~= all.take(i as int),
        decreases n - i,
    {
        r = with(r, line(styled(text::cat("  ", info.rc_packages[i].name.as_str()), plain())));
        i += 1;
    }
    assert(all.take(n as int) =~= all);
    r
}

pub fn show_autoremovable(info: &HostInfo) -> (r: Vec<Line>)
    ensures
        r.deep_view() == autoremovable_lines(info.deep_view()),
{
    let ghost all = autoremovable_lines(info.deep_view());
    let n: usize = info.autoremovable.len();
    let mut r: Vec<Line> = none();
    let mut i: usize = 0;
    while i < n
        invariant
            n == info.autoremovable@.len(),
            all == autoremovable_lines(info.deep_view()),
            i <= n,
            r.deep_view() =~= all.take(i as int),
        decreases n - i,
    {
        r = with(r, line(styled(text::cat(" ", info.autoremovable[i].as_str()), plain())));
        i += 1;
    }
    assert(all.take(n as int) =~= all);
    r
}

pub fn show_upgradable(info: &HostInfo) -> (r: Vec<Line>)
    ensures
        r.deep_view() == upgradable_lines(info.deep_view()),
{
    let a = show_packages(info);
    let b = with_section(a, "Held / kept back", show_all_held(info), none());
    let c = with_section(
        b,
        "Pending config files",
        show_conffiles(info),
        hint_line("  Press c to review"),
    );
    with_section(c, "RC packages", show_rc(info), hint_line("  Press p to purge"))
}

pub open spec fn autoremovable_title(h: HostView) -> Seq<char> {
    match h.info {
        None => " Autoremovable "@,
        Some(info) => if info.autoremovable.len() == 0 {
            " Autoremovable: none "@
        } else {
            " Autoremovable ("@ + text::decimal(info.autoremovable.len()) + ") "@
        },
    }
}

pub fn title_of_autoremovable(h: &HostState) -> (r: String)
    ensures
        r@ == autoremovable_title(h.deep_view()),
{
    match &h.info {
        None => " Autoremovable ".to_string(),
        Some(info) => {
            if info.autoremovable.len() == 0 {
                " Autoremovable: none ".to_string()
            } else {
                let mut r = " Autoremovable (".to_string();
                r.append(text::number(info.autoremovable.len() as u64).as_str());
                r.append(") ");
                r
            }
        },
    }
}

// ── Tasks ────────────────────────────────────────────────────────────────────

/// What is said of a task above its output.
pub open spec fn task_status(t: TaskView, tick: u64) -> Seq<char> {
    let label = task::label_of(t.kind);
    match t.status {
        TaskStatusView::Running => spinner_at(tick) + " "@ + label + " running…  t:full view"@,
        TaskStatusView::Done(code) => if code == 0 {
            "✓ "@ + label + " done  t:full view"@
        } else {
            "✗ "@ + label + " exited "@ + text::signed_decimal(code as int) + "  t:full view"@
        },
        TaskStatusView::Failed(e) => "✗ "@ + label + ": "@ + e + "  t:full view"@,
    }
}

pub fn describe_task(t: &TaskState, tick: u64) -> (r: String)
    ensures
        r@ == task_status(t.deep_view(), tick),
{
    let label = t.kind.label();
    match &t.status {
        TaskStatus::Running => {
            let mut r = spinner(tick).to_string();
            r.append(" ");
            r.append(label.as_str());
            r.append(" running…  t:full view");
            r
        },
        TaskStatus::Done(code) => {
            if *code == 0 {
                let mut r = "✓ ".to_string();
                r.append(label.as_str());
                r.append(" done  t:full view");
                r
            } else {
                let mut r = "✗ ".to_string();
                r.append(label.as_str());
                r.append(" exited ");
                r.append(text::signed_number(*code).as_str());
                r.append("  t:full view");
                r
            }
        },
        TaskStatus::Failed(e) => {
            let mut r = "✗ ".to_string();
            r.append(label.as_str());
            r.append(": ");
            r.append(e.as_str());
            r.append("  t:full view");
            r
        },
    }
}

pub open spec fn task_style(status: TaskStatusView) -> Style {
    match status {
        TaskStatusView::Running => fg(Color::Yellow),
        TaskStatusView::Done(code) => if code == 0 {
            fg(Color::Green)
        } else {
            fg(Color::Red)
        },
        TaskStatusView::Failed(_) => fg(Color::Red),
    }
}

pub fn style_of_task(status: &TaskStatus) -> (r: Style)
    ensures
        r == task_style(status.deep_view()),
{
    match status {
        TaskStatus::Running => fg(Color::Yellow),
        TaskStatus::Done(code) => if *code == 0 {
            fg(Color::Green)
        } else {
            fg(Color::Red)
        },
        TaskStatus::Failed(_) => fg(Color::Red),
    }
}

/// What is said of a task in the header of the full view.
pub open spec fn task_outcome(status: TaskStatusView, tick: u64) -> Seq<char> {
    match status {
        TaskStatusView::Running => spinner_at(tick) + " running…"@,
        TaskStatusView::Done(code) => if code == 0 {
            "✓ done"@
        } else {
            "✗ exited "@ + text::signed_decimal(code as int)
        },
        TaskStatusView::Failed(e) => "✗ failed: "@ + e,
    }
}

fn outcome(status: &TaskStatus, tick: u64) -> (r: String)
    ensures
        r@ == task_outcome(status.deep_view(), tick),
{
    match status {
        TaskStatus::Running => text::cat(spinner(tick), " running…"),
        TaskStatus::Done(code) => {
            if *code == 0 {
                "✓ done".to_string()
            } else {
                text::cat("✗ exited ", text::signed_number(*code).as_str())
            }
        },
        TaskStatus::Failed(e) => text::cat("✗ failed: ", e.as_str()),
    }
}

pub open spec fn task_heading(hostname: Seq<char>, t: TaskView, tick: u64) -> Seq<char> {
    "  "@ + hostname + " — "@ + task::label_of(t.kind) + "  ["@ + task_outcome(t.status, tick)
        + "]"@
}

pub fn heading(hostname: &str, t: &TaskState, tick: u64) -> (r: String)
    ensures
        r@ == task_heading(hostname@, t.deep_view(), tick),
{
    let mut r = "  ".to_string();
    r.append(hostname);
    r.append(" — ");
    r.append(t.kind.label().as_str());
    r.append("  [");
    r.append(outcome(&t.status, tick).as_str());
    r.append("]");
    r
}

/// Texts as lines in the terminal's own style.
pub open spec fn raw_lines(texts: Seq<Seq<char>>) -> Seq<LineView> {
    Seq::new(texts.len(), |i: int| seq![scene::span(texts[i], plain())])
}

/// The lines of a text, each in the terminal's own style.
pub fn text_lines(s: &str) -> (r: Vec<Line>)
    ensures
        r.deep_view() == raw_lines(text::lines(s@)),
{
    let texts = text::lines_of(s);
    let ghost all = raw_lines(texts.deep_view());
    let n: usize = texts.len();
    let mut r: Vec<Line> = none();
    let mut i: usize = 0;
    while i < n
        invariant
            n == texts@.len(),
            all == raw_lines(texts.deep_view()),
            i <= n,
            r.deep_view() =~= all.take(i as int),
        decreases n - i,
    {
        r = with(r, line(raw(texts[i].as_str())));
        i += 1;
    }
    assert(all.take(n as int) =~= all);
    r
}

/// The lines of a task's output from `start` on.
pub fn output_from(t: &TaskState, start: usize) -> (r: Vec<Line>)
    requires
        start <= t.output@.len(),
    ensures
        r.deep_view() == raw_lines(t.deep_view().output.skip(start as int)),
{
    let ghost all = raw_lines(t.deep_view().output.skip(start as int));
    let n: usize = t.output.len();
    let mut r: Vec<Line> = none();
    let mut i: usize = start;
    while i < n
        invariant
            n == t.output@.len(),
            all == raw_lines(t.deep_view().output.skip(start as int)),
            start <= i <= n,
            r.deep_view() =~= all.take(i - start),
        decreases n - i,
    {
        r = with(r, line(raw(t.output[i].as_str())));
        i += 1;
    }
    assert(all.take(n - start) =~= all);
    r
}

// ── Conffile review ──────────────────────────────────────────────────────────

/// Style a unified-diff line the way `git diff` does, so the eye can pick out
/// what the package wants to change without reading every line.
pub open spec fn diff_style(s: Seq<char>) -> Style {
    if text::begins(s, "+++"@) || text::begins(s, "---"@) {
        bold_fg(Color::White)
    } else if text::begins(s, "@@"@) {
        fg(Color::Cyan)
    } else if text::begins(s, "+"@) {
        fg(Color::Green)
    } else if text::begins(s, "-"@) {
        fg(Color::Red)
    } else {
        fg(Color::Gray)
    }
}

pub fn diff_line(s: &str) -> (r: Line)
    ensures
        r.deep_view() == seq![scene::span(s@, diff_style(s@))],
{
    let cs = text::chars_of(s);
    let style = if text::starts_with(cs.as_slice(), "+++") || text::starts_with(
        cs.as_slice(),
        "---",
    ) {
        bold_fg(Color::White)
    } else if text::starts_with(cs.as_slice(), "@@") {
        fg(Color::Cyan)
    } else if text::starts_with(cs.as_slice(), "+") {
        fg(Color::Green)
    } else if text::starts_with(cs.as_slice(), "-") {
        fg(Color::Red)
    } else {
        fg(Color::Gray)
    };
    line(styled_str(s, style))
}

pub open spec fn diff_lines(lines: Seq<Seq<char>>) -> Seq<LineView> {
    Seq::new(lines.len(), |i: int| seq![scene::span(lines[i], diff_style(lines[i]))])
}

pub fn show_diff(lines: &Vec<String>) -> (r: Vec<Line>)
    ensures
        r.deep_view() == diff_lines(lines.deep_view()),
{
    let ghost all = diff_lines(lines.deep_view());
    let n: usize = lines.len();
    let mut r: Vec<Line> = none();
    let mut i: usize = 0;
    while i < n
        invariant
            n == lines@.len(),
            all == diff_lines(lines.deep_view()),
            i <= n,
            r.deep_view() =~= all.take(i as int),
        decreases n - i,
    {
        r = with(r, diff_line(lines[i].as_str()));
        i += 1;
    }
    assert(all.take(n as int) =~= all);
    r
}

pub open spec fn mark_span(mark: Option<ConffileAction>) -> SpanView {
    match mark {
        Some(ConffileAction::Discard) => scene::span("[discard] "@, fg(Color::Yellow)),
        Some(ConffileAction::Apply) => scene::span("[apply  ] "@, bold_fg(Color::Green)),
        None => scene::span("[       ] "@, fg(Color::DarkGray)),
    }
}

fn show_mark(mark: Option<ConffileAction>) -> (r: Span)
    ensures
        r.deep_view() == mark_span(mark),
{
    match mark {
        Some(ConffileAction::Discard) => styled_str("[discard] ", fg(Color::Yellow)),
        Some(ConffileAction::Apply) => styled_str("[apply  ] ", bold_fg(Color::Green)),
        None => styled_str("[       ] ", fg(Color::DarkGray)),
    }
}

/// The mark on file `i`, where there is one.
pub open spec fn mark_at(s: ReviewView, i: int) -> Option<ConffileAction> {
    if i < s.decisions.len() {
        s.decisions[i]
    } else {
        None
    }
}

/// A file's line in the review.
pub open spec fn review_line(s: ReviewView, i: int) -> LineView {
    seq![
        scene::span(
            if i == s.selected {
                " > "@
            } else {
                "   "@
            },
            plain(),
        ),
        mark_span(mark_at(s, i)),
        scene::span(s.files[i].pending_path, fg(Color::White)),
        scene::span(
            match s.files[i].package {
                Some(p) => "  ["@ + p + "]"@,
                None => ""@,
            },
            fg(Color::DarkGray),
        ),
    ]
}

pub open spec fn review_lines(s: ReviewView) -> Seq<LineView> {
    Seq::new(s.files.len(), |i: int| review_line(s, i))
}

fn show_file(s: &ConffileReviewState, i: usize) -> (r: Line)
    requires
        i < s.files@.len(),
    ensures
        r.deep_view() == review_line(s.deep_view(), i as int),
{
    assert(s.deep_view().files[i as int] == s.files@[i as int].deep_view());
    let mark = if i < s.decisions.len() {
        s.decisions[i]
    } else {
        None
    };
    let owner = match &s.files[i].package {
        Some(p) => {
            let mut o = "  [".to_string();
            o.append(p.as_str());
            o.append("]");
            o
        },
        None => "".to_string(),
    };
    line4(
        raw(
            if i == s.selected {
                " > "
            } else {
                "   "
            },
        ),
        show_mark(mark),
        styled_str(s.files[i].pending_path.as_str(), fg(Color::White)),
        styled(owner, fg(Color::DarkGray)),
    )
}

pub fn show_files(s: &ConffileReviewState) -> (r: Vec<Line>)
    ensures
        r.deep_view() == review_lines(s.deep_view()),
{
    let ghost all = review_lines(s.deep_view());
    let n: usize = s.files.len();
    let mut r: Vec<Line> = none();
    let mut i: usize = 0;
    while i < n
        invariant
            n == s.files@.len(),
            all == review_lines(s.deep_view()),
            i <= n,
            r.deep_view() =~= all.take(i as int),
        decreases n - i,
    {
        r = with(r, show_file(s, i));
        i += 1;
    }
    assert(all.take(n as int) =~= all);
    r
}

/// The line at the bottom of the review: the question whether to execute the
/// batch, or a notice, or what the keys do.
pub open spec fn review_footer(s: ReviewView) -> LineView {
    let discards = s.count(ConffileAction::Discard);
    let applies = s.count(ConffileAction::Apply);
    if s.confirm_execute {
        seq![
            scene::span(
                " Execute "@ + text::decimal(discards) + " discard(s), "@ + text::decimal(applies)
                    + " apply(ies)"@ + (if applies > 0 {
                    ", replacing "@ + text::decimal(applies)
                        + " live config(s) (old kept as .dpkg-old)"@
                } else {
                    ""@
                }) + "?  y: confirm   any other key: cancel"@,
                on(Color::Red, Color::White),
            ),
        ]
    } else if s.notice is Some {
        seq![scene::span(" ⚠ "@ + s.notice->0, on(Color::DarkGray, Color::Yellow))]
    } else {
        seq![
            scene::span(
                " ↑/↓:file  PgUp/PgDn:scroll  d:mark discard  a:mark apply  u:unmark  "@ + (
                if discards + applies > 0 {
                    "Enter:execute "@ + text::decimal(discards + applies) + " marked  "@
                } else {
                    ""@
                }) + "Esc:close"@,
                on(Color::DarkGray, Color::White),
            ),
        ]
    }
}

fn question(discards: usize, applies: usize) -> (r: String)
    ensures
        r@ == " Execute "@ + text::decimal(discards as nat) + " discard(s), "@ + text::decimal(
            applies as nat,
        ) + " apply(ies)"@ + (if applies > 0 {
            ", replacing "@ + text::decimal(applies as nat)
                + " live config(s) (old kept as .dpkg-old)"@
        } else {
            ""@
        }) + "?  y: confirm   any other key: cancel"@,
{
    let warning = if applies > 0 {
        let mut s = ", replacing ".to_string();
        s.append(text::number(applies as u64).as_str());
        s.append(" live config(s) (old kept as .dpkg-old)");
        s
    } else {
        "".to_string()
    };
    let mut r = " Execute ".to_string();
    r.append(text::number(discards as u64).as_str());
    r.append(" discard(s), ");
    r.append(text::number(applies as u64).as_str());
    r.append(" apply(ies)");
    r.append(warning.as_str());
    r.append("?  y: confirm   any other key: cancel");
    r
}

pub fn footer(s: &ConffileReviewState) -> (r: Line)
    ensures
        r.deep_view() == review_footer(s.deep_view()),
{
    let (discards, applies) = s.marked_counts();
    if s.confirm_execute {
        return line(styled(question(discards, applies), on(Color::Red, Color::White)));
    }
    match &s.notice {
        Some(notice) => line(
            styled(text::cat(" ⚠ ", notice.as_str()), on(Color::DarkGray, Color::Yellow)),
        ),
        None => {
            let marked: u64 = (discards + applies) as u64;
            let enter = if marked > 0 {
                let mut e = "Enter:execute ".to_string();
                e.append(text::number(marked).as_str());
                e.append(" marked  ");
                e
            } else {
                "".to_string()
            };
            let mut r =
                " ↑/↓:file  PgUp/PgDn:scroll  d:mark discard  a:mark apply  u:unmark  ".to_string();
            r.append(enter.as_str());
            r.append("Esc:close");
            line(styled(r, on(Color::DarkGray, Color::White)))
        },
    }
}

// ── Confirmations ────────────────────────────────────────────────────────────

pub open spec fn quit_lines(running: nat) -> Seq<LineView> {
    seq![
        scene::blank(),
        seq![
            scene::span(
                "  "@ + text::decimal(running) + " background "@ + (if running == 1 {
                    "operation"@
                } else {
                    "operations"@
                }) + " still running."@,
                plain(),
            ),
        ],
        seq![scene::span("  Quitting closes the SSH connection(s), which may"@, plain())],
        seq![scene::span("  interrupt the operation on the remote host."@, plain())],
        scene::blank(),
        seq![scene::span("  y: quit anyway   any other key: cancel"@, fg(Color::DarkGray))],
    ]
}

pub fn quit_text(running: usize) -> (r: Vec<Line>)
    ensures
        r.deep_view() == quit_lines(running as nat),
{
    let mut s = "  ".to_string();
    s.append(text::number(running as u64).as_str());
    s.append(" background ");
    s.append(
        if running == 1 {
            "operation"
        } else {
            "operations"
        },
    );
    s.append(" still running.");
    let r: Vec<Line> = with(none(), blank_line());
    let r = with(r, line(styled(s, plain())));
    let r = with(r, line(raw("  Quitting closes the SSH connection(s), which may")));
    let r = with(r, line(raw("  interrupt the operation on the remote host.")));
    let r = with(r, blank_line());
    with(r, line(styled_str("  y: quit anyway   any other key: cancel", fg(Color::DarkGray))))
}

pub open spec fn reboot_lines(
    hostname: Seq<char>,
    input: Seq<char>,
    mismatch: bool,
) -> Seq<LineView> {
    seq![
        scene::blank(),
        seq![
            scene::span("  Type "@, plain()),
            scene::span(hostname, bold_fg(Color::Cyan)),
            scene::span(" to confirm:"@, plain()),
        ],
        scene::blank(),
        seq![
            scene::span("  > "@, plain()),
            scene::span(
                input,
                if mismatch {
                    fg(Color::Red)
                } else {
                    fg(Color::White)
                },
            ),
            scene::span("█"@, fg(Color::White)),
        ],
        scene::blank(),
        if mismatch {
            seq![scene::span("  ✗ hostname does not match"@, fg(Color::Red))]
        } else {
            scene::blank()
        },
        seq![scene::span("  Enter: confirm reboot   Esc: cancel"@, fg(Color::DarkGray))],
    ]
}

pub fn reboot_text(hostname: &str, input: &str, mismatch: bool) -> (r: Vec<Line>)
    ensures
        r.deep_view() == reboot_lines(hostname@, input@, mismatch),
{
    let style = if mismatch {
        fg(Color::Red)
    } else {
        fg(Color::White)
    };
    let r: Vec<Line> = with(none(), blank_line());
    let r = with(
        r,
        line3(raw("  Type "), styled_str(hostname, bold_fg(Color::Cyan)), raw(" to confirm:")),
    );
    let r = with(r, blank_line());
    let r = with(
        r,
        line3(raw("  > "), styled_str(input, style), styled_str("█", fg(Color::White))),
    );
    let r = with(r, blank_line());
    let r = with(
        r,
        if mismatch {
            line(styled_str("  ✗ hostname does not match", fg(Color::Red)))
        } else {
            blank_line()
        },
    );
    with(r, line(styled_str("  Enter: confirm reboot   Esc: cancel", fg(Color::DarkGray))))
}

} // verus!
