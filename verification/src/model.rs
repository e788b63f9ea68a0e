//! The dashboard as a mathematical state machine: what each event does to its
//! state. The executable code in `app` is proved to follow it.

use vstd::prelude::*;

use crate::apt;
use crate::cache;
use crate::cache::CacheEntryView;
use crate::config::{HostConfigView, SidebarRowView};
use crate::keys;
use crate::keys::{
    Command,
    KeyCode,
    KeyModifiers,
    MouseButton,
    MouseEventKind,
    ReviewCommand,
    Scope,
};
use crate::review;
use crate::review::{DiffView, ReviewView};
use crate::sidebar;
use crate::ssh;
use crate::state::{EffectView, EventView, HostStatusView, HostView, MessageView, RebootView};
use crate::state;
use crate::task;
use crate::task::{TaskKindView, TaskStatusView, TaskView};

verus! {

pub const SIDEBAR_MIN_WIDTH: u16 = 10;

pub const SIDEBAR_MAX_WIDTH: u16 = 100;

#[verifier::ext_equal]
pub struct AppView {
    pub hosts: Seq<HostView>,
    pub rows: Seq<SidebarRowView>,
    pub selected_row: int,
    pub tick: u64,
    pub viewing_task: Option<int>,
    pub detail_zoom: bool,
    pub sidebar_width: u16,
    pub dragging_sidebar: bool,
    pub reboot: Option<RebootView>,
    pub review: Option<ReviewView>,
    pub quit_confirm: bool,
    pub filter: Seq<char>,
    pub filter_editing: bool,
    pub cache: Map<Seq<char>, CacheEntryView>,
    pub effects: Seq<EffectView>,
}

// ── Hosts and work ────────────────────────────────────────────────────

/// The shell command that shows how a pending file differs from the live one.
/// diff exits 1 when files differ, which is the normal case here, so the exit
/// status is not a useful error signal — `|| true` keeps the shell from
/// reporting it. The line cap stops a pathological file from filling memory.
pub open spec fn diff_command(live: Seq<char>, pending: Seq<char>, use_sudo: bool) -> Seq<char> {
    let l = ssh::quoted(live);
    let p = ssh::quoted(pending);
    "LC_ALL=C "@ + task::sudo_prefix(use_sudo) + "diff -u --label "@ + l + " --label "@ + p
        + " -- "@ + l + " "@ + p + " 2>&1 | head -n 2000 || true"@
}

/// Whether a task is in progress on a host.
pub open spec fn runs() -> spec_fn(HostView) -> bool {
    |h: HostView| h.running()
}

/// Whether any SSH work is in progress on a host.
pub open spec fn works() -> spec_fn(HostView) -> bool {
    |h: HostView| h.active()
}

/// The first of the hosts `idxs` that has a task to look at.
pub open spec fn first_with_task(hosts: Seq<HostView>, idxs: Seq<int>) -> Option<int>
    decreases idxs.len(),
{
    if idxs.len() == 0 {
        None
    } else if hosts[idxs[0]].task is Some {
        Some(idxs[0])
    } else {
        first_with_task(hosts, idxs.skip(1))
    }
}

impl AppView {
    /// Every host that the state refers to exists.
    pub open spec fn valid(self) -> bool {
        &&& sidebar::rows_refer(self.rows, self.hosts)
        &&& self.viewing_task matches Some(i) ==> 0 <= i < self.hosts.len()
        &&& self.reboot matches Some(s) ==> 0 <= s.host_idx < self.hosts.len()
        &&& self.review matches Some(s) ==> 0 <= s.host_idx < self.hosts.len()
        &&& forall|k: int|
            0 <= k < self.effects.len() ==> ((#[trigger] self.effects[k]).host() matches Some(i)
                ==> 0 <= i < self.hosts.len())
    }

    pub open spec fn with_host(self, i: int, host: HostView) -> AppView {
        AppView { hosts: self.hosts.update(i, host), ..self }
    }

    pub open spec fn with_effect(self, effect: EffectView) -> AppView {
        AppView { effects: self.effects.push(effect), ..self }
    }

    /// The hosts under the selected sidebar row.
    pub open spec fn selected_hosts(self) -> Seq<int> {
        sidebar::hosts_under(self.rows, self.hosts, self.selected_row)
    }

    pub open spec fn in_scope(self, scope: Scope) -> Seq<int> {
        match scope {
            Scope::Selected => self.selected_hosts(),
            Scope::All => sidebar::range(self.hosts.len()),
        }
    }

    /// A gather of one host asked for.
    pub open spec fn refresh(self, i: int) -> AppView {
        self.with_effect(EffectView::Refresh { host_idx: i })
    }

    /// A task started on one host, unless one is running there already.
    pub open spec fn start(self, i: int, kind: TaskKindView) -> AppView {
        if self.hosts[i].running() {
            self
        } else {
            self.with_host(
                i,
                HostView { task: Some(task::started(kind)), ..self.hosts[i] },
            ).with_effect(
                EffectView::RunTask {
                    host_idx: i,
                    command: task::command_of(kind, self.hosts[i].cfg.use_sudo),
                },
            )
        }
    }

    /// A task started on each of several hosts.
    pub open spec fn start_each(self, idxs: Seq<int>, kind: TaskKindView) -> AppView
        decreases idxs.len(),
    {
        if idxs.len() == 0 {
            self
        } else {
            self.start_each(idxs.drop_last(), kind).start(idxs.last(), kind)
        }
    }

    /// The security updates that the last gather found on a host.
    pub open spec fn security_updates(self, i: int) -> Seq<Seq<char>> {
        match self.hosts[i].info {
            Some(info) => apt::security_names(info.upgradable),
            None => seq![],
        }
    }

    /// A security-only upgrade started on one host, if there is anything in it.
    pub open spec fn start_security(self, i: int) -> AppView {
        if self.security_updates(i).len() == 0 {
            self
        } else {
            self.start(i, TaskKindView::UpgradeSecurity(self.security_updates(i)))
        }
    }

    pub open spec fn start_security_each(self, idxs: Seq<int>) -> AppView
        decreases idxs.len(),
    {
        if idxs.len() == 0 {
            self
        } else {
            self.start_security_each(idxs.drop_last()).start_security(idxs.last())
        }
    }
}

// ── Sidebar ───────────────────────────────────────────────────────────

/// `n` brought into the range from `low` to `high`.
pub open spec fn clamped(n: int, low: int, high: int) -> int {
    if n < low {
        low
    } else if n > high {
        high
    } else {
        n
    }
}

/// The widest that the sidebar may be on a terminal of the given width.
pub open spec fn max_width(terminal: Option<u16>) -> int {
    match terminal {
        Some(w) => if w >= SIDEBAR_MIN_WIDTH {
            w - SIDEBAR_MIN_WIDTH
        } else {
            0
        },
        None => SIDEBAR_MAX_WIDTH as int,
    }
}

/// The terminal is wide enough for a sidebar of the least width.
pub open spec fn wide_enough(terminal: Option<u16>) -> bool {
    SIDEBAR_MIN_WIDTH <= max_width(terminal)
}

/// The width that the sidebar has at the start.
pub open spec fn initial_width(terminal: Option<u16>) -> int {
    clamped(
        match terminal {
            Some(w) => w as int / 2,
            None => 40,
        },
        SIDEBAR_MIN_WIDTH as int,
        max_width(terminal),
    )
}

impl AppView {
    /// For each row, whether its own name matches the filter.
    pub open spec fn matched(self) -> Seq<bool> {
        sidebar::matched_rows(self.rows, self.hosts, sidebar::query(self.filter))
    }

    /// The rows that the filter leaves visible.
    pub open spec fn visible(self) -> Seq<int> {
        sidebar::visible(self.rows, self.hosts, self.matched())
    }

    /// Where the selected row stands among the visible ones; 0 where it is hidden.
    pub open spec fn position(self) -> int {
        match self.visible().index_of_first(self.selected_row) {
            Some(i) => i,
            None => 0,
        }
    }

    /// The selection moved by `delta` visible rows.
    pub open spec fn moved(self, delta: int) -> AppView {
        let v = self.visible();
        if v.len() == 0 {
            self
        } else {
            AppView { selected_row: v[clamped(self.position() + delta, 0, v.len() - 1)], ..self }
        }
    }

    /// The selection moved to the first visible row where it was hidden.
    pub open spec fn revealed(self) -> AppView {
        let v = self.visible();
        if v.len() == 0 || v.contains(self.selected_row) {
            self
        } else {
            AppView { selected_row: v[0], ..self }
        }
    }
}

// ── Conffile review ───────────────────────────────────────────────────

impl AppView {
    /// The diff of the selected file asked for, unless it is loading or loaded
    /// already. One that failed is asked for again.
    pub open spec fn with_diff_requested(self) -> AppView {
        match self.review {
            Some(s) => match s.file() {
                Some(file) if s.needs_diff(file.pending_path) => (AppView {
                    review: Some(
                        ReviewView {
                            diffs: s.diffs.insert(file.pending_path, DiffView::Loading),
                            ..s
                        },
                    ),
                    ..self
                }).with_effect(
                    EffectView::FetchDiff {
                        host_idx: s.host_idx,
                        pending_path: file.pending_path,
                        command: diff_command(
                            file.live_path,
                            file.pending_path,
                            self.hosts[s.host_idx].cfg.use_sudo,
                        ),
                    },
                ),
                _ => self,
            },
            None => self,
        }
    }

    /// The review opened on a host, if that has pending files.
    pub open spec fn with_review(self, i: int) -> AppView {
        match self.hosts[i].info {
            Some(info) if info.pending_conffiles.len() > 0 => (AppView {
                review: Some(review::opened(i, info.pending_conffiles)),
                ..self
            }).with_diff_requested(),
            _ => self,
        }
    }

    /// The marked decisions started as one task.
    pub open spec fn executed(self) -> AppView {
        match self.review {
            Some(s) => if s.marked().len() == 0 {
                self
            } else if self.hosts[s.host_idx].running() {
                AppView {
                    review: Some(
                        ReviewView {
                            confirm_execute: false,
                            notice: Some("a task is already running on this host"@),
                            ..s
                        },
                    ),
                    ..self
                }
            } else {
                (AppView { review: None, ..self }).start(
                    s.host_idx,
                    TaskKindView::ResolveConffiles(s.marked()),
                )
            },
            None => self,
        }
    }
}

// ── Keys ─────────────────────────────────────────────────────────────────────

impl AppView {
    /// A key while the quit confirmation is open: `y`, `Y` and Ctrl-C quit, any
    /// other key dismisses it.
    pub open spec fn quit_key(self, code: KeyCode, modifiers: KeyModifiers) -> (AppView, bool) {
        if code == KeyCode::Char('y') || code == KeyCode::Char('Y') || (code == KeyCode::Char('c')
            && modifiers.control) {
            (self, false)
        } else {
            (AppView { quit_confirm: false, ..self }, true)
        }
    }

    /// A key while the reboot confirmation `s` is open. The host is rebooted
    /// only if its name was typed exactly.
    pub open spec fn reboot_key(
        self,
        s: RebootView,
        code: KeyCode,
        modifiers: KeyModifiers,
    ) -> AppView {
        match code {
            KeyCode::Esc => AppView { reboot: None, ..self },
            KeyCode::Backspace => AppView {
                reboot: Some(
                    RebootView {
                        input: if s.input.len() > 0 {
                            s.input.drop_last()
                        } else {
                            s.input
                        },
                        mismatch: false,
                        ..s
                    },
                ),
                ..self
            },
            KeyCode::Enter => if s.input == self.hosts[s.host_idx].cfg.hostname {
                (AppView { reboot: None, ..self }).start(s.host_idx, TaskKindView::Reboot)
            } else {
                AppView { reboot: Some(RebootView { mismatch: true, ..s }), ..self }
            },
            KeyCode::Char(c) => if c == 'c' && modifiers.just_control() {
                AppView { reboot: None, ..self }
            } else if !modifiers.control && !modifiers.alt {
                AppView {
                    reboot: Some(RebootView { input: s.input.push(c), mismatch: false, ..s }),
                    ..self
                }
            } else {
                self
            },
            _ => self,
        }
    }

    /// A key while the conffile review `s` is open. `d` and `a` only mark files;
    /// nothing touches the host until Enter, and executing the batch takes a
    /// second key to confirm.
    pub open spec fn review_key(
        self,
        s: ReviewView,
        code: KeyCode,
        modifiers: KeyModifiers,
    ) -> AppView {
        if s.confirm_execute {
            if code == KeyCode::Char('y') || code == KeyCode::Char('Y') {
                self.executed()
            } else {
                AppView { review: Some(ReviewView { confirm_execute: false, ..s }), ..self }
            }
        } else {
            match keys::review_binding(code, modifiers) {
                Some(ReviewCommand::Close) => AppView { review: None, ..self },
                Some(command) => {
                    let next = AppView { review: Some(s.after(command)), ..self };
                    if s.moves(command) {
                        next.with_diff_requested()
                    } else {
                        next
                    }
                },
                None => self,
            }
        }
    }

    /// A key while the filter is edited: characters are appended to it, arrow
    /// keys move among the rows that it leaves visible.
    pub open spec fn filter_key(self, code: KeyCode, modifiers: KeyModifiers) -> (AppView, bool) {
        match code {
            KeyCode::Esc | KeyCode::Enter => (AppView { filter_editing: false, ..self }, true),
            KeyCode::Backspace => (
                (AppView {
                    filter: if self.filter.len() > 0 {
                        self.filter.drop_last()
                    } else {
                        self.filter
                    },
                    ..self
                }).revealed(),
                true,
            ),
            KeyCode::Up => (self.moved(-1), true),
            KeyCode::Down => (self.moved(1), true),
            KeyCode::Char(c) => if c == 'c' && modifiers.control {
                (self, false)
            } else if !modifiers.control && !modifiers.alt {
                ((AppView { filter: self.filter.push(c), ..self }).revealed(), true)
            } else {
                (self, true)
            },
            _ => (self, true),
        }
    }

    /// A key while the output of host `i`'s task is on the screen.
    pub open spec fn task_key(self, i: int, code: KeyCode) -> AppView {
        if code == KeyCode::Esc || code == KeyCode::Char('q') {
            AppView { viewing_task: None, ..self }
        } else {
            match self.hosts[i].task {
                Some(t) => self.with_host(
                    i,
                    HostView { task: Some(task::scrolled(t, code)), ..self.hosts[i] },
                ),
                None => self,
            }
        }
    }

    /// The state after a command, and whether the dashboard goes on. Quitting
    /// is put to the user first while there is work in progress, since it drops
    /// the connections.
    pub open spec fn performed(self, command: Command) -> (AppView, bool) {
        match command {
            Command::Up => (self.moved(-1), true),
            Command::Down => (self.moved(1), true),
            Command::Search => (AppView { filter_editing: true, ..self }, true),
            Command::SecurityUpgrade(scope) => (
                self.start_security_each(self.in_scope(scope)),
                true,
            ),
            Command::Update(scope) => (
                self.start_each(self.in_scope(scope), TaskKindView::Update),
                true,
            ),
            Command::Upgrade(scope) => (
                self.start_each(self.in_scope(scope), TaskKindView::Upgrade),
                true,
            ),
            Command::FullUpgrade(scope) => (
                self.start_each(self.in_scope(scope), TaskKindView::FullUpgrade),
                true,
            ),
            Command::AutoRemove(scope) => (
                self.start_each(self.in_scope(scope), TaskKindView::AutoRemove),
                true,
            ),
            Command::PurgeRc => (
                self.start_each(self.selected_hosts(), TaskKindView::PurgeRc),
                true,
            ),
            Command::Reboot => if self.selected_hosts().len() == 1 {
                (
                    AppView {
                        reboot: Some(
                            RebootView {
                                host_idx: self.selected_hosts()[0],
                                input: seq![],
                                mismatch: false,
                            },
                        ),
                        ..self
                    },
                    true,
                )
            } else {
                (self, true)
            },
            Command::ReviewConffiles => if self.selected_hosts().len() == 1 {
                (self.with_review(self.selected_hosts()[0]), true)
            } else {
                (self, true)
            },
            Command::ViewTask => match first_with_task(self.hosts, self.selected_hosts()) {
                Some(i) => (AppView { viewing_task: Some(i), ..self }, true),
                None => (self, true),
            },
            Command::Zoom => (AppView { detail_zoom: !self.detail_zoom, ..self }, true),
            Command::Quit => if self.hosts.filter(works()).len() > 0 {
                (AppView { quit_confirm: true, ..self }, true)
            } else {
                (self, false)
            },
        }
    }

    /// The state after a key, and whether the dashboard goes on. The quit
    /// confirmation comes first, then the other modals, then the search, then
    /// the task output, and last the main screen.
    pub open spec fn after_key(self, code: KeyCode, modifiers: KeyModifiers) -> (AppView, bool) {
        if self.quit_confirm {
            self.quit_key(code, modifiers)
        } else if self.reboot is Some {
            (self.reboot_key(self.reboot->0, code, modifiers), true)
        } else if self.review is Some {
            (self.review_key(self.review->0, code, modifiers), true)
        } else if self.filter_editing {
            self.filter_key(code, modifiers)
        } else if self.viewing_task is Some {
            (self.task_key(self.viewing_task->0, code), true)
        } else {
            match keys::binding(code, modifiers) {
                Some(command) => self.performed(command),
                None => (self, true),
            }
        }
    }
}

// ── Mouse ────────────────────────────────────────────────────────────────────

impl AppView {
    /// A mouse event of this kind sets the width of the sidebar.
    pub open spec fn sets_width(self, kind: MouseEventKind) -> bool {
        self.reboot is None && self.dragging_sidebar && kind == MouseEventKind::Drag(
            MouseButton::Left,
        )
    }

    /// The state after a mouse event in column `col`. The divider can be
    /// dragged, but not while the reboot confirmation is open.
    pub open spec fn after_mouse(
        self,
        kind: MouseEventKind,
        col: u16,
        terminal: Option<u16>,
    ) -> AppView {
        if self.reboot is Some {
            self
        } else {
            match kind {
                MouseEventKind::Down(MouseButton::Left) => if !self.detail_zoom && col == clamped(
                    self.sidebar_width - 1,
                    0,
                    u16::MAX as int,
                ) {
                    AppView { dragging_sidebar: true, ..self }
                } else {
                    self
                },
                MouseEventKind::Drag(MouseButton::Left) => if self.dragging_sidebar {
                    AppView {
                        sidebar_width: clamped(
                            col + 1,
                            SIDEBAR_MIN_WIDTH as int,
                            max_width(terminal),
                        ) as u16,
                        ..self
                    }
                } else {
                    self
                },
                MouseEventKind::Up(MouseButton::Left) => AppView {
                    dragging_sidebar: false,
                    ..self
                },
                _ => self,
            }
        }
    }
}

// ── Messages ─────────────────────────────────────────────────────────────────

impl AppView {
    /// A task's state changed, where there is a task.
    pub open spec fn with_task(self, i: int, f: spec_fn(TaskView) -> TaskView) -> AppView {
        match self.hosts[i].task {
            Some(t) => self.with_host(i, HostView { task: Some(f(t)), ..self.hosts[i] }),
            None => self,
        }
    }

    /// A task ended. Its output is followed to the end again.
    pub open spec fn with_task_ended(self, i: int, status: TaskStatusView) -> AppView {
        self.with_task(i, |t: TaskView| TaskView { status, auto_scroll: true, ..t })
    }

    /// The state after a message that came in at the time `now`.
    pub open spec fn after_message(self, msg: MessageView, now: u64) -> AppView {
        match msg {
            MessageView::GatherDone { host_idx: i, result: Ok(info) } => (AppView {
                cache: self.cache.insert(
                    cache::key_of(self.hosts[i].cfg),
                    CacheEntryView { info, fetched_at_unix: now },
                ),
                ..self
            }).with_effect(EffectView::SaveCache).with_host(
                i,
                HostView {
                    info: Some(info),
                    status: HostStatusView::Ready,
                    is_stale: false,
                    ..self.hosts[i]
                },
            ),
            MessageView::GatherDone { host_idx: i, result: Err(e) } => self.with_host(
                i,
                HostView { status: HostStatusView::Error(e), ..self.hosts[i] },
            ),
            MessageView::TaskLine { host_idx: i, line } => self.with_task(
                i,
                |t: TaskView| TaskView { output: task::with_line(t.output, line), ..t },
            ),
            MessageView::TaskDone { host_idx: i, exit_code } => {
                let ended = self.with_task_ended(i, TaskStatusView::Done(exit_code));
                ended.with_host(
                    i,
                    HostView { status: HostStatusView::Gathering, ..ended.hosts[i] },
                ).refresh(i)
            },
            MessageView::TaskFailed { host_idx: i, error } => self.with_task_ended(
                i,
                TaskStatusView::Failed(error),
            ),
            MessageView::ConffileDiff { host_idx: i, pending_path, result } => match self.review {
                Some(s) if s.host_idx == i => AppView {
                    review: Some(
                        ReviewView {
                            diffs: s.diffs.insert(
                                pending_path,
                                match result {
                                    Ok(lines) => DiffView::Loaded(lines),
                                    Err(e) => DiffView::Failed(e),
                                },
                            ),
                            ..s
                        },
                    ),
                    ..self
                },
                _ => self,
            },
        }
    }
}

// ── Start ────────────────────────────────────────────────────────────────────

/// A host at the start: with what the cache holds of it, marked as stale.
pub open spec fn cached_host(
    cfg: HostConfigView,
    cache: Map<Seq<char>, CacheEntryView>,
) -> HostView {
    let key = cache::key_of(cfg);
    if cache.contains_key(key) {
        HostView { info: Some(cache[key].info), is_stale: true, ..state::unknown_host(cfg) }
    } else {
        state::unknown_host(cfg)
    }
}

/// The dashboard at the start.
pub open spec fn initial(
    hosts: Seq<HostConfigView>,
    rows: Seq<SidebarRowView>,
    cache: Map<Seq<char>, CacheEntryView>,
    terminal: Option<u16>,
) -> AppView {
    AppView {
        hosts: hosts.map_values(|cfg: HostConfigView| cached_host(cfg, cache)),
        rows,
        selected_row: 0,
        tick: 0,
        viewing_task: None,
        detail_zoom: false,
        sidebar_width: initial_width(terminal) as u16,
        dragging_sidebar: false,
        reboot: None,
        review: None,
        quit_confirm: false,
        filter: seq![],
        filter_editing: false,
        cache,
        effects: seq![],
    }
}

impl AppView {
    /// A gather of every host asked for, the first `n` of them so far.
    pub open spec fn connecting(self, n: nat) -> AppView
        decreases n,
    {
        if n == 0 {
            self
        } else {
            let before = self.connecting((n - 1) as nat);
            before.with_host(
                n - 1,
                HostView { status: HostStatusView::Connecting, ..before.hosts[n - 1] },
            ).refresh(n - 1)
        }
    }
}

// ── Events ───────────────────────────────────────────────────────────────────

impl AppView {
    /// The event is one that can come: a message is about a host that exists,
    /// and the divider is dragged on a terminal that is wide enough.
    pub open spec fn accepts(self, event: EventView) -> bool {
        match event {
            EventView::Message(msg) => msg is ConffileDiff || 0 <= msg.host() < self.hosts.len(),
            EventView::Mouse { kind, terminal, .. } => self.sets_width(kind) ==> wide_enough(
                terminal,
            ),
            _ => true,
        }
    }

    /// The state after an event at the time `now`, and whether the dashboard
    /// goes on.
    pub open spec fn after_event(self, event: EventView, now: u64) -> (AppView, bool) {
        match event {
            EventView::Tick => (
                AppView {
                    tick: if self.tick == u64::MAX {
                        0
                    } else {
                        (self.tick + 1) as u64
                    },
                    ..self
                },
                true,
            ),
            EventView::Message(msg) => (self.after_message(msg, now), true),
            EventView::Key { code, modifiers, pressed } => if pressed {
                self.after_key(code, modifiers)
            } else {
                (self, true)
            },
            EventView::Mouse { kind, col, terminal } => (
                self.after_mouse(kind, col, terminal),
                true,
            ),
            EventView::Other => (self, true),
        }
    }
}

} // verus!
