//! The dashboard's state and how keys, the mouse and messages from background
//! work change it. Work on the hosts and on the disk is not done here: the
//! state collects it as effects, which the program around it carries out.

use vstd::prelude::*;

use crate::apt::HostInfo;
use crate::cache;
use crate::cache::{Cache, CacheEntry};
use crate::config;
use crate::config::{Config, HostConfig, SidebarRow};
use crate::keys;
use crate::keys::{
    Command,
    KeyCode,
    KeyModifiers,
    MouseButton,
    MouseEventKind,
    ReviewCommand,
    Scope,
};
use crate::model;
use crate::model::{AppView, SIDEBAR_MAX_WIDTH, SIDEBAR_MIN_WIDTH};
use crate::review;
use crate::review::{ConffileReviewState, DiffState, DiffView};
use crate::sidebar;
use crate::ssh::shell_quote;
use crate::state;
use crate::state::{
    AppEvent,
    AppMessage,
    Effect,
    HostState,
    HostStatus,
    HostView,
    MessageView,
    RebootConfirmState,
};
use crate::task;
use crate::task::{TaskKind, TaskState, TaskStatus};
use crate::text;

verus! {

/// Maximum number of simultaneous SSH operations (gathers and apt tasks
/// combined). Triggering an action on a large group or "all" hosts still
/// queues the rest instead of opening a connection per host at once.
pub const MAX_CONCURRENT_SSH_OPS: usize = 8;

pub struct App {
    pub hosts: Vec<HostState>,
    pub sidebar_rows: Vec<SidebarRow>,
    pub selected_row: usize,
    pub tick: u64,
    /// If Some, the user is viewing the task output overlay for this host.
    pub viewing_task: Option<usize>,
    /// When true, the sidebar is hidden and the detail panel fills the screen.
    pub detail_zoom: bool,
    /// Width of the sidebar panel in columns.
    pub sidebar_width: u16,
    /// Whether the user is currently dragging the sidebar divider.
    pub dragging_sidebar: bool,
    /// When Some, the reboot confirmation modal is active.
    pub reboot_confirm: Option<RebootConfirmState>,
    /// When Some, the pending-conffile review modal is active.
    pub conffile_review: Option<ConffileReviewState>,
    /// When true, the quit confirmation modal is active (shown when tasks are still running).
    pub quit_confirm: bool,
    /// Current sidebar search/filter text. Empty means no filter is applied.
    pub filter: String,
    /// When true, keystrokes are being captured into `filter` instead of
    /// triggering normal keybindings.
    pub filter_editing: bool,
    /// On-disk gather cache, kept in memory and rewritten after each
    /// successful gather.
    pub cache: Cache,
    /// Work that was asked for and not handed out yet, oldest first.
    pub effects: Vec<Effect>,
}

impl DeepView for App {
    type V = AppView;

    open spec fn deep_view(&self) -> AppView {
        AppView {
            hosts: self.hosts.deep_view(),
            rows: self.sidebar_rows.deep_view(),
            selected_row: self.selected_row as int,
            tick: self.tick,
            viewing_task: match self.viewing_task {
                Some(i) => Some(i as int),
                None => None,
            },
            detail_zoom: self.detail_zoom,
            sidebar_width: self.sidebar_width,
            dragging_sidebar: self.dragging_sidebar,
            reboot: self.reboot_confirm.deep_view(),
            review: self.conffile_review.deep_view(),
            quit_confirm: self.quit_confirm,
            filter: self.filter@,
            filter_editing: self.filter_editing,
            cache: self.cache.deep_view(),
            effects: self.effects.deep_view(),
        }
    }
}

/// The shell command that shows how a pending file differs from the live one.
fn diff_command(live: &str, pending: &str, use_sudo: bool) -> (r: String)
    ensures
        r@ == model::diff_command(live@, pending@, use_sudo),
{
    let l = shell_quote(live);
    let p = shell_quote(pending);
    let mut r = "LC_ALL=C ".to_string();
    r.append(task::sudo(use_sudo));
    r.append("diff -u --label ");
    r.append(l.as_str());
    r.append(" --label ");
    r.append(p.as_str());
    r.append(" -- ");
    r.append(l.as_str());
    r.append(" ");
    r.append(p.as_str());
    r.append(" 2>&1 | head -n 2000 || true");
    r
}

// ── Construction ─────────────────────────────────────────────────────────────

fn clamp(n: u32, low: u16, high: u16) -> (r: u16)
    requires
        low <= high,
    ensures
        r == model::clamped(n as int, low as int, high as int),
        low <= r <= high,
{
    if n < low as u32 {
        low
    } else if n > high as u32 {
        high
    } else {
        n as u16
    }
}

fn max_width(terminal: Option<u16>) -> (r: u16)
    ensures
        r == model::max_width(terminal),
{
    match terminal {
        Some(w) => w.saturating_sub(SIDEBAR_MIN_WIDTH),
        None => SIDEBAR_MAX_WIDTH,
    }
}

/// Whether a terminal is wide enough for a sidebar of the least width.
pub fn is_wide_enough(terminal: Option<u16>) -> (r: bool)
    ensures
        r == model::wide_enough(terminal),
{
    SIDEBAR_MIN_WIDTH <= max_width(terminal)
}

impl App {
    /// The dashboard for a configuration, with what the cache holds of its
    /// hosts, on a terminal of the given width (`None` where it has none).
    pub fn new(config: &Config, cache: Cache, terminal: Option<u16>) -> (r: Self)
        requires
            model::wide_enough(terminal),
        ensures
            exists|login: Seq<char>|
                r.deep_view() == model::initial(
                    #[trigger] config::resolved(config.raw.deep_view(), login),
                    config::rows_of(config.raw.deep_view()),
                    cache.deep_view(),
                    terminal,
                ),
            !config::needs_login(config.raw.deep_view()) ==> forall|login: Seq<char>|
                r.deep_view() == model::initial(
                    #[trigger] config::resolved(config.raw.deep_view(), login),
                    config::rows_of(config.raw.deep_view()),
                    cache.deep_view(),
                    terminal,
                ),
            r.deep_view().valid(),
    {
        let hosts = config.resolved_hosts();
        let sidebar_rows = config.sidebar_rows(hosts.as_slice());
        proof {
            let login = choose|login: Seq<char>|
                hosts.deep_view() == config::resolved(config.raw.deep_view(), login);
            config::rows_list_every_host_once(config.raw.deep_view(), login);
        }
        App::with_hosts(hosts, sidebar_rows, cache, terminal)
    }

    /// The dashboard for the given hosts and sidebar rows.
    pub fn with_hosts(
        host_cfgs: Vec<HostConfig>,
        sidebar_rows: Vec<SidebarRow>,
        cache: Cache,
        terminal: Option<u16>,
    ) -> (r: Self)
        requires
            model::wide_enough(terminal),
        ensures
            r.deep_view() == model::initial(
                host_cfgs.deep_view(),
                sidebar_rows.deep_view(),
                cache.deep_view(),
                terminal,
            ),
    {
        let ghost wanted = model::initial(
            host_cfgs.deep_view(),
            sidebar_rows.deep_view(),
            cache.deep_view(),
            terminal,
        ).hosts;
        let mut hosts: Vec<HostState> = Vec::new();
        let n: usize = host_cfgs.len();
        let mut i: usize = 0;
        while i < n
            invariant
                n == host_cfgs@.len(),
                i <= n,
                wanted == model::initial(
                    host_cfgs.deep_view(),
                    sidebar_rows.deep_view(),
                    cache.deep_view(),
                    terminal,
                ).hosts,
                hosts.deep_view() =~= wanted.take(i as int),
            decreases n - i,
        {
            let mut host = HostState::new(host_cfgs[i].clone());
            assert(host_cfgs.deep_view()[i as int] == host_cfgs@[i as int].deep_view());
            let key = cache::host_key(&host.cfg);
            if let Some(entry) = cache.get(key.as_str()) {
                host.info = Some(entry.info.clone());
                host.is_stale = true;
            }
            assert(host.deep_view() == wanted[i as int]);
            let ghost before = hosts.deep_view();
            hosts.push(host);
            assert(hosts.deep_view() =~= before.push(wanted[i as int]));
            i += 1;
        }
        let wanted_width: u32 = match terminal {
            Some(w) => w as u32 / 2,
            None => 40,
        };
        let r = App {
            hosts,
            sidebar_rows,
            selected_row: 0,
            tick: 0,
            viewing_task: None,
            detail_zoom: false,
            sidebar_width: clamp(wanted_width, SIDEBAR_MIN_WIDTH, max_width(terminal)),
            dragging_sidebar: false,
            reboot_confirm: None,
            conffile_review: None,
            quit_confirm: false,
            filter: String::new(),
            filter_editing: false,
            cache,
            effects: Vec::new(),
        };
        assert(wanted.take(n as int) =~= wanted);
        assert(r.effects.deep_view() =~= seq![]);
        r
    }

    // ── Counting ─────────────────────────────────────────────────────────────

    /// Number of hosts with a task currently in progress.
    pub fn running_task_count(&self) -> (r: usize)
        ensures
            r == self.deep_view().hosts.filter(model::runs()).len(),
    {
        let ghost all = self.hosts.deep_view();
        let n: usize = self.hosts.len();
        let mut count: usize = 0;
        let mut i: usize = 0;
        proof {
            reveal(Seq::filter);
        }
        while i < n
            invariant
                n == self.hosts@.len(),
                all == self.hosts.deep_view(),
                i <= n,
                count <= i,
                count == all.take(i as int).filter(model::runs()).len(),
            decreases n - i,
        {
            proof {
                assert(all.take(i + 1) =~= all.take(i as int).push(all[i as int]));
                all.take(i as int).lemma_filter_push(all[i as int], model::runs());
            }
            if self.hosts[i].is_running() {
                count += 1;
            }
            i += 1;
        }
        assert(all.take(n as int) =~= all);
        count
    }

    /// Number of hosts with any active SSH work: apt tasks or gather/refresh.
    pub fn active_operation_count(&self) -> (r: usize)
        ensures
            r == self.deep_view().hosts.filter(model::works()).len(),
    {
        let ghost all = self.hosts.deep_view();
        let n: usize = self.hosts.len();
        let mut count: usize = 0;
        let mut i: usize = 0;
        proof {
            reveal(Seq::filter);
        }
        while i < n
            invariant
                n == self.hosts@.len(),
                all == self.hosts.deep_view(),
                i <= n,
                count <= i,
                count == all.take(i as int).filter(model::works()).len(),
            decreases n - i,
        {
            proof {
                assert(all.take(i + 1) =~= all.take(i as int).push(all[i as int]));
                all.take(i as int).lemma_filter_push(all[i as int], model::works());
            }
            if self.hosts[i].is_active() {
                count += 1;
            }
            i += 1;
        }
        assert(all.take(n as int) =~= all);
        count
    }

    // ── Sidebar ──────────────────────────────────────────────────────────────

    /// Indices of all hosts under the currently selected sidebar row.
    pub fn selected_host_indices(&self) -> (r: Vec<usize>)
        requires
            self.deep_view().valid(),
        ensures
            sidebar::ints(r@) == self.deep_view().selected_hosts(),
            forall|i: int| 0 <= i < r@.len() ==> #[trigger] r@[i] < self.hosts@.len(),
    {
        sidebar::hosts_of_row(&self.sidebar_rows, &self.hosts, self.selected_row)
    }

    /// Indices into `sidebar_rows` that should be visible given the current
    /// filter text. A group row is visible if its name matches, or if any of
    /// its hosts match (in which case only the matching hosts are visible
    /// alongside it). An empty filter shows every row.
    pub fn filtered_row_indices(&self) -> (r: Vec<usize>)
        requires
            self.deep_view().valid(),
        ensures
            sidebar::ints(r@) == self.deep_view().visible(),
    {
        let q = text::lower(text::trim_text(self.filter.as_str()).as_str());
        let matched = sidebar::match_rows(&self.sidebar_rows, &self.hosts, q.as_str());
        sidebar::rows_shown(&self.sidebar_rows, &self.hosts, &matched)
    }

    /// Where the selected row stands among the visible ones.
    pub fn position(&self, filtered: &Vec<usize>) -> (r: Option<usize>)
        ensures
            r is Some ==> r->0 < filtered@.len(),
            match r {
                Some(i) => sidebar::ints(filtered@).index_of_first(self.selected_row as int)
                    == Some(i as int),
                None => sidebar::ints(filtered@).index_of_first(self.selected_row as int) is None
                    && !sidebar::ints(filtered@).contains(self.selected_row as int),
            },
            r is Some ==> sidebar::ints(filtered@).contains(self.selected_row as int),
    {
        let ghost v = sidebar::ints(filtered@);
        let n: usize = filtered.len();
        let mut i: usize = 0;
        proof {
            v.index_of_first_ensures(self.selected_row as int);
        }
        while i < n
            invariant
                n == filtered@.len(),
                v == sidebar::ints(filtered@),
                i <= n,
                forall|j: int| 0 <= j < i ==> v[j] != self.selected_row,
            decreases n - i,
        {
            if filtered[i] == self.selected_row {
                assert(v[i as int] == self.selected_row as int);
                proof {
                    v.index_of_first_ensures(self.selected_row as int);
                }
                return Some(i);
            }
            i += 1;
        }
        proof {
            v.index_of_first_ensures(self.selected_row as int);
        }
        None
    }

    /// Move the sidebar selection by `delta` positions among the currently
    /// visible (filtered) rows.
    pub fn move_selection(&mut self, delta: i32)
        requires
            old(self).deep_view().valid(),
        ensures
            final(self).deep_view() == old(self).deep_view().moved(delta as int),
            final(self).deep_view().valid(),
    {
        let filtered = self.filtered_row_indices();
        if filtered.len() == 0 {
            return;
        }
        let current: usize = match self.position(&filtered) {
            Some(i) => i,
            None => 0,
        };
        let wanted: i128 = current as i128 + delta as i128;
        let last: usize = filtered.len() - 1;
        let new_pos: usize = if wanted < 0 {
            0
        } else if wanted > last as i128 {
            last
        } else {
            wanted as usize
        };
        assert(sidebar::ints(filtered@)[new_pos as int] == filtered@[new_pos as int]);
        self.selected_row = filtered[new_pos];
    }

    /// If the current selection is hidden by the active filter, jump to the
    /// first visible row instead.
    fn ensure_selection_visible(&mut self)
        requires
            old(self).deep_view().valid(),
        ensures
            final(self).deep_view() == old(self).deep_view().revealed(),
            final(self).deep_view().valid(),
    {
        let filtered = self.filtered_row_indices();
        if filtered.len() > 0 && self.position(&filtered).is_none() {
            assert(sidebar::ints(filtered@)[0] == filtered@[0]);
            self.selected_row = filtered[0];
        }
    }

    // ── Work on hosts ────────────────────────────────────────────────────────

    fn push_effect(&mut self, effect: Effect)
        ensures
            final(self).deep_view() == old(self).deep_view().with_effect(effect.deep_view()),
            final(self).hosts == old(self).hosts,
    {
        let ghost before = self.effects.deep_view();
        self.effects.push(effect);
        assert(self.effects.deep_view() =~= before.push(effect.deep_view()));
    }

    /// Hands out the work that was asked for, oldest first.
    pub fn take_effects(&mut self) -> (r: Vec<Effect>)
        ensures
            r.deep_view() == old(self).deep_view().effects,
            final(self).deep_view() == (AppView {
                effects: seq![],
                ..old(self).deep_view()
            }),
            old(self).deep_view().valid() ==> final(self).deep_view().valid(),
    {
        let mut r: Vec<Effect> = Vec::new();
        std::mem::swap(&mut r, &mut self.effects);
        assert(self.effects.deep_view() =~= seq![]);
        r
    }

    /// Trigger a gather refresh for one host.
    pub fn start_refresh(&mut self, host_idx: usize)
        requires
            host_idx < old(self).hosts@.len(),
        ensures
            final(self).deep_view() == old(self).deep_view().refresh(host_idx as int),
            final(self).hosts@ == old(self).hosts@,
            old(self).deep_view().valid() ==> final(self).deep_view().valid(),
    {
        self.push_effect(Effect::Refresh { host_idx });
    }

    /// Trigger an apt task on one host. Does nothing if a task is already
    /// running.
    pub fn start_task(&mut self, host_idx: usize, kind: TaskKind)
        requires
            host_idx < old(self).hosts@.len(),
        ensures
            final(self).deep_view() == old(self).deep_view().start(
                host_idx as int,
                kind.deep_view(),
            ),
            final(self).hosts@.len() == old(self).hosts@.len(),
            old(self).deep_view().valid() ==> final(self).deep_view().valid(),
    {
        let ghost before = self.deep_view();
        assert(before.hosts[host_idx as int] == self.hosts@[host_idx as int].deep_view());
        if self.hosts[host_idx].is_running() {
            return;
        }
        let command = kind.command(self.hosts[host_idx].cfg.use_sudo);
        let ghost kv = kind.deep_view();
        let state = TaskState::new(kind);
        self.hosts[host_idx].task = Some(state);
        proof {
            let h = HostView {
                task: Some(task::started(kv)),
                ..before.hosts[host_idx as int]
            };
            assert(self.hosts@[host_idx as int].deep_view() == h);
            assert(self.hosts.deep_view() =~= before.hosts.update(host_idx as int, h));
        }
        self.push_effect(Effect::RunTask { host_idx, command });
    }

    /// Trigger an apt task on each of several hosts.
    fn start_tasks(&mut self, idxs: &Vec<usize>, kind: TaskKind)
        requires
            old(self).deep_view().valid(),
            forall|i: int| 0 <= i < idxs@.len() ==> #[trigger] idxs@[i] < old(self).hosts@.len(),
        ensures
            final(self).deep_view() == old(self).deep_view().start_each(
                sidebar::ints(idxs@),
                kind.deep_view(),
            ),
            final(self).deep_view().valid(),
    {
        let ghost first = self.deep_view();
        let ghost all = sidebar::ints(idxs@);
        let n: usize = idxs.len();
        let mut i: usize = 0;
        while i < n
            invariant
                n == idxs@.len(),
                i <= n,
                all == sidebar::ints(idxs@),
                forall|j: int| 0 <= j < idxs@.len() ==> #[trigger] idxs@[j] < self.hosts@.len(),
                self.deep_view() == first.start_each(all.take(i as int), kind.deep_view()),
                self.deep_view().valid(),
            decreases n - i,
        {
            proof {
                assert(all.take(i + 1).drop_last() =~= all.take(i as int));
                assert(all.take(i + 1).last() == idxs@[i as int]);
            }
            self.start_task(idxs[i], kind.clone());
            i += 1;
        }
        assert(all.take(n as int) =~= all);
    }

    /// Trigger a security-only upgrade on one host, using whatever security
    /// packages were found in its last gather. Does nothing if there are
    /// none, or if a task is already running.
    pub fn start_security_upgrade(&mut self, host_idx: usize)
        requires
            host_idx < old(self).hosts@.len(),
        ensures
            final(self).deep_view() == old(self).deep_view().start_security(host_idx as int),
            final(self).hosts@.len() == old(self).hosts@.len(),
            old(self).deep_view().valid() ==> final(self).deep_view().valid(),
    {
        assert(self.deep_view().hosts[host_idx as int]
            == self.hosts@[host_idx as int].deep_view());
        let pkgs: Vec<String> = match &self.hosts[host_idx].info {
            Some(info) => info.security_package_names(),
            None => Vec::new(),
        };
        assert(pkgs.deep_view().len() == pkgs@.len());
        if pkgs.len() == 0 {
            return;
        }
        self.start_task(host_idx, TaskKind::UpgradeSecurity(pkgs));
    }

    fn start_security_upgrades(&mut self, idxs: &Vec<usize>)
        requires
            old(self).deep_view().valid(),
            forall|i: int| 0 <= i < idxs@.len() ==> #[trigger] idxs@[i] < old(self).hosts@.len(),
        ensures
            final(self).deep_view() == old(self).deep_view().start_security_each(
                sidebar::ints(idxs@),
            ),
            final(self).deep_view().valid(),
    {
        let ghost first = self.deep_view();
        let ghost all = sidebar::ints(idxs@);
        let n: usize = idxs.len();
        let mut i: usize = 0;
        while i < n
            invariant
                n == idxs@.len(),
                i <= n,
                all == sidebar::ints(idxs@),
                forall|j: int| 0 <= j < idxs@.len() ==> #[trigger] idxs@[j] < self.hosts@.len(),
                self.deep_view() == first.start_security_each(all.take(i as int)),
                self.deep_view().valid(),
            decreases n - i,
        {
            proof {
                assert(all.take(i + 1).drop_last() =~= all.take(i as int));
                assert(all.take(i + 1).last() == idxs@[i as int]);
            }
            self.start_security_upgrade(idxs[i]);
            i += 1;
        }
        assert(all.take(n as int) =~= all);
    }

    fn hosts_in_scope(&self, scope: Scope) -> (r: Vec<usize>)
        requires
            self.deep_view().valid(),
        ensures
            sidebar::ints(r@) == self.deep_view().in_scope(scope),
            forall|i: int| 0 <= i < r@.len() ==> #[trigger] r@[i] < self.hosts@.len(),
    {
        match scope {
            Scope::Selected => self.selected_host_indices(),
            Scope::All => {
                let n: usize = self.hosts.len();
                let mut r: Vec<usize> = Vec::new();
                let mut i: usize = 0;
                while i < n
                    invariant
                        i <= n,
                        r@.len() == i,
                        forall|j: int| 0 <= j < i ==> #[trigger] r@[j] == j,
                    decreases n - i,
                {
                    r.push(i);
                    i += 1;
                }
                assert(sidebar::ints(r@) =~= sidebar::range(n as nat));
                r
            },
        }
    }

    // ── Conffile review ──────────────────────────────────────────────────────

    /// Open the pending-conffile review modal for one host. Does nothing when
    /// the host has no pending files (or hasn't been gathered yet).
    pub fn open_conffile_review(&mut self, host_idx: usize)
        requires
            old(self).deep_view().valid(),
            host_idx < old(self).hosts@.len(),
        ensures
            final(self).deep_view() == old(self).deep_view().with_review(host_idx as int),
            final(self).deep_view().valid(),
    {
        assert(self.deep_view().hosts[host_idx as int]
            == self.hosts@[host_idx as int].deep_view());
        let files = match &self.hosts[host_idx].info {
            Some(info) => {
                let files = info.pending_conffiles.clone();
                assert(files.deep_view() =~= info.pending_conffiles.deep_view());
                files
            },
            None => {
                return;
            },
        };
        assert(files.deep_view().len() == files@.len());
        if files.len() == 0 {
            return;
        }
        self.conffile_review = Some(ConffileReviewState::open(host_idx, files));
        self.request_selected_diff();
    }

    /// Fetch the diff for the modal's current selection, unless it is already
    /// loading or loaded.
    fn request_selected_diff(&mut self)
        requires
            old(self).deep_view().valid(),
        ensures
            final(self).deep_view() == old(self).deep_view().with_diff_requested(),
            final(self).deep_view().valid(),
    {
        let ghost before = self.deep_view();
        let (host_idx, file) = match &self.conffile_review {
            Some(state) => match state.selected_file() {
                Some(file) => {
                    if !state.lacks_diff(file.pending_path.as_str()) {
                        return;
                    }
                    (state.host_idx, file.clone())
                },
                None => {
                    return;
                },
            },
            None => {
                return;
            },
        };
        assert(before.hosts[host_idx as int] == self.hosts@[host_idx as int].deep_view());
        let command = diff_command(
            file.live_path.as_str(),
            file.pending_path.as_str(),
            self.hosts[host_idx].cfg.use_sudo,
        );
        if let Some(state) = self.conffile_review.as_mut() {
            let ghost diffs = state.diffs.deep_view();
            state.diffs.insert(file.pending_path.clone(), DiffState::Loading);
            assert(state.diffs.deep_view() =~= diffs.insert(
                file.pending_path@,
                DiffView::Loading,
            ));
        }
        let pending_path = file.pending_path;
        self.push_effect(Effect::FetchDiff { host_idx, pending_path, command });
    }

    /// Execute every marked decision as one task. The mutations run through
    /// the normal task machinery so their output lands in the task pane and
    /// the follow-up gather refreshes the pending count; the modal closes
    /// because only one task per host can run at a time.
    fn execute_conffile_decisions(&mut self)
        requires
            old(self).deep_view().valid(),
        ensures
            final(self).deep_view() == old(self).deep_view().executed(),
            final(self).deep_view().valid(),
    {
        let ghost before = self.deep_view();
        let (host_idx, decisions) = match &self.conffile_review {
            Some(state) => (state.host_idx, state.marked_decisions()),
            None => {
                return;
            },
        };
        assert(decisions.deep_view().len() == decisions@.len());
        if decisions.len() == 0 {
            return;
        }
        assert(before.hosts[host_idx as int] == self.hosts@[host_idx as int].deep_view());
        if self.hosts[host_idx].is_running() {
            if let Some(state) = self.conffile_review.as_mut() {
                state.confirm_execute = false;
                state.notice = Some("a task is already running on this host".to_string());
            }
            return;
        }
        self.conffile_review = None;
        self.start_task(host_idx, TaskKind::ResolveConffiles(decisions));
    }

    // ── Messages ─────────────────────────────────────────────────────────────

    /// Takes in a message from background work.
    pub fn handle_message(&mut self, msg: AppMessage)
        requires
            old(self).deep_view().valid(),
            msg.deep_view() is ConffileDiff || msg.deep_view().host()
                < old(self).deep_view().hosts.len(),
        ensures
            exists|now: u64|
                final(self).deep_view() == #[trigger] old(self).deep_view().after_message(
                    msg.deep_view(),
                    now,
                ),
            final(self).deep_view().valid(),
    {
        self.handle_message_at(msg, cache::now_unix());
    }

    /// Takes in a message that came at the time `now`.
    pub fn handle_message_at(&mut self, msg: AppMessage, now: u64)
        requires
            old(self).deep_view().valid(),
            msg.deep_view() is ConffileDiff || msg.deep_view().host()
                < old(self).deep_view().hosts.len(),
        ensures
            final(self).deep_view() == old(self).deep_view().after_message(msg.deep_view(), now),
            final(self).deep_view().valid(),
    {
        match msg {
            AppMessage::GatherDone { host_idx, result } => match result {
                Ok(info) => self.gather_succeeded(host_idx, info, now),
                Err(e) => self.set_status(host_idx, HostStatus::Error(e)),
            },
            AppMessage::TaskLine { host_idx, line } => {
                let ghost before = self.deep_view();
                let ghost lv = line@;
                assert(before.hosts[host_idx as int]
                    == self.hosts@[host_idx as int].deep_view());
                let host: &mut HostState = &mut self.hosts[host_idx];
                if let Some(task) = host.task.as_mut() {
                    task.push_line(line);
                }
                assert(self.deep_view() =~= before.after_message(
                    MessageView::TaskLine { host_idx: host_idx as int, line: lv },
                    now,
                ));
            },
            AppMessage::TaskDone { host_idx, exit_code } => {
                self.task_ended(host_idx, TaskStatus::Done(exit_code));
                // Re-gather host info after task completes
                self.set_status(host_idx, HostStatus::Gathering);
                self.start_refresh(host_idx);
            },
            AppMessage::TaskFailed { host_idx, error } => {
                self.task_ended(host_idx, TaskStatus::Failed(error));
            },
            AppMessage::ConffileDiff { host_idx, pending_path, result } => {
                self.diff_arrived(host_idx, pending_path, result);
            },
        }
    }

    fn gather_succeeded(&mut self, host_idx: usize, info: HostInfo, now: u64)
        requires
            old(self).deep_view().valid(),
            host_idx < old(self).hosts@.len(),
        ensures
            final(self).deep_view() == old(self).deep_view().after_message(
                MessageView::GatherDone { host_idx: host_idx as int, result: Ok(info.deep_view()) },
                now,
            ),
            final(self).deep_view().valid(),
    {
        let ghost before = self.deep_view();
        let ghost iv = info.deep_view();
        assert(before.hosts[host_idx as int] == self.hosts@[host_idx as int].deep_view());
        let key = cache::host_key(&self.hosts[host_idx].cfg);
        let entry = CacheEntry { info: info.clone(), fetched_at_unix: now };
        let ghost kv = key@;
        let ghost ev = entry.deep_view();
        self.cache.insert(key, entry);
        assert(self.cache.deep_view() =~= before.cache.insert(kv, ev));
        self.push_effect(Effect::SaveCache);
        let host: &mut HostState = &mut self.hosts[host_idx];
        host.info = Some(info);
        host.status = HostStatus::Ready;
        host.is_stale = false;
        assert(self.deep_view() =~= before.after_message(
            MessageView::GatherDone { host_idx: host_idx as int, result: Ok(iv) },
            now,
        ));
    }

    fn set_status(&mut self, host_idx: usize, status: HostStatus)
        requires
            host_idx < old(self).hosts@.len(),
        ensures
            final(self).deep_view() == old(self).deep_view().with_host(
                host_idx as int,
                (HostView {
                    status: status.deep_view(),
                    ..old(self).deep_view().hosts[host_idx as int]
                }),
            ),
            final(self).hosts@.len() == old(self).hosts@.len(),
            old(self).deep_view().valid() ==> final(self).deep_view().valid(),
    {
        let ghost before = self.deep_view();
        let ghost sv = status.deep_view();
        assert(before.hosts[host_idx as int] == self.hosts@[host_idx as int].deep_view());
        self.hosts[host_idx].status = status;
        assert(self.deep_view() =~= before.with_host(
            host_idx as int,
            HostView { status: sv, ..before.hosts[host_idx as int] },
        ));
    }

    fn task_ended(&mut self, host_idx: usize, status: TaskStatus)
        requires
            host_idx < old(self).hosts@.len(),
        ensures
            final(self).deep_view() == old(self).deep_view().with_task_ended(
                host_idx as int,
                status.deep_view(),
            ),
            final(self).hosts@.len() == old(self).hosts@.len(),
            old(self).deep_view().valid() ==> final(self).deep_view().valid(),
    {
        let ghost before = self.deep_view();
        let ghost sv = status.deep_view();
        assert(before.hosts[host_idx as int] == self.hosts@[host_idx as int].deep_view());
        let host: &mut HostState = &mut self.hosts[host_idx];
        if let Some(task) = host.task.as_mut() {
            task.status = status;
            task.auto_scroll = true;
        }
        assert(self.deep_view() =~= before.with_task_ended(host_idx as int, sv));
    }

    /// Drops diffs that arrive after the modal closed or moved host.
    fn diff_arrived(
        &mut self,
        host_idx: usize,
        pending_path: String,
        result: Result<Vec<String>, String>,
    )
        requires
            old(self).deep_view().valid(),
        ensures
            final(self).deep_view() == old(self).deep_view().after_message(
                (AppMessage::ConffileDiff { host_idx, pending_path, result }).deep_view(),
                0,
            ),
            final(self).deep_view().valid(),
    {
        if let Some(state) = self.conffile_review.as_mut() {
            if state.host_idx == host_idx {
                let entry = match result {
                    Ok(lines) => DiffState::Loaded(lines),
                    Err(e) => DiffState::Failed(e),
                };
                let ghost diffs = state.diffs.deep_view();
                let ghost pv = pending_path@;
                let ghost ev = entry.deep_view();
                state.diffs.insert(pending_path, entry);
                assert(state.diffs.deep_view() =~= diffs.insert(pv, ev));
            }
        }
    }

    // ── Keys ─────────────────────────────────────────────────────────────────

    /// Handle a key press. Returns `true` to keep the app running, or `false`
    /// to quit.
    pub fn handle_key(&mut self, code: KeyCode, modifiers: KeyModifiers) -> (r: bool)
        requires
            old(self).deep_view().valid(),
        ensures
            (final(self).deep_view(), r) == old(self).deep_view().after_key(code, modifiers),
            final(self).deep_view().valid(),
    {
        // Quit confirmation modal (highest priority)
        if self.quit_confirm {
            return self.handle_key_quit_confirm(code, modifiers);
        }
        if self.reboot_confirm.is_some() {
            return self.handle_key_reboot_confirm(code, modifiers);
        }
        if self.conffile_review.is_some() {
            return self.handle_key_conffile_review(code, modifiers);
        }
        if self.filter_editing {
            return self.handle_key_filter_edit(code, modifiers);
        }
        if let Some(host_idx) = self.viewing_task {
            return self.handle_key_task_view(host_idx, code);
        }
        match keys::bound_to(code, modifiers) {
            Some(command) => self.perform(command),
            None => true,
        }
    }

    /// Carries out a command of the main screen.
    fn perform(&mut self, command: Command) -> (r: bool)
        requires
            old(self).deep_view().valid(),
        ensures
            (final(self).deep_view(), r) == old(self).deep_view().performed(command),
            final(self).deep_view().valid(),
    {
        match command {
            Command::Up => {
                self.move_selection(-1);
            },
            Command::Down => {
                self.move_selection(1);
            },
            Command::Search => {
                self.filter_editing = true;
            },
            Command::SecurityUpgrade(scope) => {
                let idxs = self.hosts_in_scope(scope);
                self.start_security_upgrades(&idxs);
            },
            Command::Update(scope) => {
                let idxs = self.hosts_in_scope(scope);
                self.start_tasks(&idxs, TaskKind::Update);
            },
            Command::Upgrade(scope) => {
                let idxs = self.hosts_in_scope(scope);
                self.start_tasks(&idxs, TaskKind::Upgrade);
            },
            Command::FullUpgrade(scope) => {
                let idxs = self.hosts_in_scope(scope);
                self.start_tasks(&idxs, TaskKind::FullUpgrade);
            },
            Command::AutoRemove(scope) => {
                let idxs = self.hosts_in_scope(scope);
                self.start_tasks(&idxs, TaskKind::AutoRemove);
            },
            Command::PurgeRc => {
                let idxs = self.selected_host_indices();
                self.start_tasks(&idxs, TaskKind::PurgeRc);
            },
            // Reboot — opens confirmation modal for single-host selection
            Command::Reboot => {
                let idxs = self.selected_host_indices();
                if idxs.len() == 1 {
                    assert(sidebar::ints(idxs@)[0] == idxs@[0]);
                    self.reboot_confirm = Some(
                        RebootConfirmState {
                            host_idx: idxs[0],
                            input: String::new(),
                            mismatch: false,
                        },
                    );
                    assert(self.reboot_confirm->0.input@ =~= seq![]);
                }
            },
            // Review pending config files — single-host selection only, since
            // each file is resolved individually against its own diff.
            Command::ReviewConffiles => {
                let idxs = self.selected_host_indices();
                if idxs.len() == 1 {
                    assert(sidebar::ints(idxs@)[0] == idxs@[0]);
                    self.open_conffile_review(idxs[0]);
                }
            },
            Command::ViewTask => {
                let idxs = self.selected_host_indices();
                if let Some(i) = self.find_task(&idxs) {
                    self.viewing_task = Some(i);
                }
            },
            // Zoom detail panel (hide sidebar for clean text selection)
            Command::Zoom => {
                self.detail_zoom = !self.detail_zoom;
            },
            // Quit — if a task is running, confirm first since quitting drops the
            // SSH connection(s) and may interrupt the remote operation.
            Command::Quit => {
                if self.active_operation_count() > 0 {
                    self.quit_confirm = true;
                } else {
                    return false;
                }
            },
        }
        true
    }

    /// Finds a host with an active or completed task.
    fn find_task(&self, idxs: &Vec<usize>) -> (r: Option<usize>)
        requires
            forall|i: int| 0 <= i < idxs@.len() ==> #[trigger] idxs@[i] < self.hosts@.len(),
        ensures
            match r {
                Some(i) => i < self.hosts@.len() && model::first_with_task(
                    self.deep_view().hosts,
                    sidebar::ints(idxs@),
                ) == Some(i as int),
                None => model::first_with_task(
                    self.deep_view().hosts,
                    sidebar::ints(idxs@),
                ) is None,
            },
    {
        let ghost hosts = self.deep_view().hosts;
        let ghost all = sidebar::ints(idxs@);
        let n: usize = idxs.len();
        let mut i: usize = 0;
        assert(all.skip(0) =~= all);
        while i < n
            invariant
                n == idxs@.len(),
                i <= n,
                hosts == self.deep_view().hosts,
                all == sidebar::ints(idxs@),
                forall|j: int| 0 <= j < idxs@.len() ==> #[trigger] idxs@[j] < self.hosts@.len(),
                model::first_with_task(hosts, all) == model::first_with_task(
                    hosts,
                    all.skip(i as int),
                ),
            decreases n - i,
        {
            let idx: usize = idxs[i];
            assert(all.skip(i as int)[0] == idx);
            assert(hosts[idx as int] == self.hosts@[idx as int].deep_view());
            assert(all.skip(i as int).skip(1) =~= all.skip(i + 1));
            if self.hosts[idx].task.is_some() {
                return Some(idx);
            }
            i += 1;
        }
        None
    }

    /// Handles a key press while the quit-confirmation modal is open.
    /// 'y'/'Y' and Ctrl-C confirm quitting; any other key dismisses the modal.
    fn handle_key_quit_confirm(&mut self, code: KeyCode, modifiers: KeyModifiers) -> (r: bool)
        ensures
            (final(self).deep_view(), r) == old(self).deep_view().quit_key(code, modifiers),
            old(self).deep_view().valid() ==> final(self).deep_view().valid(),
    {
        match code {
            KeyCode::Char('y') | KeyCode::Char('Y') => {
                return false;
            },
            KeyCode::Char('c') if modifiers.control => {
                return false;
            },
            _ => {
                self.quit_confirm = false;
            },
        }
        true
    }

    fn handle_key_reboot_confirm(&mut self, code: KeyCode, modifiers: KeyModifiers) -> (r: bool)
        requires
            old(self).deep_view().valid(),
            old(self).reboot_confirm is Some,
        ensures
            (final(self).deep_view(), r) == (
                old(self).deep_view().reboot_key(
                    old(self).deep_view().reboot->0,
                    code,
                    modifiers,
                ),
                true,
            ),
            final(self).deep_view().valid(),
    {
        match code {
            KeyCode::Esc => {
                self.reboot_confirm = None;
            },
            KeyCode::Char('c') if modifiers.is_control() => {
                self.reboot_confirm = None;
            },
            KeyCode::Backspace => {
                if let Some(state) = self.reboot_confirm.as_mut() {
                    let _ = state.input.pop();
                    state.mismatch = false;
                }
            },
            KeyCode::Enter => {
                let ghost before = self.deep_view();
                let (host_idx, matches) = match &self.reboot_confirm {
                    Some(state) => {
                        assert(before.hosts[state.host_idx as int]
                            == self.hosts@[state.host_idx as int].deep_view());
                        let expected = &self.hosts[state.host_idx].cfg.hostname;
                        (
                            state.host_idx,
                            text::same_text(state.input.as_str(), expected.as_str()),
                        )
                    },
                    None => {
                        return true;
                    },
                };
                if matches {
                    self.reboot_confirm = None;
                    self.start_task(host_idx, TaskKind::Reboot);
                } else if let Some(state) = self.reboot_confirm.as_mut() {
                    state.mismatch = true;
                }
            },
            // Accept printable characters (but not control/alt combinations).
            KeyCode::Char(c) => {
                if modifiers.types_text() {
                    if let Some(state) = self.reboot_confirm.as_mut() {
                        state.input.push(c);
                        state.mismatch = false;
                    }
                }
            },
            _ => {},
        }
        true
    }

    /// Handles a key press while the pending-conffile review modal is open.
    /// `d`/`a` only mark files; nothing touches the host until Enter, and
    /// executing the batch takes a second keypress to confirm.
    pub fn handle_key_conffile_review(
        &mut self,
        code: KeyCode,
        modifiers: KeyModifiers,
    ) -> (r: bool)
        requires
            old(self).deep_view().valid(),
        ensures
            r,
            final(self).deep_view() == match old(self).deep_view().review {
                Some(s) => old(self).deep_view().review_key(s, code, modifiers),
                None => old(self).deep_view(),
            },
            final(self).deep_view().valid(),
    {
        // While the execute confirmation is pending, no other binding is
        // reachable.
        let confirming: bool = match &self.conffile_review {
            Some(state) => state.confirm_execute,
            None => false,
        };
        if confirming {
            match code {
                KeyCode::Char('y') | KeyCode::Char('Y') => {
                    self.execute_conffile_decisions();
                },
                _ => {
                    if let Some(state) = self.conffile_review.as_mut() {
                        state.confirm_execute = false;
                    }
                },
            }
            return true;
        }
        let command = match keys::bound_in_review(code, modifiers) {
            Some(command) => command,
            None => {
                return true;
            },
        };
        if let ReviewCommand::Close = command {
            self.conffile_review = None;
            return true;
        }
        let mut selection_moved: bool = false;
        if let Some(state) = self.conffile_review.as_mut() {
            selection_moved = state.react(command);
        }
        if selection_moved {
            self.request_selected_diff();
        }
        true
    }

    /// Handles a key press while sidebar search/filter editing is active.
    /// Printable characters are appended to the filter; arrow keys navigate
    /// the (already filtered) sidebar without leaving edit mode.
    fn handle_key_filter_edit(&mut self, code: KeyCode, modifiers: KeyModifiers) -> (r: bool)
        requires
            old(self).deep_view().valid(),
        ensures
            (final(self).deep_view(), r) == old(self).deep_view().filter_key(code, modifiers),
            final(self).deep_view().valid(),
    {
        match code {
            KeyCode::Esc | KeyCode::Enter => {
                self.filter_editing = false;
            },
            KeyCode::Backspace => {
                let _ = self.filter.pop();
                self.ensure_selection_visible();
            },
            KeyCode::Up => self.move_selection(-1),
            KeyCode::Down => self.move_selection(1),
            KeyCode::Char('c') if modifiers.control => {
                return false;
            },
            KeyCode::Char(c) => {
                if modifiers.types_text() {
                    self.filter.push(c);
                    self.ensure_selection_visible();
                }
            },
            _ => {},
        }
        true
    }

    fn handle_key_task_view(&mut self, host_idx: usize, code: KeyCode) -> (r: bool)
        requires
            old(self).deep_view().valid(),
            host_idx < old(self).hosts@.len(),
        ensures
            (final(self).deep_view(), r) == (
                old(self).deep_view().task_key(host_idx as int, code),
                true,
            ),
            final(self).deep_view().valid(),
    {
        let ghost before = self.deep_view();
        assert(before.hosts[host_idx as int] == self.hosts@[host_idx as int].deep_view());
        match code {
            KeyCode::Esc | KeyCode::Char('q') => {
                self.viewing_task = None;
                return true;
            },
            _ => {},
        }
        let host: &mut HostState = &mut self.hosts[host_idx];
        if let Some(task) = host.task.as_mut() {
            task.scroll(code);
        }
        assert(self.deep_view() =~= before.task_key(host_idx as int, code));
        true
    }

    // ── Mouse ────────────────────────────────────────────────────────────────

    /// Handle a mouse event in column `col` of a terminal of the given width
    /// (`None` where it has none).
    pub fn handle_mouse(&mut self, kind: MouseEventKind, col: u16, terminal: Option<u16>)
        requires
            old(self).deep_view().sets_width(kind) ==> model::wide_enough(terminal),
        ensures
            final(self).deep_view() == old(self).deep_view().after_mouse(kind, col, terminal),
            old(self).deep_view().valid() ==> final(self).deep_view().valid(),
    {
        // Block mouse interaction while the confirmation modal is visible.
        if self.reboot_confirm.is_some() {
            return;
        }
        match kind {
            MouseEventKind::Down(MouseButton::Left) => {
                if !self.detail_zoom && col == self.sidebar_width.saturating_sub(1) {
                    self.dragging_sidebar = true;
                }
            },
            MouseEventKind::Drag(MouseButton::Left) => {
                if self.dragging_sidebar {
                    self.sidebar_width = clamp(
                        col as u32 + 1,
                        SIDEBAR_MIN_WIDTH,
                        max_width(terminal),
                    );
                }
            },
            MouseEventKind::Up(MouseButton::Left) => {
                self.dragging_sidebar = false;
            },
            _ => {},
        }
    }

    // ── The event loop ───────────────────────────────────────────────────────

    /// Kick off the initial gather for all hosts.
    pub fn start(&mut self)
        requires
            old(self).deep_view().valid(),
        ensures
            final(self).deep_view() == old(self).deep_view().connecting(old(self).hosts@.len()),
            final(self).deep_view().valid(),
    {
        let ghost first = self.deep_view();
        let n: usize = self.hosts.len();
        let mut idx: usize = 0;
        while idx < n
            invariant
                n == self.hosts@.len(),
                idx <= n,
                self.deep_view() == first.connecting(idx as nat),
                self.deep_view().valid(),
            decreases n - idx,
        {
            self.set_status(idx, HostStatus::Connecting);
            self.start_refresh(idx);
            idx += 1;
        }
    }

    /// Whether the event is one that can come: a message is about a host that
    /// exists, and the divider is dragged on a terminal that is wide enough.
    pub fn accepts(&self, event: &AppEvent) -> (r: bool)
        ensures
            r == self.deep_view().accepts(event.deep_view()),
    {
        let n: usize = self.hosts.len();
        match event {
            AppEvent::Message(msg) => match msg {
                AppMessage::GatherDone { host_idx, .. } => *host_idx < n,
                AppMessage::TaskLine { host_idx, .. } => *host_idx < n,
                AppMessage::TaskDone { host_idx, .. } => *host_idx < n,
                AppMessage::TaskFailed { host_idx, .. } => *host_idx < n,
                AppMessage::ConffileDiff { .. } => true,
            },
            AppEvent::Mouse { kind, terminal, .. } => {
                let sets_width: bool = self.reboot_confirm.is_none() && self.dragging_sidebar
                    && *kind == MouseEventKind::Drag(MouseButton::Left);
                !sets_width || is_wide_enough(*terminal)
            },
            _ => true,
        }
    }

    /// Takes in an event. Returns whether the app goes on.
    pub fn handle_event(&mut self, event: AppEvent) -> (r: bool)
        requires
            old(self).deep_view().valid(),
            old(self).deep_view().accepts(event.deep_view()),
        ensures
            exists|now: u64|
                (final(self).deep_view(), r) == #[trigger] old(self).deep_view().after_event(
                    event.deep_view(),
                    now,
                ),
            final(self).deep_view().valid(),
    {
        let now: u64 = cache::now_unix();
        self.handle_event_at(event, now)
    }

    /// Takes in an event that came at the time `now`.
    pub fn handle_event_at(&mut self, event: AppEvent, now: u64) -> (r: bool)
        requires
            old(self).deep_view().valid(),
            old(self).deep_view().accepts(event.deep_view()),
        ensures
            (final(self).deep_view(), r) == old(self).deep_view().after_event(
                event.deep_view(),
                now,
            ),
            final(self).deep_view().valid(),
    {
        match event {
            AppEvent::Tick => {
                self.tick = self.tick.wrapping_add(1);
                true
            },
            AppEvent::Message(msg) => {
                self.handle_message_at(msg, now);
                true
            },
            AppEvent::Key { code, modifiers, pressed } => {
                if pressed {
                    self.handle_key(code, modifiers)
                } else {
                    true
                }
            },
            AppEvent::Mouse { kind, col, terminal } => {
                self.handle_mouse(kind, col, terminal);
                true
            },
            AppEvent::Other => true,
        }
    }
}

} // verus!
