//! What holds of the dashboard whatever happens: facts about every state and
//! every event, proved of the state machine in `model`.

use vstd::prelude::*;

use crate::apt::HostInfoView;
use crate::cache;
use crate::cache::CacheEntryView;
use crate::config;
use crate::config::{RawConfigView, SidebarRowView};
use crate::keys;
use crate::keys::{Command, KeyCode, KeyModifiers, MouseEventKind, ReviewCommand, Scope};
use crate::model;
use crate::model::AppView;
use crate::review;
use crate::review::{DiffView, ReviewView};
use crate::sidebar;
use crate::state::{EffectView, EventView, HostStatusView, HostView, MessageView};
use crate::task;
use crate::task::{TaskKindView, TaskStatusView, TaskView};
use crate::text;

verus! {

// ── Starting tasks ───────────────────────────────────────────────────────────

/// All of the hosts exist.
pub open spec fn in_range(idxs: Seq<int>, n: nat) -> bool {
    forall|k: int| 0 <= k < idxs.len() ==> 0 <= #[trigger] idxs[k] < n
}

/// Starting tasks changes nothing but hosts' tasks and the work asked for.
pub open spec fn only_tasks_differ(a: AppView, b: AppView) -> bool {
    &&& b.hosts.len() == a.hosts.len()
    &&& b == AppView { hosts: b.hosts, effects: b.effects, ..a }
    &&& forall|i: int|
        0 <= i < a.hosts.len() ==> #[trigger] b.hosts[i] == (HostView {
            task: b.hosts[i].task,
            ..a.hosts[i]
        })
}

/// A task that is running is left alone: nothing is started beside it, and
/// nothing takes its place.
pub proof fn running_tasks_are_left_alone(
    app: AppView,
    idxs: Seq<int>,
    kind: TaskKindView,
    i: int,
)
    requires
        in_range(idxs, app.hosts.len()),
        0 <= i < app.hosts.len(),
        app.hosts[i].running(),
    ensures
        app.start(i, kind) == app,
        app.start_each(idxs, kind).hosts[i] == app.hosts[i],
        app.start_security_each(idxs).hosts[i] == app.hosts[i],
    decreases idxs.len(),
{
    if idxs.len() > 0 {
        let rest = idxs.drop_last();
        assert(forall|k: int| 0 <= k < rest.len() ==> rest[k] == idxs[k]);
        running_tasks_are_left_alone(app, rest, kind, i);
        lemma_start_each(app, rest, kind);
        lemma_start_security_each(app, rest);
        assert(0 <= idxs[idxs.len() - 1] < app.hosts.len());
    }
}

pub proof fn lemma_start_each(app: AppView, idxs: Seq<int>, kind: TaskKindView)
    requires
        in_range(idxs, app.hosts.len()),
    ensures
        only_tasks_differ(app, app.start_each(idxs, kind)),
        app.valid() ==> app.start_each(idxs, kind).valid(),
    decreases idxs.len(),
{
    if idxs.len() > 0 {
        let rest = idxs.drop_last();
        assert(forall|k: int| 0 <= k < rest.len() ==> rest[k] == idxs[k]);
        lemma_start_each(app, rest, kind);
        assert(0 <= idxs[idxs.len() - 1] < app.hosts.len());
    }
}

pub proof fn lemma_start_security_each(app: AppView, idxs: Seq<int>)
    requires
        in_range(idxs, app.hosts.len()),
    ensures
        only_tasks_differ(app, app.start_security_each(idxs)),
        app.valid() ==> app.start_security_each(idxs).valid(),
    decreases idxs.len(),
{
    if idxs.len() > 0 {
        let rest = idxs.drop_last();
        assert(forall|k: int| 0 <= k < rest.len() ==> rest[k] == idxs[k]);
        lemma_start_security_each(app, rest);
        assert(0 <= idxs[idxs.len() - 1] < app.hosts.len());
    }
}

/// A task is started on every host that was asked for and on no other: where
/// none was running, the host has the new task, and the command that is run
/// there is that of the task.
pub proof fn tasks_start_where_asked(app: AppView, idxs: Seq<int>, kind: TaskKindView, i: int)
    requires
        in_range(idxs, app.hosts.len()),
        0 <= i < app.hosts.len(),
        !app.hosts[i].running(),
    ensures
        idxs.contains(i) ==> app.start_each(idxs, kind).hosts[i].task == Some(task::started(kind))
            && app.start_each(idxs, kind).effects.contains(
            EffectView::RunTask {
                host_idx: i,
                command: task::command_of(kind, app.hosts[i].cfg.use_sudo),
            },
        ),
        !idxs.contains(i) ==> app.start_each(idxs, kind).hosts[i] == app.hosts[i],
    decreases idxs.len(),
{
    if idxs.len() > 0 {
        let rest = idxs.drop_last();
        let last = idxs.last();
        assert(forall|k: int| 0 <= k < rest.len() ==> rest[k] == idxs[k]);
        tasks_start_where_asked(app, rest, kind, i);
        lemma_start_each(app, rest, kind);
        assert(0 <= idxs[idxs.len() - 1] < app.hosts.len());
        let before = app.start_each(rest, kind);
        let after = app.start_each(idxs, kind);
        let effect = EffectView::RunTask {
            host_idx: i,
            command: task::command_of(kind, app.hosts[i].cfg.use_sudo),
        };
        if rest.contains(i) {
            let k = choose|k: int| 0 <= k < rest.len() && rest[k] == i;
            assert(idxs[k] == i);
            let e = choose|e: int| 0 <= e < before.effects.len() && before.effects[e] == effect;
            assert(after.effects[e] == effect);
        } else if last == i {
            assert(before.hosts[i] == app.hosts[i]);
            assert(after.effects.last() == effect);
        } else {
            assert(!idxs.contains(i)) by {
                if idxs.contains(i) {
                    let k = choose|k: int| 0 <= k < idxs.len() && idxs[k] == i;
                    assert(rest[k] == i);
                }
            }
        }
    }
}

// ── Validity ─────────────────────────────────────────────────────────────────

pub proof fn lemma_scope_in_range(app: AppView, scope: Scope)
    requires
        app.valid(),
    ensures
        in_range(app.in_scope(scope), app.hosts.len()),
{
    let row = app.selected_row;
    if 0 <= row < app.rows.len() && app.rows[row] is Group {
        sidebar::lemma_run_end(app.rows, app.hosts, row + 1);
        let end = sidebar::run_end(app.rows, app.hosts, row + 1);
        let idxs = app.selected_hosts();
        assert forall|k: int| 0 <= k < idxs.len() implies 0 <= #[trigger] idxs[k]
            < app.hosts.len() by {
            assert(sidebar::is_member(app.rows, app.hosts, row + 1 + k));
            assert(app.rows.subrange(row + 1, end)[k] == app.rows[row + 1 + k]);
        }
    }
}

proof fn lemma_first_with_task(hosts: Seq<HostView>, idxs: Seq<int>)
    requires
        in_range(idxs, hosts.len()),
    ensures
        model::first_with_task(hosts, idxs) matches Some(i) ==> 0 <= i < hosts.len(),
    decreases idxs.len(),
{
    if idxs.len() > 0 {
        let rest = idxs.skip(1);
        assert(forall|k: int| 0 <= k < rest.len() ==> rest[k] == idxs[k + 1]);
        lemma_first_with_task(hosts, rest);
    }
}

/// The hosts are the same, and so is how to reach them.
pub open spec fn same_configs(a: AppView, b: AppView) -> bool {
    &&& b.hosts.len() == a.hosts.len()
    &&& forall|i: int| 0 <= i < a.hosts.len() ==> (#[trigger] b.hosts[i]).cfg == a.hosts[i].cfg
}

proof fn lemma_performed(app: AppView, command: Command)
    requires
        app.valid(),
    ensures
        app.performed(command).0.valid(),
        app.performed(command).0.rows == app.rows,
        command is ReviewConffiles || app.performed(command).0.review == app.review,
        same_configs(app, app.performed(command).0),
{
    lemma_scope_in_range(app, Scope::Selected);
    lemma_scope_in_range(app, Scope::All);
    match command {
        Command::SecurityUpgrade(scope) => lemma_start_security_each(app, app.in_scope(scope)),
        Command::Update(scope) => lemma_start_each(
            app,
            app.in_scope(scope),
            TaskKindView::Update,
        ),
        Command::Upgrade(scope) => lemma_start_each(
            app,
            app.in_scope(scope),
            TaskKindView::Upgrade,
        ),
        Command::FullUpgrade(scope) => lemma_start_each(
            app,
            app.in_scope(scope),
            TaskKindView::FullUpgrade,
        ),
        Command::AutoRemove(scope) => lemma_start_each(
            app,
            app.in_scope(scope),
            TaskKindView::AutoRemove,
        ),
        Command::PurgeRc => lemma_start_each(app, app.selected_hosts(), TaskKindView::PurgeRc),
        Command::Reboot | Command::ReviewConffiles => {
            if app.selected_hosts().len() == 1 {
                assert(0 <= app.selected_hosts()[0] < app.hosts.len());
            }
        },
        Command::ViewTask => lemma_first_with_task(app.hosts, app.selected_hosts()),
        _ => {},
    }
}

/// Whatever happens, the state refers only to hosts that exist, no host is
/// added or lost, and how to reach them stays as it was configured.
pub proof fn events_keep_the_state_valid(app: AppView, event: EventView, now: u64)
    requires
        app.valid(),
        app.accepts(event),
    ensures
        app.after_event(event, now).0.valid(),
        app.after_event(event, now).0.rows == app.rows,
        same_configs(app, app.after_event(event, now).0),
{
    match event {
        EventView::Key { code, modifiers, pressed: true } => lemma_key_valid(app, code, modifiers),
        EventView::Message(msg) => lemma_message_valid(app, msg, now),
        _ => {},
    }
}

proof fn lemma_message_valid(app: AppView, msg: MessageView, now: u64)
    requires
        app.valid(),
        msg is ConffileDiff || 0 <= msg.host() < app.hosts.len(),
    ensures
        app.after_message(msg, now).valid(),
        app.after_message(msg, now).rows == app.rows,
        same_configs(app, app.after_message(msg, now)),
{
}

proof fn lemma_key_valid(app: AppView, code: KeyCode, modifiers: KeyModifiers)
    requires
        app.valid(),
    ensures
        app.after_key(code, modifiers).0.valid(),
        app.after_key(code, modifiers).0.rows == app.rows,
        same_configs(app, app.after_key(code, modifiers).0),
{
    if app.quit_confirm {
    } else if app.reboot is Some {
        lemma_reboot_valid(app, code, modifiers);
    } else if app.review is Some {
        lemma_review_valid(app, code, modifiers);
    } else if app.filter_editing {
    } else if app.viewing_task is Some {
        let i = app.viewing_task->0;
        assert(0 <= i < app.hosts.len());
        assert(same_configs(app, app.task_key(i, code)));
    } else {
        match keys::binding(code, modifiers) {
            Some(command) => lemma_performed(app, command),
            None => {},
        }
    }
}

proof fn lemma_reboot_valid(app: AppView, code: KeyCode, modifiers: KeyModifiers)
    requires
        app.valid(),
        app.reboot is Some,
    ensures
        app.reboot_key(app.reboot->0, code, modifiers).valid(),
        app.reboot_key(app.reboot->0, code, modifiers).rows == app.rows,
        same_configs(app, app.reboot_key(app.reboot->0, code, modifiers)),
{
}

proof fn lemma_review_valid(app: AppView, code: KeyCode, modifiers: KeyModifiers)
    requires
        app.valid(),
        app.review is Some,
    ensures
        app.review_key(app.review->0, code, modifiers).valid(),
        app.review_key(app.review->0, code, modifiers).rows == app.rows,
        same_configs(app, app.review_key(app.review->0, code, modifiers)),
{
}

// ── Confirmations ────────────────────────────────────────────────────────────

/// Whether there is SSH work in progress on any host.
pub open spec fn busy(app: AppView) -> bool {
    app.hosts.filter(model::works()).len() > 0
}

/// The main screen has the keyboard: no modal is open, nothing is searched for
/// and no task output is on the screen.
pub open spec fn on_main_screen(app: AppView) -> bool {
    &&& !app.quit_confirm
    &&& app.reboot is None
    &&& app.review is None
    &&& !app.filter_editing
    &&& app.viewing_task is None
}

/// The search has the keyboard.
pub open spec fn searching(app: AppView) -> bool {
    !app.quit_confirm && app.reboot is None && app.review is None && app.filter_editing
}

/// The dashboard quits in these cases and no others: on `y`, `Y` or Ctrl-C
/// where the confirmation is open, on Ctrl-C in the search, and on `q`, Esc or
/// Ctrl-C on the main screen where no work is in progress.
pub proof fn when_a_key_quits(app: AppView, code: KeyCode, modifiers: KeyModifiers)
    ensures
        !app.after_key(code, modifiers).1 <==> {
            ||| app.quit_confirm && (code == KeyCode::Char('y') || code == KeyCode::Char('Y') || (
            code == KeyCode::Char('c') && modifiers.control))
            ||| searching(app) && code == KeyCode::Char('c') && modifiers.control
            ||| on_main_screen(app) && !busy(app) && (code == KeyCode::Esc || code
                == KeyCode::Char('q') || (code == KeyCode::Char('c') && modifiers.just_control()))
        },
{
}

/// Work in progress is not interrupted by a single key, but for Ctrl-C in the
/// search: on the main screen a key that would quit asks first.
pub proof fn quitting_asks_first(app: AppView, code: KeyCode, modifiers: KeyModifiers)
    requires
        on_main_screen(app),
        busy(app),
        keys::binding(code, modifiers) == Some(Command::Quit),
    ensures
        app.after_key(code, modifiers) == (AppView { quit_confirm: true, ..app }, true),
{
}

/// A host gets a reboot task in one case only: the confirmation for it is open,
/// its name was typed exactly, and Enter is pressed.
pub proof fn a_reboot_needs_the_hostname(
    app: AppView,
    code: KeyCode,
    modifiers: KeyModifiers,
    i: int,
)
    requires
        app.valid(),
        0 <= i < app.hosts.len(),
        !is_reboot(app.hosts[i].task),
        is_reboot(app.after_key(code, modifiers).0.hosts[i].task),
    ensures
        !app.quit_confirm,
        app.reboot is Some,
        app.reboot->0.host_idx == i,
        app.reboot->0.input == app.hosts[i].cfg.hostname,
        code == KeyCode::Enter,
{
    if !app.quit_confirm && app.reboot is None && app.review is None && !app.filter_editing
        && app.viewing_task is None {
        match keys::binding(code, modifiers) {
            Some(command) => lemma_performed_starts_no_reboot(app, command, i),
            None => {},
        }
    }
}

pub open spec fn is_reboot(t: Option<TaskView>) -> bool {
    t is Some && t->0.kind is Reboot
}

proof fn lemma_kinds_started(app: AppView, idxs: Seq<int>, kind: TaskKindView, i: int)
    requires
        in_range(idxs, app.hosts.len()),
        0 <= i < app.hosts.len(),
    ensures
        ({
            let t = app.start_each(idxs, kind).hosts[i].task;
            t == app.hosts[i].task || t == Some(task::started(kind))
        }),
{
    if app.hosts[i].running() {
        running_tasks_are_left_alone(app, idxs, kind, i);
    } else {
        tasks_start_where_asked(app, idxs, kind, i);
    }
}

proof fn lemma_security_kinds_started(app: AppView, idxs: Seq<int>, i: int)
    requires
        in_range(idxs, app.hosts.len()),
        0 <= i < app.hosts.len(),
    ensures
        ({
            let t = app.start_security_each(idxs).hosts[i].task;
            t == app.hosts[i].task || (t is Some && t->0.kind is UpgradeSecurity)
        }),
    decreases idxs.len(),
{
    if idxs.len() > 0 {
        let rest = idxs.drop_last();
        assert(forall|k: int| 0 <= k < rest.len() ==> rest[k] == idxs[k]);
        lemma_security_kinds_started(app, rest, i);
        lemma_start_security_each(app, rest);
        assert(0 <= idxs[idxs.len() - 1] < app.hosts.len());
    }
}

proof fn lemma_performed_starts_no_reboot(app: AppView, command: Command, i: int)
    requires
        app.valid(),
        0 <= i < app.hosts.len(),
        !is_reboot(app.hosts[i].task),
    ensures
        !is_reboot(app.performed(command).0.hosts[i].task),
{
    lemma_scope_in_range(app, Scope::Selected);
    lemma_scope_in_range(app, Scope::All);
    match command {
        Command::SecurityUpgrade(scope) => lemma_security_kinds_started(
            app,
            app.in_scope(scope),
            i,
        ),
        Command::Update(scope) => lemma_kinds_started(
            app,
            app.in_scope(scope),
            TaskKindView::Update,
            i,
        ),
        Command::Upgrade(scope) => lemma_kinds_started(
            app,
            app.in_scope(scope),
            TaskKindView::Upgrade,
            i,
        ),
        Command::FullUpgrade(scope) => lemma_kinds_started(
            app,
            app.in_scope(scope),
            TaskKindView::FullUpgrade,
            i,
        ),
        Command::AutoRemove(scope) => lemma_kinds_started(
            app,
            app.in_scope(scope),
            TaskKindView::AutoRemove,
            i,
        ),
        Command::PurgeRc => lemma_kinds_started(
            app,
            app.selected_hosts(),
            TaskKindView::PurgeRc,
            i,
        ),
        _ => {},
    }
}

/// `y` or `Y`, where the review asks whether to execute the batch.
pub open spec fn confirms_batch(s: ReviewView, code: KeyCode) -> bool {
    s.confirm_execute && (code == KeyCode::Char('y') || code == KeyCode::Char('Y'))
}

/// The handler of keys in the conffile review touches no host, unless the key
/// confirms the batch: every host keeps its task, its status and what is known
/// of it, and what is asked for is at most a diff. Where the batch was up for
/// confirmation, any such key cancels that and does nothing else.
pub proof fn review_keys_touch_no_host(
    app: AppView,
    s: ReviewView,
    code: KeyCode,
    modifiers: KeyModifiers,
)
    requires
        app.review == Some(s),
        !confirms_batch(s, code),
    ensures
        app.review_key(s, code, modifiers).hosts == app.hosts,
        asks_at_most_a_diff(app, app.review_key(s, code, modifiers)),
        s.confirm_execute ==> app.review_key(s, code, modifiers) == (AppView {
            review: Some(ReviewView { confirm_execute: false, ..s }),
            ..app
        }),
{
    let e = app.review_key(s, code, modifiers).effects;
    if e.len() == app.effects.len() + 1 {
        assert(e.drop_last() =~= app.effects);
    }
}

/// The second state asks for nothing that the first does not, but for a diff.
pub open spec fn asks_at_most_a_diff(a: AppView, b: AppView) -> bool {
    ||| b.effects == a.effects
    ||| b.effects.len() == a.effects.len() + 1 && b.effects.drop_last() == a.effects
        && b.effects.last() is FetchDiff
}

/// In the conffile review nothing touches a host until the batch is confirmed:
/// no other key starts a task, and what it asks for is at most a diff.
pub proof fn reviewing_touches_no_host(app: AppView, code: KeyCode, modifiers: KeyModifiers)
    requires
        !app.quit_confirm,
        app.reboot is None,
        app.review is Some,
        !confirms_batch(app.review->0, code),
    ensures
        app.after_key(code, modifiers).1,
        app.after_key(code, modifiers).0.hosts == app.hosts,
        asks_at_most_a_diff(app, app.after_key(code, modifiers).0),
        app.review->0.confirm_execute ==> app.after_key(code, modifiers).0 == (AppView {
            review: Some(ReviewView { confirm_execute: false, ..app.review->0 }),
            ..app
        }),
{
    review_keys_touch_no_host(app, app.review->0, code, modifiers);
}

/// A diff is asked for when the selection moves to a file that has none, or
/// whose diff failed, and not where one is loading or loaded.
pub proof fn a_failed_diff_is_fetched_again(
    app: AppView,
    s: ReviewView,
    command: ReviewCommand,
)
    requires
        app.review == Some(s),
        s.valid(),
        s.moves(command),
    ensures
        ({
            let moved = s.after(command);
            let path = moved.file()->0.pending_path;
            let after = (AppView { review: Some(moved), ..app }).with_diff_requested();
            &&& after.review is Some
            &&& if s.diffs.contains_key(path) && !(s.diffs[path] is Failed) {
                &&& after.effects == app.effects
                &&& after.review->0 == moved
            } else {
                &&& after.review->0.diffs == s.diffs.insert(path, DiffView::Loading)
                &&& after.effects.len() == app.effects.len() + 1
                &&& after.effects.last() is FetchDiff
                &&& after.effects.last()->FetchDiff_pending_path == path
                &&& after.effects.last()->FetchDiff_host_idx == s.host_idx
            }
        }),
{
    review::commands_keep_the_review_valid(s, command);
}

/// A confirmed batch is started as one task with exactly the marked decisions,
/// and the review closes; unless a task is running there, which is said and
/// leaves the marks as they are.
pub proof fn a_confirmed_batch_is_one_task(app: AppView, modifiers: KeyModifiers)
    requires
        app.valid(),
        !app.quit_confirm,
        app.reboot is None,
        app.review is Some,
        app.review->0.confirm_execute,
        app.review->0.marked().len() > 0,
    ensures
        ({
            let s = app.review->0;
            let after = app.after_key(KeyCode::Char('y'), modifiers).0;
            let kind = TaskKindView::ResolveConffiles(s.marked());
            if app.hosts[s.host_idx].running() {
                &&& after.hosts == app.hosts
                &&& after.effects == app.effects
                &&& after.review is Some
                &&& after.review->0.decisions == s.decisions
            } else {
                &&& after.review is None
                &&& after.hosts[s.host_idx].task == Some(task::started(kind))
                &&& after.effects == app.effects.push(
                    EffectView::RunTask {
                        host_idx: s.host_idx,
                        command: task::command_of(kind, app.hosts[s.host_idx].cfg.use_sudo),
                    },
                )
            }
        }),
{
}

/// The review always has a mark for each file and a file selected, from the
/// moment it opens.
pub proof fn the_review_stays_valid(app: AppView, event: EventView, now: u64)
    requires
        app.valid(),
        app.review is Some ==> app.review->0.valid(),
    ensures
        ({
            let after = app.after_event(event, now).0;
            after.review is Some ==> after.review->0.valid()
        }),
{
    match event {
        EventView::Key { code, modifiers, pressed: true } => {
            if app.review is Some {
                match keys::review_binding(code, modifiers) {
                    Some(command) => review::commands_keep_the_review_valid(
                        app.review->0,
                        command,
                    ),
                    None => {},
                }
            } else if on_main_screen(app) {
                match keys::binding(code, modifiers) {
                    Some(command) => lemma_performed(app, command),
                    None => {},
                }
            }
        },
        _ => {},
    }
}

// ── Messages ─────────────────────────────────────────────────────────────────

/// A successful gather is shown as fresh, and is what the next start shows of
/// the host until it answers again: the cache gives back what was put in.
pub proof fn a_gather_is_shown_and_remembered(
    app: AppView,
    i: int,
    info: HostInfoView,
    now: u64,
)
    requires
        0 <= i < app.hosts.len(),
    ensures
        ({
            let after = app.after_message(
                MessageView::GatherDone { host_idx: i, result: Ok(info) },
                now,
            );
            let again = model::cached_host(app.hosts[i].cfg, after.cache);
            &&& after.hosts[i].info == Some(info)
            &&& after.hosts[i].status is Ready
            &&& !after.hosts[i].is_stale
            &&& after.effects.last() is SaveCache
            &&& again.info == Some(info)
            &&& again.is_stale
            &&& again.status is Unknown
        }),
{
}

/// A failed gather leaves what was known of the host on the screen.
pub proof fn a_failed_gather_forgets_nothing(app: AppView, i: int, error: Seq<char>, now: u64)
    requires
        0 <= i < app.hosts.len(),
    ensures
        ({
            let after = app.after_message(
                MessageView::GatherDone { host_idx: i, result: Err(error) },
                now,
            );
            &&& after.hosts[i].info == app.hosts[i].info
            &&& after.hosts[i].is_stale == app.hosts[i].is_stale
            &&& after.hosts[i].status == HostStatusView::Error(error)
            &&& after.cache == app.cache
            &&& after.effects == app.effects
        }),
{
}

/// When a task is done the host is gathered again.
pub proof fn a_finished_task_refreshes_its_host(app: AppView, i: int, exit_code: i32, now: u64)
    requires
        0 <= i < app.hosts.len(),
        app.hosts[i].task is Some,
    ensures
        ({
            let after = app.after_message(
                MessageView::TaskDone { host_idx: i, exit_code },
                now,
            );
            &&& after.hosts[i].task->0.status == TaskStatusView::Done(exit_code)
            &&& after.hosts[i].task->0.output == app.hosts[i].task->0.output
            &&& after.hosts[i].status is Gathering
            &&& after.effects == app.effects.push(EffectView::Refresh { host_idx: i })
            &&& !after.hosts[i].running()
        }),
{
}

/// A diff that comes in after the review was closed, or moved on to another
/// host, changes nothing.
pub proof fn a_late_diff_is_dropped(
    app: AppView,
    i: int,
    path: Seq<char>,
    result: Result<Seq<Seq<char>>, Seq<char>>,
    now: u64,
)
    requires
        app.review is None || app.review->0.host_idx != i,
    ensures
        app.after_message(
            MessageView::ConffileDiff { host_idx: i, pending_path: path, result },
            now,
        ) == app,
{
}

/// A message about one host leaves every other host as it is.
pub proof fn messages_concern_one_host(app: AppView, msg: MessageView, now: u64, j: int)
    requires
        0 <= msg.host() < app.hosts.len(),
        0 <= j < app.hosts.len(),
        j != msg.host(),
    ensures
        app.after_message(msg, now).hosts[j] == app.hosts[j],
{
}

// ── Counting ─────────────────────────────────────────────────────────────────

/// A host with a running task counts as active.
pub proof fn running_tasks_count_as_work(hosts: Seq<HostView>)
    ensures
        hosts.filter(model::runs()).len() <= hosts.filter(model::works()).len() <= hosts.len(),
    decreases hosts.len(),
{
    reveal(Seq::filter);
    if hosts.len() > 0 {
        running_tasks_count_as_work(hosts.drop_last());
    }
}

// ── Mouse ────────────────────────────────────────────────────────────────────

/// The mouse does nothing but drag the divider, which stays within its bounds;
/// and it does nothing at all while a reboot is being confirmed.
pub proof fn the_mouse_only_drags(
    app: AppView,
    kind: MouseEventKind,
    col: u16,
    terminal: Option<u16>,
)
    requires
        app.sets_width(kind) ==> model::wide_enough(terminal),
    ensures
        ({
            let after = app.after_mouse(kind, col, terminal);
            &&& after == AppView {
                sidebar_width: after.sidebar_width,
                dragging_sidebar: after.dragging_sidebar,
                ..app
            }
            &&& after.sidebar_width != app.sidebar_width ==> app.dragging_sidebar
                && model::SIDEBAR_MIN_WIDTH <= after.sidebar_width <= model::max_width(terminal)
            &&& app.reboot is Some ==> after == app
        }),
{
}

// ── Start ────────────────────────────────────────────────────────────────────

/// At the start every host is gathered, once and in order.
pub proof fn every_host_is_gathered_at_the_start(app: AppView, n: nat)
    requires
        n <= app.hosts.len(),
    ensures
        ({
            let after = app.connecting(n);
            &&& after.hosts.len() == app.hosts.len()
            &&& after.effects == app.effects + Seq::new(
                n,
                |i: int| EffectView::Refresh { host_idx: i },
            )
            &&& forall|i: int|
                0 <= i < n ==> #[trigger] after.hosts[i] == (HostView {
                    status: HostStatusView::Connecting,
                    ..app.hosts[i]
                })
            &&& forall|i: int| n <= i < app.hosts.len() ==> #[trigger] after.hosts[i] == app.hosts[i]
        }),
    decreases n,
{
    if n > 0 {
        every_host_is_gathered_at_the_start(app, (n - 1) as nat);
    }
    assert(app.connecting(n).effects =~= app.effects + Seq::new(
        n,
        |i: int| EffectView::Refresh { host_idx: i },
    ));
}

// ── Sidebar ──────────────────────────────────────────────────────────────────

/// Moving the selection goes to a visible row, by as many visible rows as was
/// asked for or as there are; and changes nothing else.
pub proof fn moving_stays_on_visible_rows(app: AppView, delta: int)
    ensures
        app.moved(delta) == (AppView { selected_row: app.moved(delta).selected_row, ..app }),
        app.visible().len() > 0 ==> app.visible().contains(app.moved(delta).selected_row),
        app.visible().len() == 0 ==> app.moved(delta) == app,
        app.visible().contains(app.selected_row) ==> ({
            let at = app.visible().index_of(app.selected_row);
            &&& 0 <= at + delta < app.visible().len() ==> app.moved(delta).selected_row
                == app.visible()[at + delta]
            &&& at + delta < 0 ==> app.moved(delta).selected_row == app.visible().first()
            &&& at + delta >= app.visible().len() ==> app.moved(delta).selected_row
                == app.visible().last()
        }),
{
    let v = app.visible();
    v.index_of_first_ensures(app.selected_row);
    if v.len() > 0 {
        let k = model::clamped(app.position() + delta, 0, v.len() - 1);
        assert(v[k] == app.moved(delta).selected_row);
    }
    if v.contains(app.selected_row) {
        let at = v.index_of(app.selected_row);
        sidebar::rows_stay_in_order(app.rows, app.hosts, app.matched());
        assert(v[at] == app.selected_row);
        let first = app.position();
        assert(v[first] == app.selected_row);
        if first < at {
            assert(v[first] < v[at]);
        } else if at < first {
            assert(v[at] < v[first]);
        }
    }
}

/// While the filter is edited, the selection is on a visible row, unless there
/// is none.
pub proof fn editing_keeps_the_selection_visible(
    app: AppView,
    code: KeyCode,
    modifiers: KeyModifiers,
)
    requires
        searching(app),
        app.visible().len() == 0 || app.visible().contains(app.selected_row),
    ensures
        ({
            let after = app.after_key(code, modifiers).0;
            after.visible().len() == 0 || after.visible().contains(after.selected_row)
        }),
{
    moving_stays_on_visible_rows(app, -1);
    moving_stays_on_visible_rows(app, 1);
    let after = app.after_key(code, modifiers).0;
    assert(after.hosts == app.hosts && after.rows == app.rows);
    if code == KeyCode::Up || code == KeyCode::Down {
        assert(after.visible() == app.visible());
    } else if after.visible().len() > 0 {
        let v = after.visible();
        assert(v[0] == v.first());
        assert(v.contains(v[0]));
    }
}

/// Leaving the search keeps the filter.
pub proof fn the_filter_outlasts_the_search(app: AppView, modifiers: KeyModifiers)
    requires
        searching(app),
    ensures
        app.after_key(KeyCode::Esc, modifiers) == (AppView { filter_editing: false, ..app }, true),
        app.after_key(KeyCode::Enter, modifiers) == (
            AppView { filter_editing: false, ..app },
            true,
        ),
{
}

/// Selecting a group's row selects the hosts of that group and no others: not
/// those of another group of the same name, and not hosts without a group that
/// follow the last one.
pub proof fn a_group_row_selects_its_hosts(
    raw: RawConfigView,
    login: Seq<char>,
    cache: Map<Seq<char>, CacheEntryView>,
    terminal: Option<u16>,
    k: int,
)
    requires
        0 <= k < raw.groups.len(),
    ensures
        ({
            let app = model::initial(
                config::resolved(raw, login),
                config::rows_of(raw),
                cache,
                terminal,
            );
            let row = config::header_row(raw.groups, k);
            let first = config::host_count(raw.groups.take(k));
            &&& app.rows[row] == SidebarRowView::Group { name: raw.groups[k].name }
            &&& sidebar::hosts_under(app.rows, app.hosts, row) == Seq::new(
                raw.groups[k].hosts.len(),
                |i: int| first + i,
            )
        }),
{
    let app = model::initial(
        config::resolved(raw, login),
        config::rows_of(raw),
        cache,
        terminal,
    );
    let rows = app.rows;
    let row = config::header_row(raw.groups, k);
    let first = config::host_count(raw.groups.take(k));
    let n = raw.groups[k].hosts.len();
    lemma_rows_of_group(app, raw, login, k);
    let end = row + 1 + n;
    assert(sidebar::hosts_under(rows, app.hosts, row) =~= Seq::new(n, |i: int| first + i)) by {
        assert forall|j: int| 0 <= j < n implies #[trigger] rows.subrange(row + 1, end)[j]
            == (SidebarRowView::Host { host_idx: first + j }) by {
            assert(rows[row + 1 + j] == SidebarRowView::Host { host_idx: first + j });
        }
    }
}

// ── Search ───────────────────────────────────────────────────────────────────

/// A row matches by its whole name, whatever the case: a host row by the
/// configured hostname, a group row by the name of the group. The filter counts
/// without the blanks round it.
pub proof fn a_row_matches_by_its_whole_name(app: AppView, i: int)
    requires
        0 <= i < app.rows.len(),
    ensures
        app.matched().len() == app.rows.len(),
        app.rows[i] matches SidebarRowView::Host { host_idx } ==> app.matched()[i]
            == text::contains(
            text::lowercase(app.hosts[host_idx].cfg.hostname),
            text::lowercase(text::trimmed(app.filter)),
        ),
        app.rows[i] matches SidebarRowView::Group { name } ==> app.matched()[i] == text::contains(
            text::lowercase(name),
            text::lowercase(text::trimmed(app.filter)),
        ),
{
}

/// Any part of an ASCII name finds its row: with the part as filter, the row
/// stays visible.
pub proof fn any_part_of_a_name_finds_it(
    app: AppView,
    i: int,
    a: Seq<char>,
    m: Seq<char>,
    b: Seq<char>,
)
    requires
        0 <= i < app.rows.len(),
        text::ascii_only(a + m + b),
        text::tight(m),
        text::trimmed(app.filter) == m,
        match app.rows[i] {
            SidebarRowView::Host { host_idx } => app.hosts[host_idx].cfg.hostname == a + m + b,
            SidebarRowView::Group { name } => name == a + m + b,
        },
    ensures
        app.visible().contains(i),
{
    let s = a + m + b;
    let n = a.len() as int;
    assert(text::ascii_only(m)) by {
        assert forall|k: int| 0 <= k < m.len() implies (#[trigger] m[k] as u32) < 128 by {
            assert(s[n + k] == m[k]);
        }
    }
    let low = text::lowercase(s);
    assert(low.subrange(n, n + m.len()) =~= text::lowercase(m));
    assert(text::occurs_at(low, text::lowercase(m), n));
    sidebar::visible_means_shown(app.rows, app.hosts, app.matched(), i);
}

/// What a search leaves visible, said of the configuration: a host whose name
/// matches, or whose group's name does; a group whose name matches, or that of
/// one of its hosts; and a host without a group whose name matches. Nothing
/// else.
pub proof fn a_search_goes_by_host_and_group_names(
    raw: RawConfigView,
    login: Seq<char>,
    cache: Map<Seq<char>, CacheEntryView>,
    terminal: Option<u16>,
    filter: Seq<char>,
)
    ensures
        ({
            let app = AppView {
                filter,
                ..model::initial(
                    config::resolved(raw, login),
                    config::rows_of(raw),
                    cache,
                    terminal,
                )
            };
            let q = text::lowercase(text::trimmed(filter));
            &&& forall|k: int| #![trigger raw.groups[k]]
                0 <= k < raw.groups.len() ==> {
                    let g = raw.groups[k];
                    let row = config::header_row(raw.groups, k);
                    &&& app.visible().contains(row) <==> text::contains(text::lowercase(g.name), q)
                        || exists|i: int|
                        0 <= i < g.hosts.len() && text::contains(
                            text::lowercase((#[trigger] g.hosts[i]).hostname),
                            q,
                        )
                    &&& forall|i: int| #![trigger g.hosts[i]]
                        0 <= i < g.hosts.len() ==> (app.visible().contains(row + 1 + i)
                            <==> text::contains(text::lowercase(g.hosts[i].hostname), q)
                            || text::contains(text::lowercase(g.name), q))
                }
            &&& forall|i: int| #![trigger raw.hosts[i]]
                0 <= i < raw.hosts.len() ==> (app.visible().contains(
                    raw.groups.len() + config::host_count(raw.groups) + i,
                ) <==> text::contains(text::lowercase(raw.hosts[i].hostname), q))
        }),
{
    let app = AppView {
        filter,
        ..model::initial(config::resolved(raw, login), config::rows_of(raw), cache, terminal)
    };
    let q = text::lowercase(text::trimmed(filter));
    assert forall|k: int| #![trigger raw.groups[k]] 0 <= k < raw.groups.len() implies {
        let g = raw.groups[k];
        let row = config::header_row(raw.groups, k);
        &&& app.visible().contains(row) <==> text::contains(text::lowercase(g.name), q) || exists|
            i: int,
        |
            0 <= i < g.hosts.len() && text::contains(
                text::lowercase((#[trigger] g.hosts[i]).hostname),
                q,
            )
        &&& forall|i: int| #![trigger g.hosts[i]]
            0 <= i < g.hosts.len() ==> (app.visible().contains(row + 1 + i) <==> text::contains(
                text::lowercase(g.hosts[i].hostname),
                q,
            ) || text::contains(text::lowercase(g.name), q))
    } by {
        lemma_search_group(raw, login, app, k);
    }
    assert forall|i: int| #![trigger raw.hosts[i]] 0 <= i < raw.hosts.len() implies (
    app.visible().contains(raw.groups.len() + config::host_count(raw.groups) + i)
        <==> text::contains(text::lowercase(raw.hosts[i].hostname), q)) by {
        lemma_search_lone(raw, login, app, i);
    }
}

/// The state has the rows and the hosts of the configuration.
spec fn of_config(app: AppView, raw: RawConfigView, login: Seq<char>) -> bool {
    &&& app.rows == config::rows_of(raw)
    &&& app.hosts.len() == config::resolved(raw, login).len()
    &&& forall|j: int|
        0 <= j < app.hosts.len() ==> (#[trigger] app.hosts[j]).cfg == config::resolved(
            raw,
            login,
        )[j]
}

/// The rows under a group's heading are those of its hosts.
proof fn lemma_rows_of_group(app: AppView, raw: RawConfigView, login: Seq<char>, k: int)
    requires
        of_config(app, raw, login),
        0 <= k < raw.groups.len(),
    ensures
        ({
            let row = config::header_row(raw.groups, k);
            let first = config::host_count(raw.groups.take(k));
            let n = raw.groups[k].hosts.len();
            &&& 0 <= row
            &&& row + 1 + n <= app.rows.len()
            &&& app.rows[row] == SidebarRowView::Group { name: raw.groups[k].name }
            &&& forall|i: int|
                0 <= i < n ==> #[trigger] app.rows[row + 1 + i] == SidebarRowView::Host {
                    host_idx: first + i,
                }
            &&& first + n <= app.hosts.len()
            &&& sidebar::run_end(app.rows, app.hosts, row + 1) == row + 1 + n
        }),
{
    let rows = app.rows;
    let row = config::header_row(raw.groups, k);
    let first = config::host_count(raw.groups.take(k));
    let n = raw.groups[k].hosts.len();
    config::lemma_group_block(raw, k);
    config::lemma_membership(raw, login);
    config::lemma_host_count_mono(raw.groups, k);
    config::rows_list_every_host_once(raw, login);
    assert forall|i: int| row < i <= row + n implies #[trigger] sidebar::is_member(
        rows,
        app.hosts,
        i,
    ) by {
        let j = i - row - 1;
        assert(rows[row + 1 + j] == SidebarRowView::Host { host_idx: first + j });
        assert(app.hosts[first + j].cfg == config::resolved(raw, login)[first + j]);
    }
    let after = row + 1 + n;
    assert(after < rows.len() ==> !sidebar::is_member(rows, app.hosts, after)) by {
        if after < rows.len() && rows[after] is Host {
            let j = rows[after]->host_idx;
            assert(app.hosts[j].cfg == config::resolved(raw, login)[j]);
        }
    }
    sidebar::lemma_run_end(rows, app.hosts, row + 1);
    let end = sidebar::run_end(rows, app.hosts, row + 1);
    if end < after {
        assert(sidebar::is_member(rows, app.hosts, end));
    } else if end > after {
        assert(sidebar::is_member(rows, app.hosts, after));
    }
}

proof fn lemma_search_group(raw: RawConfigView, login: Seq<char>, app: AppView, k: int)
    requires
        of_config(app, raw, login),
        0 <= k < raw.groups.len(),
    ensures
        ({
            let q = text::lowercase(text::trimmed(app.filter));
            let g = raw.groups[k];
            let row = config::header_row(raw.groups, k);
            &&& app.visible().contains(row) <==> text::contains(text::lowercase(g.name), q)
                || exists|i: int|
                0 <= i < g.hosts.len() && text::contains(
                    text::lowercase((#[trigger] g.hosts[i]).hostname),
                    q,
                )
            &&& forall|i: int| #![trigger g.hosts[i]]
                0 <= i < g.hosts.len() ==> (app.visible().contains(row + 1 + i) <==> text::contains(
                    text::lowercase(g.hosts[i].hostname),
                    q,
                ) || text::contains(text::lowercase(g.name), q))
        }),
{
    let q = text::lowercase(text::trimmed(app.filter));
    let g = raw.groups[k];
    let row = config::header_row(raw.groups, k);
    let n = g.hosts.len();
    let matched = app.matched();
    lemma_rows_of_group(app, raw, login, k);
    a_row_matches_by_its_whole_name(app, row);
    assert forall|i: int| 0 <= i < n implies matched[row + 1 + i] == text::contains(
        text::lowercase((#[trigger] g.hosts[i]).hostname),
        q,
    ) by {
        a_row_matches_by_its_whole_name(app, row + 1 + i);
        config::a_grouped_host_is_reached_as_configured(raw, login, k, i);
        let j = config::host_count(raw.groups.take(k)) + i;
        assert(app.rows[row + 1 + i] == SidebarRowView::Host { host_idx: j });
        assert(app.hosts[j].cfg == config::resolved(raw, login)[j]);
    }
    assert forall|x: int| sidebar::under(app.rows, app.hosts, row, x) <==> row < x < row + 1 + n by {
        sidebar::lemma_under(app.rows, app.hosts, row, x);
    }
    sidebar::visible_means_shown(app.rows, app.hosts, matched, row);
    assert(forall|x: int| !sidebar::under(app.rows, app.hosts, x, row)) by {
        assert forall|x: int| !sidebar::under(app.rows, app.hosts, x, row) by {
            if sidebar::under(app.rows, app.hosts, x, row) {
                assert(sidebar::is_member(app.rows, app.hosts, row));
            }
        }
    }
    if sidebar::shown(app.rows, app.hosts, matched, row) && !matched[row] {
        let x = choose|x: int| #[trigger]
            sidebar::under(app.rows, app.hosts, row, x) && matched[x];
        assert(text::contains(text::lowercase(g.hosts[x - row - 1].hostname), q));
    }
    if exists|i: int|
        0 <= i < n && text::contains(text::lowercase((#[trigger] g.hosts[i]).hostname), q) {
        let i = choose|i: int|
            0 <= i < n && text::contains(text::lowercase((#[trigger] g.hosts[i]).hostname), q);
        assert(sidebar::under(app.rows, app.hosts, row, row + 1 + i));
    }
    assert forall|i: int| #![trigger g.hosts[i]] 0 <= i < n implies (app.visible().contains(
        row + 1 + i,
    ) <==> text::contains(text::lowercase(g.hosts[i].hostname), q) || text::contains(
        text::lowercase(g.name),
        q,
    )) by {
        assert(sidebar::under(app.rows, app.hosts, row, row + 1 + i));
        sidebar::hosts_come_with_their_heading(app.rows, app.hosts, matched, row, row + 1 + i);
        sidebar::visible_means_shown(app.rows, app.hosts, matched, row + 1 + i);
    }
}

proof fn lemma_search_lone(raw: RawConfigView, login: Seq<char>, app: AppView, i: int)
    requires
        of_config(app, raw, login),
        0 <= i < raw.hosts.len(),
    ensures
        app.visible().contains(raw.groups.len() + config::host_count(raw.groups) + i)
            <==> text::contains(
            text::lowercase(raw.hosts[i].hostname),
            text::lowercase(text::trimmed(app.filter)),
        ),
{
    let row = raw.groups.len() + config::host_count(raw.groups) + i;
    let j = config::host_count(raw.groups) + i;
    config::lemma_lone_row(raw, i);
    config::a_lone_host_is_reached_as_configured(raw, login, i);
    a_row_matches_by_its_whole_name(app, row);
    assert(app.hosts[j].cfg == config::resolved(raw, login)[j]);
    sidebar::visible_means_shown(app.rows, app.hosts, app.matched(), row);
    assert(!sidebar::is_member(app.rows, app.hosts, row));
    assert forall|x: int| !sidebar::under(app.rows, app.hosts, x, row) by {
        if sidebar::under(app.rows, app.hosts, x, row) {
            assert(sidebar::is_member(app.rows, app.hosts, row));
        }
    }
    assert(forall|x: int| !sidebar::under(app.rows, app.hosts, row, x));
}

/// Selecting a host's row selects that host, in a group or outside one.
pub proof fn a_host_row_selects_its_host(
    raw: RawConfigView,
    login: Seq<char>,
    cache: Map<Seq<char>, CacheEntryView>,
    terminal: Option<u16>,
)
    ensures
        ({
            let app = model::initial(
                config::resolved(raw, login),
                config::rows_of(raw),
                cache,
                terminal,
            );
            &&& forall|k: int, i: int| #![trigger raw.groups[k].hosts[i]]
                0 <= k < raw.groups.len() && 0 <= i < raw.groups[k].hosts.len() ==> {
                    let row = config::header_row(raw.groups, k) + 1 + i;
                    let picked = AppView { selected_row: row, ..app };
                    &&& picked.selected_hosts().len() == 1
                    &&& app.hosts[picked.selected_hosts()[0]].cfg.hostname
                        == raw.groups[k].hosts[i].hostname
                }
            &&& forall|i: int| #![trigger raw.hosts[i]]
                0 <= i < raw.hosts.len() ==> {
                    let row = raw.groups.len() + config::host_count(raw.groups) + i;
                    let picked = AppView { selected_row: row, ..app };
                    &&& picked.selected_hosts().len() == 1
                    &&& app.hosts[picked.selected_hosts()[0]].cfg.hostname == raw.hosts[i].hostname
                }
        }),
{
    let app = model::initial(
        config::resolved(raw, login),
        config::rows_of(raw),
        cache,
        terminal,
    );
    assert forall|k: int, i: int| #![trigger raw.groups[k].hosts[i]]
        0 <= k < raw.groups.len() && 0 <= i < raw.groups[k].hosts.len() implies {
        let row = config::header_row(raw.groups, k) + 1 + i;
        let picked = AppView { selected_row: row, ..app };
        &&& picked.selected_hosts().len() == 1
        &&& app.hosts[picked.selected_hosts()[0]].cfg.hostname == raw.groups[k].hosts[i].hostname
    } by {
        lemma_rows_of_group(app, raw, login, k);
        config::a_grouped_host_is_reached_as_configured(raw, login, k, i);
        let row = config::header_row(raw.groups, k) + 1 + i;
        let j = config::host_count(raw.groups.take(k)) + i;
        assert(app.rows[row] == SidebarRowView::Host { host_idx: j });
        assert(app.hosts[j].cfg == config::resolved(raw, login)[j]);
    }
    assert forall|i: int| #![trigger raw.hosts[i]] 0 <= i < raw.hosts.len() implies {
        let row = raw.groups.len() + config::host_count(raw.groups) + i;
        let picked = AppView { selected_row: row, ..app };
        &&& picked.selected_hosts().len() == 1
        &&& app.hosts[picked.selected_hosts()[0]].cfg.hostname == raw.hosts[i].hostname
    } by {
        config::lemma_lone_row(raw, i);
        config::a_lone_host_is_reached_as_configured(raw, login, i);
        let j = config::host_count(raw.groups) + i;
        assert(app.hosts[j].cfg == config::resolved(raw, login)[j]);
    }
}

} // verus!
