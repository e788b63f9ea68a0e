//! What the keys, the mouse and the messages do, said key by key: which hosts a
//! task is started on, what is run there, and what becomes of the state.

use vstd::prelude::*;

use crate::apt;
use crate::apt::{HostInfoView, PackageView};
use crate::cache::CacheEntryView;
use crate::config::{HostConfigView, SidebarRowView};
use crate::keys::{KeyCode, KeyModifiers, MouseButton, MouseEventKind, ReviewCommand, Scope};
use crate::laws;
use crate::model;
use crate::model::AppView;
use crate::review::{DiffView, ReviewView};
use crate::state::{EffectView, EventView, HostView, MessageView};
use crate::task;
use crate::task::{ConffileAction, TaskKindView, TaskStatusView, TaskView};
use crate::text;

verus! {

// ── Tasks ────────────────────────────────────────────────────────────────────

/// Host `i` was given a task of this kind: it has it, running and without output
/// so far, and its command is to be run there.
pub open spec fn given(app: AppView, after: AppView, i: int, kind: TaskKindView) -> bool {
    &&& after.hosts[i].task == Some(
        TaskView {
            kind,
            status: TaskStatusView::Running,
            output: seq![],
            scroll_offset: 0,
            auto_scroll: true,
        },
    )
    &&& after.hosts[i].cfg == app.hosts[i].cfg
    &&& after.hosts[i].info == app.hosts[i].info
    &&& after.hosts[i].status == app.hosts[i].status
    &&& after.effects.contains(
        EffectView::RunTask {
            host_idx: i,
            command: task::command_of(kind, app.hosts[i].cfg.use_sudo),
        },
    )
}

/// On the main screen, the capital letters start their task on every host that
/// has none running, and leave the others as they are.
pub proof fn capital_letters_reach_every_host(app: AppView, modifiers: KeyModifiers, i: int)
    requires
        app.valid(),
        laws::on_main_screen(app),
        0 <= i < app.hosts.len(),
    ensures
        ({
            let after = |c: char| app.after_key(KeyCode::Char(c), modifiers).0;
            if app.hosts[i].running() {
                &&& after('R').hosts[i] == app.hosts[i]
                &&& after('U').hosts[i] == app.hosts[i]
                &&& after('F').hosts[i] == app.hosts[i]
                &&& after('A').hosts[i] == app.hosts[i]
            } else {
                &&& given(app, after('R'), i, TaskKindView::Update)
                &&& given(app, after('U'), i, TaskKindView::Upgrade)
                &&& given(app, after('F'), i, TaskKindView::FullUpgrade)
                &&& given(app, after('A'), i, TaskKindView::AutoRemove)
            }
        }),
{
    let all = app.in_scope(Scope::All);
    laws::lemma_scope_in_range(app, Scope::All);
    assert(all[i] == i);
    assert(all.contains(i));
    lemma_started(app, all, TaskKindView::Update, i);
    lemma_started(app, all, TaskKindView::Upgrade, i);
    lemma_started(app, all, TaskKindView::FullUpgrade, i);
    lemma_started(app, all, TaskKindView::AutoRemove, i);
}

/// On the main screen, the plain letters start their task on every selected host
/// that has none running, and touch no other.
pub proof fn plain_letters_reach_the_selection(app: AppView, modifiers: KeyModifiers, i: int)
    requires
        app.valid(),
        laws::on_main_screen(app),
        modifiers.plain(),
        0 <= i < app.hosts.len(),
    ensures
        ({
            let after = |c: char| app.after_key(KeyCode::Char(c), modifiers).0;
            if app.hosts[i].running() || !app.selected_hosts().contains(i) {
                &&& after('r').hosts[i] == app.hosts[i]
                &&& after('u').hosts[i] == app.hosts[i]
                &&& after('f').hosts[i] == app.hosts[i]
                &&& after('a').hosts[i] == app.hosts[i]
                &&& after('p').hosts[i] == app.hosts[i]
            } else {
                &&& given(app, after('r'), i, TaskKindView::Update)
                &&& given(app, after('u'), i, TaskKindView::Upgrade)
                &&& given(app, after('f'), i, TaskKindView::FullUpgrade)
                &&& given(app, after('a'), i, TaskKindView::AutoRemove)
                &&& given(app, after('p'), i, TaskKindView::PurgeRc)
            }
        }),
{
    let idxs = app.selected_hosts();
    laws::lemma_scope_in_range(app, Scope::Selected);
    lemma_started(app, idxs, TaskKindView::Update, i);
    lemma_started(app, idxs, TaskKindView::Upgrade, i);
    lemma_started(app, idxs, TaskKindView::FullUpgrade, i);
    lemma_started(app, idxs, TaskKindView::AutoRemove, i);
    lemma_started(app, idxs, TaskKindView::PurgeRc, i);
}

proof fn lemma_started(app: AppView, idxs: Seq<int>, kind: TaskKindView, i: int)
    requires
        laws::in_range(idxs, app.hosts.len()),
        0 <= i < app.hosts.len(),
    ensures
        app.hosts[i].running() || !idxs.contains(i) ==> app.start_each(idxs, kind).hosts[i]
            == app.hosts[i],
        !app.hosts[i].running() && idxs.contains(i) ==> given(
            app,
            app.start_each(idxs, kind),
            i,
            kind,
        ),
{
    laws::lemma_start_each(app, idxs, kind);
    if app.hosts[i].running() {
        laws::running_tasks_are_left_alone(app, idxs, kind, i);
    } else {
        laws::tasks_start_where_asked(app, idxs, kind, i);
    }
}

/// The names of a host's upgradable packages from security suites.
pub open spec fn security_of(h: HostView) -> Seq<Seq<char>> {
    match h.info {
        Some(info) => info.upgradable.filter(|p: PackageView| p.is_security).map_values(
            |p: PackageView| p.name,
        ),
        None => seq![],
    }
}

/// `s` on the selection and `S` everywhere start a security upgrade of exactly
/// the packages that come from a security suite, where there are any and nothing
/// is running; and touch no other host.
pub proof fn security_keys_upgrade_security_packages(
    app: AppView,
    modifiers: KeyModifiers,
    i: int,
)
    requires
        app.valid(),
        laws::on_main_screen(app),
        0 <= i < app.hosts.len(),
    ensures
        ({
            let names = security_of(app.hosts[i]);
            let all = app.after_key(KeyCode::Char('S'), modifiers).0;
            let some = app.after_key(KeyCode::Char('s'), modifiers).0;
            let due = !app.hosts[i].running() && names.len() > 0;
            &&& due ==> given(app, all, i, TaskKindView::UpgradeSecurity(names))
            &&& !due ==> all.hosts[i] == app.hosts[i]
            &&& modifiers.plain() && due && app.selected_hosts().contains(i) ==> given(
                app,
                some,
                i,
                TaskKindView::UpgradeSecurity(names),
            )
            &&& modifiers.plain() && !(due && app.selected_hosts().contains(i)) ==> some.hosts[i]
                == app.hosts[i]
        }),
{
    let all = app.in_scope(Scope::All);
    laws::lemma_scope_in_range(app, Scope::All);
    laws::lemma_scope_in_range(app, Scope::Selected);
    assert(all[i] == i);
    assert(all.contains(i));
    lemma_security_started(app, all, i);
    lemma_security_started(app, app.selected_hosts(), i);
}

proof fn lemma_security_names(pkgs: Seq<PackageView>)
    ensures
        apt::security_names(pkgs) == pkgs.filter(|p: PackageView| p.is_security).map_values(
            |p: PackageView| p.name,
        ),
    decreases pkgs.len(),
{
    reveal(Seq::filter);
    if pkgs.len() > 0 {
        lemma_security_names(pkgs.drop_last());
    }
    assert(apt::security_names(pkgs) =~= pkgs.filter(
        |p: PackageView| p.is_security,
    ).map_values(|p: PackageView| p.name));
}

proof fn lemma_security_of(app: AppView, i: int)
    ensures
        app.security_updates(i) == security_of(app.hosts[i]),
{
    match app.hosts[i].info {
        Some(info) => lemma_security_names(info.upgradable),
        None => {},
    }
}

proof fn lemma_security_started(app: AppView, idxs: Seq<int>, i: int)
    requires
        laws::in_range(idxs, app.hosts.len()),
        0 <= i < app.hosts.len(),
    ensures
        ({
            let after = app.start_security_each(idxs);
            let names = security_of(app.hosts[i]);
            let due = !app.hosts[i].running() && names.len() > 0 && idxs.contains(i);
            &&& due ==> given(app, after, i, TaskKindView::UpgradeSecurity(names))
            &&& !due ==> after.hosts[i] == app.hosts[i]
        }),
    decreases idxs.len(),
{
    if idxs.len() > 0 {
        let rest = idxs.drop_last();
        let last = idxs.last();
        let names = security_of(app.hosts[i]);
        assert(forall|k: int| 0 <= k < rest.len() ==> rest[k] == idxs[k]);
        lemma_security_started(app, rest, i);
        laws::lemma_start_security_each(app, rest);
        assert(0 <= idxs[idxs.len() - 1] < app.hosts.len());
        let before = app.start_security_each(rest);
        let after = app.start_security_each(idxs);
        let effect = EffectView::RunTask {
            host_idx: i,
            command: task::command_of(
                TaskKindView::UpgradeSecurity(names),
                app.hosts[i].cfg.use_sudo,
            ),
        };
        lemma_security_of(before, last);
        assert(before.hosts[i].info == app.hosts[i].info);
        assert(before.hosts[last].info == app.hosts[last].info);
        if rest.contains(i) {
            let k = choose|k: int| 0 <= k < rest.len() && rest[k] == i;
            assert(idxs[k] == i);
            if !app.hosts[i].running() && names.len() > 0 {
                let e = choose|e: int| 0 <= e < before.effects.len() && before.effects[e] == effect;
                assert(after.effects[e] == effect);
                assert(after.hosts[i] == before.hosts[i]);
            }
        } else if last == i {
            assert(idxs[idxs.len() - 1] == i);
            assert(before.hosts[i] == app.hosts[i]);
            if !app.hosts[i].running() && names.len() > 0 {
                assert(after.effects.last() == effect);
                assert(after.effects[after.effects.len() - 1] == effect);
            }
        } else {
            assert(!idxs.contains(i)) by {
                if idxs.contains(i) {
                    let k = choose|k: int| 0 <= k < idxs.len() && idxs[k] == i;
                    assert(rest[k] == i);
                }
            }
        }
    }
}

/// Work that was asked for is not forgotten by a key: what was there stays, in
/// order, and new work comes behind it.
pub proof fn starting_only_adds_work(app: AppView, idxs: Seq<int>, kind: TaskKindView)
    ensures
        app.start_each(idxs, kind).effects.len() >= app.effects.len(),
        app.start_each(idxs, kind).effects.take(app.effects.len() as int) == app.effects,
        app.start_each(idxs, kind).effects.len() <= app.effects.len() + idxs.len(),
        app.start_security_each(idxs).effects.len() >= app.effects.len(),
        app.start_security_each(idxs).effects.take(app.effects.len() as int) == app.effects,
        app.start_security_each(idxs).effects.len() <= app.effects.len() + idxs.len(),
    decreases idxs.len(),
{
    if idxs.len() > 0 {
        starting_only_adds_work(app, idxs.drop_last(), kind);
    }
    assert(app.start_each(idxs, kind).effects.take(app.effects.len() as int) =~= app.effects);
    assert(app.start_security_each(idxs).effects.take(app.effects.len() as int) =~= app.effects);
}

// ── Other keys of the main screen ────────────────────────────────────────────

/// The other keys of the main screen: moving, searching, zooming, and the two
/// that are for a single selected host.
pub proof fn other_keys_of_the_main_screen(app: AppView, modifiers: KeyModifiers)
    requires
        app.valid(),
        laws::on_main_screen(app),
    ensures
        app.after_key(KeyCode::Up, modifiers) == (app.moved(-1), true),
        app.after_key(KeyCode::Down, modifiers) == (app.moved(1), true),
        modifiers.plain() ==> app.after_key(KeyCode::Char('k'), modifiers) == (app.moved(-1), true),
        modifiers.plain() ==> app.after_key(KeyCode::Char('j'), modifiers) == (app.moved(1), true),
        app.after_key(KeyCode::Char('/'), modifiers) == (
            AppView { filter_editing: true, ..app },
            true,
        ),
        modifiers.plain() ==> app.after_key(KeyCode::Char('z'), modifiers) == (
            AppView { detail_zoom: !app.detail_zoom, ..app },
            true,
        ),
        ({
            let after = app.after_key(KeyCode::Char('b'), modifiers).0;
            if app.selected_hosts().len() == 1 {
                &&& after.reboot is Some
                &&& after.reboot->0.host_idx == app.selected_hosts()[0]
                &&& after.reboot->0.input.len() == 0
                &&& !after.reboot->0.mismatch
                &&& after == AppView { reboot: after.reboot, ..app }
            } else {
                after == app
            }
        }),
{
}

/// `c` opens the review on the only selected host, with all of its pending files
/// and no marks, and asks for the diff of the first; where there are none, or
/// several hosts are selected, it does nothing.
pub proof fn c_opens_the_review(app: AppView, modifiers: KeyModifiers)
    requires
        app.valid(),
        laws::on_main_screen(app),
        modifiers.plain(),
    ensures
        ({
            let after = app.after_key(KeyCode::Char('c'), modifiers).0;
            let idxs = app.selected_hosts();
            if idxs.len() == 1 && app.hosts[idxs[0]].info is Some
                && app.hosts[idxs[0]].info->0.pending_conffiles.len() > 0 {
                let h = app.hosts[idxs[0]];
                let files = h.info->0.pending_conffiles;
                let s = after.review->0;
                &&& after.review is Some
                &&& s.host_idx == idxs[0]
                &&& s.files == files
                &&& s.decisions.len() == files.len()
                &&& forall|i: int| 0 <= i < files.len() ==> (#[trigger] s.decisions[i]) is None
                &&& s.selected == 0 && s.scroll == 0 && !s.confirm_execute && s.notice is None
                &&& s.diffs == Map::<Seq<char>, DiffView>::empty().insert(
                    files[0].pending_path,
                    DiffView::Loading,
                )
                &&& after.effects == app.effects.push(
                    EffectView::FetchDiff {
                        host_idx: idxs[0],
                        pending_path: files[0].pending_path,
                        command: model::diff_command(
                            files[0].live_path,
                            files[0].pending_path,
                            h.cfg.use_sudo,
                        ),
                    },
                )
                &&& after.hosts == app.hosts
            } else {
                after == app
            }
        }),
{
}

/// `t` and Enter show the output of the first selected host that has a task.
pub proof fn t_shows_a_task(app: AppView, modifiers: KeyModifiers)
    requires
        app.valid(),
        laws::on_main_screen(app),
    ensures
        app.after_key(KeyCode::Char('t'), modifiers) == app.after_key(KeyCode::Enter, modifiers),
        ({
            let after = app.after_key(KeyCode::Enter, modifiers).0;
            let idxs = app.selected_hosts();
            &&& after == AppView { viewing_task: after.viewing_task, ..app }
            &&& after.viewing_task is Some <==> exists|k: int|
                0 <= k < idxs.len() && (#[trigger] app.hosts[idxs[k]]).task is Some
            &&& after.viewing_task is Some ==> exists|k: int|
                0 <= k < idxs.len() && after.viewing_task == Some(#[trigger] idxs[k])
                    && app.hosts[idxs[k]].task is Some && forall|j: int|
                    0 <= j < k ==> (#[trigger] app.hosts[idxs[j]]).task is None
        }),
{
    lemma_first_task(app.hosts, app.selected_hosts());
}

proof fn lemma_first_task(hosts: Seq<HostView>, idxs: Seq<int>)
    ensures
        ({
            let found = model::first_with_task(hosts, idxs);
            &&& found is Some <==> exists|k: int|
                0 <= k < idxs.len() && (#[trigger] hosts[idxs[k]]).task is Some
            &&& found is Some ==> exists|k: int|
                0 <= k < idxs.len() && found == Some(#[trigger] idxs[k]) && hosts[idxs[k]].task is Some
                    && forall|j: int| 0 <= j < k ==> (#[trigger] hosts[idxs[j]]).task is None
        }),
    decreases idxs.len(),
{
    if idxs.len() > 0 {
        let rest = idxs.skip(1);
        let found = model::first_with_task(hosts, idxs);
        lemma_first_task(hosts, rest);
        assert(forall|k: int| 0 <= k < rest.len() ==> rest[k] == idxs[k + 1]);
        if hosts[idxs[0]].task is Some {
            assert(found == Some(idxs[0]));
        } else {
            if found is Some {
                let k = choose|k: int|
                    0 <= k < rest.len() && found == Some(#[trigger] rest[k])
                        && hosts[rest[k]].task is Some && forall|j: int|
                        0 <= j < k ==> (#[trigger] hosts[rest[j]]).task is None;
                assert(found == Some(idxs[k + 1]));
                assert forall|j: int| 0 <= j < k + 1 implies (#[trigger] hosts[idxs[j]]).task is None by {
                    if j > 0 {
                        assert(hosts[rest[j - 1]].task is None);
                    }
                }
            }
            if exists|k: int| 0 <= k < idxs.len() && (#[trigger] hosts[idxs[k]]).task is Some {
                let k = choose|k: int|
                    0 <= k < idxs.len() && (#[trigger] hosts[idxs[k]]).task is Some;
                assert(hosts[rest[k - 1]].task is Some);
            }
        }
    }
}

/// A key that is bound to nothing does nothing.
pub proof fn unbound_keys_do_nothing(app: AppView, c: char, modifiers: KeyModifiers)
    requires
        laws::on_main_screen(app),
        !modifiers.plain() && !modifiers.just_control(),
        c != '/' && c != 'S' && c != 'R' && c != 'U' && c != 'F' && c != 'A' && c != 'b' && c
            != 't' && c != 'q',
    ensures
        app.after_key(KeyCode::Char(c), modifiers) == (app, true),
{
}

// ── Typing ───────────────────────────────────────────────────────────────────

/// In the search, a character is put behind the filter and Backspace takes the
/// last one off, and nothing else changes but the selection.
pub proof fn typing_edits_the_filter(app: AppView, c: char, modifiers: KeyModifiers)
    requires
        laws::searching(app),
    ensures
        ({
            let typed = app.after_key(KeyCode::Char(c), modifiers).0;
            let erased = app.after_key(KeyCode::Backspace, modifiers).0;
            &&& !modifiers.control && !modifiers.alt ==> typed == (AppView {
                filter: app.filter.push(c),
                selected_row: typed.selected_row,
                ..app
            })
            &&& modifiers.control || modifiers.alt ==> typed == app
            &&& erased == (AppView {
                filter: if app.filter.len() > 0 {
                    app.filter.take(app.filter.len() - 1)
                } else {
                    app.filter
                },
                selected_row: erased.selected_row,
                ..app
            })
        }),
{
    if app.filter.len() > 0 {
        assert(app.filter.drop_last() =~= app.filter.take(app.filter.len() - 1));
    }
}

/// While a reboot is being confirmed, a character is put behind what was typed,
/// Backspace takes the last one off, Esc closes, and Enter with another text
/// than the hostname says so and starts nothing.
pub proof fn typing_confirms_a_reboot(app: AppView, c: char, modifiers: KeyModifiers)
    requires
        app.valid(),
        !app.quit_confirm,
        app.reboot is Some,
    ensures
        ({
            let s = app.reboot->0;
            let typed = app.after_key(KeyCode::Char(c), modifiers).0;
            let erased = app.after_key(KeyCode::Backspace, modifiers).0;
            let closed = app.after_key(KeyCode::Esc, modifiers).0;
            let entered = app.after_key(KeyCode::Enter, modifiers).0;
            let name = app.hosts[s.host_idx].cfg.hostname;
            &&& !modifiers.control && !modifiers.alt ==> typed.reboot is Some
                && typed.reboot->0.input == s.input.push(c) && !typed.reboot->0.mismatch
                && typed.reboot->0.host_idx == s.host_idx
            &&& typed.hosts == app.hosts && erased.hosts == app.hosts && closed.hosts == app.hosts
            &&& erased.reboot is Some && !erased.reboot->0.mismatch
            &&& s.input.len() > 0 ==> erased.reboot->0.input == s.input.take(s.input.len() - 1)
            &&& closed == AppView { reboot: None, ..app }
            &&& s.input != name ==> entered.hosts == app.hosts && entered.effects == app.effects
                && entered.reboot is Some && entered.reboot->0.mismatch && entered.reboot->0.input
                == s.input
            &&& s.input == name ==> entered.reboot is None && (app.hosts[s.host_idx].running()
                || given(app, entered, s.host_idx, TaskKindView::Reboot))
        }),
{
    let s = app.reboot->0;
    if s.input.len() > 0 {
        assert(s.input.drop_last() =~= s.input.take(s.input.len() - 1));
    }
    let entered = app.after_key(KeyCode::Enter, modifiers).0;
    if s.input == app.hosts[s.host_idx].cfg.hostname && !app.hosts[s.host_idx].running() {
        let e = EffectView::RunTask {
            host_idx: s.host_idx,
            command: task::command_of(
                TaskKindView::Reboot,
                app.hosts[s.host_idx].cfg.use_sudo,
            ),
        };
        assert(entered.effects[entered.effects.len() - 1] == e);
    }
}

// ── The review ───────────────────────────────────────────────────────────────

/// What the commands of the review do to it.
pub proof fn what_the_review_commands_do(s: ReviewView)
    requires
        s.valid(),
    ensures
        ({
            let n = s.files.len() as int;
            let next = s.after(ReviewCommand::Next);
            let previous = s.after(ReviewCommand::Previous);
            &&& next.selected == if s.selected + 1 < n {
                s.selected + 1
            } else {
                s.selected
            }
            &&& previous.selected == if s.selected > 0 {
                s.selected - 1
            } else {
                0
            }
            &&& next.decisions == s.decisions && previous.decisions == s.decisions
            &&& previous.scroll == 0 && (s.selected + 1 < n ==> next.scroll == 0)
            &&& s.after(ReviewCommand::Top) == ReviewView { scroll: 0, ..s }
            &&& s.after(ReviewCommand::Unmark) == ReviewView {
                decisions: s.decisions.update(s.selected, None),
                ..s
            }
            &&& s.after(ReviewCommand::PageUp).scroll == if s.scroll >= 10 {
                s.scroll - 10
            } else {
                0
            }
            &&& s.after(ReviewCommand::PageUp).decisions == s.decisions
        }),
{
}

/// `d` and `a` mark the selected file, clear a mark that is there already, and
/// go on to the next file.
pub proof fn marking_and_advancing(s: ReviewView)
    requires
        s.valid(),
    ensures
        ({
            let d = s.after(ReviewCommand::MarkDiscard);
            let a = s.after(ReviewCommand::MarkApply);
            let on = if s.selected + 1 < s.files.len() {
                s.selected + 1
            } else {
                s.selected
            };
            let mark = s.decisions[s.selected];
            &&& d.selected == on && a.selected == on
            &&& d.decisions == s.decisions.update(
                s.selected,
                if mark == Some(ConffileAction::Discard) {
                    None
                } else {
                    Some(ConffileAction::Discard)
                },
            )
            &&& a.decisions == s.decisions.update(
                s.selected,
                if mark == Some(ConffileAction::Apply) {
                    None
                } else {
                    Some(ConffileAction::Apply)
                },
            )
            &&& d.notice is None && a.notice is None
            &&& !d.confirm_execute == !s.confirm_execute
        }),
{
}

/// Paging down shows ten more lines, but never goes past the last line.
pub proof fn paging_stays_within_the_diff(s: ReviewView, lines: Seq<Seq<char>>)
    requires
        s.diff() == Some(DiffView::Loaded(lines)),
        0 < lines.len() < 65536,
    ensures
        ({
            let scroll = s.after(ReviewCommand::PageDown).scroll as int;
            &&& s.scroll + 10 < lines.len() ==> scroll == s.scroll + 10
            &&& s.scroll + 10 >= lines.len() ==> scroll == lines.len() - 1
        }),
{
}

/// Enter asks whether to execute the batch if and only if there is a mark;
/// otherwise it says that there is none.
pub proof fn enter_asks_where_there_are_marks(s: ReviewView)
    requires
        s.valid(),
        !s.confirm_execute,
    ensures
        ({
            let after = s.after(ReviewCommand::Execute);
            let any = exists|i: int| 0 <= i < s.decisions.len() && (#[trigger] s.decisions[i]) is Some;
            &&& after.confirm_execute <==> any
            &&& after.notice is Some <==> !any
            &&& after.decisions == s.decisions && after.selected == s.selected
        }),
{
    lemma_marked_empty(s, s.files.len() as int);
    let all = s.marked_files();
    assert(all.take(s.files.len() as int) =~= all);
}

proof fn lemma_marked_empty(s: ReviewView, n: int)
    requires
        s.decisions.len() == s.files.len(),
        0 <= n <= s.files.len(),
    ensures
        s.marked_files().take(n).filter_map(crate::review::decision()).len() > 0 <==> exists|i: int|
            0 <= i < n && (#[trigger] s.decisions[i]) is Some,
    decreases n,
{
    if n > 0 {
        lemma_marked_empty(s, n - 1);
        let all = s.marked_files();
        assert(all.take(n).drop_last() =~= all.take(n - 1));
        assert(all.take(n).last() == (s.files[n - 1], s.decisions[n - 1]));
        if exists|i: int| 0 <= i < n && (#[trigger] s.decisions[i]) is Some {
            let i = choose|i: int| 0 <= i < n && (#[trigger] s.decisions[i]) is Some;
            if i < n - 1 {
                assert(s.decisions[i] is Some);
            }
        }
    }
}

/// Where every file is marked, the batch is all of the files, in the order of the
/// list.
pub proof fn a_full_batch_is_the_list(s: ReviewView)
    requires
        s.decisions.len() == s.files.len(),
        forall|i: int| 0 <= i < s.decisions.len() ==> (#[trigger] s.decisions[i]) is Some,
    ensures
        s.marked().len() == s.files.len(),
        forall|i: int|
            0 <= i < s.files.len() ==> (#[trigger] s.marked()[i]).file == s.files[i]
                && s.marked()[i].action == s.decisions[i]->0,
{
    lemma_full_batch(s, s.files.len() as int);
    let all = s.marked_files();
    assert(all.take(s.files.len() as int) =~= all);
}

proof fn lemma_full_batch(s: ReviewView, n: int)
    requires
        s.decisions.len() == s.files.len(),
        forall|i: int| 0 <= i < s.decisions.len() ==> (#[trigger] s.decisions[i]) is Some,
        0 <= n <= s.files.len(),
    ensures
        ({
            let m = s.marked_files().take(n).filter_map(crate::review::decision());
            &&& m.len() == n
            &&& forall|i: int|
                0 <= i < n ==> (#[trigger] m[i]).file == s.files[i] && m[i].action
                    == s.decisions[i]->0
        }),
    decreases n,
{
    if n > 0 {
        lemma_full_batch(s, n - 1);
        let all = s.marked_files();
        assert(all.take(n).drop_last() =~= all.take(n - 1));
        assert(all.take(n).last() == (s.files[n - 1], s.decisions[n - 1]));
        assert(s.decisions[n - 1] is Some);
    }
}

// ── Messages ─────────────────────────────────────────────────────────────────

/// A line of output is put behind the output of its host's task, and is the last
/// one there; the oldest goes once the buffer is full.
pub proof fn a_line_is_put_behind_the_output(app: AppView, i: int, line: Seq<char>, now: u64)
    requires
        0 <= i < app.hosts.len(),
        app.hosts[i].task is Some,
    ensures
        ({
            let after = app.after_message(MessageView::TaskLine { host_idx: i, line }, now);
            let old = app.hosts[i].task->0.output;
            let new = after.hosts[i].task->0.output;
            &&& after.hosts[i].task is Some
            &&& new.len() > 0 && new.last() == line
            &&& old.len() < 5000 ==> new == old.push(line)
            &&& old.len() == 5000 ==> new == old.skip(1).push(line)
            &&& after.hosts[i].task->0.status == app.hosts[i].task->0.status
            &&& after.hosts[i].task->0.kind == app.hosts[i].task->0.kind
            &&& after.effects == app.effects
            &&& after.hosts[i].status == app.hosts[i].status
        }),
{
}

/// A diff for the open review is kept under its file, and no other is touched.
pub proof fn a_diff_is_kept_under_its_file(
    app: AppView,
    i: int,
    path: Seq<char>,
    result: Result<Seq<Seq<char>>, Seq<char>>,
    now: u64,
    other: Seq<char>,
)
    requires
        app.review is Some && app.review->0.host_idx == i,
        other != path,
    ensures
        ({
            let after = app.after_message(
                MessageView::ConffileDiff { host_idx: i, pending_path: path, result },
                now,
            );
            let s = app.review->0;
            let t = after.review->0;
            &&& after.review is Some
            &&& t.diffs.contains_key(path)
            &&& result is Ok ==> t.diffs[path] == DiffView::Loaded(result->Ok_0)
            &&& result is Err ==> t.diffs[path] == DiffView::Failed(result->Err_0)
            &&& t.diffs.contains_key(other) == s.diffs.contains_key(other)
            &&& s.diffs.contains_key(other) ==> t.diffs[other] == s.diffs[other]
            &&& t.decisions == s.decisions && t.files == s.files && t.selected == s.selected
            &&& after.hosts == app.hosts && after.effects == app.effects
        }),
{
}

/// A task that failed is marked so; nothing else of the host changes, and nothing
/// is asked for.
pub proof fn a_failed_task_is_marked(app: AppView, i: int, error: Seq<char>, now: u64)
    requires
        0 <= i < app.hosts.len(),
        app.hosts[i].task is Some,
    ensures
        ({
            let after = app.after_message(MessageView::TaskFailed { host_idx: i, error }, now);
            let t = after.hosts[i].task->0;
            &&& after.hosts[i].task is Some
            &&& t.status == TaskStatusView::Failed(error)
            &&& t.output == app.hosts[i].task->0.output
            &&& t.auto_scroll
            &&& after.hosts[i].status == app.hosts[i].status
            &&& after.effects == app.effects
        }),
{
}

// ── Mouse ────────────────────────────────────────────────────────────────────

/// The divider is taken hold of in its own column, follows the mouse within its
/// bounds, and is let go when the button is.
pub proof fn the_divider_follows_the_mouse(app: AppView, col: u16, terminal: Option<u16>)
    requires
        model::wide_enough(terminal),
        app.reboot is None,
        app.sidebar_width > 0,
    ensures
        ({
            let left = MouseButton::Left;
            let down = app.after_mouse(MouseEventKind::Down(left), col, terminal);
            let drag = app.after_mouse(MouseEventKind::Drag(left), col, terminal);
            let up = app.after_mouse(MouseEventKind::Up(left), col, terminal);
            let most = match terminal {
                Some(w) => w - 10,
                None => 100,
            };
            &&& down.dragging_sidebar == (app.dragging_sidebar || (!app.detail_zoom && col + 1
                == app.sidebar_width))
            &&& down.sidebar_width == app.sidebar_width
            &&& !up.dragging_sidebar && up.sidebar_width == app.sidebar_width
            &&& !app.dragging_sidebar ==> drag == app
            &&& app.dragging_sidebar && 10 <= col + 1 <= most ==> drag.sidebar_width == col + 1
            &&& app.dragging_sidebar && col + 1 < 10 ==> drag.sidebar_width == 10
            &&& app.dragging_sidebar && col + 1 > most ==> drag.sidebar_width == most
        }),
{
}

// ── Start ────────────────────────────────────────────────────────────────────

/// At the start there is one state for each host, in order, which shows what the
/// cache holds of it as stale, and nothing where it holds nothing. The sidebar
/// takes half of the terminal, and nothing is open or asked for.
pub proof fn what_is_there_at_the_start(
    hosts: Seq<HostConfigView>,
    rows: Seq<SidebarRowView>,
    cache: Map<Seq<char>, CacheEntryView>,
    terminal: Option<u16>,
    i: int,
)
    requires
        model::wide_enough(terminal),
        0 <= i < hosts.len(),
    ensures
        ({
            let app = model::initial(hosts, rows, cache, terminal);
            let cfg = hosts[i];
            let key = cfg.user + "@"@ + cfg.hostname + ":"@ + text::decimal(cfg.port as nat);
            let h = app.hosts[i];
            &&& app.hosts.len() == hosts.len()
            &&& app.rows == rows
            &&& h.cfg == cfg
            &&& h.status is Unknown
            &&& h.task is None
            &&& cache.contains_key(key) ==> h.info == Some(cache[key].info) && h.is_stale
            &&& !cache.contains_key(key) ==> h.info is None && !h.is_stale
            &&& app.cache == cache
            &&& terminal matches Some(w) ==> app.sidebar_width == w / 2
            &&& terminal is None ==> app.sidebar_width == 40
            &&& app.selected_row == 0 && app.filter.len() == 0 && app.effects.len() == 0
            &&& laws::on_main_screen(app)
        }),
{
}

// ── Scrolling ────────────────────────────────────────────────────────────────

/// In the full view of a task: the arrows scroll by a line and the page keys by
/// twenty, never past the ends, and stop following the output; End and `G` follow
/// it again; Esc and `q` close the view. Nothing else changes.
pub proof fn scrolling_the_output(app: AppView, modifiers: KeyModifiers, i: int)
    requires
        app.valid(),
        !app.quit_confirm && app.reboot is None && app.review is None && !app.filter_editing,
        app.viewing_task == Some(i),
        app.hosts[i].task is Some,
    ensures
        ({
            let t = app.hosts[i].task->0;
            let at = t.scroll_offset as int;
            let to = |offset: int|
                AppView {
                    hosts: app.hosts.update(
                        i,
                        HostView {
                            task: Some(
                                TaskView {
                                    auto_scroll: false,
                                    scroll_offset: offset as u16,
                                    ..t
                                },
                            ),
                            ..app.hosts[i]
                        },
                    ),
                    ..app
                };
            let tail = AppView {
                hosts: app.hosts.update(
                    i,
                    HostView { task: Some(TaskView { auto_scroll: true, ..t }), ..app.hosts[i] },
                ),
                ..app
            };
            let after = |code: KeyCode| app.after_key(code, modifiers).0;
            &&& after(KeyCode::Up) == to(if at >= 1 { at - 1 } else { 0 })
            &&& after(KeyCode::Char('k')) == after(KeyCode::Up)
            &&& after(KeyCode::Down) == to(if at <= 65534 { at + 1 } else { 65535 })
            &&& after(KeyCode::Char('j')) == after(KeyCode::Down)
            &&& after(KeyCode::PageUp) == to(if at >= 20 { at - 20 } else { 0 })
            &&& after(KeyCode::PageDown) == to(if at <= 65515 { at + 20 } else { 65535 })
            &&& after(KeyCode::End) == tail && after(KeyCode::Char('G')) == tail
            &&& after(KeyCode::Esc) == AppView { viewing_task: None, ..app }
            &&& after(KeyCode::Char('q')) == AppView { viewing_task: None, ..app }
        }),
{
}

// ── Keys of the review ───────────────────────────────────────────────────────

/// Which keys do what in the review, while nothing is up for confirmation.
pub proof fn the_keys_of_the_review(app: AppView, s: ReviewView, modifiers: KeyModifiers)
    requires
        app.review == Some(s),
        !s.confirm_execute,
    ensures
        ({
            let key = |code: KeyCode| app.review_key(s, code, modifiers);
            let does = |command: ReviewCommand|
                {
                    let next = AppView { review: Some(s.after(command)), ..app };
                    if s.moves(command) {
                        next.with_diff_requested()
                    } else {
                        next
                    }
                };
            &&& key(KeyCode::Esc) == AppView { review: None, ..app }
            &&& key(KeyCode::Char('q')) == AppView { review: None, ..app }
            &&& modifiers.just_control() ==> key(KeyCode::Char('c')) == AppView {
                review: None,
                ..app
            }
            &&& key(KeyCode::Up) == does(ReviewCommand::Previous)
            &&& key(KeyCode::Down) == does(ReviewCommand::Next)
            &&& key(KeyCode::PageUp) == does(ReviewCommand::PageUp)
            &&& key(KeyCode::PageDown) == does(ReviewCommand::PageDown)
            &&& key(KeyCode::Home) == does(ReviewCommand::Top)
            &&& key(KeyCode::Enter) == does(ReviewCommand::Execute)
            &&& key(KeyCode::Char(' ')) == does(ReviewCommand::Unmark)
            &&& modifiers.plain() ==> {
                &&& key(KeyCode::Char('k')) == does(ReviewCommand::Previous)
                &&& key(KeyCode::Char('j')) == does(ReviewCommand::Next)
                &&& key(KeyCode::Char('g')) == does(ReviewCommand::Top)
                &&& key(KeyCode::Char('d')) == does(ReviewCommand::MarkDiscard)
                &&& key(KeyCode::Char('a')) == does(ReviewCommand::MarkApply)
                &&& key(KeyCode::Char('u')) == does(ReviewCommand::Unmark)
            }
        }),
{
}

/// A diff may be asked for when the selection moves, or tries to move up, and at
/// no other time.
pub proof fn only_moving_asks_for_a_diff(s: ReviewView, command: ReviewCommand)
    ensures
        s.moves(command) <==> command == ReviewCommand::Previous || ((command
            == ReviewCommand::Next || command == ReviewCommand::MarkDiscard || command
            == ReviewCommand::MarkApply) && s.selected + 1 < s.files.len()),
        s.valid() && s.after(command).selected != s.selected ==> s.moves(command),
{
}

// ── Searching ────────────────────────────────────────────────────────────────

/// When a change of the filter hides the selected row, the first visible row is
/// selected; otherwise the selection stays where it is.
pub proof fn a_hidden_selection_jumps_to_the_first_match(
    app: AppView,
    c: char,
    modifiers: KeyModifiers,
)
    requires
        laws::searching(app),
        !modifiers.control && !modifiers.alt,
    ensures
        ({
            let after = app.after_key(KeyCode::Char(c), modifiers).0;
            let v = after.visible();
            if v.len() > 0 && !v.contains(app.selected_row) {
                after.selected_row == v[0]
            } else {
                after.selected_row == app.selected_row
            }
        }),
{
}

// ── Work in progress ─────────────────────────────────────────────────────────

/// What counts as work in progress: a task that runs, or a host that is being
/// connected to or gathered.
pub proof fn what_counts_as_work(h: HostView)
    ensures
        h.running() <==> h.task is Some && h.task->0.status is Running,
        h.active() <==> (h.task is Some && h.task->0.status is Running) || h.status is Connecting
            || h.status is Gathering,
{
}

/// A successful gather is kept under the key of its host with its time, and what
/// is kept of other hosts stays.
pub proof fn a_gather_is_kept_with_its_time(
    app: AppView,
    i: int,
    info: HostInfoView,
    now: u64,
    other: Seq<char>,
)
    requires
        0 <= i < app.hosts.len(),
    ensures
        ({
            let after = app.after_message(
                MessageView::GatherDone { host_idx: i, result: Ok(info) },
                now,
            );
            let cfg = app.hosts[i].cfg;
            let key = cfg.user + "@"@ + cfg.hostname + ":"@ + text::decimal(cfg.port as nat);
            &&& after.cache.contains_key(key)
            &&& after.cache[key] == CacheEntryView { info, fetched_at_unix: now }
            &&& other != key ==> after.cache.contains_key(other) == app.cache.contains_key(other)
            &&& other != key && app.cache.contains_key(other) ==> after.cache[other]
                == app.cache[other]
            &&& after.effects == app.effects.push(EffectView::SaveCache)
            &&& after.hosts[i].task == app.hosts[i].task
        }),
{
}

// ── Confirmations ────────────────────────────────────────────────────────────

/// While quitting is up for confirmation, a key that does not confirm dismisses
/// the question and does nothing else; while a batch is, `Y` does what `y` does.
pub proof fn keys_of_the_confirmations(app: AppView, code: KeyCode, modifiers: KeyModifiers)
    ensures
        app.quit_confirm && app.after_key(code, modifiers).1 ==> app.after_key(code, modifiers).0
            == (AppView { quit_confirm: false, ..app }),
        app.after_key(KeyCode::Char('Y'), modifiers) == app.after_key(
            KeyCode::Char('y'),
            modifiers,
        ) || !(app.quit_confirm || (app.review is Some && app.reboot is None
            && app.review->0.confirm_execute)),
{
}

// ── Events ───────────────────────────────────────────────────────────────────

/// Every event goes where it belongs: a tick moves the clock by one and round, a
/// message and a key press are taken in, the mouse is followed, and the release
/// of a key and anything else does nothing.
pub proof fn events_go_where_they_belong(
    app: AppView,
    msg: MessageView,
    code: KeyCode,
    modifiers: KeyModifiers,
    kind: MouseEventKind,
    col: u16,
    terminal: Option<u16>,
    now: u64,
)
    ensures
        app.after_event(EventView::Tick, now).1,
        ({
            let ticked = app.after_event(EventView::Tick, now).0;
            &&& ticked == (AppView { tick: ticked.tick, ..app })
            &&& app.tick < u64::MAX ==> ticked.tick == app.tick + 1
            &&& app.tick == u64::MAX ==> ticked.tick == 0
        }),
        app.after_event(EventView::Message(msg), now) == (app.after_message(msg, now), true),
        app.after_event(EventView::Key { code, modifiers, pressed: true }, now) == app.after_key(
            code,
            modifiers,
        ),
        app.after_event(EventView::Key { code, modifiers, pressed: false }, now) == (app, true),
        app.after_event(EventView::Mouse { kind, col, terminal }, now) == (
            app.after_mouse(kind, col, terminal),
            true,
        ),
        app.after_event(EventView::Other, now) == (app, true),
{
}

/// A terminal is wide enough from twenty columns on; one of unknown width is.
pub proof fn when_a_terminal_is_wide_enough(terminal: Option<u16>)
    ensures
        model::wide_enough(terminal) <==> (terminal matches Some(w) ==> w >= 20),
{
}

} // verus!
