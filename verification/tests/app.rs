use aptmatic::app::App;
use aptmatic::apt::{HostInfo, Package, PendingConffile};
use aptmatic::cache::Cache;
use aptmatic::config::{Config, Defaults, RawConfig, RawGroup, RawHost};
use aptmatic::keys::{KeyCode, KeyModifiers, MouseButton, MouseEventKind};
use aptmatic::model::{SIDEBAR_MAX_WIDTH, SIDEBAR_MIN_WIDTH};
use aptmatic::review::DiffState;
use aptmatic::state::{AppMessage, HostStatus};
use aptmatic::task::{ConffileAction, ConffileDecision, TaskKind, TaskState, TaskStatus};


fn make_app(raw: RawConfig) -> App {
    App::new(&Config { raw }, Cache::new(), None)
}

fn raw_host(hostname: &str) -> RawHost {
    RawHost {
        hostname: hostname.to_string(),
        user: Some("alice".to_string()),
        port: None,
        use_sudo: None,
        identity_file: None,
    }
}

// ── TaskKind::command ─────────────────────────────────────────────────────

#[test]
fn task_kind_command_update_with_sudo() {
    let cmd = TaskKind::Update.command(true);
    assert!(cmd.contains("sudo -n"));
    assert!(cmd.contains("apt-get update"));
}

#[test]
fn task_kind_command_update_without_sudo() {
    let cmd = TaskKind::Update.command(false);
    assert!(!cmd.contains("sudo"));
    assert!(cmd.contains("apt-get update"));
}

#[test]
fn task_kind_command_upgrade_with_sudo() {
    let cmd = TaskKind::Upgrade.command(true);
    assert!(cmd.contains("sudo -n"));
    assert!(cmd.contains("apt-get") && cmd.contains("upgrade"));
}

#[test]
fn task_kind_command_upgrade_without_sudo() {
    let cmd = TaskKind::Upgrade.command(false);
    assert!(!cmd.contains("sudo"));
    assert!(cmd.contains("apt-get") && cmd.contains("upgrade"));
}

#[test]
fn task_kind_full_upgrade_label() {
    assert_eq!(TaskKind::FullUpgrade.label(), "apt-get full-upgrade");
}

#[test]
fn task_kind_command_full_upgrade_with_sudo() {
    let cmd = TaskKind::FullUpgrade.command(true);
    assert!(cmd.contains("sudo -n"));
    assert!(cmd.contains("apt-get") && cmd.contains("full-upgrade"));
}

#[test]
fn task_kind_command_full_upgrade_without_sudo() {
    let cmd = TaskKind::FullUpgrade.command(false);
    assert!(!cmd.contains("sudo"));
    assert!(cmd.contains("apt-get") && cmd.contains("full-upgrade"));
}

#[test]
fn task_kind_command_full_upgrade_is_noninteractive() {
    let cmd = TaskKind::FullUpgrade.command(false);
    assert!(cmd.contains("DEBIAN_FRONTEND=noninteractive"));
}

#[test]
fn task_kind_command_full_upgrade_not_same_as_upgrade() {
    let upgrade = TaskKind::Upgrade.command(false);
    let full_upgrade = TaskKind::FullUpgrade.command(false);
    assert_ne!(upgrade, full_upgrade);
}

#[test]
fn task_kind_autoremove_label() {
    assert_eq!(TaskKind::AutoRemove.label(), "apt-get autoremove --purge");
}

#[test]
fn task_kind_command_autoremove_with_sudo() {
    let cmd = TaskKind::AutoRemove.command(true);
    assert!(cmd.contains("sudo -n"));
    assert!(cmd.contains("autoremove") && cmd.contains("--purge"));
}

#[test]
fn task_kind_command_autoremove_without_sudo() {
    let cmd = TaskKind::AutoRemove.command(false);
    assert!(!cmd.contains("sudo"));
    assert!(cmd.contains("autoremove") && cmd.contains("--purge"));
}

#[test]
fn task_kind_command_autoremove_is_noninteractive() {
    let cmd = TaskKind::AutoRemove.command(false);
    assert!(cmd.contains("DEBIAN_FRONTEND=noninteractive"));
}

/// A changed conffile makes dpkg prompt on stdin, which hangs the task
/// forever over SSH. Every dpkg-invoking command must defuse that.
#[test]
fn dpkg_invoking_commands_never_prompt_on_conffiles() {
    let cmds = [
        TaskKind::Upgrade.command(false),
        TaskKind::UpgradeSecurity(vec!["openssh-server".to_string()]).command(false),
        TaskKind::FullUpgrade.command(false),
        TaskKind::AutoRemove.command(false),
    ];
    for cmd in cmds {
        assert!(cmd.contains("--force-confdef"), "missing confdef: {cmd}");
        assert!(cmd.contains("--force-confold"), "missing confold: {cmd}");
        assert!(cmd.contains("</dev/null"), "stdin still open: {cmd}");
    }
}

// ── Pending conffiles ─────────────────────────────────────────────────────

fn pending_conffile(live: &str) -> PendingConffile {
    PendingConffile {
        pending_path: format!("{live}.dpkg-dist"),
        live_path: live.to_string(),
        package: None,
    }
}

fn discard(live: &str) -> ConffileDecision {
    ConffileDecision {
        file: pending_conffile(live),
        action: ConffileAction::Discard,
    }
}

fn apply(live: &str) -> ConffileDecision {
    ConffileDecision {
        file: pending_conffile(live),
        action: ConffileAction::Apply,
    }
}

#[test]
fn resolve_discard_removes_only_the_pending_file() {
    let cmd = TaskKind::ResolveConffiles(vec![discard("/etc/ssh/sshd_config")]).command(true);
    assert!(cmd.contains("sudo -n rm -f -- '/etc/ssh/sshd_config.dpkg-dist'"));
    // The live config must not appear as an argument to rm.
    assert!(!cmd.contains("rm -f -- '/etc/ssh/sshd_config'"));
}

#[test]
fn resolve_apply_backs_up_before_replacing() {
    let cmd = TaskKind::ResolveConffiles(vec![apply("/etc/ssh/sshd_config")]).command(true);
    let backup = cmd
        .find("cp -a --")
        .expect("apply must copy the live file first");
    let install = cmd.find("mv --").expect("apply must move the new file in");
    assert!(backup < install, "backup has to happen before the move");
    assert!(cmd.contains("'/etc/ssh/sshd_config.dpkg-old'"));
    // `set -e` inside the subshell is what makes a failed backup abort
    // the move for that file.
    assert!(cmd.contains("( set -e;"));
}

/// One failed file must not stop the rest of the batch, but must still
/// fail the task overall.
#[test]
fn resolve_batch_isolates_failures_and_reports_them() {
    let cmd = TaskKind::ResolveConffiles(vec![
        apply("/etc/a.conf"),
        discard("/etc/b.conf"),
        apply("/etc/c.conf"),
    ])
    .command(true);
    // Every decision appears, in order.
    let a = cmd.find("'/etc/a.conf'").expect("a missing");
    let b = cmd.find("'/etc/b.conf.dpkg-dist'").expect("b missing");
    let c = cmd.find("'/etc/c.conf'").expect("c missing");
    assert!(a < b && b < c, "decisions out of order");
    // Failure handling: each step records rather than aborts, and the
    // batch exits non-zero if anything failed.
    assert_eq!(cmd.matches("fail=1").count(), 3);
    assert!(cmd.contains("exit $fail"));
    // A bare `set -e` outside the per-file subshells would abort the
    // whole batch on the first failure.
    assert!(!cmd.contains("{ set -e"));
}

/// Paths come from `find` on the remote host, so a filename containing a
/// quote must not be able to break out into a second command.
#[test]
fn resolve_commands_quote_hostile_paths() {
    let nasty = PendingConffile {
        pending_path: "/etc/x'; rm -rf /; '.dpkg-dist".to_string(),
        live_path: "/etc/x'; rm -rf /; '".to_string(),
        package: None,
    };
    for action in [ConffileAction::Discard, ConffileAction::Apply] {
        let cmd = TaskKind::ResolveConffiles(vec![ConffileDecision {
            file: nasty.clone(),
            action,
        }])
        .command(false);
        assert!(
            !cmd.contains("; rm -rf /; '.dpkg-dist'"),
            "path escaped quoting: {cmd}"
        );
        assert!(cmd.contains(r#"'\''"#), "expected escaped quotes in {cmd}");
        // Every occurrence of the path — including inside progress echoes
        // — has to be quoted, so the raw form must never appear.
        assert!(
            !cmd.contains("/etc/x'; rm"),
            "unquoted path reached the command: {cmd}"
        );
    }
}

#[test]
fn resolve_label_counts_each_action() {
    let kind = TaskKind::ResolveConffiles(vec![
        discard("/etc/a.conf"),
        apply("/etc/b.conf"),
        discard("/etc/c.conf"),
    ]);
    assert_eq!(kind.label(), "resolve config files (2 discard, 1 apply)");
}

fn app_with_pending_conffiles(files: Vec<PendingConffile>) -> App {
    let mut app = make_app(RawConfig {
        defaults: Defaults {
            user: Some("alice".to_string()),
            ..Default::default()
        },
        hosts: vec![raw_host("web01.invalid")],
        ..Default::default()
    });
    app.hosts[0].info = Some(HostInfo {
        pending_conffiles: files,
        ..Default::default()
    });
    app.hosts[0].status = HostStatus::Ready;
    app
}

#[test]
fn c_opens_review_modal_when_files_are_pending() {
    let mut app = app_with_pending_conffiles(vec![pending_conffile("/etc/hosts")]);
    app.handle_key(KeyCode::Char('c'), KeyModifiers::none());
    assert!(app.conffile_review.is_some());
}

/// `c` opening the review modal must not shadow Ctrl-C quitting.
#[test]
fn ctrl_c_still_quits_rather_than_opening_the_modal() {
    let mut app = app_with_pending_conffiles(vec![pending_conffile("/etc/hosts")]);
    let keep_running = app.handle_key(KeyCode::Char('c'), KeyModifiers::control());
    assert!(!keep_running);
    assert!(app.conffile_review.is_none());
}

#[test]
fn c_does_nothing_when_nothing_is_pending() {
    let mut app = app_with_pending_conffiles(vec![]);
    app.handle_key(KeyCode::Char('c'), KeyModifiers::none());
    assert!(app.conffile_review.is_none());
}

#[test]
fn review_modal_navigates_between_files() {
    let mut app = app_with_pending_conffiles(vec![
        pending_conffile("/etc/a.conf"),
        pending_conffile("/etc/b.conf"),
    ]);
    app.open_conffile_review(0);
    app.handle_key(KeyCode::Down, KeyModifiers::none());
    assert_eq!(app.conffile_review.as_ref().unwrap().selected, 1);
    // Selection stops at the end rather than wrapping onto a missing file.
    app.handle_key(KeyCode::Down, KeyModifiers::none());
    assert_eq!(app.conffile_review.as_ref().unwrap().selected, 1);
    app.handle_key(KeyCode::Up, KeyModifiers::none());
    assert_eq!(app.conffile_review.as_ref().unwrap().selected, 0);
}

/// `d`/`a` only mark; nothing may touch the host until the batch is
/// confirmed with Enter + y.
#[test]
fn marking_never_starts_a_task() {
    let mut app = app_with_pending_conffiles(vec![
        pending_conffile("/etc/a.conf"),
        pending_conffile("/etc/b.conf"),
    ]);
    app.open_conffile_review(0);

    app.handle_key(KeyCode::Char('d'), KeyModifiers::none());
    app.handle_key(KeyCode::Char('a'), KeyModifiers::none());

    let state = app.conffile_review.as_ref().unwrap();
    assert_eq!(state.decisions[0], Some(ConffileAction::Discard));
    assert_eq!(state.decisions[1], Some(ConffileAction::Apply));
    assert!(app.hosts[0].task.is_none(), "marking must not act");
}

/// Marking auto-advances so a batch can be triaged with repeated
/// keypresses.
#[test]
fn marking_advances_to_the_next_file() {
    let mut app = app_with_pending_conffiles(vec![
        pending_conffile("/etc/a.conf"),
        pending_conffile("/etc/b.conf"),
    ]);
    app.open_conffile_review(0);
    app.handle_key(KeyCode::Char('d'), KeyModifiers::none());
    assert_eq!(app.conffile_review.as_ref().unwrap().selected, 1);
}

#[test]
fn marking_same_action_again_unmarks() {
    let mut app = app_with_pending_conffiles(vec![pending_conffile("/etc/a.conf")]);
    app.open_conffile_review(0);
    app.handle_key(KeyCode::Char('d'), KeyModifiers::none());
    app.handle_key(KeyCode::Char('d'), KeyModifiers::none());
    assert_eq!(app.conffile_review.as_ref().unwrap().decisions[0], None);
}

#[test]
fn unmark_clears_a_decision() {
    let mut app = app_with_pending_conffiles(vec![pending_conffile("/etc/a.conf")]);
    app.open_conffile_review(0);
    app.handle_key(KeyCode::Char('a'), KeyModifiers::none());
    app.handle_key(KeyCode::Char('u'), KeyModifiers::none());
    assert_eq!(app.conffile_review.as_ref().unwrap().decisions[0], None);
}

/// Executing mutates live configs, so a single stray Enter must not be
/// enough to do it.
#[test]
fn execute_requires_confirmation() {
    let mut app = app_with_pending_conffiles(vec![
        pending_conffile("/etc/a.conf"),
        pending_conffile("/etc/b.conf"),
    ]);
    app.open_conffile_review(0);
    app.handle_key(KeyCode::Char('d'), KeyModifiers::none());
    app.handle_key(KeyCode::Char('a'), KeyModifiers::none());

    app.handle_key(KeyCode::Enter, KeyModifiers::none());
    assert!(app.conffile_review.as_ref().unwrap().confirm_execute);
    assert!(app.hosts[0].task.is_none(), "no task before confirming");

    app.handle_key(KeyCode::Char('n'), KeyModifiers::none());
    assert!(!app.conffile_review.as_ref().unwrap().confirm_execute);
    assert!(app.hosts[0].task.is_none(), "cancelling must not act");

    app.handle_key(KeyCode::Enter, KeyModifiers::none());
    app.handle_key(KeyCode::Char('y'), KeyModifiers::none());
    assert!(app.conffile_review.is_none(), "modal closes once executed");
    match app.hosts[0].task.as_ref().map(|t| &t.kind) {
        Some(TaskKind::ResolveConffiles(decisions)) => {
            assert_eq!(decisions.len(), 2);
            assert_eq!(decisions[0].action, ConffileAction::Discard);
            assert_eq!(decisions[1].action, ConffileAction::Apply);
        }
        other => panic!("expected ResolveConffiles task, got {other:?}"),
    }
}

/// Undecided files are simply left out of the batch — they stay pending
/// for a later review.
#[test]
fn execute_skips_unmarked_files() {
    let mut app = app_with_pending_conffiles(vec![
        pending_conffile("/etc/a.conf"),
        pending_conffile("/etc/b.conf"),
    ]);
    app.open_conffile_review(0);
    app.handle_key(KeyCode::Char('d'), KeyModifiers::none());
    app.handle_key(KeyCode::Enter, KeyModifiers::none());
    app.handle_key(KeyCode::Char('y'), KeyModifiers::none());
    match app.hosts[0].task.as_ref().map(|t| &t.kind) {
        Some(TaskKind::ResolveConffiles(decisions)) => {
            assert_eq!(decisions.len(), 1);
            assert_eq!(decisions[0].file.live_path, "/etc/a.conf");
        }
        other => panic!("expected ResolveConffiles task, got {other:?}"),
    }
}

#[test]
fn enter_with_nothing_marked_shows_a_notice() {
    let mut app = app_with_pending_conffiles(vec![pending_conffile("/etc/a.conf")]);
    app.open_conffile_review(0);
    app.handle_key(KeyCode::Enter, KeyModifiers::none());
    let state = app.conffile_review.as_ref().unwrap();
    assert!(!state.confirm_execute);
    assert!(state.notice.is_some());
}

#[test]
fn esc_closes_review_modal_without_acting() {
    let mut app = app_with_pending_conffiles(vec![pending_conffile("/etc/hosts")]);
    app.open_conffile_review(0);
    app.handle_key(KeyCode::Esc, KeyModifiers::none());
    assert!(app.conffile_review.is_none());
    assert!(app.hosts[0].task.is_none());
}

/// Only one task per host can run, so a batch executed while one is in
/// flight would be silently dropped — the modal says so instead, keeping
/// the marks so nothing has to be re-triaged.
#[test]
fn review_refuses_to_execute_while_a_task_runs() {
    let mut app = app_with_pending_conffiles(vec![pending_conffile("/etc/hosts")]);
    app.open_conffile_review(0);
    app.hosts[0].task = Some(TaskState::new(TaskKind::Update));

    app.handle_key(KeyCode::Char('d'), KeyModifiers::none());
    app.handle_key(KeyCode::Enter, KeyModifiers::none());
    app.handle_key(KeyCode::Char('y'), KeyModifiers::none());
    let state = app
        .conffile_review
        .as_ref()
        .expect("modal stays open on refusal");
    assert!(state.notice.is_some());
    assert_eq!(
        state.decisions[0],
        Some(ConffileAction::Discard),
        "marks survive the refusal"
    );
    assert!(matches!(
        app.hosts[0].task.as_ref().map(|t| &t.kind),
        Some(TaskKind::Update)
    ));
}

#[test]
fn diff_for_a_closed_modal_is_discarded() {
    let mut app = app_with_pending_conffiles(vec![pending_conffile("/etc/hosts")]);
    app.handle_message(AppMessage::ConffileDiff {
        host_idx: 0,
        pending_path: "/etc/hosts.dpkg-dist".to_string(),
        result: Ok(vec!["-a".to_string(), "+b".to_string()]),
    });
    assert!(app.conffile_review.is_none());
}

#[test]
fn diff_result_lands_on_the_open_modal() {
    let mut app = app_with_pending_conffiles(vec![pending_conffile("/etc/hosts")]);
    app.open_conffile_review(0);
    app.handle_message(AppMessage::ConffileDiff {
        host_idx: 0,
        pending_path: "/etc/hosts.dpkg-dist".to_string(),
        result: Ok(vec!["-a".to_string(), "+b".to_string()]),
    });
    let state = app.conffile_review.as_ref().unwrap();
    assert!(matches!(state.selected_diff(), Some(DiffState::Loaded(l)) if l.len() == 2));
}

#[test]
fn task_kind_command_purge_rc_with_sudo() {
    let cmd = TaskKind::PurgeRc.command(true);
    assert!(cmd.contains("sudo -n"));
    assert!(cmd.contains("dpkg --purge"));
}

#[test]
fn task_kind_command_purge_rc_without_sudo() {
    let cmd = TaskKind::PurgeRc.command(false);
    assert!(!cmd.contains("sudo"));
    assert!(cmd.contains("dpkg --purge"));
}

// ── handle_mouse ──────────────────────────────────────────────────────────

fn bare_app() -> App {
    make_app(RawConfig {
        defaults: Defaults {
            user: Some("alice".to_string()),
            ..Default::default()
        },
        hosts: vec![raw_host("h1.example.com")],
        ..Default::default()
    })
}

#[test]
fn handle_mouse_down_on_border_starts_drag() {
    let mut app = bare_app();
    app.sidebar_width = 28;
    app.handle_mouse(MouseEventKind::Down(MouseButton::Left), 27, None);
    assert!(app.dragging_sidebar);
}

#[test]
fn handle_mouse_down_off_border_does_not_start_drag() {
    let mut app = bare_app();
    app.sidebar_width = 28;
    app.handle_mouse(MouseEventKind::Down(MouseButton::Left), 10, None);
    assert!(!app.dragging_sidebar);
}

#[test]
fn handle_mouse_drag_updates_sidebar_width() {
    let mut app = bare_app();
    app.dragging_sidebar = true;
    app.handle_mouse(MouseEventKind::Drag(MouseButton::Left), 39, None);
    assert_eq!(app.sidebar_width, 40);
}

#[test]
fn handle_mouse_drag_clamps_to_minimum() {
    let mut app = bare_app();
    app.dragging_sidebar = true;
    app.handle_mouse(MouseEventKind::Drag(MouseButton::Left), 0, None);
    assert_eq!(app.sidebar_width, SIDEBAR_MIN_WIDTH);
}

#[test]
fn handle_mouse_drag_clamps_to_maximum() {
    let mut app = bare_app();
    app.dragging_sidebar = true;
    app.handle_mouse(MouseEventKind::Drag(MouseButton::Left), 200, None);
    assert_eq!(app.sidebar_width, SIDEBAR_MAX_WIDTH);
}

#[test]
fn handle_mouse_up_stops_drag() {
    let mut app = bare_app();
    app.dragging_sidebar = true;
    app.handle_mouse(MouseEventKind::Up(MouseButton::Left), 0, None);
    assert!(!app.dragging_sidebar);
}

#[test]
fn handle_mouse_down_on_border_blocked_when_detail_zoom() {
    let mut app = bare_app();
    app.sidebar_width = 28;
    app.detail_zoom = true;
    app.handle_mouse(MouseEventKind::Down(MouseButton::Left), 27, None);
    assert!(!app.dragging_sidebar);
}

// ── selected_host_indices ─────────────────────────────────────────────────

#[test]
fn selected_host_indices_single_host() {
    let app = make_app(RawConfig {
        defaults: Defaults {
            user: Some("alice".to_string()),
            ..Default::default()
        },
        hosts: vec![raw_host("h1.example.com")],
        ..Default::default()
    });
    // sidebar_rows = [Host{0}]; selected_row defaults to 0
    assert_eq!(app.selected_host_indices(), vec![0]);
}

#[test]
fn selected_host_indices_group_returns_all_children() {
    let app = make_app(RawConfig {
        defaults: Defaults {
            user: Some("alice".to_string()),
            ..Default::default()
        },
        groups: vec![RawGroup {
            name: "web".to_string(),
            user: None,
            port: None,
            use_sudo: None,
            identity_file: None,
            hosts: vec![raw_host("web1.example.com"), raw_host("web2.example.com")],
        }],
        ..Default::default()
    });
    // sidebar_rows = [Group, Host{0}, Host{1}]; selected_row=0 => Group
    assert_eq!(app.selected_host_indices(), vec![0, 1]);
}

#[test]
fn selected_host_indices_duplicate_group_names_are_independent() {
    // Two groups with the same name — selecting the first should only return its hosts
    let app = make_app(RawConfig {
        defaults: Defaults {
            user: Some("alice".to_string()),
            ..Default::default()
        },
        groups: vec![
            RawGroup {
                name: "web".to_string(),
                user: None,
                port: None,
                use_sudo: None,
                identity_file: None,
                hosts: vec![raw_host("web1.example.com")],
            },
            RawGroup {
                name: "web".to_string(),
                user: None,
                port: None,
                use_sudo: None,
                identity_file: None,
                hosts: vec![raw_host("web2.example.com")],
            },
        ],
        ..Default::default()
    });
    // rows: [Group"web", Host{0}, Group"web", Host{1}]
    // selecting row 0 (first "web" group) should only return [0]
    assert_eq!(app.selected_host_indices(), vec![0]);
}

#[test]
fn selected_host_indices_empty_group_returns_empty() {
    let mut app = make_app(RawConfig {
        groups: vec![RawGroup {
            name: "empty".to_string(),
            user: None,
            port: None,
            use_sudo: None,
            identity_file: None,
            hosts: vec![],
        }],
        ..Default::default()
    });
    app.selected_row = 0; // Group "empty"
    assert_eq!(app.selected_host_indices(), Vec::<usize>::new());
}

#[test]
fn selected_host_indices_group_excludes_trailing_ungrouped_hosts() {
    // A group followed directly by top-level (ungrouped) hosts, with no
    // further group in between — sidebar_rows has no marker separating
    // them, so the ungrouped host must not leak into the group's selection.
    let app = make_app(RawConfig {
        defaults: Defaults {
            user: Some("alice".to_string()),
            ..Default::default()
        },
        groups: vec![RawGroup {
            name: "web".to_string(),
            user: None,
            port: None,
            use_sudo: None,
            identity_file: None,
            hosts: vec![raw_host("web1.example.com")],
        }],
        hosts: vec![raw_host("db1.example.com")],
    });
    // sidebar_rows = [Group"web", Host{0=web1}, Host{1=db1}]; selecting the group
    assert_eq!(app.selected_host_indices(), vec![0]);
}

#[test]
fn selected_host_indices_out_of_bounds_returns_empty() {
    let mut app = bare_app();
    app.selected_row = 999;
    assert_eq!(app.selected_host_indices(), Vec::<usize>::new());
}

// ── Quit confirmation modal ───────────────────────────────────────────────

#[test]
fn q_with_no_running_tasks_quits_immediately() {
    let mut app = bare_app();
    assert!(!app.handle_key(KeyCode::Char('q'), KeyModifiers::none()));
    assert!(!app.quit_confirm);
}

#[test]
fn esc_with_no_running_tasks_quits_immediately() {
    let mut app = bare_app();
    assert!(!app.handle_key(KeyCode::Esc, KeyModifiers::none()));
}

#[test]
fn ctrl_c_with_no_running_tasks_quits_immediately() {
    let mut app = bare_app();
    assert!(!app.handle_key(KeyCode::Char('c'), KeyModifiers::control()));
}

#[test]
fn q_with_running_task_opens_quit_confirm_modal() {
    let mut app = bare_app();
    app.hosts[0].task = Some(TaskState::new(TaskKind::Upgrade));
    assert!(app.handle_key(KeyCode::Char('q'), KeyModifiers::none()));
    assert!(app.quit_confirm);
}

#[test]
fn quit_confirm_y_confirms_quit() {
    let mut app = bare_app();
    app.hosts[0].task = Some(TaskState::new(TaskKind::Upgrade));
    app.handle_key(KeyCode::Char('q'), KeyModifiers::none());
    assert!(!app.handle_key(KeyCode::Char('y'), KeyModifiers::none()));
}

#[test]
fn quit_confirm_other_key_cancels() {
    let mut app = bare_app();
    app.hosts[0].task = Some(TaskState::new(TaskKind::Upgrade));
    app.handle_key(KeyCode::Char('q'), KeyModifiers::none());
    assert!(app.handle_key(KeyCode::Esc, KeyModifiers::none()));
    assert!(!app.quit_confirm);
}

#[test]
fn running_task_count_counts_only_running_tasks() {
    let mut app = bare_app();
    assert_eq!(app.running_task_count(), 0);
    app.hosts[0].task = Some(TaskState::new(TaskKind::Upgrade));
    assert_eq!(app.running_task_count(), 1);
    app.hosts[0].task.as_mut().unwrap().status = TaskStatus::Done(0);
    assert_eq!(app.running_task_count(), 0);
}

#[test]
fn active_operation_count_includes_gather_states() {
    let mut app = bare_app();
    assert_eq!(app.active_operation_count(), 0);
    app.hosts[0].status = HostStatus::Connecting;
    assert_eq!(app.active_operation_count(), 1);
    app.hosts[0].status = HostStatus::Gathering;
    assert_eq!(app.active_operation_count(), 1);
    app.hosts[0].status = HostStatus::Ready;
    assert_eq!(app.active_operation_count(), 0);
}

#[test]
fn q_with_mid_refresh_host_opens_quit_confirm_modal() {
    let mut app = bare_app();
    app.hosts[0].status = HostStatus::Connecting;
    assert!(app.handle_key(KeyCode::Char('q'), KeyModifiers::none()));
    assert!(app.quit_confirm);
}

// ── Reboot confirmation modal ─────────────────────────────────────────────

fn one_host_app() -> App {
    make_app(RawConfig {
        hosts: vec![raw_host("myserver")],
        ..Default::default()
    })
}

#[test]
fn b_key_opens_reboot_modal() {
    let mut app = one_host_app();
    app.selected_row = 0;
    app.handle_key(KeyCode::Char('b'), KeyModifiers::none());
    let state = app.reboot_confirm.as_ref().expect("modal should be open");
    assert_eq!(state.host_idx, 0);
    assert!(state.input.is_empty());
    assert!(!state.mismatch);
}

#[test]
fn esc_closes_reboot_modal() {
    let mut app = one_host_app();
    app.selected_row = 0;
    app.handle_key(KeyCode::Char('b'), KeyModifiers::none());
    assert!(app.reboot_confirm.is_some());
    app.handle_key(KeyCode::Esc, KeyModifiers::none());
    assert!(app.reboot_confirm.is_none());
}

#[test]
fn ctrl_c_closes_reboot_modal() {
    let mut app = one_host_app();
    app.selected_row = 0;
    app.handle_key(KeyCode::Char('b'), KeyModifiers::none());
    assert!(app.reboot_confirm.is_some());
    app.handle_key(KeyCode::Char('c'), KeyModifiers::control());
    assert!(app.reboot_confirm.is_none());
}

#[test]
fn ctrl_c_quits_even_when_quit_confirm_modal_is_open() {
    let mut app = bare_app();
    app.hosts[0].task = Some(TaskState::new(TaskKind::Upgrade));
    // 'q' shows the modal (task running)
    app.handle_key(KeyCode::Char('q'), KeyModifiers::none());
    assert!(app.quit_confirm);
    // Ctrl-C quits immediately without requiring 'y'
    assert!(!app.handle_key(KeyCode::Char('c'), KeyModifiers::control()));
}

#[test]
fn typing_in_modal_updates_input() {
    let mut app = one_host_app();
    app.selected_row = 0;
    app.handle_key(KeyCode::Char('b'), KeyModifiers::none());
    app.handle_key(KeyCode::Char('m'), KeyModifiers::none());
    app.handle_key(KeyCode::Char('y'), KeyModifiers::none());
    let state = app.reboot_confirm.as_ref().unwrap();
    assert_eq!(state.input, "my");
}

#[test]
fn backspace_removes_char_and_clears_mismatch() {
    let mut app = one_host_app();
    app.selected_row = 0;
    app.handle_key(KeyCode::Char('b'), KeyModifiers::none());
    app.handle_key(KeyCode::Char('x'), KeyModifiers::none());
    // Force mismatch state
    app.reboot_confirm.as_mut().unwrap().mismatch = true;
    app.handle_key(KeyCode::Backspace, KeyModifiers::none());
    let state = app.reboot_confirm.as_ref().unwrap();
    assert!(state.input.is_empty());
    assert!(!state.mismatch);
}

#[test]
fn enter_with_wrong_hostname_sets_mismatch_keeps_modal_open() {
    let mut app = one_host_app();
    app.selected_row = 0;
    app.handle_key(KeyCode::Char('b'), KeyModifiers::none());
    app.handle_key(KeyCode::Char('w'), KeyModifiers::none()); // "w" != "myserver"
    app.handle_key(KeyCode::Enter, KeyModifiers::none());
    let state = app
        .reboot_confirm
        .as_ref()
        .expect("modal should remain open");
    assert!(state.mismatch);
}

#[test]
fn enter_with_correct_hostname_closes_modal() {
    let mut app = one_host_app();
    app.selected_row = 0;
    app.handle_key(KeyCode::Char('b'), KeyModifiers::none());
    for c in "myserver".chars() {
        app.handle_key(KeyCode::Char(c), KeyModifiers::none());
    }
    app.handle_key(KeyCode::Enter, KeyModifiers::none());
    assert!(app.reboot_confirm.is_none());
}

#[test]
fn handle_mouse_blocked_when_modal_active() {
    let mut app = one_host_app();
    app.selected_row = 0;
    app.handle_key(KeyCode::Char('b'), KeyModifiers::none());
    let original_width = app.sidebar_width;
    // Simulate a drag that would normally change sidebar_width.
    app.dragging_sidebar = true;
    app.handle_mouse(MouseEventKind::Drag(MouseButton::Left), 50, None);
    assert_eq!(
        app.sidebar_width, original_width,
        "mouse drag should be blocked by modal"
    );
}

// ── Security-only upgrade ────────────────────────────────────────────────

fn security_pkg(name: &str) -> Package {
    Package {
        name: name.to_string(),
        new_version: "2.0".to_string(),
        current_version: Some("1.0".to_string()),
        is_security: true,
    }
}

fn non_security_pkg(name: &str) -> Package {
    Package {
        name: name.to_string(),
        new_version: "2.0".to_string(),
        current_version: Some("1.0".to_string()),
        is_security: false,
    }
}

#[test]
fn task_kind_command_upgrade_security_with_sudo() {
    let cmd = TaskKind::UpgradeSecurity(vec!["curl".to_string(), "openssl".to_string()])
        .command(true);
    assert!(cmd.contains("sudo -n"));
    assert!(cmd.contains("install --only-upgrade"));
    assert!(cmd.contains("curl openssl"));
}

#[test]
fn task_kind_command_upgrade_security_without_sudo() {
    let cmd = TaskKind::UpgradeSecurity(vec!["curl".to_string()]).command(false);
    assert!(!cmd.contains("sudo"));
    assert!(cmd.contains("curl"));
}

#[test]
fn task_kind_label_upgrade_security_includes_count() {
    let label =
        TaskKind::UpgradeSecurity(vec!["curl".to_string(), "openssl".to_string()]).label();
    assert!(label.contains("2 pkg"));
}

#[test]
fn start_security_upgrade_does_nothing_without_security_packages() {
    let mut app = one_host_app();
    app.hosts[0].info = Some(HostInfo {
        upgradable: vec![non_security_pkg("vim")],
        ..Default::default()
    });
    app.start_security_upgrade(0);
    assert!(app.hosts[0].task.is_none());
}

#[test]
fn start_security_upgrade_does_nothing_without_gathered_info() {
    let mut app = one_host_app();
    app.start_security_upgrade(0);
    assert!(app.hosts[0].task.is_none());
}

#[test]
fn start_security_upgrade_triggers_task_with_security_packages_only() {
    let mut app = one_host_app();
    app.hosts[0].info = Some(HostInfo {
        upgradable: vec![security_pkg("openssl"), non_security_pkg("vim")],
        ..Default::default()
    });
    app.start_security_upgrade(0);
    match &app.hosts[0].task.as_ref().unwrap().kind {
        TaskKind::UpgradeSecurity(pkgs) => assert_eq!(pkgs, &vec!["openssl".to_string()]),
        other => panic!("expected UpgradeSecurity task, got {other:?}"),
    }
}

// ── Sidebar search/filter ─────────────────────────────────────────────────

fn grouped_app() -> App {
    make_app(RawConfig {
        defaults: Defaults {
            user: Some("alice".to_string()),
            ..Default::default()
        },
        groups: vec![RawGroup {
            name: "webservers".to_string(),
            user: None,
            port: None,
            use_sudo: None,
            identity_file: None,
            hosts: vec![raw_host("web1.example.com"), raw_host("web2.example.com")],
        }],
        hosts: vec![raw_host("db1.example.com")],
    })
}

#[test]
fn filtered_row_indices_empty_filter_returns_everything() {
    let app = grouped_app();
    // sidebar_rows = [Group, Host(web1), Host(web2), Host(db1)]
    assert_eq!(app.filtered_row_indices(), vec![0, 1, 2, 3]);
}

#[test]
fn filtered_row_indices_matches_host_includes_parent_group() {
    let mut app = grouped_app();
    app.filter = "web1".to_string();
    assert_eq!(app.filtered_row_indices(), vec![0, 1]);
}

#[test]
fn filtered_row_indices_matches_group_name_includes_all_children() {
    let mut app = grouped_app();
    app.filter = "webservers".to_string();
    assert_eq!(app.filtered_row_indices(), vec![0, 1, 2]);
}

#[test]
fn filtered_row_indices_matches_ungrouped_host() {
    let mut app = grouped_app();
    app.filter = "db1".to_string();
    assert_eq!(app.filtered_row_indices(), vec![3]);
}

#[test]
fn filtered_row_indices_no_match_returns_empty() {
    let mut app = grouped_app();
    app.filter = "nonexistent".to_string();
    assert!(app.filtered_row_indices().is_empty());
}

#[test]
fn filtered_row_indices_is_case_insensitive() {
    let mut app = grouped_app();
    app.filter = "WEB1".to_string();
    assert_eq!(app.filtered_row_indices(), vec![0, 1]);
}

#[test]
fn move_selection_skips_hidden_rows() {
    let mut app = grouped_app();
    app.filter = "web".to_string(); // matches group name -> [0, 1, 2]
    app.selected_row = 0;
    app.move_selection(1);
    assert_eq!(app.selected_row, 1);
    app.move_selection(1);
    assert_eq!(app.selected_row, 2);
    // Clamped at the end of the filtered set
    app.move_selection(1);
    assert_eq!(app.selected_row, 2);
}

#[test]
fn move_selection_does_nothing_when_filter_matches_nothing() {
    let mut app = grouped_app();
    app.selected_row = 1;
    app.filter = "nonexistent".to_string();
    app.move_selection(1);
    assert_eq!(app.selected_row, 1);
}

#[test]
fn slash_key_enters_filter_editing_mode() {
    let mut app = grouped_app();
    app.handle_key(KeyCode::Char('/'), KeyModifiers::none());
    assert!(app.filter_editing);
}

#[test]
fn typing_while_filtering_appends_to_filter() {
    let mut app = grouped_app();
    app.handle_key(KeyCode::Char('/'), KeyModifiers::none());
    app.handle_key(KeyCode::Char('w'), KeyModifiers::none());
    app.handle_key(KeyCode::Char('1'), KeyModifiers::none());
    assert_eq!(app.filter, "w1");
}

#[test]
fn backspace_while_filtering_removes_last_char() {
    let mut app = grouped_app();
    app.handle_key(KeyCode::Char('/'), KeyModifiers::none());
    app.handle_key(KeyCode::Char('w'), KeyModifiers::none());
    app.handle_key(KeyCode::Backspace, KeyModifiers::none());
    assert_eq!(app.filter, "");
}

#[test]
fn enter_exits_filter_editing_and_keeps_filter() {
    let mut app = grouped_app();
    app.handle_key(KeyCode::Char('/'), KeyModifiers::none());
    app.handle_key(KeyCode::Char('w'), KeyModifiers::none());
    app.handle_key(KeyCode::Enter, KeyModifiers::none());
    assert!(!app.filter_editing);
    assert_eq!(app.filter, "w");
}

#[test]
fn esc_exits_filter_editing_and_keeps_filter() {
    let mut app = grouped_app();
    app.handle_key(KeyCode::Char('/'), KeyModifiers::none());
    app.handle_key(KeyCode::Char('w'), KeyModifiers::none());
    app.handle_key(KeyCode::Esc, KeyModifiers::none());
    assert!(!app.filter_editing);
    assert_eq!(app.filter, "w");
}

#[test]
fn ctrl_c_quits_while_filter_editing() {
    let mut app = grouped_app();
    app.handle_key(KeyCode::Char('/'), KeyModifiers::none());
    assert!(!app.handle_key(KeyCode::Char('c'), KeyModifiers::control()));
}

#[test]
fn q_does_not_quit_while_filter_editing_but_is_typed() {
    let mut app = grouped_app();
    app.handle_key(KeyCode::Char('/'), KeyModifiers::none());
    assert!(app.handle_key(KeyCode::Char('q'), KeyModifiers::none()));
    assert_eq!(app.filter, "q");
}

#[test]
fn typing_selects_first_match_automatically() {
    let mut app = grouped_app();
    app.selected_row = 3; // db1, unrelated to the filter we're about to type
    app.handle_key(KeyCode::Char('/'), KeyModifiers::none());
    app.handle_key(KeyCode::Char('w'), KeyModifiers::none());
    app.handle_key(KeyCode::Char('e'), KeyModifiers::none());
    app.handle_key(KeyCode::Char('b'), KeyModifiers::none());
    // "web" matches the group -> rows [0, 1, 2]; selection (3) was hidden,
    // so it should have jumped to the first visible row.
    assert_eq!(app.selected_row, 0);
}
