use aptmatic::app::{App, MAX_CONCURRENT_SSH_OPS};
use aptmatic::apt::{HostInfo, Package, PendingConffile};
use aptmatic::cache::{host_key, now_unix, reading_or_zero, Cache, CacheEntry};
use aptmatic::config::{Config, HostConfig, RawConfig, RawGroup, RawHost, SidebarRow};
use aptmatic::keys::{
    bound_in_review, bound_to, Command, KeyCode, KeyModifiers, MouseButton, MouseEventKind,
    ReviewCommand, Scope,
};
use aptmatic::review::{ConffileReviewState, DiffState};
use aptmatic::state::{
    command_ended, connection_failed, diff_fetched, AppEvent, AppMessage, Effect, HostStatus,
};
use aptmatic::task::{ConffileAction, ConffileDecision, TaskKind, TaskState, TaskStatus, TASK_OUTPUT_CAP};

fn raw_host(hostname: &str) -> RawHost {
    RawHost {
        hostname: hostname.to_string(),
        user: Some("alice".to_string()),
        port: None,
        use_sudo: None,
        identity_file: None,
    }
}

fn group(name: &str, hosts: Vec<RawHost>) -> RawGroup {
    RawGroup {
        name: name.to_string(),
        user: None,
        port: None,
        use_sudo: None,
        identity_file: None,
        hosts,
    }
}

/// Rows: web, web1, web2, web, web3, db1.
fn fleet() -> RawConfig {
    RawConfig {
        groups: vec![
            group("web", vec![raw_host("web1"), raw_host("web2")]),
            group("web", vec![raw_host("web3")]),
        ],
        hosts: vec![raw_host("db1")],
        ..Default::default()
    }
}

fn fleet_app() -> App {
    App::new(&Config { raw: fleet() }, Cache::new(), None)
}

fn press(app: &mut App, c: char) -> bool {
    app.handle_key(KeyCode::Char(c), KeyModifiers::none())
}

fn conffile(live: &str) -> PendingConffile {
    PendingConffile {
        pending_path: format!("{live}.dpkg-dist"),
        live_path: live.to_string(),
        package: None,
    }
}

fn running_on(app: &App) -> Vec<usize> {
    (0..app.hosts.len()).filter(|&i| app.hosts[i].is_running()).collect()
}

// ── Start ────────────────────────────────────────────────────────────────────

#[test]
fn the_cache_is_shown_as_stale_until_a_gather_succeeds() {
    let mut app = fleet_app();
    let info = HostInfo { running_kernel: "6.1".to_string(), ..Default::default() };
    app.handle_message_at(AppMessage::GatherDone { host_idx: 1, result: Ok(info) }, 12345);
    assert_eq!(app.hosts[1].status, HostStatus::Ready);
    assert!(!app.hosts[1].is_stale);
    assert_eq!(app.take_effects(), vec![Effect::SaveCache]);
    assert!(app.effects.is_empty());
    let key = host_key(&app.hosts[1].cfg);
    assert_eq!(app.cache.get(&key).unwrap().fetched_at_unix, 12345);

    let again = App::new(&Config { raw: fleet() }, app.cache, None);
    assert!(again.hosts[1].is_stale);
    assert_eq!(again.hosts[1].info.as_ref().unwrap().running_kernel, "6.1");
    assert_eq!(again.hosts[1].status, HostStatus::Unknown);
    assert!(again.hosts[0].info.is_none());
    assert!(!again.hosts[0].is_stale);
}

#[test]
fn every_host_is_gathered_first() {
    let mut app = fleet_app();
    app.start();
    assert!(app.hosts.iter().all(|h| h.status == HostStatus::Connecting));
    let expected: Vec<Effect> = (0..4).map(|host_idx| Effect::Refresh { host_idx }).collect();
    assert_eq!(app.effects, expected);
    assert_eq!(app.active_operation_count(), 4);
    assert_eq!(app.running_task_count(), 0);
    assert_eq!(MAX_CONCURRENT_SSH_OPS, 8);
}

#[test]
fn the_sidebar_starts_at_half_the_terminal() {
    let width = |terminal| App::new(&Config { raw: fleet() }, Cache::new(), terminal).sidebar_width;
    assert_eq!(width(None), 40);
    assert_eq!(width(Some(80)), 40);
    assert_eq!(width(Some(20)), 10);
    assert_eq!(width(Some(u16::MAX)), 32767);
}

#[test]
fn hosts_and_rows_can_be_given_directly() {
    let cfg = HostConfig {
        hostname: "h".to_string(),
        user: "u".to_string(),
        port: 22,
        use_sudo: false,
        identity_file: None,
        group: None,
    };
    let app = App::with_hosts(vec![cfg], vec![SidebarRow::Host { host_idx: 0 }], Cache::new(), None);
    assert_eq!(app.selected_host_indices(), vec![0]);
}

#[test]
fn the_login_name_is_the_last_resort() {
    let mut host = raw_host("h");
    host.user = None;
    let config = Config { raw: RawConfig { hosts: vec![host], ..Default::default() } };
    assert_eq!(config.resolved_hosts()[0].user, whoami::username());
    assert_eq!(config.resolved_hosts_for(&"bob".to_string())[0].user, "bob");
}

#[test]
fn the_clock_is_read() {
    let now = now_unix();
    assert!(now > 1_600_000_000);
    assert_eq!(reading_or_zero(None), 0);
    assert_eq!(reading_or_zero(Some(7)), 7);
}

#[test]
fn cache_keys_do_not_depend_on_the_group() {
    let config = Config { raw: fleet() };
    let hosts = config.resolved_hosts();
    let mut lone = hosts[0].clone();
    lone.group = None;
    lone.use_sudo = false;
    assert_eq!(host_key(&lone), host_key(&hosts[0]));
    assert_ne!(host_key(&hosts[0]), host_key(&hosts[1]));
    let entry = CacheEntry { info: HostInfo::default(), fetched_at_unix: 3 };
    assert_eq!(entry.clone().fetched_at_unix, 3);
}

// ── Sidebar ──────────────────────────────────────────────────────────────────

#[test]
fn groups_of_the_same_name_and_lone_hosts_stay_apart() {
    let mut app = fleet_app();
    assert_eq!(app.selected_host_indices(), vec![0, 1]);
    app.selected_row = 3;
    assert_eq!(app.selected_host_indices(), vec![2]);
    app.selected_row = 5;
    assert_eq!(app.selected_host_indices(), vec![3]);
}

#[test]
fn a_filter_keeps_headings_with_their_hosts() {
    let mut app = fleet_app();
    app.filter = "  ".to_string();
    assert_eq!(app.filtered_row_indices(), vec![0, 1, 2, 3, 4, 5]);
    app.filter = " WEB2 ".to_string();
    assert_eq!(app.filtered_row_indices(), vec![0, 2]);
    app.filter = "b".to_string();
    assert_eq!(app.filtered_row_indices(), vec![0, 1, 2, 3, 4, 5]);
    app.filter = "3".to_string();
    assert_eq!(app.filtered_row_indices(), vec![3, 4]);
}

#[test]
fn moving_far_stops_at_the_ends() {
    let mut app = fleet_app();
    app.move_selection(i32::MAX);
    assert_eq!(app.selected_row, 5);
    app.move_selection(i32::MIN);
    assert_eq!(app.selected_row, 0);
    app.filter = "db".to_string();
    app.move_selection(1);
    assert_eq!(app.selected_row, 5);
}

#[test]
fn a_filter_is_typed_and_erased() {
    let mut app = fleet_app();
    app.selected_row = 1;
    press(&mut app, '/');
    press(&mut app, 'd');
    assert_eq!(app.selected_row, 5);
    app.handle_key(KeyCode::Char('x'), KeyModifiers { alt: true, ..KeyModifiers::none() });
    assert_eq!(app.filter, "d");
    app.handle_key(KeyCode::Backspace, KeyModifiers::none());
    app.handle_key(KeyCode::Backspace, KeyModifiers::none());
    assert_eq!(app.filter, "");
    app.handle_key(KeyCode::Up, KeyModifiers::none());
    assert_eq!(app.selected_row, 4);
    app.handle_key(KeyCode::Down, KeyModifiers::none());
    assert_eq!(app.selected_row, 5);
    app.handle_key(KeyCode::Home, KeyModifiers::none());
    assert!(app.filter_editing);
}

// ── Tasks ────────────────────────────────────────────────────────────────────

#[test]
fn keys_start_tasks_on_the_selection_or_on_all() {
    for (key, label) in [
        ('r', "apt-get update"),
        ('u', "apt-get upgrade"),
        ('f', "apt-get full-upgrade"),
        ('a', "apt-get autoremove --purge"),
        ('p', "purge RC packages"),
    ] {
        let mut app = fleet_app();
        assert!(press(&mut app, key));
        assert_eq!(running_on(&app), vec![0, 1]);
        assert_eq!(app.hosts[0].task.as_ref().unwrap().kind.label(), label);
        assert_eq!(app.effects.len(), 2);
    }
    for key in ['R', 'U', 'F', 'A'] {
        let mut app = fleet_app();
        app.handle_key(KeyCode::Char(key), KeyModifiers { shift: true, ..KeyModifiers::none() });
        assert_eq!(running_on(&app), vec![0, 1, 2, 3]);
    }
}

#[test]
fn a_task_asks_for_its_command_to_be_run() {
    let mut app = fleet_app();
    app.hosts[3].cfg.use_sudo = false;
    app.start_task(3, TaskKind::Reboot);
    app.start_task(2, TaskKind::Reboot);
    assert_eq!(
        app.take_effects(),
        vec![
            Effect::RunTask { host_idx: 3, command: "reboot 2>&1".to_string() },
            Effect::RunTask { host_idx: 2, command: "sudo -n reboot 2>&1".to_string() },
        ]
    );
}

#[test]
fn a_running_task_is_not_replaced() {
    let mut app = fleet_app();
    app.start_task(0, TaskKind::Update);
    press(&mut app, 'u');
    assert_eq!(app.hosts[0].task.as_ref().unwrap().kind, TaskKind::Update);
    assert_eq!(app.hosts[1].task.as_ref().unwrap().kind, TaskKind::Upgrade);
    assert_eq!(app.effects.len(), 2);
}

#[test]
fn security_upgrades_start_where_there_is_something_to_do() {
    let mut app = fleet_app();
    app.hosts[1].info = Some(HostInfo {
        upgradable: vec![Package {
            name: "openssl".to_string(),
            new_version: "2".to_string(),
            current_version: None,
            is_security: true,
        }],
        ..Default::default()
    });
    press(&mut app, 's');
    assert_eq!(running_on(&app), vec![1]);
    let mut app2 = fleet_app();
    press(&mut app2, 'S');
    assert!(running_on(&app2).is_empty());
}

#[test]
fn commands_differ_by_the_prefix_alone() {
    let decision = |live: &str, action| ConffileDecision { file: conffile(live), action };
    for kind in [
        TaskKind::Update,
        TaskKind::Upgrade,
        TaskKind::UpgradeSecurity(vec!["cloud-init".to_string(), "openssl".to_string()]),
        TaskKind::FullUpgrade,
        TaskKind::AutoRemove,
        TaskKind::PurgeRc,
        TaskKind::ResolveConffiles(vec![
            decision("/etc/su'do", ConffileAction::Discard),
            decision("/etc/its", ConffileAction::Apply),
        ]),
        TaskKind::Reboot,
    ] {
        let plain = kind.command(false);
        let root = kind.command(true);
        assert!(!plain.contains("sudo"));
        assert!(root.contains("sudo -n "));
        assert_eq!(root.replace("sudo -n ", ""), plain);
    }
}

#[test]
fn the_last_lines_of_output_are_kept() {
    let mut task = TaskState::new(TaskKind::Update);
    for i in 0..TASK_OUTPUT_CAP + 3 {
        task.push_line(format!("{i}"));
    }
    assert_eq!(task.output.len(), TASK_OUTPUT_CAP);
    assert_eq!(task.output[0], "3");
    let copy = task.clone();
    assert_eq!(copy.output, task.output);
    assert_eq!(copy.kind, task.kind);
    assert_eq!(task.output[TASK_OUTPUT_CAP - 1], format!("{}", TASK_OUTPUT_CAP + 2));
}

#[test]
fn a_done_task_refreshes_its_host() {
    let mut app = fleet_app();
    app.start_task(0, TaskKind::Update);
    app.take_effects();
    app.handle_message(AppMessage::TaskLine { host_idx: 0, line: "hello".to_string() });
    app.handle_message(AppMessage::TaskDone { host_idx: 0, exit_code: 100 });
    let task = app.hosts[0].task.as_ref().unwrap();
    assert_eq!(task.status, TaskStatus::Done(100));
    assert_eq!(task.output[0], "hello");
    assert_eq!(app.hosts[0].status, HostStatus::Gathering);
    assert_eq!(app.take_effects(), vec![Effect::Refresh { host_idx: 0 }]);
    assert_eq!(app.hosts[1].status, HostStatus::Unknown);
}

#[test]
fn a_failed_task_and_a_failed_gather_are_shown() {
    let mut app = fleet_app();
    app.start_task(0, TaskKind::Update);
    app.hosts[0].info = Some(HostInfo::default());
    app.handle_message(AppMessage::TaskFailed { host_idx: 0, error: "lost".to_string() });
    assert_eq!(
        app.hosts[0].task.as_ref().unwrap().status,
        TaskStatus::Failed("lost".to_string())
    );
    app.handle_message(AppMessage::GatherDone { host_idx: 0, result: Err("down".to_string()) });
    assert_eq!(app.hosts[0].status, HostStatus::Error("down".to_string()));
    assert!(app.hosts[0].info.is_some());
    app.handle_message(AppMessage::TaskLine { host_idx: 2, line: "x".to_string() });
    assert!(app.hosts[2].task.is_none());
}

#[test]
fn reports_of_background_work() {
    let msgs = connection_failed(2, "refused".to_string());
    assert!(matches!(&msgs[0], AppMessage::TaskLine { host_idx: 2, line } if line == "Connection failed: refused"));
    assert!(matches!(&msgs[1], AppMessage::TaskFailed { host_idx: 2, error } if error == "refused"));
    assert_eq!(msgs.len(), 2);
    let msgs = command_ended(1, Ok(3));
    assert!(matches!(&msgs[0], AppMessage::TaskDone { host_idx: 1, exit_code: 3 }));
    let msgs = command_ended(1, Err("broken".to_string()));
    assert!(matches!(&msgs[0], AppMessage::TaskLine { line, .. } if line == "Error: broken"));
    assert!(matches!(&msgs[1], AppMessage::TaskDone { exit_code: -1, .. }));
    match diff_fetched(0, "p".to_string(), Ok("-a\n+b\n".to_string())) {
        AppMessage::ConffileDiff { result, .. } => {
            assert_eq!(result, Ok(vec!["-a".to_string(), "+b".to_string()]))
        }
        _ => panic!("no diff"),
    }
    assert!(matches!(
        diff_fetched(0, "p".to_string(), Err("e".to_string())),
        AppMessage::ConffileDiff { result: Err(_), .. }
    ));
}

#[test]
fn the_output_of_a_task_is_viewed_and_scrolled() {
    let mut app = fleet_app();
    press(&mut app, 't');
    assert!(app.viewing_task.is_none());
    app.start_task(1, TaskKind::Update);
    app.handle_key(KeyCode::Enter, KeyModifiers::none());
    assert_eq!(app.viewing_task, Some(1));
    let offset = |app: &App| app.hosts[1].task.as_ref().unwrap().scroll_offset;
    app.handle_key(KeyCode::PageDown, KeyModifiers::none());
    press(&mut app, 'j');
    press(&mut app, 'k');
    app.handle_key(KeyCode::Down, KeyModifiers::none());
    assert_eq!(offset(&app), 21);
    assert!(!app.hosts[1].task.as_ref().unwrap().auto_scroll);
    app.handle_key(KeyCode::PageUp, KeyModifiers::none());
    app.handle_key(KeyCode::Up, KeyModifiers::none());
    app.handle_key(KeyCode::Up, KeyModifiers::none());
    assert_eq!(offset(&app), 0);
    press(&mut app, 'G');
    assert!(app.hosts[1].task.as_ref().unwrap().auto_scroll);
    app.hosts[1].task.as_mut().unwrap().scroll_offset = u16::MAX;
    app.handle_key(KeyCode::Down, KeyModifiers::none());
    assert_eq!(offset(&app), u16::MAX);
    press(&mut app, 'u');
    assert!(app.hosts[0].task.is_none());
    press(&mut app, 'q');
    assert!(app.viewing_task.is_none());
}

// ── Conffile review ──────────────────────────────────────────────────────────

fn reviewing(lives: &[&str]) -> App {
    let mut app = fleet_app();
    app.selected_row = 5;
    app.hosts[3].info = Some(HostInfo {
        pending_conffiles: lives.iter().map(|l| conffile(l)).collect(),
        ..Default::default()
    });
    press(&mut app, 'c');
    app
}

#[test]
fn a_diff_is_asked_for_once_for_each_file() {
    let mut app = reviewing(&["/etc/a", "/etc/b'c"]);
    assert_eq!(
        app.take_effects(),
        vec![Effect::FetchDiff {
            host_idx: 3,
            pending_path: "/etc/a.dpkg-dist".to_string(),
            command: "LC_ALL=C sudo -n diff -u --label '/etc/a' --label '/etc/a.dpkg-dist' -- '/etc/a' '/etc/a.dpkg-dist' 2>&1 | head -n 2000 || true".to_string(),
        }]
    );
    app.handle_key(KeyCode::Down, KeyModifiers::none());
    assert_eq!(app.effects.len(), 1);
    app.handle_key(KeyCode::Up, KeyModifiers::none());
    app.handle_key(KeyCode::Up, KeyModifiers::none());
    assert_eq!(app.effects.len(), 1);
    assert!(matches!(
        app.conffile_review.as_ref().unwrap().selected_diff(),
        Some(DiffState::Loading)
    ));
}

#[test]
fn a_failed_diff_is_fetched_again() {
    let mut app = reviewing(&["/etc/a", "/etc/b"]);
    assert_eq!(app.take_effects().len(), 1);
    app.handle_message(AppMessage::ConffileDiff {
        host_idx: 3,
        pending_path: "/etc/a.dpkg-dist".to_string(),
        result: Err("connection lost".to_string()),
    });
    assert!(app.take_effects().is_empty());
    app.handle_key(KeyCode::Down, KeyModifiers::none());
    app.take_effects();
    app.handle_key(KeyCode::Up, KeyModifiers::none());
    let effects = app.take_effects();
    assert_eq!(effects.len(), 1);
    assert!(matches!(
        &effects[0],
        Effect::FetchDiff { host_idx: 3, pending_path, .. } if pending_path == "/etc/a.dpkg-dist"
    ));
    let state = app.conffile_review.as_ref().unwrap();
    assert!(matches!(state.selected_diff(), Some(DiffState::Loading)));
    assert!(!state.lacks_diff("/etc/a.dpkg-dist"));
    assert!(state.lacks_diff("/etc/c.dpkg-dist"));
}

#[test]
fn a_loaded_diff_is_not_fetched_again() {
    let mut app = reviewing(&["/etc/a", "/etc/b"]);
    app.handle_message(AppMessage::ConffileDiff {
        host_idx: 3,
        pending_path: "/etc/a.dpkg-dist".to_string(),
        result: Ok(vec![]),
    });
    app.handle_key(KeyCode::Down, KeyModifiers::none());
    app.take_effects();
    app.handle_key(KeyCode::Up, KeyModifiers::none());
    assert!(app.take_effects().is_empty());
}

#[test]
fn any_other_key_cancels_the_confirmation_and_nothing_else() {
    for code in [KeyCode::Esc, KeyCode::Char('d'), KeyCode::Char('a'), KeyCode::Enter, KeyCode::Down] {
        let mut app = reviewing(&["/etc/a", "/etc/b"]);
        press(&mut app, 'd');
        app.handle_key(KeyCode::Enter, KeyModifiers::none());
        app.take_effects();
        assert!(app.handle_key_conffile_review(code, KeyModifiers::none()));
        let state = app.conffile_review.as_ref().unwrap();
        assert!(!state.confirm_execute);
        assert_eq!(state.decisions, vec![Some(ConffileAction::Discard), None]);
        assert_eq!(state.selected, 1);
        assert!(app.effects.is_empty());
        assert!(running_on(&app).is_empty());
    }
    let mut app = fleet_app();
    assert!(app.handle_key_conffile_review(KeyCode::Enter, KeyModifiers::none()));
    assert!(app.conffile_review.is_none());
}

#[test]
fn a_review_is_for_one_host() {
    let mut app = reviewing(&["/etc/a"]);
    app.handle_key(KeyCode::Esc, KeyModifiers::none());
    app.selected_row = 0;
    press(&mut app, 'c');
    assert!(app.conffile_review.is_none());
    press(&mut app, 'b');
    assert!(app.reboot_confirm.is_none());
}

#[test]
fn the_diff_is_scrolled_within_its_length() {
    let mut app = reviewing(&["/etc/a"]);
    let lines = (0..25).map(|i| format!("{i}")).collect();
    app.handle_message(AppMessage::ConffileDiff {
        host_idx: 3,
        pending_path: "/etc/a.dpkg-dist".to_string(),
        result: Ok(lines),
    });
    let scroll = |app: &App| app.conffile_review.as_ref().unwrap().scroll;
    for expected in [10, 20, 24, 24] {
        app.handle_key(KeyCode::PageDown, KeyModifiers::none());
        assert_eq!(scroll(&app), expected);
    }
    app.handle_key(KeyCode::PageUp, KeyModifiers::none());
    assert_eq!(scroll(&app), 14);
    press(&mut app, 'g');
    assert_eq!(scroll(&app), 0);
    app.conffile_review.as_mut().unwrap().scroll = u16::MAX;
    app.handle_key(KeyCode::PageDown, KeyModifiers::none());
    assert_eq!(scroll(&app), 24);
}

#[test]
fn a_diff_for_another_host_is_dropped() {
    let mut app = reviewing(&["/etc/a"]);
    app.handle_message(AppMessage::ConffileDiff {
        host_idx: 0,
        pending_path: "/etc/a.dpkg-dist".to_string(),
        result: Err("no".to_string()),
    });
    assert!(matches!(
        app.conffile_review.as_ref().unwrap().selected_diff(),
        Some(DiffState::Loading)
    ));
}

#[test]
fn marks_are_counted_and_make_the_batch() {
    let mut s = ConffileReviewState::open(0, vec![conffile("/a"), conffile("/b"), conffile("/c")]);
    assert_eq!(s.marked_counts(), (0, 0));
    assert!(s.marked_decisions().is_empty());
    assert!(s.react(ReviewCommand::MarkDiscard));
    assert!(s.react(ReviewCommand::Next));
    assert!(!s.react(ReviewCommand::MarkApply));
    assert_eq!(s.marked_counts(), (1, 1));
    let batch = s.marked_decisions();
    assert_eq!(batch.len(), 2);
    assert_eq!(batch[0].file.live_path, "/a");
    assert_eq!(batch[0].action, ConffileAction::Discard);
    assert_eq!(batch[1].file.live_path, "/c");
    assert_eq!(batch[1].action, ConffileAction::Apply);
    assert_eq!(
        TaskKind::ResolveConffiles(batch).label(),
        "resolve config files (1 discard, 1 apply)"
    );
    s.toggle_mark(ConffileAction::Discard);
    assert_eq!(s.decisions[2], Some(ConffileAction::Discard));
    s.toggle_mark(ConffileAction::Discard);
    assert_eq!(s.decisions[2], None);
    assert_eq!(s.selected_file().unwrap().live_path, "/c");
    assert!(s.react(ReviewCommand::Previous));
    assert_eq!(s.selected, 1);
}

#[test]
fn an_executed_batch_is_one_command() {
    let mut app = reviewing(&["/etc/a", "/etc/b"]);
    press(&mut app, 'd');
    press(&mut app, 'a');
    app.take_effects();
    app.handle_key(KeyCode::Enter, KeyModifiers::none());
    press(&mut app, 'Y');
    assert_eq!(
        app.take_effects(),
        vec![Effect::RunTask {
            host_idx: 3,
            command: "{ fail=0; sudo -n rm -f -- '/etc/a.dpkg-dist' && echo discarded '/etc/a.dpkg-dist' || { echo FAILED: '/etc/a.dpkg-dist'; fail=1; }; ( set -e; if [ -e '/etc/b' ]; then sudo -n cp -a -- '/etc/b' '/etc/b.dpkg-old'; echo 'backed up' '/etc/b' '->' '/etc/b.dpkg-old'; fi; sudo -n mv -- '/etc/b.dpkg-dist' '/etc/b' ) && echo installed '/etc/b' || { echo FAILED: '/etc/b'; fail=1; }; exit $fail; } 2>&1".to_string(),
        }]
    );
    assert!(app.conffile_review.is_none());
}

// ── Confirmations ────────────────────────────────────────────────────────────

#[test]
fn a_host_reboots_only_when_its_name_is_typed() {
    let mut app = fleet_app();
    app.selected_row = 4;
    press(&mut app, 'b');
    for c in "web".chars() {
        press(&mut app, c);
    }
    app.handle_key(KeyCode::Enter, KeyModifiers::none());
    assert!(app.reboot_confirm.as_ref().unwrap().mismatch);
    assert!(app.effects.is_empty());
    app.handle_key(KeyCode::Char('3'), KeyModifiers { shift: true, ..KeyModifiers::none() });
    app.handle_key(KeyCode::Char('3'), KeyModifiers { alt: true, ..KeyModifiers::none() });
    app.handle_key(KeyCode::Enter, KeyModifiers::none());
    assert!(app.reboot_confirm.is_none());
    assert_eq!(running_on(&app), vec![2]);
    assert_eq!(app.hosts[2].task.as_ref().unwrap().kind, TaskKind::Reboot);
}

#[test]
fn quitting_with_work_in_progress_asks_first() {
    let mut app = fleet_app();
    app.hosts[2].status = HostStatus::Gathering;
    assert!(press(&mut app, 'q'));
    assert!(app.quit_confirm);
    assert!(press(&mut app, 'n'));
    assert!(!app.quit_confirm);
    assert!(app.handle_key(KeyCode::Esc, KeyModifiers::none()));
    assert!(!press(&mut app, 'Y'));
}

// ── Events ───────────────────────────────────────────────────────────────────

#[test]
fn events_are_dispatched() {
    let mut app = fleet_app();
    app.tick = u64::MAX;
    assert!(app.handle_event(AppEvent::Tick));
    assert_eq!(app.tick, 0);
    let key = |pressed| AppEvent::Key {
        code: KeyCode::Char('q'),
        modifiers: KeyModifiers::none(),
        pressed,
    };
    assert!(app.handle_event(key(false)));
    assert!(!app.handle_event(key(true)));
    assert!(app.handle_event(AppEvent::Other));
    assert!(app.handle_event_at(
        AppEvent::Message(AppMessage::GatherDone { host_idx: 0, result: Err("e".to_string()) }),
        5
    ));
    assert_eq!(app.hosts[0].status, HostStatus::Error("e".to_string()));
    let col = app.sidebar_width - 1;
    let mouse = |kind, col| AppEvent::Mouse { kind, col, terminal: Some(80) };
    app.handle_event(mouse(MouseEventKind::Down(MouseButton::Left), col));
    app.handle_event(mouse(MouseEventKind::Drag(MouseButton::Left), 200));
    assert_eq!(app.sidebar_width, 70);
    app.handle_event(mouse(MouseEventKind::Drag(MouseButton::Right), 30));
    assert_eq!(app.sidebar_width, 70);
    app.handle_event(mouse(MouseEventKind::Up(MouseButton::Left), 0));
    app.handle_event(mouse(MouseEventKind::Drag(MouseButton::Left), 30));
    assert_eq!(app.sidebar_width, 70);
}

#[test]
fn dragging_past_the_last_column_is_bounded() {
    let mut app = fleet_app();
    app.dragging_sidebar = true;
    app.handle_mouse(MouseEventKind::Drag(MouseButton::Left), u16::MAX, Some(u16::MAX));
    assert_eq!(app.sidebar_width, u16::MAX - 10);
}

#[test]
fn keys_are_bound_with_and_without_modifiers() {
    let none = KeyModifiers::none();
    let control = KeyModifiers::control();
    let at = |c, m| bound_to(KeyCode::Char(c), m);
    assert_eq!(at('c', none), Some(Command::ReviewConffiles));
    assert_eq!(at('c', control), Some(Command::Quit));
    assert_eq!(at('u', control), None);
    assert_eq!(at('U', none), Some(Command::Upgrade(Scope::All)));
    assert_eq!(at('z', none), Some(Command::Zoom));
    assert_eq!(at('x', none), None);
    assert_eq!(bound_to(KeyCode::Other, none), None);
    assert_eq!(bound_to(KeyCode::Esc, control), Some(Command::Quit));
    let in_review = |c, m| bound_in_review(KeyCode::Char(c), m);
    assert_eq!(in_review(' ', control), Some(ReviewCommand::Unmark));
    assert_eq!(in_review('c', control), Some(ReviewCommand::Close));
    assert_eq!(in_review('c', none), None);
    assert_eq!(in_review('d', control), None);
    assert_eq!(bound_in_review(KeyCode::Home, none), Some(ReviewCommand::Top));
}

#[test]
fn zoom_is_toggled() {
    let mut app = fleet_app();
    press(&mut app, 'z');
    assert!(app.detail_zoom);
    press(&mut app, 'z');
    assert!(!app.detail_zoom);
}
