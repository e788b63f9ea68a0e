//! The operations that the user can start on a host: what they are called, the
//! shell command behind each, and the state of one that was started.

use std::collections::VecDeque;

use vstd::prelude::*;

use crate::apt::{PendingConffile, PendingConffileView};
use crate::keys::KeyCode;
use crate::ssh;
use crate::ssh::shell_quote;
use crate::text;

verus! {

pub const TASK_OUTPUT_CAP: usize = 5_000;

/// Environment every apt invocation runs under: no debconf questions, stable
/// English output for the parsers.
pub const APT_ENV: &'static str = "DEBIAN_FRONTEND=noninteractive LC_ALL=C";

/// `DEBIAN_FRONTEND` covers debconf only — dpkg's own conffile prompt is
/// separate and reads from stdin, which would hang the task forever over SSH.
/// Take the package's default action where it offers one, otherwise keep the
/// installed file; both leave the running config untouched.
pub const DPKG_CONF_OPTS: &'static str =
    "-o \"Dpkg::Options::=--force-confdef\" -o \"Dpkg::Options::=--force-confold\"";

// ── Task kinds ───────────────────────────────────────────────────────────────

/// What the user decided to do with one pending conffile in the review modal.
#[derive(Debug, Clone, Copy, PartialEq, Eq, Structural)]
pub enum ConffileAction {
    /// Delete the pending file, leaving the live config untouched.
    Discard,
    /// Move the pending file into place, backing the live config up to
    /// `.dpkg-old` — the same convention dpkg's own prompt follows.
    Apply,
}

impl DeepView for ConffileAction {
    type V = ConffileAction;

    open spec fn deep_view(&self) -> ConffileAction {
        *self
    }
}

#[derive(Debug, PartialEq)]
pub struct ConffileDecision {
    pub file: PendingConffile,
    pub action: ConffileAction,
}

pub struct ConffileDecisionView {
    pub file: PendingConffileView,
    pub action: ConffileAction,
}

impl DeepView for ConffileDecision {
    type V = ConffileDecisionView;

    open spec fn deep_view(&self) -> ConffileDecisionView {
        ConffileDecisionView { file: self.file.deep_view(), action: self.action }
    }
}

impl Clone for ConffileDecision {
    fn clone(&self) -> (r: Self)
        ensures
            r.deep_view() == self.deep_view(),
    {
        ConffileDecision { file: self.file.clone(), action: self.action }
    }
}

/// An operation that the user can trigger.
#[derive(Debug, PartialEq)]
pub enum TaskKind {
    Update,
    Upgrade,
    UpgradeSecurity(Vec<String>),
    FullUpgrade,
    AutoRemove,
    PurgeRc,
    /// Execute a batch of reviewed conffile decisions in one SSH task.
    ResolveConffiles(Vec<ConffileDecision>),
    Reboot,
}

pub enum TaskKindView {
    Update,
    Upgrade,
    UpgradeSecurity(Seq<Seq<char>>),
    FullUpgrade,
    AutoRemove,
    PurgeRc,
    ResolveConffiles(Seq<ConffileDecisionView>),
    Reboot,
}

impl DeepView for TaskKind {
    type V = TaskKindView;

    open spec fn deep_view(&self) -> TaskKindView {
        match self {
            TaskKind::Update => TaskKindView::Update,
            TaskKind::Upgrade => TaskKindView::Upgrade,
            TaskKind::UpgradeSecurity(pkgs) => TaskKindView::UpgradeSecurity(pkgs.deep_view()),
            TaskKind::FullUpgrade => TaskKindView::FullUpgrade,
            TaskKind::AutoRemove => TaskKindView::AutoRemove,
            TaskKind::PurgeRc => TaskKindView::PurgeRc,
            TaskKind::ResolveConffiles(ds) => TaskKindView::ResolveConffiles(ds.deep_view()),
            TaskKind::Reboot => TaskKindView::Reboot,
        }
    }
}

impl Clone for TaskKind {
    fn clone(&self) -> (r: Self)
        ensures
            r.deep_view() == self.deep_view(),
    {
        match self {
            TaskKind::Update => TaskKind::Update,
            TaskKind::Upgrade => TaskKind::Upgrade,
            TaskKind::UpgradeSecurity(pkgs) => {
                let copy = pkgs.clone();
                assert(copy.deep_view() =~= pkgs.deep_view());
                TaskKind::UpgradeSecurity(copy)
            },
            TaskKind::FullUpgrade => TaskKind::FullUpgrade,
            TaskKind::AutoRemove => TaskKind::AutoRemove,
            TaskKind::PurgeRc => TaskKind::PurgeRc,
            TaskKind::ResolveConffiles(ds) => {
                let copy = ds.clone();
                assert(copy.deep_view() =~= ds.deep_view());
                TaskKind::ResolveConffiles(copy)
            },
            TaskKind::Reboot => TaskKind::Reboot,
        }
    }
}

/// Whether a decision installs the new file.
pub open spec fn applies() -> spec_fn(ConffileDecisionView) -> bool {
    |d: ConffileDecisionView| d.action == ConffileAction::Apply
}

/// How many of the decisions install the new file.
pub open spec fn apply_count(ds: Seq<ConffileDecisionView>) -> nat {
    ds.filter(applies()).len()
}

/// What a task is called on the screen.
pub open spec fn label_of(kind: TaskKindView) -> Seq<char> {
    match kind {
        TaskKindView::Update => "apt-get update"@,
        TaskKindView::Upgrade => "apt-get upgrade"@,
        TaskKindView::UpgradeSecurity(pkgs) => "apt-get upgrade (security, "@ + text::decimal(
            pkgs.len(),
        ) + " pkg(s))"@,
        TaskKindView::FullUpgrade => "apt-get full-upgrade"@,
        TaskKindView::AutoRemove => "apt-get autoremove --purge"@,
        TaskKindView::PurgeRc => "purge RC packages"@,
        TaskKindView::ResolveConffiles(ds) => "resolve config files ("@ + text::decimal(
            (ds.len() - apply_count(ds)) as nat,
        ) + " discard, "@ + text::decimal(apply_count(ds)) + " apply)"@,
        TaskKindView::Reboot => "reboot"@,
    }
}

/// The prefix of a command that needs root.
pub open spec fn sudo_prefix(use_sudo: bool) -> Seq<char> {
    if use_sudo {
        "sudo -n "@
    } else {
        ""@
    }
}

/// The shell command that removes a pending file.
pub open spec fn discard_command(pending: Seq<char>, use_sudo: bool) -> Seq<char> {
    let p = ssh::quoted(pending);
    sudo_prefix(use_sudo) + "rm -f -- "@ + p + " && echo discarded "@ + p + " || { echo FAILED: "@
        + p + "; fail=1; }"@
}

/// The shell command that puts a pending file into place. It backs up first,
/// inside `set -e`, so a failed copy can never leave the host without its
/// original config — the move simply doesn't happen.
pub open spec fn apply_command(pending: Seq<char>, live: Seq<char>, use_sudo: bool) -> Seq<char> {
    let sudo = sudo_prefix(use_sudo);
    let p = ssh::quoted(pending);
    let l = ssh::quoted(live);
    let b = ssh::quoted(live + ".dpkg-old"@);
    "( set -e; if [ -e "@ + l + " ]; then "@ + sudo + "cp -a -- "@ + l + " "@ + b
        + "; echo 'backed up' "@ + l + " '->' "@ + b + "; fi; "@ + sudo + "mv -- "@ + p + " "@ + l
        + " ) && echo installed "@ + l + " || { echo FAILED: "@ + l + "; fail=1; }"@
}

/// The part of the command that carries out one decision.
pub open spec fn decision_command(d: ConffileDecisionView, use_sudo: bool) -> Seq<char> {
    match d.action {
        ConffileAction::Discard => discard_command(d.file.pending_path, use_sudo),
        ConffileAction::Apply => apply_command(d.file.pending_path, d.file.live_path, use_sudo),
    }
}

/// The parts of the command that carries out a batch of decisions.
pub open spec fn resolve_parts(ds: Seq<ConffileDecisionView>, use_sudo: bool) -> Seq<Seq<char>> {
    seq!["fail=0"@] + Seq::new(ds.len(), |i: int| decision_command(ds[i], use_sudo)) + seq![
        "exit $fail"@,
    ]
}

/// `apt-get` with the environment, and with root where it is asked for.
pub open spec fn apt_get(use_sudo: bool) -> Seq<char> {
    APT_ENV@ + " "@ + sudo_prefix(use_sudo) + "apt-get "@
}

/// The shell command of a task.
pub open spec fn command_of(kind: TaskKindView, use_sudo: bool) -> Seq<char> {
    match kind {
        TaskKindView::Update => apt_get(use_sudo) + "update </dev/null 2>&1"@,
        TaskKindView::Upgrade => apt_get(use_sudo) + "-y "@ + DPKG_CONF_OPTS@
            + " upgrade </dev/null 2>&1"@,
        TaskKindView::UpgradeSecurity(pkgs) => apt_get(use_sudo) + "install --only-upgrade -y "@
            + DPKG_CONF_OPTS@ + " "@ + text::joined(pkgs, " "@) + " </dev/null 2>&1"@,
        TaskKindView::FullUpgrade => apt_get(use_sudo) + "-y "@ + DPKG_CONF_OPTS@
            + " full-upgrade </dev/null 2>&1"@,
        TaskKindView::AutoRemove => apt_get(use_sudo) + "-y "@ + DPKG_CONF_OPTS@
            + " autoremove --purge </dev/null 2>&1"@,
        TaskKindView::PurgeRc =>
            "pkgs=$(LC_ALL=C dpkg -l | awk '/^rc/{print $2}'); [ -n \"$pkgs\" ] && echo \"$pkgs\" | xargs "@
            + sudo_prefix(use_sudo) + "dpkg --purge 2>&1 || echo \"No RC packages to purge\""@,
        TaskKindView::ResolveConffiles(ds) => "{ "@ + text::joined(
            resolve_parts(ds, use_sudo),
            "; "@,
        ) + "; } 2>&1"@,
        TaskKindView::Reboot => sudo_prefix(use_sudo) + "reboot 2>&1"@,
    }
}

/// The prefix of a command that needs root.
pub fn sudo(use_sudo: bool) -> (r: &'static str)
    ensures
        r@ == sudo_prefix(use_sudo),
{
    if use_sudo {
        "sudo -n "
    } else {
        ""
    }
}

/// Starts a command with `apt-get`.
fn begin_apt_get(use_sudo: bool) -> (r: String)
    ensures
        r@ == apt_get(use_sudo),
{
    let mut r = APT_ENV.to_string();
    r.append(" ");
    r.append(sudo(use_sudo));
    r.append("apt-get ");
    r
}

fn discard(d: &ConffileDecision, use_sudo: bool) -> (r: String)
    ensures
        r@ == discard_command(d.file.pending_path@, use_sudo),
{
    let p = shell_quote(d.file.pending_path.as_str());
    let mut r = sudo(use_sudo).to_string();
    r.append("rm -f -- ");
    r.append(p.as_str());
    r.append(" && echo discarded ");
    r.append(p.as_str());
    r.append(" || { echo FAILED: ");
    r.append(p.as_str());
    r.append("; fail=1; }");
    r
}

fn apply(d: &ConffileDecision, use_sudo: bool) -> (r: String)
    ensures
        r@ == apply_command(d.file.pending_path@, d.file.live_path@, use_sudo),
{
    let s = sudo(use_sudo);
    let p = shell_quote(d.file.pending_path.as_str());
    let l = shell_quote(d.file.live_path.as_str());
    let b = shell_quote(text::cat(d.file.live_path.as_str(), ".dpkg-old").as_str());
    let mut r = "( set -e; if [ -e ".to_string();
    r.append(l.as_str());
    r.append(" ]; then ");
    r.append(s);
    r.append("cp -a -- ");
    r.append(l.as_str());
    r.append(" ");
    r.append(b.as_str());
    r.append("; echo 'backed up' ");
    r.append(l.as_str());
    r.append(" '->' ");
    r.append(b.as_str());
    r.append("; fi; ");
    r.append(s);
    r.append("mv -- ");
    r.append(p.as_str());
    r.append(" ");
    r.append(l.as_str());
    r.append(" ) && echo installed ");
    r.append(l.as_str());
    r.append(" || { echo FAILED: ");
    r.append(l.as_str());
    r.append("; fail=1; }");
    r
}

/// Each decision runs in isolation: a failure is reported and sets the exit
/// code, but never stops the remaining files from being resolved. Paths are
/// quoted everywhere they appear, including inside the progress `echo`s — a
/// filename is allowed to contain `$` and backticks.
fn resolve_conffiles(ds: &Vec<ConffileDecision>, use_sudo: bool) -> (r: Vec<String>)
    ensures
        r.deep_view() == resolve_parts(ds.deep_view(), use_sudo),
{
    let ghost all = ds.deep_view();
    let ghost cmds = Seq::new(all.len(), |i: int| decision_command(all[i], use_sudo));
    let n: usize = ds.len();
    let mut parts: Vec<String> = Vec::new();
    parts.push("fail=0".to_string());
    let mut i: usize = 0;
    assert(parts.deep_view() =~= seq!["fail=0"@] + cmds.take(0));
    while i < n
        invariant
            n == ds@.len(),
            all == ds.deep_view(),
            cmds == Seq::new(all.len(), |i: int| decision_command(all[i], use_sudo)),
            i <= n,
            parts.deep_view() == seq!["fail=0"@] + cmds.take(i as int),
        decreases n - i,
    {
        let ghost before = parts.deep_view();
        let part = match ds[i].action {
            ConffileAction::Discard => discard(&ds[i], use_sudo),
            ConffileAction::Apply => apply(&ds[i], use_sudo),
        };
        assert(part@ == cmds[i as int]);
        parts.push(part);
        proof {
            assert(parts.deep_view() =~= before.push(cmds[i as int]));
            assert(cmds.take(i + 1) =~= cmds.take(i as int).push(cmds[i as int]));
            assert(parts.deep_view() =~= seq!["fail=0"@] + cmds.take(i + 1));
        }
        i += 1;
    }
    let ghost before = parts.deep_view();
    parts.push("exit $fail".to_string());
    proof {
        assert(cmds.take(n as int) =~= cmds);
        assert(parts.deep_view() =~= before + seq!["exit $fail"@]);
    }
    parts
}

fn count_applies(ds: &Vec<ConffileDecision>) -> (r: usize)
    ensures
        r == apply_count(ds.deep_view()),
        r <= ds@.len(),
{
    let ghost all = ds.deep_view();
    let n: usize = ds.len();
    let mut count: usize = 0;
    let mut i: usize = 0;
    proof {
        reveal(Seq::filter);
    }
    while i < n
        invariant
            n == ds@.len(),
            all == ds.deep_view(),
            i <= n,
            count <= i,
            count == apply_count(all.take(i as int)),
        decreases n - i,
    {
        proof {
            assert(all.take(i + 1) =~= all.take(i as int).push(all[i as int]));
            all.take(i as int).lemma_filter_push(all[i as int], applies());
        }
        if ds[i].action == ConffileAction::Apply {
            count += 1;
        }
        i += 1;
    }
    assert(all.take(n as int) =~= all);
    count
}

impl TaskKind {
    pub fn label(&self) -> (r: String)
        ensures
            r@ == label_of(self.deep_view()),
    {
        match self {
            TaskKind::Update => "apt-get update".to_string(),
            TaskKind::Upgrade => "apt-get upgrade".to_string(),
            TaskKind::UpgradeSecurity(pkgs) => {
                let mut r = "apt-get upgrade (security, ".to_string();
                r.append(text::number(pkgs.len() as u64).as_str());
                r.append(" pkg(s))");
                r
            },
            TaskKind::FullUpgrade => "apt-get full-upgrade".to_string(),
            TaskKind::AutoRemove => "apt-get autoremove --purge".to_string(),
            TaskKind::PurgeRc => "purge RC packages".to_string(),
            TaskKind::ResolveConffiles(decisions) => {
                let count: usize = count_applies(decisions);
                let mut r = "resolve config files (".to_string();
                r.append(text::number((decisions.len() - count) as u64).as_str());
                r.append(" discard, ");
                r.append(text::number(count as u64).as_str());
                r.append(" apply)");
                r
            },
            TaskKind::Reboot => "reboot".to_string(),
        }
    }

    pub fn command(&self, use_sudo: bool) -> (r: String)
        ensures
            r@ == command_of(self.deep_view(), use_sudo),
    {
        match self {
            TaskKind::Update => {
                let mut r = begin_apt_get(use_sudo);
                r.append("update </dev/null 2>&1");
                r
            },
            TaskKind::Upgrade => {
                let mut r = begin_apt_get(use_sudo);
                r.append("-y ");
                r.append(DPKG_CONF_OPTS);
                r.append(" upgrade </dev/null 2>&1");
                r
            },
            TaskKind::UpgradeSecurity(pkgs) => {
                let mut r = begin_apt_get(use_sudo);
                r.append("install --only-upgrade -y ");
                r.append(DPKG_CONF_OPTS);
                r.append(" ");
                r.append(text::join(pkgs, " ").as_str());
                r.append(" </dev/null 2>&1");
                r
            },
            TaskKind::FullUpgrade => {
                let mut r = begin_apt_get(use_sudo);
                r.append("-y ");
                r.append(DPKG_CONF_OPTS);
                r.append(" full-upgrade </dev/null 2>&1");
                r
            },
            TaskKind::AutoRemove => {
                let mut r = begin_apt_get(use_sudo);
                r.append("-y ");
                r.append(DPKG_CONF_OPTS);
                r.append(" autoremove --purge </dev/null 2>&1");
                r
            },
            TaskKind::PurgeRc => {
                let mut r =
                    "pkgs=$(LC_ALL=C dpkg -l | awk '/^rc/{print $2}'); [ -n \"$pkgs\" ] && echo \"$pkgs\" | xargs ".to_string();
                r.append(sudo(use_sudo));
                r.append("dpkg --purge 2>&1 || echo \"No RC packages to purge\"");
                r
            },
            TaskKind::ResolveConffiles(decisions) => {
                let parts = resolve_conffiles(decisions, use_sudo);
                let mut r = "{ ".to_string();
                r.append(text::join(&parts, "; ").as_str());
                r.append("; } 2>&1");
                r
            },
            TaskKind::Reboot => {
                let mut r = sudo(use_sudo).to_string();
                r.append("reboot 2>&1");
                r
            },
        }
    }
}

// ── The state of a task ──────────────────────────────────────────────────────

#[derive(Debug, PartialEq)]
pub enum TaskStatus {
    Running,
    Done(i32),
    Failed(String),
}

pub enum TaskStatusView {
    Running,
    Done(i32),
    Failed(Seq<char>),
}

impl DeepView for TaskStatus {
    type V = TaskStatusView;

    open spec fn deep_view(&self) -> TaskStatusView {
        match self {
            TaskStatus::Running => TaskStatusView::Running,
            TaskStatus::Done(code) => TaskStatusView::Done(*code),
            TaskStatus::Failed(error) => TaskStatusView::Failed(error@),
        }
    }
}

impl Clone for TaskStatus {
    fn clone(&self) -> (r: Self)
        ensures
            r.deep_view() == self.deep_view(),
    {
        match self {
            TaskStatus::Running => TaskStatus::Running,
            TaskStatus::Done(code) => TaskStatus::Done(*code),
            TaskStatus::Failed(error) => TaskStatus::Failed(error.clone()),
        }
    }
}

#[derive(Debug)]
pub struct TaskState {
    pub kind: TaskKind,
    pub status: TaskStatus,
    pub output: VecDeque<String>,
    pub scroll_offset: u16,
    pub auto_scroll: bool,
}

pub struct TaskView {
    pub kind: TaskKindView,
    pub status: TaskStatusView,
    pub output: Seq<Seq<char>>,
    pub scroll_offset: u16,
    pub auto_scroll: bool,
}

impl DeepView for TaskState {
    type V = TaskView;

    open spec fn deep_view(&self) -> TaskView {
        TaskView {
            kind: self.kind.deep_view(),
            status: self.status.deep_view(),
            output: self.output.deep_view(),
            scroll_offset: self.scroll_offset,
            auto_scroll: self.auto_scroll,
        }
    }
}

impl Clone for TaskState {
    fn clone(&self) -> (r: Self)
        ensures
            r.deep_view() == self.deep_view(),
    {
        let r = TaskState {
            kind: self.kind.clone(),
            status: self.status.clone(),
            output: self.output.clone(),
            scroll_offset: self.scroll_offset,
            auto_scroll: self.auto_scroll,
        };
        assert(r.output.deep_view() =~= self.output.deep_view());
        r
    }
}

/// A task of which nothing has been heard yet.
pub open spec fn started(kind: TaskKindView) -> TaskView {
    TaskView {
        kind,
        status: TaskStatusView::Running,
        output: seq![],
        scroll_offset: 0,
        auto_scroll: true,
    }
}

/// The output after one more line: the oldest line goes once the buffer is full.
pub open spec fn with_line(output: Seq<Seq<char>>, line: Seq<char>) -> Seq<Seq<char>> {
    (if output.len() >= TASK_OUTPUT_CAP {
        output.skip(1)
    } else {
        output
    }).push(line)
}

/// A task's output after a key that scrolls it.
pub open spec fn scrolled(t: TaskView, code: KeyCode) -> TaskView {
    match code {
        KeyCode::Up => scrolled_by(t, -1),
        KeyCode::Down => scrolled_by(t, 1),
        KeyCode::PageUp => scrolled_by(t, -20),
        KeyCode::PageDown => scrolled_by(t, 20),
        KeyCode::End => TaskView { auto_scroll: true, ..t },
        KeyCode::Char(c) => if c == 'k' {
            scrolled_by(t, -1)
        } else if c == 'j' {
            scrolled_by(t, 1)
        } else if c == 'G' {
            TaskView { auto_scroll: true, ..t }
        } else {
            t
        },
        _ => t,
    }
}

pub open spec fn scrolled_by(t: TaskView, delta: int) -> TaskView {
    TaskView {
        auto_scroll: false,
        scroll_offset: (if t.scroll_offset + delta < 0 {
            0
        } else if t.scroll_offset + delta > u16::MAX {
            u16::MAX as int
        } else {
            t.scroll_offset + delta
        }) as u16,
        ..t
    }
}

impl TaskState {
    pub fn new(kind: TaskKind) -> (r: Self)
        ensures
            r.deep_view() == started(kind.deep_view()),
    {
        let r = TaskState {
            kind,
            status: TaskStatus::Running,
            output: VecDeque::new(),
            scroll_offset: 0,
            auto_scroll: true,
        };
        assert(r.output.deep_view() =~= seq![]);
        r
    }

    /// Whether the task has not ended yet.
    pub fn is_running(&self) -> (r: bool)
        ensures
            r == (self.deep_view().status == TaskStatusView::Running),
    {
        match self.status {
            TaskStatus::Running => true,
            _ => false,
        }
    }

    pub fn push_line(&mut self, line: String)
        ensures
            final(self).deep_view() == (TaskView {
                output: with_line(old(self).deep_view().output, line@),
                ..old(self).deep_view()
            }),
    {
        let ghost before = self.output.deep_view();
        if self.output.len() >= TASK_OUTPUT_CAP {
            let _ = self.output.pop_front();
            assert(self.output.deep_view() =~= before.skip(1));
        }
        let ghost kept = self.output.deep_view();
        self.output.push_back(line);
        assert(self.output.deep_view() =~= kept.push(line@));
    }

    /// Scrolls the output, or follows it to the end again.
    pub fn scroll(&mut self, code: KeyCode)
        ensures
            final(self).deep_view() == scrolled(old(self).deep_view(), code),
    {
        match code {
            KeyCode::Up | KeyCode::Char('k') => {
                self.auto_scroll = false;
                self.scroll_offset = self.scroll_offset.saturating_sub(1);
            },
            KeyCode::Down | KeyCode::Char('j') => {
                self.auto_scroll = false;
                self.scroll_offset = self.scroll_offset.saturating_add(1);
            },
            KeyCode::PageUp => {
                self.auto_scroll = false;
                self.scroll_offset = self.scroll_offset.saturating_sub(20);
            },
            KeyCode::PageDown => {
                self.auto_scroll = false;
                self.scroll_offset = self.scroll_offset.saturating_add(20);
            },
            KeyCode::End | KeyCode::Char('G') => {
                self.auto_scroll = true;
            },
            _ => {},
        }
    }
}

// ── Laws ─────────────────────────────────────────────────────────────────────

/// The buffer after a number of lines has come in.
pub open spec fn received(lines: Seq<Seq<char>>) -> Seq<Seq<char>>
    decreases lines.len(),
{
    if lines.len() == 0 {
        seq![]
    } else {
        with_line(received(lines.drop_last()), lines.last())
    }
}

/// However much output a task has, its last lines are kept, as many as the
/// buffer holds.
pub proof fn the_last_lines_are_kept(lines: Seq<Seq<char>>)
    ensures
        received(lines) == if lines.len() <= TASK_OUTPUT_CAP {
            lines
        } else {
            lines.skip(lines.len() - TASK_OUTPUT_CAP)
        },
    decreases lines.len(),
{
    if lines.len() > 0 {
        the_last_lines_are_kept(lines.drop_last());
    }
    assert(received(lines) =~= if lines.len() <= TASK_OUTPUT_CAP {
        lines
    } else {
        lines.skip(lines.len() - TASK_OUTPUT_CAP)
    });
}

/// The task makes dpkg install or remove packages through `apt-get`.
pub open spec fn invokes_dpkg(kind: TaskKindView) -> bool {
    kind is Upgrade || kind is UpgradeSecurity || kind is FullUpgrade || kind is AutoRemove
}

/// A task that makes dpkg install or remove packages never stops to ask about a
/// conffile: dpkg is told to keep what is there, debconf asks nothing, and there
/// is nothing to read an answer from.
pub proof fn upgrades_never_prompt(kind: TaskKindView, use_sudo: bool)
    requires
        invokes_dpkg(kind),
    ensures
        text::contains(command_of(kind, use_sudo), DPKG_CONF_OPTS@),
        text::contains(command_of(kind, use_sudo), "--force-confdef"@),
        text::contains(command_of(kind, use_sudo), "--force-confold"@),
        text::begins(command_of(kind, use_sudo), APT_ENV@),
        text::contains(command_of(kind, use_sudo), " </dev/null"@),
{
    let cmd = command_of(kind, use_sudo);
    let opts = DPKG_CONF_OPTS@;
    let (front, back) = match kind {
        TaskKindView::Upgrade => (apt_get(use_sudo) + "-y "@, " upgrade </dev/null 2>&1"@),
        TaskKindView::UpgradeSecurity(pkgs) => (
            apt_get(use_sudo) + "install --only-upgrade -y "@,
            " "@ + text::joined(pkgs, " "@) + " </dev/null 2>&1"@,
        ),
        TaskKindView::FullUpgrade => (
            apt_get(use_sudo) + "-y "@,
            " full-upgrade </dev/null 2>&1"@,
        ),
        _ => (apt_get(use_sudo) + "-y "@, " autoremove --purge </dev/null 2>&1"@),
    };
    assert(cmd =~= front + opts + back);
    text::lemma_contains_middle(front, opts, back);
    lemma_keeps_conffiles();
    text::lemma_contains_within(cmd, opts, "--force-confdef"@);
    text::lemma_contains_within(cmd, opts, "--force-confold"@);
    assert(cmd.subrange(0, APT_ENV@.len() as int) =~= APT_ENV@);
    lemma_reads_nothing();
    let k = match kind {
        TaskKindView::Upgrade => " upgrade"@,
        TaskKindView::UpgradeSecurity(pkgs) => " "@ + text::joined(pkgs, " "@),
        TaskKindView::FullUpgrade => " full-upgrade"@,
        _ => " autoremove --purge"@,
    };
    assert(back =~= k + " </dev/null"@ + " 2>&1"@);
    assert(cmd =~= (front + opts + k) + " </dev/null"@ + " 2>&1"@);
    text::lemma_contains_middle(front + opts + k, " </dev/null"@, " 2>&1"@);
}

proof fn lemma_keeps_conffiles()
    ensures
        text::contains(DPKG_CONF_OPTS@, "--force-confdef"@),
        text::contains(DPKG_CONF_OPTS@, "--force-confold"@),
{
    reveal_strlit(
        "-o \"Dpkg::Options::=--force-confdef\" -o \"Dpkg::Options::=--force-confold\"",
    );
    reveal_strlit("--force-confdef");
    reveal_strlit("--force-confold");
    let opts = DPKG_CONF_OPTS@;
    assert(opts.subrange(20, 35) =~= "--force-confdef"@);
    assert(text::occurs_at(opts, "--force-confdef"@, 20));
    assert(opts.subrange(57, 72) =~= "--force-confold"@);
    assert(text::occurs_at(opts, "--force-confold"@, 57));
}

proof fn lemma_reads_nothing()
    ensures
        " upgrade </dev/null 2>&1"@ == " upgrade"@ + " </dev/null"@ + " 2>&1"@,
        " </dev/null 2>&1"@ == " </dev/null"@ + " 2>&1"@,
        " full-upgrade </dev/null 2>&1"@ == " full-upgrade"@ + " </dev/null"@ + " 2>&1"@,
        " autoremove --purge </dev/null 2>&1"@ == " autoremove --purge"@ + " </dev/null"@
            + " 2>&1"@,
{
    reveal_strlit(" upgrade </dev/null 2>&1");
    reveal_strlit(" upgrade");
    reveal_strlit(" </dev/null 2>&1");
    reveal_strlit(" </dev/null");
    reveal_strlit(" 2>&1");
    reveal_strlit(" full-upgrade </dev/null 2>&1");
    reveal_strlit(" full-upgrade");
    reveal_strlit(" autoremove --purge </dev/null 2>&1");
    reveal_strlit(" autoremove --purge");
    assert(" upgrade </dev/null 2>&1"@ =~= " upgrade"@ + " </dev/null"@ + " 2>&1"@);
    assert(" </dev/null 2>&1"@ =~= " </dev/null"@ + " 2>&1"@);
    assert(" full-upgrade </dev/null 2>&1"@ =~= " full-upgrade"@ + " </dev/null"@ + " 2>&1"@);
    assert(" autoremove --purge </dev/null 2>&1"@ =~= " autoremove --purge"@ + " </dev/null"@
        + " 2>&1"@);
}

/// Discards and applies make up all of the decisions that a label counts.
pub proof fn labels_count_every_decision(ds: Seq<ConffileDecisionView>)
    ensures
        apply_count(ds) + ds.filter(
            |d: ConffileDecisionView| d.action == ConffileAction::Discard,
        ).len() == ds.len(),
    decreases ds.len(),
{
    reveal(Seq::filter);
    if ds.len() > 0 {
        labels_count_every_decision(ds.drop_last());
    }
}

} // verus!
