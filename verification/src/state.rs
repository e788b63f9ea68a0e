//! What the dashboard keeps of each host, the messages that background work
//! sends it, and the work that it asks for in turn.

use vstd::prelude::*;

use crate::apt::{HostInfo, HostInfoView};
use crate::config::{HostConfig, HostConfigView};
use crate::keys::{KeyCode, KeyModifiers, MouseEventKind};
use crate::task::{TaskState, TaskStatusView, TaskView};
use crate::text;

verus! {

// ── Per-host state ───────────────────────────────────────────────────────────

#[derive(Debug, PartialEq)]
pub enum HostStatus {
    Unknown,
    Connecting,
    Gathering,
    Ready,
    Error(String),
}

pub enum HostStatusView {
    Unknown,
    Connecting,
    Gathering,
    Ready,
    Error(Seq<char>),
}

impl DeepView for HostStatus {
    type V = HostStatusView;

    open spec fn deep_view(&self) -> HostStatusView {
        match self {
            HostStatus::Unknown => HostStatusView::Unknown,
            HostStatus::Connecting => HostStatusView::Connecting,
            HostStatus::Gathering => HostStatusView::Gathering,
            HostStatus::Ready => HostStatusView::Ready,
            HostStatus::Error(error) => HostStatusView::Error(error@),
        }
    }
}

impl Clone for HostStatus {
    fn clone(&self) -> (r: Self)
        ensures
            r.deep_view() == self.deep_view(),
    {
        match self {
            HostStatus::Unknown => HostStatus::Unknown,
            HostStatus::Connecting => HostStatus::Connecting,
            HostStatus::Gathering => HostStatus::Gathering,
            HostStatus::Ready => HostStatus::Ready,
            HostStatus::Error(error) => HostStatus::Error(error.clone()),
        }
    }
}

#[derive(Debug)]
pub struct HostState {
    pub cfg: HostConfig,
    pub status: HostStatus,
    pub info: Option<HostInfo>,
    pub task: Option<TaskState>,
    /// True when `info` was loaded from the on-disk cache and hasn't been
    /// confirmed by a live gather yet this run.
    pub is_stale: bool,
}

pub struct HostView {
    pub cfg: HostConfigView,
    pub status: HostStatusView,
    pub info: Option<HostInfoView>,
    pub task: Option<TaskView>,
    pub is_stale: bool,
}

impl DeepView for HostState {
    type V = HostView;

    open spec fn deep_view(&self) -> HostView {
        HostView {
            cfg: self.cfg.deep_view(),
            status: self.status.deep_view(),
            info: self.info.deep_view(),
            task: self.task.deep_view(),
            is_stale: self.is_stale,
        }
    }
}

/// A host of which nothing is known.
pub open spec fn unknown_host(cfg: HostConfigView) -> HostView {
    HostView { cfg, status: HostStatusView::Unknown, info: None, task: None, is_stale: false }
}

impl HostView {
    /// A task is in progress on the host.
    pub open spec fn running(self) -> bool {
        self.task matches Some(t) && t.status == TaskStatusView::Running
    }

    /// There is SSH work in progress on the host: a task, or a gather.
    pub open spec fn active(self) -> bool {
        self.running() || self.status == HostStatusView::Connecting || self.status
            == HostStatusView::Gathering
    }
}

impl HostState {
    pub fn new(cfg: HostConfig) -> (r: Self)
        ensures
            r.deep_view() == unknown_host(cfg.deep_view()),
    {
        HostState { cfg, status: HostStatus::Unknown, info: None, task: None, is_stale: false }
    }

    /// Whether a task is in progress on the host.
    pub fn is_running(&self) -> (r: bool)
        ensures
            r == self.deep_view().running(),
    {
        match &self.task {
            Some(t) => t.is_running(),
            None => false,
        }
    }

    /// Whether there is SSH work in progress on the host: a task, or a gather.
    pub fn is_active(&self) -> (r: bool)
        ensures
            r == self.deep_view().active(),
    {
        self.is_running() || match self.status {
            HostStatus::Connecting | HostStatus::Gathering => true,
            _ => false,
        }
    }
}

// ── Reboot confirmation modal state ──────────────────────────────────────────

#[derive(Debug)]
pub struct RebootConfirmState {
    pub host_idx: usize,
    pub input: String,
    /// True when the user pressed Enter with an incorrect hostname.
    pub mismatch: bool,
}

pub struct RebootView {
    pub host_idx: int,
    pub input: Seq<char>,
    pub mismatch: bool,
}

impl DeepView for RebootConfirmState {
    type V = RebootView;

    open spec fn deep_view(&self) -> RebootView {
        RebootView {
            host_idx: self.host_idx as int,
            input: self.input@,
            mismatch: self.mismatch,
        }
    }
}

// ── Messages flowing from background tasks to the app ────────────────────────

#[allow(inconsistent_fields)]
#[derive(Debug)]
pub enum AppMessage {
    GatherDone { host_idx: usize, result: Result<HostInfo, String> },
    TaskLine { host_idx: usize, line: String },
    TaskDone { host_idx: usize, exit_code: i32 },
    TaskFailed { host_idx: usize, error: String },
    ConffileDiff { host_idx: usize, pending_path: String, result: Result<Vec<String>, String> },
}

#[allow(inconsistent_fields)]
pub enum MessageView {
    GatherDone { host_idx: int, result: Result<HostInfoView, Seq<char>> },
    TaskLine { host_idx: int, line: Seq<char> },
    TaskDone { host_idx: int, exit_code: i32 },
    TaskFailed { host_idx: int, error: Seq<char> },
    ConffileDiff {
        host_idx: int,
        pending_path: Seq<char>,
        result: Result<Seq<Seq<char>>, Seq<char>>,
    },
}

impl DeepView for AppMessage {
    type V = MessageView;

    open spec fn deep_view(&self) -> MessageView {
        match self {
            AppMessage::GatherDone { host_idx, result } => MessageView::GatherDone {
                host_idx: *host_idx as int,
                result: match result {
                    Ok(info) => Ok(info.deep_view()),
                    Err(e) => Err(e@),
                },
            },
            AppMessage::TaskLine { host_idx, line } => MessageView::TaskLine {
                host_idx: *host_idx as int,
                line: line@,
            },
            AppMessage::TaskDone { host_idx, exit_code } => MessageView::TaskDone {
                host_idx: *host_idx as int,
                exit_code: *exit_code,
            },
            AppMessage::TaskFailed { host_idx, error } => MessageView::TaskFailed {
                host_idx: *host_idx as int,
                error: error@,
            },
            AppMessage::ConffileDiff { host_idx, pending_path, result } =>
                MessageView::ConffileDiff {
                host_idx: *host_idx as int,
                pending_path: pending_path@,
                result: match result {
                    Ok(lines) => Ok(lines.deep_view()),
                    Err(e) => Err(e@),
                },
            },
        }
    }
}

impl MessageView {
    /// The host that the message is about.
    pub open spec fn host(self) -> int {
        match self {
            MessageView::GatherDone { host_idx, .. } => host_idx,
            MessageView::TaskLine { host_idx, .. } => host_idx,
            MessageView::TaskDone { host_idx, .. } => host_idx,
            MessageView::TaskFailed { host_idx, .. } => host_idx,
            MessageView::ConffileDiff { host_idx, .. } => host_idx,
        }
    }
}

// ── Work that the app asks for ───────────────────────────────────────────────

/// Something that is done outside the dashboard on its behalf.
#[derive(Debug, PartialEq)]
pub enum Effect {
    /// Gather a host's information.
    Refresh { host_idx: usize },
    /// Run a command on a host and report its output.
    RunTask { host_idx: usize, command: String },
    /// Run a command on a host and report its output as a file's diff.
    FetchDiff { host_idx: usize, pending_path: String, command: String },
    /// Write the cache to disk.
    SaveCache,
}

pub enum EffectView {
    Refresh { host_idx: int },
    RunTask { host_idx: int, command: Seq<char> },
    FetchDiff { host_idx: int, pending_path: Seq<char>, command: Seq<char> },
    SaveCache,
}

impl DeepView for Effect {
    type V = EffectView;

    open spec fn deep_view(&self) -> EffectView {
        match self {
            Effect::Refresh { host_idx } => EffectView::Refresh { host_idx: *host_idx as int },
            Effect::RunTask { host_idx, command } => EffectView::RunTask {
                host_idx: *host_idx as int,
                command: command@,
            },
            Effect::FetchDiff { host_idx, pending_path, command } => EffectView::FetchDiff {
                host_idx: *host_idx as int,
                pending_path: pending_path@,
                command: command@,
            },
            Effect::SaveCache => EffectView::SaveCache,
        }
    }
}

impl EffectView {
    /// The host that work is done on.
    pub open spec fn host(self) -> Option<int> {
        match self {
            EffectView::Refresh { host_idx } => Some(host_idx),
            EffectView::RunTask { host_idx, .. } => Some(host_idx),
            EffectView::FetchDiff { host_idx, .. } => Some(host_idx),
            EffectView::SaveCache => None,
        }
    }
}

// ── Events ───────────────────────────────────────────────────────────────────

/// Something that the event loop waits for.
#[derive(Debug)]
pub enum AppEvent {
    /// The clock that drives the spinners.
    Tick,
    Message(AppMessage),
    Key { code: KeyCode, modifiers: KeyModifiers, pressed: bool },
    Mouse { kind: MouseEventKind, col: u16, terminal: Option<u16> },
    Other,
}

pub enum EventView {
    Tick,
    Message(MessageView),
    Key { code: KeyCode, modifiers: KeyModifiers, pressed: bool },
    Mouse { kind: MouseEventKind, col: u16, terminal: Option<u16> },
    Other,
}

impl DeepView for AppEvent {
    type V = EventView;

    open spec fn deep_view(&self) -> EventView {
        match self {
            AppEvent::Tick => EventView::Tick,
            AppEvent::Message(msg) => EventView::Message(msg.deep_view()),
            AppEvent::Key { code, modifiers, pressed } => EventView::Key {
                code: *code,
                modifiers: *modifiers,
                pressed: *pressed,
            },
            AppEvent::Mouse { kind, col, terminal } => EventView::Mouse {
                kind: *kind,
                col: *col,
                terminal: *terminal,
            },
            AppEvent::Other => EventView::Other,
        }
    }
}

// ── Reports of background work ───────────────────────────────────────────────

/// What is reported where a task's host could not be reached.
pub fn connection_failed(host_idx: usize, error: String) -> (r: Vec<AppMessage>)
    ensures
        r.deep_view() == seq![
            MessageView::TaskLine {
                host_idx: host_idx as int,
                line: "Connection failed: "@ + error@,
            },
            MessageView::TaskFailed { host_idx: host_idx as int, error: error@ },
        ],
{
    let line = text::cat("Connection failed: ", error.as_str());
    let mut r: Vec<AppMessage> = Vec::new();
    let ghost e = error@;
    r.push(AppMessage::TaskLine { host_idx, line });
    r.push(AppMessage::TaskFailed { host_idx, error });
    assert(r.deep_view() =~= seq![
        MessageView::TaskLine { host_idx: host_idx as int, line: "Connection failed: "@ + e },
        MessageView::TaskFailed { host_idx: host_idx as int, error: e },
    ]);
    r
}

/// What is reported where a task's command has ended, or could not be run.
pub fn command_ended(host_idx: usize, exit: Result<i32, String>) -> (r: Vec<AppMessage>)
    ensures
        r.deep_view() == match exit {
            Ok(exit_code) => seq![
                MessageView::TaskDone { host_idx: host_idx as int, exit_code },
            ],
            Err(e) => seq![
                MessageView::TaskLine { host_idx: host_idx as int, line: "Error: "@ + e@ },
                MessageView::TaskDone { host_idx: host_idx as int, exit_code: -1i32 },
            ],
        },
{
    let mut r: Vec<AppMessage> = Vec::new();
    match exit {
        Ok(exit_code) => {
            r.push(AppMessage::TaskDone { host_idx, exit_code });
            assert(r.deep_view() =~= seq![
                MessageView::TaskDone { host_idx: host_idx as int, exit_code },
            ]);
        },
        Err(e) => {
            r.push(AppMessage::TaskLine { host_idx, line: text::cat("Error: ", e.as_str()) });
            r.push(AppMessage::TaskDone { host_idx, exit_code: -1 });
            assert(r.deep_view() =~= seq![
                MessageView::TaskLine { host_idx: host_idx as int, line: "Error: "@ + e@ },
                MessageView::TaskDone { host_idx: host_idx as int, exit_code: -1i32 },
            ]);
        },
    }
    r
}

/// What is reported of a diff: the lines of the output, or why there is none.
pub fn diff_fetched(
    host_idx: usize,
    pending_path: String,
    output: Result<String, String>,
) -> (r: AppMessage)
    ensures
        r.deep_view() == (MessageView::ConffileDiff {
            host_idx: host_idx as int,
            pending_path: pending_path@,
            result: match output {
                Ok(out) => Ok(text::lines(out@)),
                Err(e) => Err(e@),
            },
        }),
{
    let result = match output {
        Ok(out) => Ok(text::lines_of(out.as_str())),
        Err(e) => Err(e),
    };
    AppMessage::ConffileDiff { host_idx, pending_path, result }
}

} // verus!
