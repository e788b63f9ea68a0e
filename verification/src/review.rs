//! The state of the modal in which a host's pending conffiles are reviewed.

use vstd::prelude::*;

use crate::apt::{PendingConffile, PendingConffileView};
use crate::keys::ReviewCommand;
use crate::lemmas;
use crate::table::Table;
use crate::task;
use crate::task::{ConffileAction, ConffileDecision, ConffileDecisionView};

verus! {

/// Diff of one pending conffile against the live file it would replace.
#[derive(Debug)]
pub enum DiffState {
    Loading,
    Loaded(Vec<String>),
    Failed(String),
}

pub enum DiffView {
    Loading,
    Loaded(Seq<Seq<char>>),
    Failed(Seq<char>),
}

impl DeepView for DiffState {
    type V = DiffView;

    open spec fn deep_view(&self) -> DiffView {
        match self {
            DiffState::Loading => DiffView::Loading,
            DiffState::Loaded(lines) => DiffView::Loaded(lines.deep_view()),
            DiffState::Failed(error) => DiffView::Failed(error@),
        }
    }
}

impl Clone for DiffState {
    fn clone(&self) -> (r: Self)
        ensures
            r.deep_view() == self.deep_view(),
    {
        match self {
            DiffState::Loading => DiffState::Loading,
            DiffState::Loaded(lines) => {
                let copy = lines.clone();
                assert(copy.deep_view() =~= lines.deep_view());
                DiffState::Loaded(copy)
            },
            DiffState::Failed(error) => DiffState::Failed(error.clone()),
        }
    }
}

#[derive(Debug)]
pub struct ConffileReviewState {
    pub host_idx: usize,
    /// Snapshot taken when the modal opened; the live gather may move on.
    pub files: Vec<PendingConffile>,
    /// Marks parallel to `files`; `None` means undecided. Nothing touches the
    /// host until the batch is executed with Enter.
    pub decisions: Vec<Option<ConffileAction>>,
    pub selected: usize,
    /// Diffs keyed by pending path, fetched lazily as files are selected.
    pub diffs: Table<DiffState>,
    pub scroll: u16,
    /// True once the user has pressed Enter with marks set; the next key
    /// confirms or cancels executing the batch.
    pub confirm_execute: bool,
    /// Transient footer message, e.g. why an action was refused.
    pub notice: Option<String>,
}

#[verifier::ext_equal]
pub struct ReviewView {
    pub host_idx: int,
    pub files: Seq<PendingConffileView>,
    pub decisions: Seq<Option<ConffileAction>>,
    pub selected: int,
    pub diffs: Map<Seq<char>, DiffView>,
    pub scroll: u16,
    pub confirm_execute: bool,
    pub notice: Option<Seq<char>>,
}

impl DeepView for ConffileReviewState {
    type V = ReviewView;

    open spec fn deep_view(&self) -> ReviewView {
        ReviewView {
            host_idx: self.host_idx as int,
            files: self.files.deep_view(),
            decisions: self.decisions@,
            selected: self.selected as int,
            diffs: self.diffs.deep_view(),
            scroll: self.scroll,
            confirm_execute: self.confirm_execute,
            notice: self.notice.deep_view(),
        }
    }
}

/// A modal that was just opened on a host's files.
pub open spec fn opened(host_idx: int, files: Seq<PendingConffileView>) -> ReviewView {
    ReviewView {
        host_idx,
        files,
        decisions: Seq::new(files.len(), |i: int| None),
        selected: 0,
        diffs: Map::empty(),
        scroll: 0,
        confirm_execute: false,
        notice: None,
    }
}

/// The decision that a mark on a file stands for.
pub open spec fn decision() -> spec_fn((PendingConffileView, Option<ConffileAction>)) -> Option<
    ConffileDecisionView,
> {
    |x: (PendingConffileView, Option<ConffileAction>)|
        match x.1 {
            Some(action) => Some(ConffileDecisionView { file: x.0, action }),
            None => None,
        }
}

/// The mark is one for `action`.
pub open spec fn marks(action: ConffileAction) -> spec_fn(Option<ConffileAction>) -> bool {
    |mark: Option<ConffileAction>| mark == Some(action)
}

/// A mark after a key asked for `action`: asked for again it is cleared,
/// otherwise it is replaced.
pub open spec fn toggled(
    mark: Option<ConffileAction>,
    action: ConffileAction,
) -> Option<ConffileAction> {
    if mark == Some(action) {
        None
    } else {
        Some(action)
    }
}

impl ReviewView {
    /// There is one mark for each file, and a file is selected.
    pub open spec fn valid(self) -> bool {
        &&& self.decisions.len() == self.files.len()
        &&& 0 <= self.selected < self.files.len()
    }

    pub open spec fn file(self) -> Option<PendingConffileView> {
        if 0 <= self.selected < self.files.len() {
            Some(self.files[self.selected])
        } else {
            None
        }
    }

    pub open spec fn diff(self) -> Option<DiffView> {
        match self.file() {
            Some(file) if self.diffs.contains_key(file.pending_path) => Some(
                self.diffs[file.pending_path],
            ),
            _ => None,
        }
    }

    /// The diff of the file at `path` is neither loading nor loaded.
    pub open spec fn needs_diff(self, path: Seq<char>) -> bool {
        !self.diffs.contains_key(path) || self.diffs[path] is Failed
    }

    /// Each file with its mark, as far as there is one of both.
    pub open spec fn marked_files(self) -> Seq<(PendingConffileView, Option<ConffileAction>)> {
        Seq::new(
            if self.files.len() <= self.decisions.len() {
                self.files.len()
            } else {
                self.decisions.len()
            },
            |i: int| (self.files[i], self.decisions[i]),
        )
    }

    /// Marked files paired with their action, in list order.
    pub open spec fn marked(self) -> Seq<ConffileDecisionView> {
        self.marked_files().filter_map(decision())
    }

    /// How many files are marked for `action`.
    pub open spec fn count(self, action: ConffileAction) -> nat {
        self.decisions.filter(marks(action)).len()
    }

    /// The selected file's mark toggled.
    pub open spec fn toggle(self, action: ConffileAction) -> ReviewView {
        if 0 <= self.selected < self.decisions.len() {
            ReviewView {
                decisions: self.decisions.update(
                    self.selected,
                    toggled(self.decisions[self.selected], action),
                ),
                ..self
            }
        } else {
            self
        }
    }

    /// There is a file after the selected one.
    pub open spec fn has_next(self) -> bool {
        self.selected + 1 < self.files.len()
    }

    /// The selection moved to `selected`: a fresh look at another diff.
    pub open spec fn look_at(self, selected: int) -> ReviewView {
        ReviewView { selected, scroll: 0, notice: None, ..self }
    }

    /// The number of lines of the selected file's diff, as a scroll position
    /// counts them.
    pub open spec fn diff_len(self) -> int {
        match self.diff() {
            Some(DiffView::Loaded(lines)) => lines.len() as int % 65536,
            _ => 0,
        }
    }

    /// The selected file marked, and the next one selected, if there is one.
    pub open spec fn mark(self, action: ConffileAction) -> ReviewView {
        let marked = (ReviewView { notice: None, ..self }).toggle(action);
        if self.has_next() {
            marked.look_at(self.selected + 1)
        } else {
            marked
        }
    }

    /// The modal after a command, for as long as it stays open.
    pub open spec fn after(self, command: ReviewCommand) -> ReviewView {
        match command {
            ReviewCommand::Close => self,
            ReviewCommand::Previous => self.look_at(
                if self.selected > 0 {
                    self.selected - 1
                } else {
                    0
                },
            ),
            ReviewCommand::Next => if self.has_next() {
                self.look_at(self.selected + 1)
            } else {
                self
            },
            ReviewCommand::PageUp => ReviewView {
                scroll: if self.scroll >= 10 {
                    (self.scroll - 10) as u16
                } else {
                    0
                },
                ..self
            },
            ReviewCommand::PageDown => {
                let last = if self.diff_len() > 0 {
                    self.diff_len() - 1
                } else {
                    0
                };
                ReviewView {
                    scroll: (if self.scroll + 10 <= last {
                        self.scroll + 10
                    } else {
                        last
                    }) as u16,
                    ..self
                }
            },
            ReviewCommand::Top => ReviewView { scroll: 0, ..self },
            ReviewCommand::MarkDiscard => self.mark(ConffileAction::Discard),
            ReviewCommand::MarkApply => self.mark(ConffileAction::Apply),
            ReviewCommand::Unmark => if 0 <= self.selected < self.decisions.len() {
                ReviewView { decisions: self.decisions.update(self.selected, None), ..self }
            } else {
                self
            },
            ReviewCommand::Execute => if self.marked().len() == 0 {
                ReviewView {
                    notice: Some("nothing marked — d marks discard, a marks apply"@),
                    ..self
                }
            } else {
                ReviewView { notice: None, confirm_execute: true, ..self }
            },
        }
    }

    /// Whether a command moves the selection, or tries to.
    pub open spec fn moves(self, command: ReviewCommand) -> bool {
        match command {
            ReviewCommand::Previous => true,
            ReviewCommand::Next | ReviewCommand::MarkDiscard | ReviewCommand::MarkApply =>
                self.has_next(),
            _ => false,
        }
    }
}

fn same_mark(a: Option<ConffileAction>, b: ConffileAction) -> (r: bool)
    ensures
        r == (a == Some(b)),
{
    match a {
        Some(x) => x == b,
        None => false,
    }
}

impl ConffileReviewState {
    /// Opens the modal on a host's files.
    pub fn open(host_idx: usize, files: Vec<PendingConffile>) -> (r: Self)
        ensures
            r.deep_view() == opened(host_idx as int, files.deep_view()),
    {
        let mut decisions: Vec<Option<ConffileAction>> = Vec::new();
        let n: usize = files.len();
        while decisions.len() < n
            invariant
                n == files@.len(),
                decisions@.len() <= n,
                forall|i: int| 0 <= i < decisions@.len() ==> #[trigger] decisions@[i] is None,
            decreases n - decisions@.len(),
        {
            decisions.push(None);
        }
        let r = ConffileReviewState {
            host_idx,
            files,
            decisions,
            selected: 0,
            diffs: Table::new(),
            scroll: 0,
            confirm_execute: false,
            notice: None,
        };
        assert(r.deep_view() =~= opened(host_idx as int, files.deep_view()));
        r
    }

    pub fn selected_file(&self) -> (r: Option<&PendingConffile>)
        ensures
            r.deep_view() == self.deep_view().file(),
            r is Some ==> self.selected < self.files@.len() && *r->0 == self.files@[self.selected as int],
    {
        if self.selected < self.files.len() {
            Some(&self.files[self.selected])
        } else {
            None
        }
    }

    pub fn selected_diff(&self) -> (r: Option<&DiffState>)
        ensures
            r.deep_view() == self.deep_view().diff(),
    {
        match self.selected_file() {
            Some(file) => self.diffs.get(file.pending_path.as_str()),
            None => None,
        }
    }

    /// Whether the diff of the file at `path` is neither loading nor loaded.
    pub fn lacks_diff(&self, path: &str) -> (r: bool)
        ensures
            r == self.deep_view().needs_diff(path@),
    {
        match self.diffs.get(path) {
            Some(DiffState::Loading) | Some(DiffState::Loaded(_)) => false,
            Some(DiffState::Failed(_)) | None => true,
        }
    }

    /// Marked files paired with their action, in list order.
    pub fn marked_decisions(&self) -> (r: Vec<ConffileDecision>)
        ensures
            r.deep_view() == self.deep_view().marked(),
    {
        let ghost all = self.deep_view().marked_files();
        let n: usize = if self.files.len() <= self.decisions.len() {
            self.files.len()
        } else {
            self.decisions.len()
        };
        let mut r: Vec<ConffileDecision> = Vec::new();
        let mut i: usize = 0;
        assert(r.deep_view() =~= seq![]);
        while i < n
            invariant
                n == all.len(),
                n <= self.files@.len(),
                n <= self.decisions@.len(),
                all == self.deep_view().marked_files(),
                i <= n,
                r.deep_view() == all.take(i as int).filter_map(decision()),
            decreases n - i,
        {
            proof {
                all.lemma_filter_map_take_succ(decision(), i as int);
            }
            let ghost before = r.deep_view();
            if let Some(action) = self.decisions[i] {
                let d = ConffileDecision { file: self.files[i].clone(), action };
                r.push(d);
                assert(r.deep_view() =~= before.push(d.deep_view()));
            }
            i += 1;
        }
        assert(all.take(n as int) =~= all);
        r
    }

    fn count_marks(&self, action: ConffileAction) -> (r: usize)
        ensures
            r == self.deep_view().count(action),
            r <= self.decisions@.len(),
    {
        let ghost all = self.decisions@;
        let n: usize = self.decisions.len();
        let mut count: usize = 0;
        let mut i: usize = 0;
        proof {
            reveal(Seq::filter);
        }
        while i < n
            invariant
                n == self.decisions@.len(),
                all == self.decisions@,
                i <= n,
                count <= i,
                count == all.take(i as int).filter(marks(action)).len(),
            decreases n - i,
        {
            proof {
                assert(all.take(i + 1) =~= all.take(i as int).push(all[i as int]));
                all.take(i as int).lemma_filter_push(all[i as int], marks(action));
            }
            if same_mark(self.decisions[i], action) {
                count += 1;
            }
            i += 1;
        }
        assert(all.take(n as int) =~= all);
        count
    }

    /// (discards, applies) currently marked.
    pub fn marked_counts(&self) -> (r: (usize, usize))
        ensures
            r.0 == self.deep_view().count(ConffileAction::Discard),
            r.1 == self.deep_view().count(ConffileAction::Apply),
            r.0 + r.1 <= self.decisions.len(),
    {
        proof {
            lemma_counts(self.decisions@);
        }
        (self.count_marks(ConffileAction::Discard), self.count_marks(ConffileAction::Apply))
    }

    /// Toggle a mark on the selected file: same action again clears it, a
    /// different action replaces it.
    pub fn toggle_mark(&mut self, action: ConffileAction)
        ensures
            final(self).deep_view() == old(self).deep_view().toggle(action),
    {
        if self.selected < self.decisions.len() {
            let mark = if same_mark(self.decisions[self.selected], action) {
                None
            } else {
                Some(action)
            };
            let selected: usize = self.selected;
            self.decisions.set(selected, mark);
        }
    }

    fn next_file(&self) -> (r: Option<usize>)
        ensures
            r is Some == self.deep_view().has_next(),
            r is Some ==> r->0 == self.selected + 1,
    {
        if self.selected < self.files.len() && self.files.len() - self.selected > 1 {
            Some(self.selected + 1)
        } else {
            None
        }
    }

    fn move_to(&mut self, selected: usize)
        ensures
            final(self).deep_view() == old(self).deep_view().look_at(selected as int),
    {
        self.selected = selected;
        self.scroll = 0;
        self.notice = None;
    }

    /// Marks the selected file and advances to the next one, batch-triage style.
    fn mark_and_advance(&mut self, action: ConffileAction) -> (r: bool)
        ensures
            final(self).deep_view() == old(self).deep_view().mark(action),
            r == old(self).deep_view().has_next(),
    {
        self.notice = None;
        self.toggle_mark(action);
        match self.next_file() {
            Some(next) => {
                self.move_to(next);
                true
            },
            None => false,
        }
    }

    /// Carries out a command. Returns whether the selection has moved, so that
    /// another diff may be needed.
    pub fn react(&mut self, command: ReviewCommand) -> (r: bool)
        ensures
            final(self).deep_view() == old(self).deep_view().after(command),
            r == old(self).deep_view().moves(command),
    {
        match command {
            ReviewCommand::Close => false,
            ReviewCommand::Previous => {
                let previous: usize = if self.selected > 0 {
                    self.selected - 1
                } else {
                    0
                };
                self.move_to(previous);
                true
            },
            ReviewCommand::Next => match self.next_file() {
                Some(next) => {
                    self.move_to(next);
                    true
                },
                None => false,
            },
            ReviewCommand::PageUp => {
                self.scroll = self.scroll.saturating_sub(10);
                false
            },
            ReviewCommand::PageDown => {
                let len: u64 = match self.selected_diff() {
                    Some(DiffState::Loaded(lines)) => lines.len() as u64 % 65536,
                    _ => 0,
                };
                let last: u64 = len.saturating_sub(1);
                let wanted: u64 = self.scroll as u64 + 10;
                self.scroll = if wanted <= last {
                    wanted as u16
                } else {
                    last as u16
                };
                false
            },
            ReviewCommand::Top => {
                self.scroll = 0;
                false
            },
            ReviewCommand::MarkDiscard => self.mark_and_advance(ConffileAction::Discard),
            ReviewCommand::MarkApply => self.mark_and_advance(ConffileAction::Apply),
            ReviewCommand::Unmark => {
                let selected: usize = self.selected;
                if selected < self.decisions.len() {
                    self.decisions.set(selected, None);
                }
                false
            },
            ReviewCommand::Execute => {
                if self.marked_decisions().len() == 0 {
                    self.notice = Some(
                        "nothing marked — d marks discard, a marks apply".to_string(),
                    );
                } else {
                    self.notice = None;
                    self.confirm_execute = true;
                }
                false
            },
        }
    }
}

// ── Laws ─────────────────────────────────────────────────────────────────────

proof fn lemma_counts(marked: Seq<Option<ConffileAction>>)
    ensures
        marked.filter(marks(ConffileAction::Discard)).len() + marked.filter(
            marks(ConffileAction::Apply),
        ).len() <= marked.len(),
    decreases marked.len(),
{
    reveal(Seq::filter);
    if marked.len() > 0 {
        lemma_counts(marked.drop_last());
    }
}

/// Every marked file is counted once, by its action: the two counts add up to
/// the number of decisions, and each is the number of decisions of its kind.
pub proof fn counts_add_up(s: ReviewView)
    requires
        s.decisions.len() == s.files.len(),
    ensures
        s.marked().len() == s.count(ConffileAction::Discard) + s.count(ConffileAction::Apply),
        task::apply_count(s.marked()) == s.count(ConffileAction::Apply),
{
    let all = s.marked_files();
    lemma_counts_up_to(s, all.len() as int);
    assert(all.take(all.len() as int) =~= all);
    assert(s.decisions.take(all.len() as int) =~= s.decisions);
}

proof fn lemma_counts_up_to(s: ReviewView, n: int)
    requires
        s.decisions.len() == s.files.len(),
        0 <= n <= s.files.len(),
    ensures
        ({
            let m = s.marked_files().take(n).filter_map(decision());
            let d = s.decisions.take(n);
            &&& m.len() == d.filter(marks(ConffileAction::Discard)).len() + d.filter(
                marks(ConffileAction::Apply),
            ).len()
            &&& task::apply_count(m) == d.filter(marks(ConffileAction::Apply)).len()
        }),
    decreases n,
{
    reveal(Seq::filter);
    if n > 0 {
        lemma_counts_up_to(s, n - 1);
        let all = s.marked_files();
        assert(all.take(n).drop_last() =~= all.take(n - 1));
        assert(s.decisions.take(n).drop_last() =~= s.decisions.take(n - 1));
        let before = all.take(n - 1).filter_map(decision());
        if s.decisions[n - 1] is Some {
            let d = ConffileDecisionView { file: s.files[n - 1], action: s.decisions[n - 1]->0 };
            assert(all.take(n).filter_map(decision()) =~= before.push(d));
            before.lemma_filter_push(d, task::applies());
        }
    }
}

/// The decisions that are executed are about files of the list, in its order,
/// and each has the action that its file is marked with.
pub proof fn decisions_follow_the_marks(s: ReviewView, d: ConffileDecisionView)
    ensures
        s.marked().contains(d) <==> exists|i: int|
            0 <= i < s.files.len() && i < s.decisions.len() && #[trigger] s.files[i] == d.file
                && s.decisions[i] == Some(d.action),
{
    let all = s.marked_files();
    if s.marked().contains(d) {
        all.lemma_filter_map_contains(decision(), d);
        let x = choose|x: (PendingConffileView, Option<ConffileAction>)| #[trigger]
            all.contains(x) && decision()(x) == Some(d);
        let i = choose|i: int| 0 <= i < all.len() && all[i] == x;
        assert(s.files[i] == d.file);
    }
    if exists|i: int|
        0 <= i < s.files.len() && i < s.decisions.len() && #[trigger] s.files[i] == d.file
            && s.decisions[i] == Some(d.action) {
        let i = choose|i: int|
            0 <= i < s.files.len() && i < s.decisions.len() && #[trigger] s.files[i] == d.file
                && s.decisions[i] == Some(d.action);
        assert(decision()(all[i]) == Some(d));
        lemmas::lemma_filter_map_has(all, decision(), i);
    }
}

/// Toggling twice clears a mark; in between, the mark is the one asked for, or
/// cleared where it stood already.
pub proof fn toggling_twice_clears(s: ReviewView, action: ConffileAction)
    requires
        s.valid(),
    ensures
        s.decisions[s.selected] is None ==> s.toggle(action).toggle(action) == s,
        s.decisions[s.selected] == Some(action) ==> s.toggle(action).decisions[s.selected] is None,
        s.decisions[s.selected] != Some(action) ==> s.toggle(action).decisions[s.selected] == Some(
            action,
        ),
{
    if s.decisions[s.selected] is None {
        assert(s.toggle(action).toggle(action).decisions =~= s.decisions);
    }
}

/// Whatever the command, the modal keeps its files and its diffs, one mark for
/// each file and a file selected; only the selected file's mark can change.
pub proof fn commands_keep_the_review_valid(s: ReviewView, command: ReviewCommand)
    requires
        s.valid(),
    ensures
        s.after(command).valid(),
        s.after(command).files == s.files,
        s.after(command).diffs == s.diffs,
        s.after(command).host_idx == s.host_idx,
        forall|i: int|
            0 <= i < s.files.len() && i != s.selected ==> #[trigger] s.after(command).decisions[i]
                == s.decisions[i],
{
}

/// What is selected is the file at that place of the list, and its diff is the one
/// kept under its path.
pub proof fn the_selected_file_is_the_one_pointed_at(s: ReviewView)
    requires
        s.valid(),
    ensures
        s.file() == Some(s.files[s.selected]),
        ({
            let path = s.files[s.selected].pending_path;
            &&& s.diffs.contains_key(path) ==> s.diff() == Some(s.diffs[path])
            &&& !s.diffs.contains_key(path) ==> s.diff() is None
        }),
{
}

} // verus!
