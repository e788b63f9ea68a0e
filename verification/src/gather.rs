//! What is asked of a host to learn the state of its packages, and what is made
//! of the answers. A `Gatherer` says which command to run next and takes in its
//! output, until there is nothing left to ask.

use vstd::prelude::*;

use crate::apt;
use crate::apt::{
    HeldPackage,
    HeldPackageView,
    HoldReason,
    HostInfo,
    HostInfoView,
    PendingConffile,
    PendingConffileView,
};
use crate::parse;
use crate::parse::{
    attach_conffile_owners,
    parse_autoremovable,
    parse_held_manually,
    parse_install_dry_run,
    parse_kept_back,
    parse_pending_conffiles,
    parse_rc_packages,
    parse_upgradable,
    DryRunSection,
};
use crate::ssh;
use crate::ssh::shell_quote;
use crate::task;
use crate::text;

verus! {

/// What is asked next.
#[derive(Debug, Clone, Copy)]
pub enum Step {
    /// Running kernel.
    Kernel,
    /// Latest installed kernel package.
    LatestKernel,
    /// Reboot required flag.
    Reboot,
    /// Upgradable packages.
    Upgradable,
    /// RC packages.
    Rc,
    /// Manually held packages.
    Held,
    /// Kept-back packages, from a simulated upgrade.
    KeptBack,
    /// Why the held package with this index is kept back, from a simulated
    /// install: it cannot be upgraded with a plain `apt upgrade` (e.g. new
    /// dependencies needed).
    Detail(usize),
    /// Packages eligible for autoremove.
    AutoRemove,
    /// Config files that a package upgrade wanted to install but left beside
    /// the live file.
    Conffiles,
    /// The packages that own those files.
    Owners,
    Done,
}

pub enum StepView {
    Kernel,
    LatestKernel,
    Reboot,
    Upgradable,
    Rc,
    Held,
    KeptBack,
    Detail(int),
    AutoRemove,
    Conffiles,
    Owners,
    Done,
}

impl DeepView for Step {
    type V = StepView;

    open spec fn deep_view(&self) -> StepView {
        match self {
            Step::Kernel => StepView::Kernel,
            Step::LatestKernel => StepView::LatestKernel,
            Step::Reboot => StepView::Reboot,
            Step::Upgradable => StepView::Upgradable,
            Step::Rc => StepView::Rc,
            Step::Held => StepView::Held,
            Step::KeptBack => StepView::KeptBack,
            Step::Detail(i) => StepView::Detail(*i as int),
            Step::AutoRemove => StepView::AutoRemove,
            Step::Conffiles => StepView::Conffiles,
            Step::Owners => StepView::Owners,
            Step::Done => StepView::Done,
        }
    }
}

/// The state of a gather.
#[derive(Debug)]
pub struct Gatherer {
    pub use_sudo: bool,
    pub step: Step,
    /// What is known so far.
    pub info: HostInfo,
}

pub struct GatherView {
    pub use_sudo: bool,
    pub step: StepView,
    pub info: HostInfoView,
}

impl DeepView for Gatherer {
    type V = GatherView;

    open spec fn deep_view(&self) -> GatherView {
        GatherView {
            use_sudo: self.use_sudo,
            step: self.step.deep_view(),
            info: self.info.deep_view(),
        }
    }
}

// ── Commands ─────────────────────────────────────────────────────────────────

pub open spec fn reboot_command(use_sudo: bool) -> Seq<char> {
    task::sudo_prefix(use_sudo) + "test -f /var/run/reboot-required && echo yes || echo no"@
}

pub open spec fn install_command(name: Seq<char>) -> Seq<char> {
    "LC_ALL=C apt-get -s install "@ + name + " 2>&1"@
}

pub open spec fn autoremove_command(use_sudo: bool) -> Seq<char> {
    "LC_ALL=C "@ + task::sudo_prefix(use_sudo) + "apt-get -s autoremove --purge 2>/dev/null"@
}

/// `-xdev` keeps the scan on /etc's own filesystem so a network mount under
/// /etc can't stall the gather.
pub open spec fn find_command(use_sudo: bool) -> Seq<char> {
    task::sudo_prefix(use_sudo)
        + "find /etc -xdev -type f \\( -name '*.dpkg-dist' -o -name '*.dpkg-new' -o -name '*.ucf-dist' \\) -print 2>/dev/null"@
}

pub open spec fn quoted_live_paths(files: Seq<PendingConffileView>) -> Seq<Seq<char>> {
    files.map_values(|f: PendingConffileView| ssh::quoted(f.live_path))
}

/// One `dpkg -S` for the whole set; it accepts many paths at once.
pub open spec fn owners_command(files: Seq<PendingConffileView>) -> Seq<char> {
    "LC_ALL=C dpkg -S "@ + text::joined(quoted_live_paths(files), " "@) + " 2>/dev/null"@
}

impl GatherView {
    pub open spec fn valid(self) -> bool {
        self.step matches StepView::Detail(i) ==> 0 <= i < self.info.held_packages.len()
    }

    /// The command to run next.
    pub open spec fn command(self) -> Option<Seq<char>> {
        match self.step {
            StepView::Kernel => Some("uname -r"@),
            StepView::LatestKernel => Some(
                "LC_ALL=C dpkg -l linux-image-[0-9]* 2>/dev/null | awk '/^ii/{print $2}' | sort -V | tail -1"@,
            ),
            StepView::Reboot => Some(reboot_command(self.use_sudo)),
            StepView::Upgradable => Some("LC_ALL=C apt list --upgradable 2>/dev/null"@),
            StepView::Rc => Some("LC_ALL=C dpkg -l 2>/dev/null"@),
            StepView::Held => Some("LC_ALL=C apt-mark showhold 2>/dev/null"@),
            StepView::KeptBack => Some("LC_ALL=C apt-get -s upgrade 2>&1"@),
            StepView::Detail(i) => Some(install_command(self.info.held_packages[i].name)),
            StepView::AutoRemove => Some(autoremove_command(self.use_sudo)),
            StepView::Conffiles => Some(find_command(self.use_sudo)),
            StepView::Owners => Some(owners_command(self.info.pending_conffiles)),
            StepView::Done => None,
        }
    }
}

// ── Answers ──────────────────────────────────────────────────────────────────

/// The output of a command; empty where it could not be run.
pub open spec fn answer(output: Option<Seq<char>>) -> Seq<char> {
    match output {
        Some(out) => out,
        None => seq![],
    }
}

pub open spec fn named_kernel(out: Seq<char>) -> Option<Seq<char>> {
    if text::trimmed(out).len() == 0 {
        None
    } else {
        Some(text::trimmed(out))
    }
}

/// Why a package is kept back, in words: what it needs and what it removes.
pub open spec fn reasons(needs: Seq<Seq<char>>, removes: Seq<Seq<char>>) -> Option<Seq<char>> {
    if needs.len() == 0 && removes.len() == 0 {
        None
    } else if removes.len() == 0 {
        Some("needs: "@ + text::joined(needs, ", "@))
    } else if needs.len() == 0 {
        Some("removes: "@ + text::joined(removes, ", "@))
    } else {
        Some(
            "needs: "@ + text::joined(needs, ", "@) + "; "@ + ("removes: "@ + text::joined(
                removes,
                ", "@,
            )),
        )
    }
}

/// A kept-back package with what a simulated install says of it.
pub open spec fn detailed(p: HeldPackageView, out: Seq<char>) -> HeldPackageView {
    match reasons(
        parse::dry_run_names(text::lines(out), DryRunSection::NewPackages),
        parse::dry_run_names(text::lines(out), DryRunSection::Removals),
    ) {
        Some(detail) => HeldPackageView { detail: Some(detail), ..p },
        None => p,
    }
}

/// The first kept-back package from `from` on is asked about next; when there
/// is none left, autoremove is.
pub open spec fn detail_from(held: Seq<HeldPackageView>, from: int) -> StepView
    decreases held.len() - from,
{
    if from < 0 || from >= held.len() {
        StepView::AutoRemove
    } else if held[from].reason == HoldReason::KeptBack {
        StepView::Detail(from)
    } else {
        detail_from(held, from + 1)
    }
}

pub open spec fn with_owners(
    files: Seq<PendingConffileView>,
    out: Seq<char>,
) -> Seq<PendingConffileView> {
    files.map_values(|f: PendingConffileView| parse::with_owner(f, text::lines(out)))
}

impl GatherView {
    /// The state after the output of the command that it asked for.
    pub open spec fn after(self, output: Option<Seq<char>>) -> GatherView {
        let out = answer(output);
        let info = self.info;
        match self.step {
            StepView::Kernel => GatherView {
                step: StepView::LatestKernel,
                info: HostInfoView { running_kernel: text::trimmed(out), ..info },
                ..self
            },
            StepView::LatestKernel => GatherView {
                step: StepView::Reboot,
                info: HostInfoView { latest_kernel: named_kernel(out), ..info },
                ..self
            },
            StepView::Reboot => GatherView {
                step: StepView::Upgradable,
                info: HostInfoView { reboot_required: text::trimmed(out) == "yes"@, ..info },
                ..self
            },
            StepView::Upgradable => GatherView {
                step: StepView::Rc,
                info: HostInfoView {
                    upgradable: parse::upgradable_packages(out),
                    ..info
                },
                ..self
            },
            StepView::Rc => GatherView {
                step: StepView::Held,
                info: HostInfoView {
                    rc_packages: parse::rc_packages(out),
                    ..info
                },
                ..self
            },
            StepView::Held => GatherView {
                step: StepView::KeptBack,
                info: HostInfoView {
                    held_packages: parse::manually_held(out),
                    ..info
                },
                ..self
            },
            StepView::KeptBack => {
                let held = info.held_packages + parse::kept_back(out, info.held_packages);
                GatherView {
                    step: detail_from(held, 0),
                    info: HostInfoView { held_packages: held, ..info },
                    ..self
                }
            },
            StepView::Detail(i) => {
                let held = info.held_packages.update(i, detailed(info.held_packages[i], out));
                GatherView {
                    step: detail_from(held, i + 1),
                    info: HostInfoView { held_packages: held, ..info },
                    ..self
                }
            },
            StepView::AutoRemove => GatherView {
                step: StepView::Conffiles,
                info: HostInfoView { autoremovable: parse::autoremovable(out), ..info },
                ..self
            },
            StepView::Conffiles => {
                let files = parse::pending_conffiles(out);
                GatherView {
                    step: if files.len() == 0 {
                        StepView::Done
                    } else {
                        StepView::Owners
                    },
                    info: HostInfoView { pending_conffiles: files, ..info },
                    ..self
                }
            },
            StepView::Owners => GatherView {
                step: StepView::Done,
                info: HostInfoView {
                    pending_conffiles: with_owners(info.pending_conffiles, out),
                    ..info
                },
                ..self
            },
            StepView::Done => self,
        }
    }
}

/// A gather that has not asked anything yet.
pub open spec fn begun(use_sudo: bool) -> GatherView {
    GatherView { use_sudo, step: StepView::Kernel, info: apt::no_info() }
}

// ── Executable code ──────────────────────────────────────────────────────────

fn explain(needs: &Vec<String>, removes: &Vec<String>) -> (r: Option<String>)
    ensures
        r.deep_view() == reasons(needs.deep_view(), removes.deep_view()),
{
    assert(needs.deep_view().len() == needs@.len());
    assert(removes.deep_view().len() == removes@.len());
    if needs.len() == 0 && removes.len() == 0 {
        return None;
    }
    let needed = text::cat("needs: ", text::join(needs, ", ").as_str());
    let removed = text::cat("removes: ", text::join(removes, ", ").as_str());
    if removes.len() == 0 {
        Some(needed)
    } else if needs.len() == 0 {
        Some(removed)
    } else {
        let mut r = needed;
        r.append("; ");
        r.append(removed.as_str());
        Some(r)
    }
}

fn next_detail(held: &Vec<HeldPackage>, from: usize) -> (r: Step)
    ensures
        r.deep_view() == detail_from(held.deep_view(), from as int),
        r matches Step::Detail(i) ==> i < held@.len(),
{
    let n: usize = held.len();
    let mut i: usize = from;
    while i < n
        invariant
            n == held@.len(),
            detail_from(held.deep_view(), from as int) == detail_from(held.deep_view(), i as int),
        decreases n - i,
    {
        assert(held.deep_view()[i as int] == held@[i as int].deep_view());
        if held[i].reason == HoldReason::KeptBack {
            return Step::Detail(i);
        }
        i += 1;
    }
    Step::AutoRemove
}

fn quote_live_paths(files: &Vec<PendingConffile>) -> (r: Vec<String>)
    ensures
        r.deep_view() == quoted_live_paths(files.deep_view()),
{
    let ghost all = quoted_live_paths(files.deep_view());
    let n: usize = files.len();
    let mut r: Vec<String> = Vec::new();
    let mut i: usize = 0;
    while i < n
        invariant
            n == files@.len(),
            all == quoted_live_paths(files.deep_view()),
            i <= n,
            r.deep_view() =~= all.take(i as int),
        decreases n - i,
    {
        let ghost before = r.deep_view();
        r.push(shell_quote(files[i].live_path.as_str()));
        assert(r.deep_view() =~= before.push(all[i as int]));
        i += 1;
    }
    assert(all.take(n as int) =~= all);
    r
}

impl Gatherer {
    /// Starts a gather.
    pub fn new(use_sudo: bool) -> (r: Self)
        ensures
            r.deep_view() == begun(use_sudo),
            r.deep_view().valid(),
    {
        Gatherer { use_sudo, step: Step::Kernel, info: HostInfo::default() }
    }

    /// The command to run next; `None` when there is nothing left to ask.
    pub fn command(&self) -> (r: Option<String>)
        requires
            self.deep_view().valid(),
        ensures
            r.deep_view() == self.deep_view().command(),
    {
        let sudo = task::sudo(self.use_sudo);
        match self.step {
            Step::Kernel => Some("uname -r".to_string()),
            Step::LatestKernel => Some(
                "LC_ALL=C dpkg -l linux-image-[0-9]* 2>/dev/null | awk '/^ii/{print $2}' | sort -V | tail -1".to_string(),
            ),
            Step::Reboot => Some(
                text::cat(sudo, "test -f /var/run/reboot-required && echo yes || echo no"),
            ),
            Step::Upgradable => Some("LC_ALL=C apt list --upgradable 2>/dev/null".to_string()),
            Step::Rc => Some("LC_ALL=C dpkg -l 2>/dev/null".to_string()),
            Step::Held => Some("LC_ALL=C apt-mark showhold 2>/dev/null".to_string()),
            Step::KeptBack => Some("LC_ALL=C apt-get -s upgrade 2>&1".to_string()),
            Step::Detail(i) => {
                assert(self.info.held_packages.deep_view()[i as int]
                    == self.info.held_packages@[i as int].deep_view());
                let mut r = "LC_ALL=C apt-get -s install ".to_string();
                r.append(self.info.held_packages[i].name.as_str());
                r.append(" 2>&1");
                Some(r)
            },
            Step::AutoRemove => {
                let mut r = "LC_ALL=C ".to_string();
                r.append(sudo);
                r.append("apt-get -s autoremove --purge 2>/dev/null");
                Some(r)
            },
            Step::Conffiles => Some(
                text::cat(
                    sudo,
                    "find /etc -xdev -type f \\( -name '*.dpkg-dist' -o -name '*.dpkg-new' -o -name '*.ucf-dist' \\) -print 2>/dev/null",
                ),
            ),
            Step::Owners => {
                let paths = quote_live_paths(&self.info.pending_conffiles);
                let mut r = "LC_ALL=C dpkg -S ".to_string();
                r.append(text::join(&paths, " ").as_str());
                r.append(" 2>/dev/null");
                Some(r)
            },
            Step::Done => None,
        }
    }

    /// Takes in the output of the command that was asked for; `None` where it
    /// could not be run.
    pub fn record(&mut self, output: Option<String>)
        requires
            old(self).deep_view().valid(),
        ensures
            final(self).deep_view() == old(self).deep_view().after(output.deep_view()),
            final(self).deep_view().valid(),
    {
        let out: String = match output {
            Some(out) => out,
            None => String::new(),
        };
        assert(out@ =~= answer(output.deep_view()));
        match self.step {
            Step::Kernel => {
                self.info.running_kernel = text::trim_text(out.as_str());
                self.step = Step::LatestKernel;
            },
            Step::LatestKernel => {
                let name = text::trim_text(out.as_str());
                self.info.latest_kernel = if name.as_str().unicode_len() == 0 {
                    None
                } else {
                    Some(name)
                };
                self.step = Step::Reboot;
            },
            Step::Reboot => {
                let reply = text::trim_text(out.as_str());
                self.info.reboot_required = text::same_text(reply.as_str(), "yes");
                self.step = Step::Upgradable;
            },
            Step::Upgradable => {
                self.info.upgradable = parse_upgradable(out.as_str());
                self.step = Step::Rc;
            },
            Step::Rc => {
                self.info.rc_packages = parse_rc_packages(out.as_str());
                self.step = Step::Held;
            },
            Step::Held => {
                self.info.held_packages = parse_held_manually(out.as_str());
                self.step = Step::KeptBack;
            },
            Step::KeptBack => self.record_kept_back(out.as_str()),
            Step::Detail(i) => self.record_detail(i, out.as_str()),
            Step::AutoRemove => {
                self.info.autoremovable = parse_autoremovable(out.as_str());
                self.step = Step::Conffiles;
            },
            Step::Conffiles => {
                let files = parse_pending_conffiles(out.as_str());
                assert(files.deep_view().len() == files@.len());
                self.step = if files.len() == 0 {
                    Step::Done
                } else {
                    Step::Owners
                };
                self.info.pending_conffiles = files;
            },
            Step::Owners => self.record_owners(out.as_str()),
            Step::Done => {},
        }
    }

    fn record_kept_back(&mut self, out: &str)
        requires
            old(self).step is KeptBack,
        ensures
            final(self).deep_view() == old(self).deep_view().after(Some(out@)),
            final(self).deep_view().valid(),
    {
        let ghost manual = self.info.held_packages.deep_view();
        let mut kept = parse_kept_back(out, self.info.held_packages.as_slice());
        let ghost added = kept.deep_view();
        self.info.held_packages.append(&mut kept);
        assert(self.info.held_packages.deep_view() =~= manual + added);
        self.step = next_detail(&self.info.held_packages, 0);
    }

    fn record_detail(&mut self, i: usize, out: &str)
        requires
            old(self).step == Step::Detail(i),
            old(self).deep_view().valid(),
        ensures
            final(self).deep_view() == old(self).deep_view().after(Some(out@)),
            final(self).deep_view().valid(),
    {
        let ghost before = self.info.held_packages.deep_view();
        assert(before[i as int] == self.info.held_packages@[i as int].deep_view());
        let (needs, removes) = parse_install_dry_run(out);
        if let Some(detail) = explain(&needs, &removes) {
            self.info.held_packages[i].detail = Some(detail);
        }
        assert(self.info.held_packages.deep_view() =~= before.update(
            i as int,
            detailed(before[i as int], out@),
        ));
        let n: usize = self.info.held_packages.len();
        assert(i < n);
        self.step = next_detail(&self.info.held_packages, i + 1);
    }

    fn record_owners(&mut self, out: &str)
        requires
            old(self).step is Owners,
        ensures
            final(self).deep_view() == old(self).deep_view().after(Some(out@)),
            final(self).deep_view().valid(),
    {
        let ghost before = self.info.pending_conffiles.deep_view();
        attach_conffile_owners(self.info.pending_conffiles.as_mut_slice(), out);
        assert(self.info.pending_conffiles.deep_view() =~= with_owners(before, out@));
        self.step = Step::Done;
    }

    /// What was learned.
    pub fn finish(self) -> (r: HostInfo)
        ensures
            r.deep_view() == self.deep_view().info,
    {
        self.info
    }
}

// ── Laws ─────────────────────────────────────────────────────────────────────

/// The state after at most `n` answers, where `host` says what the host
/// answers to each command.
pub open spec fn asked(
    g: GatherView,
    host: spec_fn(Seq<char>) -> Option<Seq<char>>,
    n: nat,
) -> GatherView
    decreases n,
{
    match g.command() {
        Some(command) if n > 0 => asked(g.after(host(command)), host, (n - 1) as nat),
        _ => g,
    }
}

/// A held package with the reason why it is kept back, if it is.
pub open spec fn explained(
    p: HeldPackageView,
    host: spec_fn(Seq<char>) -> Option<Seq<char>>,
) -> HeldPackageView {
    if p.reason == HoldReason::KeptBack {
        detailed(p, answer(host(install_command(p.name))))
    } else {
        p
    }
}

/// Everything that is learned of a host that answers as `host` says.
pub open spec fn learned(
    use_sudo: bool,
    host: spec_fn(Seq<char>) -> Option<Seq<char>>,
) -> HostInfoView {
    let ask = |command: Seq<char>| answer(host(command));
    let manual = parse::manually_held(ask("LC_ALL=C apt-mark showhold 2>/dev/null"@));
    let held = manual + parse::kept_back(ask("LC_ALL=C apt-get -s upgrade 2>&1"@), manual);
    let files = parse::pending_conffiles(ask(find_command(use_sudo)));
    HostInfoView {
        running_kernel: text::trimmed(ask("uname -r"@)),
        latest_kernel: named_kernel(
            ask(
                "LC_ALL=C dpkg -l linux-image-[0-9]* 2>/dev/null | awk '/^ii/{print $2}' | sort -V | tail -1"@,
            ),
        ),
        reboot_required: text::trimmed(ask(reboot_command(use_sudo))) == "yes"@,
        upgradable: parse::upgradable_packages(
            ask("LC_ALL=C apt list --upgradable 2>/dev/null"@),
        ),
        rc_packages: parse::rc_packages(ask("LC_ALL=C dpkg -l 2>/dev/null"@)),
        held_packages: held.map_values(|p: HeldPackageView| explained(p, host)),
        autoremovable: parse::autoremovable(ask(autoremove_command(use_sudo))),
        pending_conffiles: if files.len() == 0 {
            files
        } else {
            with_owners(files, ask(owners_command(files)))
        },
    }
}

/// The first `n` packages explained.
spec fn partly_explained(
    held: Seq<HeldPackageView>,
    host: spec_fn(Seq<char>) -> Option<Seq<char>>,
    n: int,
) -> Seq<HeldPackageView> {
    Seq::new(
        held.len(),
        |i: int|
            if i < n {
                explained(held[i], host)
            } else {
                held[i]
            },
    )
}

/// A gather of a host with the given held packages takes no more answers than this.
pub open spec fn enough(held: nat) -> nat {
    held + 10
}

/// A gather ends, after a number of commands that is bounded by the number of
/// held packages, and has then learned everything that the host has to say.
pub proof fn gather_learns_everything(
    use_sudo: bool,
    host: spec_fn(Seq<char>) -> Option<Seq<char>>,
    n: nat,
)
    requires
        n >= enough(learned(use_sudo, host).held_packages.len()),
    ensures
        asked(begun(use_sudo), host, n).step is Done,
        asked(begun(use_sudo), host, n).info == learned(use_sudo, host),
{
    let g0 = begun(use_sudo);
    let g1 = g0.after(host(g0.command()->0));
    let g2 = g1.after(host(g1.command()->0));
    let g3 = g2.after(host(g2.command()->0));
    let g4 = g3.after(host(g3.command()->0));
    let g5 = g4.after(host(g4.command()->0));
    let g6 = g5.after(host(g5.command()->0));
    let g7 = g6.after(host(g6.command()->0));
    assert(asked(g0, host, n) == asked(g1, host, (n - 1) as nat));
    assert(asked(g1, host, (n - 1) as nat) == asked(g2, host, (n - 2) as nat));
    assert(asked(g2, host, (n - 2) as nat) == asked(g3, host, (n - 3) as nat));
    assert(asked(g3, host, (n - 3) as nat) == asked(g4, host, (n - 4) as nat));
    assert(asked(g4, host, (n - 4) as nat) == asked(g5, host, (n - 5) as nat));
    assert(asked(g5, host, (n - 5) as nat) == asked(g6, host, (n - 6) as nat));
    assert(asked(g6, host, (n - 6) as nat) == asked(g7, host, (n - 7) as nat));
    let held = g7.info.held_packages;
    assert(held =~= partly_explained(held, host, 0));
    lemma_explaining(g7, held, host, 0, (n - 7) as nat);
    assert(asked(begun(use_sudo), host, n).info == learned(use_sudo, host));
}

proof fn lemma_explaining(
    g: GatherView,
    held: Seq<HeldPackageView>,
    host: spec_fn(Seq<char>) -> Option<Seq<char>>,
    from: int,
    n: nat,
)
    requires
        0 <= from <= held.len(),
        g.info.held_packages == partly_explained(held, host, from),
        g.step == detail_from(g.info.held_packages, from),
        n >= held.len() - from + 3,
    ensures
        asked(g, host, n).step is Done,
        ({
            let ask = |command: Seq<char>| answer(host(command));
            let files = parse::pending_conffiles(ask(find_command(g.use_sudo)));
            asked(g, host, n).info == HostInfoView {
                held_packages: held.map_values(|p: HeldPackageView| explained(p, host)),
                autoremovable: parse::autoremovable(ask(autoremove_command(g.use_sudo))),
                pending_conffiles: if files.len() == 0 {
                    files
                } else {
                    with_owners(files, ask(owners_command(files)))
                },
                ..g.info
            }
        }),
    decreases held.len() - from,
{
    let now = g.info.held_packages;
    if from == held.len() {
        assert(now =~= held.map_values(|p: HeldPackageView| explained(p, host)));
        let g1 = g.after(host(g.command()->0));
        let g2 = g1.after(host(g1.command()->0));
        assert(asked(g, host, n) == asked(g1, host, (n - 1) as nat));
        assert(asked(g1, host, (n - 1) as nat) == asked(g2, host, (n - 2) as nat));
        if g2.step is Owners {
            let g3 = g2.after(host(g2.command()->0));
            assert(asked(g2, host, (n - 2) as nat) == asked(g3, host, (n - 3) as nat));
        }
    } else if now[from].reason == HoldReason::KeptBack {
        let out = host(g.command()->0);
        let next = g.after(out);
        assert(now[from] == held[from]);
        assert(next.info.held_packages =~= partly_explained(held, host, from + 1));
        assert(asked(g, host, n) == asked(next, host, (n - 1) as nat));
        lemma_explaining(next, held, host, from + 1, (n - 1) as nat);
    } else {
        assert(now =~= partly_explained(held, host, from + 1));
        lemma_explaining(g, held, host, from + 1, n);
    }
}

/// What a gather that has ended knows, command by command: each part comes from
/// the answer to its own command, with root where that is configured, and a
/// command that could not be run counts as one without output.
pub proof fn each_part_comes_from_its_command(
    use_sudo: bool,
    host: spec_fn(Seq<char>) -> Option<Seq<char>>,
    n: nat,
)
    requires
        n >= enough(learned(use_sudo, host).held_packages.len()),
    ensures
        ({
            let info = asked(begun(use_sudo), host, n).info;
            let said = |command: Seq<char>|
                match host(command) {
                    Some(out) => out,
                    None => Seq::<char>::empty(),
                };
            let root = if use_sudo {
                "sudo -n "@
            } else {
                Seq::<char>::empty()
            };
            let kernel = text::trimmed(
                said(
                    "LC_ALL=C dpkg -l linux-image-[0-9]* 2>/dev/null | awk '/^ii/{print $2}' | sort -V | tail -1"@,
                ),
            );
            &&& info.running_kernel == text::trimmed(said("uname -r"@))
            &&& kernel.len() == 0 ==> info.latest_kernel is None
            &&& kernel.len() > 0 ==> info.latest_kernel == Some(kernel)
            &&& info.reboot_required <==> text::trimmed(
                said(root + "test -f /var/run/reboot-required && echo yes || echo no"@),
            ) == "yes"@
            &&& info.upgradable == parse::upgradable_packages(
                said("LC_ALL=C apt list --upgradable 2>/dev/null"@),
            )
            &&& info.rc_packages == parse::rc_packages(said("LC_ALL=C dpkg -l 2>/dev/null"@))
            &&& info.autoremovable == parse::autoremovable(
                said("LC_ALL=C "@ + root + "apt-get -s autoremove --purge 2>/dev/null"@),
            )
        }),
{
    gather_learns_everything(use_sudo, host, n);
    reveal_strlit("");
    let root = if use_sudo {
        "sudo -n "@
    } else {
        Seq::<char>::empty()
    };
    assert(task::sudo_prefix(use_sudo) =~= root);
}

/// The held packages are those held by hand and behind them those kept back, and
/// of each of the latter a simulated install was asked why.
pub proof fn held_packages_are_explained(
    use_sudo: bool,
    host: spec_fn(Seq<char>) -> Option<Seq<char>>,
    n: nat,
    i: int,
)
    requires
        n >= enough(learned(use_sudo, host).held_packages.len()),
    ensures
        ({
            let held = asked(begun(use_sudo), host, n).info.held_packages;
            let said = |command: Seq<char>|
                match host(command) {
                    Some(out) => out,
                    None => Seq::<char>::empty(),
                };
            let manual = parse::manually_held(said("LC_ALL=C apt-mark showhold 2>/dev/null"@));
            let kept = parse::kept_back(said("LC_ALL=C apt-get -s upgrade 2>&1"@), manual);
            &&& held.len() == manual.len() + kept.len()
            &&& 0 <= i < manual.len() ==> held[i] == manual[i]
            &&& manual.len() <= i < held.len() ==> {
                let p = kept[i - manual.len()];
                let out = said("LC_ALL=C apt-get -s install "@ + p.name + " 2>&1"@);
                let needs = parse::dry_run_names(text::lines(out), DryRunSection::NewPackages);
                let gone = parse::dry_run_names(text::lines(out), DryRunSection::Removals);
                &&& held[i].name == p.name
                &&& held[i].reason == HoldReason::KeptBack
                &&& needs.len() > 0 && gone.len() == 0
                    ==> held[i].detail == Some("needs: "@ + text::joined(needs, ", "@))
                &&& needs.len() == 0 && gone.len() > 0
                    ==> held[i].detail == Some("removes: "@ + text::joined(gone, ", "@))
                &&& needs.len() > 0 && gone.len() > 0
                    ==> held[i].detail == Some(
                    "needs: "@ + text::joined(needs, ", "@) + "; "@ + ("removes: "@ + text::joined(
                        gone,
                        ", "@,
                    )),
                )
                &&& needs.len() == 0 && gone.len() == 0
                    ==> held[i].detail == p.detail
            }
        }),
{
    gather_learns_everything(use_sudo, host, n);
    let said = |command: Seq<char>|
        match host(command) {
            Some(out) => out,
            None => Seq::<char>::empty(),
        };
    let showhold = said("LC_ALL=C apt-mark showhold 2>/dev/null"@);
    let upgrade = said("LC_ALL=C apt-get -s upgrade 2>&1"@);
    let manual = parse::manually_held(showhold);
    let kept = parse::kept_back(upgrade, manual);
    if 0 <= i < manual.len() {
        assert(manual.contains(manual[i]));
        text::lines(showhold).lemma_filter_map_contains(parse::held_entry(), manual[i]);
    } else if manual.len() <= i < manual.len() + kept.len() {
        assert(kept.contains(kept[i - manual.len()]));
        parse::kept_back_is_not_held(upgrade, manual, kept[i - manual.len()]);
    }
}

/// Pending config files come from the search in `/etc`, and their owners from one
/// question about all of their live paths.
pub proof fn pending_files_come_with_their_owners(
    use_sudo: bool,
    host: spec_fn(Seq<char>) -> Option<Seq<char>>,
    n: nat,
    i: int,
)
    requires
        n >= enough(learned(use_sudo, host).held_packages.len()),
    ensures
        ({
            let pending = asked(begun(use_sudo), host, n).info.pending_conffiles;
            let said = |command: Seq<char>|
                match host(command) {
                    Some(out) => out,
                    None => Seq::<char>::empty(),
                };
            let root = if use_sudo {
                "sudo -n "@
            } else {
                Seq::<char>::empty()
            };
            let found = parse::pending_conffiles(
                said(
                    root
                        + "find /etc -xdev -type f \\( -name '*.dpkg-dist' -o -name '*.dpkg-new' -o -name '*.ucf-dist' \\) -print 2>/dev/null"@,
                ),
            );
            let owners = said(
                "LC_ALL=C dpkg -S "@ + text::joined(
                    found.map_values(|f: PendingConffileView| ssh::quoted(f.live_path)),
                    " "@,
                ) + " 2>/dev/null"@,
            );
            &&& pending.len() == found.len()
            &&& 0 <= i < found.len() ==> pending[i] == parse::with_owner(
                found[i],
                text::lines(owners),
            )
        }),
{
    gather_learns_everything(use_sudo, host, n);
    reveal_strlit("");
    let root = if use_sudo {
        "sudo -n "@
    } else {
        Seq::<char>::empty()
    };
    assert(task::sudo_prefix(use_sudo) =~= root);
}

} // verus!
