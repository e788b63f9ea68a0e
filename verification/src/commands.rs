//! The commands that tasks run, said in full: what stands in them, and in which
//! order.

use vstd::prelude::*;

use crate::model;
use crate::ssh;
use crate::task;
use crate::task::{ConffileAction, ConffileDecisionView, TaskKindView};
use crate::text;

verus! {

/// What the commands of the tasks without arguments are, with and without root.
/// Those that install or remove packages assume yes, tell dpkg to keep conffiles
/// as they are, and read from nothing.
pub proof fn commands_in_full(use_sudo: bool)
    ensures
        ({
            let env = "DEBIAN_FRONTEND=noninteractive LC_ALL=C "@;
            let root = if use_sudo {
                "sudo -n "@
            } else {
                Seq::<char>::empty()
            };
            &&& task::command_of(TaskKindView::Update, use_sudo) == env + root
                + "apt-get update </dev/null 2>&1"@
            &&& task::command_of(TaskKindView::Upgrade, use_sudo) == env + root
                + "apt-get -y -o \"Dpkg::Options::=--force-confdef\" -o \"Dpkg::Options::=--force-confold\" upgrade </dev/null 2>&1"@
            &&& task::command_of(TaskKindView::FullUpgrade, use_sudo) == env + root
                + "apt-get -y -o \"Dpkg::Options::=--force-confdef\" -o \"Dpkg::Options::=--force-confold\" full-upgrade </dev/null 2>&1"@
            &&& task::command_of(TaskKindView::AutoRemove, use_sudo) == env + root
                + "apt-get -y -o \"Dpkg::Options::=--force-confdef\" -o \"Dpkg::Options::=--force-confold\" autoremove --purge </dev/null 2>&1"@
            &&& task::command_of(TaskKindView::PurgeRc, use_sudo)
                == "pkgs=$(LC_ALL=C dpkg -l | awk '/^rc/{print $2}'); [ -n \"$pkgs\" ] && echo \"$pkgs\" | xargs "@
                + root + "dpkg --purge 2>&1 || echo \"No RC packages to purge\""@
            &&& task::command_of(TaskKindView::Reboot, use_sudo) == root + "reboot 2>&1"@
        }),
{
    let root = if use_sudo {
        "sudo -n "@
    } else {
        Seq::<char>::empty()
    };
    reveal_strlit("");
    assert(task::sudo_prefix(use_sudo) =~= root);
    lemma_apt_get(use_sudo, root);
    lemma_update(root);
    lemma_upgrade(root);
    lemma_full_upgrade(root);
    lemma_autoremove(root);
}

proof fn lemma_apt_get(use_sudo: bool, root: Seq<char>)
    requires
        task::sudo_prefix(use_sudo) == root,
    ensures
        task::apt_get(use_sudo) == "DEBIAN_FRONTEND=noninteractive LC_ALL=C "@ + root
            + "apt-get "@,
{
    reveal_strlit("DEBIAN_FRONTEND=noninteractive LC_ALL=C");
    reveal_strlit("DEBIAN_FRONTEND=noninteractive LC_ALL=C ");
    reveal_strlit(" ");
    assert("DEBIAN_FRONTEND=noninteractive LC_ALL=C "@ =~= task::APT_ENV@ + " "@);
}

proof fn lemma_update(root: Seq<char>)
    ensures
        "DEBIAN_FRONTEND=noninteractive LC_ALL=C "@ + root + "apt-get "@
            + "update </dev/null 2>&1"@ == "DEBIAN_FRONTEND=noninteractive LC_ALL=C "@ + root
            + "apt-get update </dev/null 2>&1"@,
{
    let front = "DEBIAN_FRONTEND=noninteractive LC_ALL=C "@ + root;
    reveal_strlit("apt-get ");
    reveal_strlit("update </dev/null 2>&1");
    reveal_strlit("apt-get update </dev/null 2>&1");
    assert("apt-get update </dev/null 2>&1"@ =~= "apt-get "@ + "update </dev/null 2>&1"@);
    assert(front + "apt-get "@ + "update </dev/null 2>&1"@ =~= front + ("apt-get "@
        + "update </dev/null 2>&1"@));
}

proof fn lemma_upgrade(root: Seq<char>)
    ensures
        "DEBIAN_FRONTEND=noninteractive LC_ALL=C "@ + root + "apt-get "@ + "-y "@
            + task::DPKG_CONF_OPTS@ + " upgrade </dev/null 2>&1"@
            == "DEBIAN_FRONTEND=noninteractive LC_ALL=C "@ + root
            + "apt-get -y -o \"Dpkg::Options::=--force-confdef\" -o \"Dpkg::Options::=--force-confold\" upgrade </dev/null 2>&1"@,
{
    let front = "DEBIAN_FRONTEND=noninteractive LC_ALL=C "@ + root;
    let a = "apt-get "@;
    let o = task::DPKG_CONF_OPTS@;
    let t = " upgrade </dev/null 2>&1"@;
    reveal_strlit("apt-get ");
    reveal_strlit("-y ");
    reveal_strlit(
        "-o \"Dpkg::Options::=--force-confdef\" -o \"Dpkg::Options::=--force-confold\"",
    );
    reveal_strlit(" upgrade </dev/null 2>&1");
    reveal_strlit(
        "apt-get -y -o \"Dpkg::Options::=--force-confdef\" -o \"Dpkg::Options::=--force-confold\" upgrade </dev/null 2>&1",
    );
    assert("apt-get -y -o \"Dpkg::Options::=--force-confdef\" -o \"Dpkg::Options::=--force-confold\" upgrade </dev/null 2>&1"@
        =~= a + "-y "@ + o + t);
    assert(front + a + "-y "@ + o + t =~= front + (a + "-y "@ + o + t));
}

proof fn lemma_full_upgrade(root: Seq<char>)
    ensures
        "DEBIAN_FRONTEND=noninteractive LC_ALL=C "@ + root + "apt-get "@ + "-y "@
            + task::DPKG_CONF_OPTS@ + " full-upgrade </dev/null 2>&1"@
            == "DEBIAN_FRONTEND=noninteractive LC_ALL=C "@ + root
            + "apt-get -y -o \"Dpkg::Options::=--force-confdef\" -o \"Dpkg::Options::=--force-confold\" full-upgrade </dev/null 2>&1"@,
{
    let front = "DEBIAN_FRONTEND=noninteractive LC_ALL=C "@ + root;
    let a = "apt-get "@;
    let o = task::DPKG_CONF_OPTS@;
    let t = " full-upgrade </dev/null 2>&1"@;
    reveal_strlit("apt-get ");
    reveal_strlit("-y ");
    reveal_strlit(
        "-o \"Dpkg::Options::=--force-confdef\" -o \"Dpkg::Options::=--force-confold\"",
    );
    reveal_strlit(" full-upgrade </dev/null 2>&1");
    reveal_strlit(
        "apt-get -y -o \"Dpkg::Options::=--force-confdef\" -o \"Dpkg::Options::=--force-confold\" full-upgrade </dev/null 2>&1",
    );
    assert("apt-get -y -o \"Dpkg::Options::=--force-confdef\" -o \"Dpkg::Options::=--force-confold\" full-upgrade </dev/null 2>&1"@
        =~= a + "-y "@ + o + t);
    assert(front + a + "-y "@ + o + t =~= front + (a + "-y "@ + o + t));
}

proof fn lemma_autoremove(root: Seq<char>)
    ensures
        "DEBIAN_FRONTEND=noninteractive LC_ALL=C "@ + root + "apt-get "@ + "-y "@
            + task::DPKG_CONF_OPTS@ + " autoremove --purge </dev/null 2>&1"@
            == "DEBIAN_FRONTEND=noninteractive LC_ALL=C "@ + root
            + "apt-get -y -o \"Dpkg::Options::=--force-confdef\" -o \"Dpkg::Options::=--force-confold\" autoremove --purge </dev/null 2>&1"@,
{
    let front = "DEBIAN_FRONTEND=noninteractive LC_ALL=C "@ + root;
    let a = "apt-get "@;
    let o = task::DPKG_CONF_OPTS@;
    let t = " autoremove --purge </dev/null 2>&1"@;
    reveal_strlit("apt-get ");
    reveal_strlit("-y ");
    reveal_strlit(
        "-o \"Dpkg::Options::=--force-confdef\" -o \"Dpkg::Options::=--force-confold\"",
    );
    reveal_strlit(" autoremove --purge </dev/null 2>&1");
    reveal_strlit(
        "apt-get -y -o \"Dpkg::Options::=--force-confdef\" -o \"Dpkg::Options::=--force-confold\" autoremove --purge </dev/null 2>&1",
    );
    assert("apt-get -y -o \"Dpkg::Options::=--force-confdef\" -o \"Dpkg::Options::=--force-confold\" autoremove --purge </dev/null 2>&1"@
        =~= a + "-y "@ + o + t);
    assert(front + a + "-y "@ + o + t =~= front + (a + "-y "@ + o + t));
}

/// Every task that makes dpkg install or remove packages assumes yes: `-y` is
/// among its words, behind `apt-get` and in front of the conffile options.
pub proof fn upgrades_assume_yes(kind: TaskKindView, use_sudo: bool)
    requires
        kind is Upgrade || kind is UpgradeSecurity || kind is FullUpgrade || kind is AutoRemove,
    ensures
        text::contains(task::command_of(kind, use_sudo), " -y -o "@),
        text::contains(task::command_of(kind, use_sudo), " -y "@),
{
    reveal_strlit(
        "-o \"Dpkg::Options::=--force-confdef\" -o \"Dpkg::Options::=--force-confold\"",
    );
    reveal_strlit("apt-get ");
    reveal_strlit("-y ");
    reveal_strlit("install --only-upgrade -y ");
    reveal_strlit(" -y -o ");
    reveal_strlit(" -y ");
    let cmd = task::command_of(kind, use_sudo);
    let apt = task::apt_get(use_sudo);
    let n = apt.len() as int;
    assert(apt.last() == ' ') by {
        assert(apt.last() == "apt-get "@.last());
    }
    if kind is UpgradeSecurity {
        let front = apt + "install --only-upgrade -y "@;
        let m = n + 22;
        assert(front[m] == "install --only-upgrade -y "@[22]);
        assert(forall|i: int| 0 <= i < 26 ==> cmd[n + i] == #[trigger] "install --only-upgrade -y "@[i]);
        assert(forall|i: int| 0 <= i < 3 ==> cmd[n + 26 + i] == #[trigger] task::DPKG_CONF_OPTS@[i]);
        assert(cmd.subrange(m, m + 7) =~= " -y -o "@);
        assert(text::occurs_at(cmd, " -y -o "@, m));
    } else {
        assert(cmd[n - 1] == ' ');
        assert(forall|i: int| 0 <= i < 3 ==> cmd[n + i] == #[trigger] "-y "@[i]);
        assert(forall|i: int| 0 <= i < 3 ==> cmd[n + 3 + i] == #[trigger] task::DPKG_CONF_OPTS@[i]);
        assert(cmd.subrange(n - 1, n + 6) =~= " -y -o "@);
        assert(text::occurs_at(cmd, " -y -o "@, n - 1));
    }
    assert(" -y -o "@.subrange(0, 4) =~= " -y "@);
    assert(text::occurs_at(" -y -o "@, " -y "@, 0));
    text::lemma_contains_within(cmd, " -y -o "@, " -y "@);
}

/// A security upgrade installs only upgrades, and of exactly the given packages:
/// their names are the words between the options and the redirections.
pub proof fn a_security_upgrade_names_its_packages(pkgs: Seq<Seq<char>>, use_sudo: bool)
    requires
        forall|i: int| 0 <= i < pkgs.len() ==> (#[trigger] pkgs[i]).len() > 0 && text::no_white(
            pkgs[i],
        ),
    ensures
        ({
            let cmd = task::command_of(TaskKindView::UpgradeSecurity(pkgs), use_sudo);
            let front = "DEBIAN_FRONTEND=noninteractive LC_ALL=C "@ + (if use_sudo {
                "sudo -n "@
            } else {
                Seq::<char>::empty()
            })
                + "apt-get install --only-upgrade -y -o \"Dpkg::Options::=--force-confdef\" -o \"Dpkg::Options::=--force-confold\""@;
            &&& cmd == front + " "@ + text::joined(pkgs, " "@) + " </dev/null 2>&1"@
            &&& text::words(cmd) == text::words(front) + pkgs + text::words(" </dev/null 2>&1"@)
        }),
{
    let root = if use_sudo {
        "sudo -n "@
    } else {
        Seq::<char>::empty()
    };
    reveal_strlit("");
    assert(task::sudo_prefix(use_sudo) =~= root);
    lemma_apt_get(use_sudo, root);
    let head = "DEBIAN_FRONTEND=noninteractive LC_ALL=C "@ + root;
    let long =
        "apt-get install --only-upgrade -y -o \"Dpkg::Options::=--force-confdef\" -o \"Dpkg::Options::=--force-confold\""@;
    let names = text::joined(pkgs, " "@);
    let tail = " </dev/null 2>&1"@;
    lemma_security_front();
    let a = "apt-get "@;
    let b = "install --only-upgrade -y "@;
    let o = task::DPKG_CONF_OPTS@;
    assert(head + a + b + o =~= head + (a + b + o));
    let front = head + long;
    let cmd = task::command_of(TaskKindView::UpgradeSecurity(pkgs), use_sudo);
    assert(cmd == front + " "@ + names + tail);
    reveal_strlit(" ");
    reveal_strlit(" </dev/null 2>&1");
    assert(cmd =~= front + (" "@ + (names + tail)));
    text::lemma_words_split(front, " "@ + (names + tail));
    text::lemma_words_skip(" "@, names + tail);
    text::lemma_words_split(names, tail);
    text::lemma_words_joined(pkgs);
    assert(text::words(front) + (pkgs + text::words(tail)) =~= text::words(front) + pkgs
        + text::words(tail));
}

proof fn lemma_security_front()
    ensures
        "apt-get install --only-upgrade -y -o \"Dpkg::Options::=--force-confdef\" -o \"Dpkg::Options::=--force-confold\""@
            == "apt-get "@ + "install --only-upgrade -y "@ + task::DPKG_CONF_OPTS@,
{
    reveal_strlit("apt-get ");
    reveal_strlit("install --only-upgrade -y ");
    reveal_strlit(
        "-o \"Dpkg::Options::=--force-confdef\" -o \"Dpkg::Options::=--force-confold\"",
    );
    reveal_strlit(
        "apt-get install --only-upgrade -y -o \"Dpkg::Options::=--force-confdef\" -o \"Dpkg::Options::=--force-confold\"",
    );
    assert("apt-get install --only-upgrade -y -o \"Dpkg::Options::=--force-confdef\" -o \"Dpkg::Options::=--force-confold\""@
        =~= "apt-get "@ + "install --only-upgrade -y "@ + task::DPKG_CONF_OPTS@);
}

// ── Conffiles ────────────────────────────────────────────────────────────────

/// The commands of several decisions, each with a semicolon behind it.
pub open spec fn in_turn(ds: Seq<ConffileDecisionView>, use_sudo: bool) -> Seq<char>
    decreases ds.len(),
{
    if ds.len() == 0 {
        seq![]
    } else {
        in_turn(ds.drop_last(), use_sudo) + task::decision_command(ds.last(), use_sudo) + "; "@
    }
}

/// A batch runs the command of every decision, once and in order, and exits with
/// whether any of them failed.
pub proof fn a_batch_runs_every_decision_in_order(ds: Seq<ConffileDecisionView>, use_sudo: bool)
    ensures
        task::command_of(TaskKindView::ResolveConffiles(ds), use_sudo) == "{ fail=0; "@ + in_turn(
            ds,
            use_sudo,
        ) + "exit $fail; } 2>&1"@,
{
    let parts = task::resolve_parts(ds, use_sudo);
    let n = ds.len();
    lemma_batch(ds, use_sudo, n);
    reveal_strlit("{ ");
    reveal_strlit("; ");
    reveal_strlit("fail=0");
    reveal_strlit("{ fail=0; ");
    reveal_strlit("exit $fail");
    reveal_strlit("; } 2>&1");
    reveal_strlit("exit $fail; } 2>&1");
    assert("{ fail=0; "@ =~= "{ "@ + "fail=0"@ + "; "@);
    assert("exit $fail; } 2>&1"@ =~= "exit $fail"@ + "; } 2>&1"@);
    assert(parts.drop_last() =~= parts.take(n as int + 1));
    assert(ds.take(n as int) =~= ds);
    let body = in_turn(ds, use_sudo);
    assert(text::joined(parts, "; "@) == text::joined(parts.take(n as int + 1), "; "@) + "; "@
        + "exit $fail"@);
    assert(task::command_of(TaskKindView::ResolveConffiles(ds), use_sudo) =~= "{ fail=0; "@ + body
        + "exit $fail; } 2>&1"@);
}

proof fn lemma_batch(ds: Seq<ConffileDecisionView>, use_sudo: bool, k: nat)
    requires
        k <= ds.len(),
    ensures
        text::joined(task::resolve_parts(ds, use_sudo).take(k as int + 1), "; "@) + "; "@ == "fail=0"@
            + "; "@ + in_turn(ds.take(k as int), use_sudo),
    decreases k,
{
    let parts = task::resolve_parts(ds, use_sudo);
    let sep = "; "@;
    if k == 0 {
        assert(parts.take(1)[0] == "fail=0"@);
        assert("fail=0"@ + sep + in_turn(ds.take(0), use_sudo) =~= "fail=0"@ + sep);
    } else {
        lemma_batch(ds, use_sudo, (k - 1) as nat);
        assert(parts.take(k as int + 1).drop_last() =~= parts.take(k as int));
        assert(parts.take(k as int + 1).last() == parts[k as int]);
        assert(parts[k as int] == task::decision_command(ds[k - 1], use_sudo));
        assert(ds.take(k as int).drop_last() =~= ds.take(k - 1));
        assert(ds.take(k as int).last() == ds[k - 1]);
        let c = task::decision_command(ds[k - 1], use_sudo);
        let before = in_turn(ds.take(k - 1), use_sudo);
        assert("fail=0"@ + sep + before + c + sep =~= "fail=0"@ + sep + (before + c + sep));
    }
}

/// Discarding removes the pending file: it is the only path in the command.
pub proof fn discarding_removes_the_pending_file(d: ConffileDecisionView, use_sudo: bool)
    requires
        d.action == ConffileAction::Discard,
    ensures
        ({
            let root = if use_sudo {
                "sudo -n "@
            } else {
                Seq::<char>::empty()
            };
            let p = ssh::quoted(d.file.pending_path);
            task::decision_command(d, use_sudo) == root + "rm -f -- "@ + p
                + " && echo discarded "@ + p + " || { echo FAILED: "@ + p + "; fail=1; }"@
        }),
{
    reveal_strlit("");
    let root = if use_sudo {
        "sudo -n "@
    } else {
        Seq::<char>::empty()
    };
    assert(task::sudo_prefix(use_sudo) =~= root);
}

/// Applying first copies the live file, where there is one, to its `.dpkg-old`,
/// and only then moves the pending file into its place; a failed copy ends it.
pub proof fn applying_backs_up_first(d: ConffileDecisionView, use_sudo: bool)
    requires
        d.action == ConffileAction::Apply,
    ensures
        ({
            let root = if use_sudo {
                "sudo -n "@
            } else {
                Seq::<char>::empty()
            };
            let p = ssh::quoted(d.file.pending_path);
            let l = ssh::quoted(d.file.live_path);
            let b = ssh::quoted(d.file.live_path + ".dpkg-old"@);
            let test = "( set -e; if [ -e "@ + l + " ]; then "@;
            let copy = root + "cp -a -- "@ + l + " "@ + b;
            let say = "; echo 'backed up' "@ + l + " '->' "@ + b + "; fi; "@;
            let put = root + "mv -- "@ + p + " "@ + l;
            let end = " ) && echo installed "@ + l + " || { echo FAILED: "@ + l + "; fail=1; }"@;
            task::decision_command(d, use_sudo) == test + copy + say + put + end
        }),
{
    reveal_strlit("");
    let root = if use_sudo {
        "sudo -n "@
    } else {
        Seq::<char>::empty()
    };
    assert(task::sudo_prefix(use_sudo) =~= root);
    let p = ssh::quoted(d.file.pending_path);
    let l = ssh::quoted(d.file.live_path);
    let b = ssh::quoted(d.file.live_path + ".dpkg-old"@);
    let test = "( set -e; if [ -e "@ + l + " ]; then "@;
    let copy = root + "cp -a -- "@ + l + " "@ + b;
    let say = "; echo 'backed up' "@ + l + " '->' "@ + b + "; fi; "@;
    let put = root + "mv -- "@ + p + " "@ + l;
    let end = " ) && echo installed "@ + l + " || { echo FAILED: "@ + l + "; fail=1; }"@;
    let c1 = test + root + "cp -a -- "@ + l + " "@ + b;
    assert(c1 =~= test + copy);
    let c2 = c1 + "; echo 'backed up' "@ + l + " '->' "@ + b + "; fi; "@;
    assert(c2 =~= test + copy + say);
    let c3 = c2 + root + "mv -- "@ + p + " "@ + l;
    assert(c3 =~= test + copy + say + put);
    let c4 = c3 + " ) && echo installed "@ + l + " || { echo FAILED: "@ + l + "; fail=1; }"@;
    assert(c4 =~= test + copy + say + put + end);
}

/// A diff compares the live file with the pending one, in this order, and labels
/// them so.
pub proof fn a_diff_compares_live_with_pending(
    live: Seq<char>,
    pending: Seq<char>,
    use_sudo: bool,
)
    ensures
        ({
            let root = if use_sudo {
                "sudo -n "@
            } else {
                Seq::<char>::empty()
            };
            let l = ssh::quoted(live);
            let p = ssh::quoted(pending);
            model::diff_command(live, pending, use_sudo) == "LC_ALL=C "@ + root
                + "diff -u --label "@ + l + " --label "@ + p + " -- "@ + l + " "@ + p
                + " 2>&1 | head -n 2000 || true"@
        }),
{
    reveal_strlit("");
    let root = if use_sudo {
        "sudo -n "@
    } else {
        Seq::<char>::empty()
    };
    assert(task::sudo_prefix(use_sudo) =~= root);
}

/// What tasks are called on the screen.
pub proof fn labels_in_full(pkgs: Seq<Seq<char>>, ds: Seq<ConffileDecisionView>)
    ensures
        task::label_of(TaskKindView::Update) == "apt-get update"@,
        task::label_of(TaskKindView::Upgrade) == "apt-get upgrade"@,
        task::label_of(TaskKindView::FullUpgrade) == "apt-get full-upgrade"@,
        task::label_of(TaskKindView::AutoRemove) == "apt-get autoremove --purge"@,
        task::label_of(TaskKindView::PurgeRc) == "purge RC packages"@,
        task::label_of(TaskKindView::Reboot) == "reboot"@,
        task::label_of(TaskKindView::UpgradeSecurity(pkgs)) == "apt-get upgrade (security, "@
            + text::decimal(pkgs.len()) + " pkg(s))"@,
        ({
            let applies = ds.filter(
                |d: ConffileDecisionView| d.action == ConffileAction::Apply,
            ).len();
            &&& applies <= ds.len()
            &&& task::label_of(TaskKindView::ResolveConffiles(ds)) == "resolve config files ("@
                + text::decimal((ds.len() - applies) as nat) + " discard, "@ + text::decimal(
                applies,
            ) + " apply)"@
        }),
{
    task::labels_count_every_decision(ds);
    assert(task::applies() =~= (|d: ConffileDecisionView| d.action == ConffileAction::Apply));
}

} // verus!
