//! What the screens say, said panel by panel of what is shown there.

use vstd::prelude::*;

use crate::apt::{HeldPackageView, HoldReason, HostInfoView, PackageView, PendingConffileView};
use crate::config::SidebarRowView;
use crate::model::AppView;
use crate::panels;
use crate::review::{DiffView, ReviewView};
use crate::scene;
use crate::scene::{Color, LineView, Rect};
use crate::sidebar;
use crate::state::{HostStatusView, HostView};
use crate::task;
use crate::task::{ConffileAction, TaskStatusView, TaskView};
use crate::text;
use crate::ui;
use crate::ui::FramesView;

verus! {

// ── Hosts ────────────────────────────────────────────────────────────────────

/// A count in brackets, or nothing where there is nothing to count.
pub open spec fn bracketed(n: nat, unit: Seq<char>) -> Seq<char> {
    if n == 0 {
        ""@
    } else {
        " ["@ + text::decimal(n) + unit
    }
}

/// A host's row says its name, its kernel, how many upgrades, security upgrades
/// and pending config files there are, and whether it waits for a reboot; of a
/// host that nothing is known of, only the name.
pub proof fn a_host_row_says_what_is_known(h: HostView, tick: u64)
    ensures
        ({
            let row = panels::host_row(h, tick);
            &&& row.len() == 9
            &&& row[0].text == "   "@ && row[2].text == " "@
            &&& row[1].text == panels::indicator(h, tick)
            &&& row[3].text == h.cfg.hostname
            &&& h.info is None ==> forall|i: int| 4 <= i < 9 ==> (#[trigger] row[i]).text == ""@
            &&& h.info matches Some(info) ==> {
                &&& row[4].text == if info.running_kernel.len() == 0 {
                    ""@
                } else {
                    " ["@ + info.running_kernel + "]"@
                }
                &&& row[5].text == bracketed(info.upgradable.len(), "]"@)
                &&& row[6].text == bracketed(
                    info.upgradable.filter(|p: PackageView| p.is_security).len(),
                    " sec]"@,
                )
                &&& row[7].text == bracketed(info.pending_conffiles.len(), " cfg]"@)
                &&& row[8].text == if info.reboot_required {
                    " [R]"@
                } else {
                    ""@
                }
            }
            &&& h.status is Error ==> row[3].style.fg == Some(Color::Red)
            &&& h.status is Ready ==> row[3].style.fg == Some(Color::Green)
        }),
{
    if h.info is Some {
        lemma_security_len(h.info->0.upgradable);
    }
}

proof fn lemma_security_len(pkgs: Seq<PackageView>)
    ensures
        crate::apt::security_names(pkgs).len() == pkgs.filter(
            |p: PackageView| p.is_security,
        ).len(),
    decreases pkgs.len(),
{
    reveal(Seq::filter);
    if pkgs.len() > 0 {
        lemma_security_len(pkgs.drop_last());
    }
}

/// The sign of a host: a question mark before anything is known, a spinner while
/// there is work in progress, a dot when it is ready and a cross when it failed.
pub proof fn a_sign_tells_the_status(h: HostView, tick: u64)
    ensures
        ({
            let sign = panels::indicator(h, tick);
            let spin = panels::spinner_at(tick);
            &&& h.status is Unknown ==> sign == "?"@
            &&& h.status is Connecting || h.status is Gathering ==> sign == spin
            &&& h.status is Ready && h.running() ==> sign == spin
            &&& h.status is Ready && !h.running() ==> sign == "●"@
            &&& h.status is Error ==> sign == "✗"@
        }),
{
}

/// The spinner goes through its ten frames, two ticks each, and round again.
pub proof fn the_spinner_goes_round(tick: u64)
    requires
        tick + 20 <= u64::MAX,
    ensures
        panels::spinner_at((tick + 20) as u64) == panels::spinner_at(tick),
        tick % 2 == 0 ==> panels::spinner_at((tick + 1) as u64) == panels::spinner_at(tick),
{
    assert(((tick + 20) as u64 / 2) as int == tick / 2 + 10);
}

/// A host's status in words: how many upgrades there are and how many of them are
/// for security, or that it is up to date, or what went wrong; and whether what is
/// shown meanwhile is from the cache.
pub proof fn a_status_in_words(h: HostView)
    ensures
        ({
            let words = panels::status_text(h);
            let n = match h.info {
                Some(info) => info.upgradable.len(),
                None => 0,
            };
            let s = match h.info {
                Some(info) => info.upgradable.filter(|p: PackageView| p.is_security).len(),
                None => 0,
            };
            &&& h.status is Unknown ==> words == "unknown"@
            &&& h.status is Connecting && !h.is_stale ==> words == "connecting…"@
            &&& h.status is Connecting && h.is_stale ==> words
                == "connecting… (showing cached data)"@
            &&& h.status is Gathering && !h.is_stale ==> words == "gathering…"@
            &&& h.status is Gathering && h.is_stale ==> words
                == "gathering… (showing cached data)"@
            &&& h.status is Ready && n == 0 ==> words == "up to date"@
            &&& h.status is Ready && n > 0 && s == 0 ==> words == text::decimal(n)
                + " upgrade(s) available"@
            &&& h.status is Ready && n > 0 && s > 0 ==> words == text::decimal(n)
                + " upgrade(s) available ("@ + text::decimal(s) + " security)"@
            &&& h.status matches HostStatusView::Error(e) ==> words == "error: "@ + e
        }),
{
    if h.info is Some {
        lemma_security_len(h.info->0.upgradable);
    }
}

/// The header says how a host is reached and how it stands.
pub proof fn the_header_says_how_a_host_is_reached(h: HostView)
    ensures
        ({
            let lines = panels::header_lines(h);
            &&& lines.len() == 2 && lines[0].len() == 2 && lines[1].len() == 2
            &&& lines[0][0].text == " "@ + h.cfg.hostname + " "@
            &&& lines[0][1].text == "  user: "@ + h.cfg.user + "  port: "@ + text::decimal(
                h.cfg.port as nat,
            ) + "  sudo: "@ + (if h.cfg.use_sudo {
                "true"@
            } else {
                "false"@
            })
            &&& lines[1][0].text == " Status: "@
            &&& lines[1][1].text == panels::status_text(h)
        }),
{
}

/// The summary of a group says of each host its sign, its name and its status.
pub proof fn a_summary_says_name_and_status(h: HostView, tick: u64)
    ensures
        ({
            let line = panels::summary_line(h, tick);
            &&& line.len() == 4
            &&& line[0].text == panels::indicator(h, tick) + " "@
            &&& text::begins(line[1].text, h.cfg.hostname)
            &&& line[1].text.len() == if h.cfg.hostname.len() >= 30 {
                h.cfg.hostname.len()
            } else {
                30
            }
            &&& line[2].text == "  "@
            &&& line[3].text == panels::status_text(h)
        }),
{
    let name = h.cfg.hostname;
    let p = text::padded(name, 30);
    text::padding_is_blank(name, 30);
    assert(p.subrange(0, name.len() as int) =~= p.take(name.len() as int));
}

/// The kernel panel shows the running kernel, the latest one if there is one
/// installed, whether a reboot is needed to get there, and whether the host asks
/// for one.
pub proof fn the_kernel_panel_tells_what_runs(h: HostView, version: Seq<char>)
    requires
        h.info is Some,
        h.info->0.latest_kernel == Some("linux-image-"@ + version),
        !text::begins(version, "linux-image-"@),
    ensures
        ({
            let info = h.info->0;
            let lines = panels::kernel_lines(h);
            let up_to_date = version == info.running_kernel;
            &&& lines[0][1].text == info.running_kernel
            &&& lines[1][0].text == " Latest:  "@
            &&& lines[1][1].text == version
            &&& up_to_date ==> lines[1].len() == 2 && lines[1][1].style.fg == Some(Color::Green)
            &&& !up_to_date ==> lines[1].len() == 3 && lines[1][2].text
                == " ← reboot to activate"@ && lines[1][1].style.fg == Some(Color::Yellow)
            &&& info.reboot_required ==> lines.len() == 3 && lines[2][0].text
                == " ⚠ Reboot required"@
            &&& !info.reboot_required ==> lines.len() == 2
        }),
{
    reveal_strlit("linux-image-");
    let p = "linux-image-"@;
    let s = p + version;
    assert(s.subrange(0, 12) =~= p);
    assert(text::begins(s, p));
    assert(s.skip(12) =~= version);
    assert(text::without_leading(version, p) == version);
    assert(text::without_leading(s, p) == version);
}

// ── Packages ─────────────────────────────────────────────────────────────────

/// An upgradable package is shown with its name, the version it has, the one it
/// gets, and whether that is for security.
pub proof fn a_package_line_says_its_versions(p: PackageView)
    ensures
        ({
            let line = panels::package_line(p);
            &&& line.len() == 3
            &&& p.current_version is None ==> line[0].text == " "@ + p.name + ""@ + " "@
            &&& p.current_version matches Some(v) ==> line[0].text == " "@ + p.name + (" ("@ + v
                + " →)"@) + " "@
            &&& line[1].text == p.new_version
            &&& line[2].text == if p.is_security {
                " [security]"@
            } else {
                ""@
            }
        }),
{
}

/// A held package is shown with its name and why it is held.
pub proof fn a_held_line_says_why(p: HeldPackageView)
    ensures
        ({
            let line = panels::held_line(p);
            &&& line.len() == 2
            &&& line[0].text == "  "@ + p.name + " "@
            &&& p.reason == HoldReason::ManualHold ==> line[1].text == "[manual hold]"@
            &&& p.reason == HoldReason::KeptBack && p.detail is None ==> line[1].text
                == "[kept back]"@
            &&& p.reason == HoldReason::KeptBack && p.detail is Some ==> line[1].text
                == "[kept back: "@ + p.detail->0 + "]"@
        }),
{
}

/// The packages panel lists every upgradable package, every held one, every
/// pending config file and every removed one, each once and in this order.
pub proof fn the_packages_panel_lists_everything(info: HostInfoView)
    ensures
        ({
            let lines = panels::upgradable_lines(info);
            let n = info.upgradable.len() as int;
            let a = info.held_packages.len() as int;
            let b = info.pending_conffiles.len() as int;
            let c = info.rc_packages.len() as int;
            let gap = |before: int| if before > 0 { 1int } else { 0int };
            let held = n + if a > 0 { gap(n) + 1 } else { 0 };
            let after_held = if a > 0 { held + a } else { n };
            let files = after_held + if b > 0 { gap(after_held) + 1 } else { 0 };
            let after_files = if b > 0 { files + b + 1 } else { after_held };
            let gone = after_files + if c > 0 { gap(after_files) + 1 } else { 0 };
            let after_gone = if c > 0 { gone + c + 1 } else { after_files };
            &&& lines.len() == after_gone
            &&& forall|i: int|
                0 <= i < n ==> #[trigger] lines[i] == panels::package_line(info.upgradable[i])
            &&& forall|i: int| #![trigger info.held_packages[i]]
                0 <= i < a ==> lines[held + i] == panels::held_line(info.held_packages[i])
            &&& forall|i: int| #![trigger info.pending_conffiles[i]]
                0 <= i < b ==> lines[files + i] == panels::conffile_line(info.pending_conffiles[i])
            &&& forall|i: int| #![trigger info.rc_packages[i]]
                0 <= i < c ==> lines[gone + i].len() == 1 && lines[gone + i][0].text == "  "@
                    + info.rc_packages[i].name
            &&& a > 0 ==> lines[held - 1][0].text == " "@ + ("Held / kept back"@ + " ("@
                + text::decimal(a as nat) + ")"@)
            &&& b > 0 ==> lines[files - 1][0].text == " "@ + ("Pending config files"@ + " ("@
                + text::decimal(b as nat) + ")"@)
            &&& c > 0 ==> lines[gone - 1][0].text == " "@ + ("RC packages"@ + " ("@
                + text::decimal(c as nat) + ")"@)
        }),
{
    let pk = panels::package_lines(info);
    let hl = panels::held_lines(info);
    let cl = panels::conffile_lines(info);
    let rl = panels::rc_lines(info);
    let s1 = panels::section(pk, "Held / kept back"@, hl, seq![]);
    let s2 = panels::section(s1, "Pending config files"@, cl, panels::hint("  Press c to review"@));
    let s3 = panels::section(s2, "RC packages"@, rl, panels::hint("  Press p to purge"@));
    lemma_section(pk, "Held / kept back"@, hl, seq![]);
    lemma_section(s1, "Pending config files"@, cl, panels::hint("  Press c to review"@));
    lemma_section(s2, "RC packages"@, rl, panels::hint("  Press p to purge"@));
    assert(panels::upgradable_lines(info) == s3);
    assert forall|i: int| #![trigger info.held_packages[i]]
        0 <= i < hl.len() implies hl[i] == panels::held_line(info.held_packages[i]) by {}
    assert forall|i: int| #![trigger info.pending_conffiles[i]]
        0 <= i < cl.len() implies cl[i] == panels::conffile_line(info.pending_conffiles[i]) by {}
}

/// A section leaves what is before it as it is, and puts its heading, its items
/// and its footer behind.
proof fn lemma_section(
    before: Seq<LineView>,
    title: Seq<char>,
    items: Seq<LineView>,
    footer: Seq<LineView>,
)
    ensures
        ({
            let r = panels::section(before, title, items, footer);
            let at = before.len() as int + if before.len() > 0 {
                2int
            } else {
                1int
            };
            &&& forall|i: int| 0 <= i < before.len() ==> #[trigger] r[i] == before[i]
            &&& items.len() == 0 ==> r == before
            &&& items.len() > 0 ==> r.len() == at + items.len() + footer.len() && (forall|i: int|
                0 <= i < items.len() ==> r[at + i] == #[trigger] items[i])
            &&& items.len() > 0 ==> r[at - 1][0].text == " "@ + (title + " ("@ + text::decimal(
                items.len(),
            ) + ")"@)
        }),
{
}

/// A list that does not fit is scrolled so that its last line is the last one in
/// view.
pub proof fn long_lists_show_their_end(total: nat, visible: u16)
    requires
        total <= 65535,
    ensures
        total <= visible ==> panels::overflow(total, visible) == 0,
        total > visible ==> panels::overflow(total, visible) + visible == total,
{
}

// ── Tasks ────────────────────────────────────────────────────────────────────

/// What is said of a task: which it is, and whether it runs, is done, ended with
/// an error, or failed.
pub proof fn a_task_in_words(hostname: Seq<char>, t: TaskView, tick: u64)
    ensures
        ({
            let label = task::label_of(t.kind);
            let spin = panels::spinner_at(tick);
            let short = panels::task_status(t, tick);
            let long = panels::task_heading(hostname, t, tick);
            let head = "  "@ + hostname + " — "@ + label + "  ["@;
            &&& t.status is Running ==> short == spin + " "@ + label + " running…  t:full view"@
                && long == head + (spin + " running…"@) + "]"@
            &&& t.status == TaskStatusView::Done(0) ==> short == "✓ "@ + label
                + " done  t:full view"@ && long == head + "✓ done"@ + "]"@
            &&& t.status matches TaskStatusView::Done(code) ==> (code != 0 ==> short == "✗ "@
                + label + " exited "@ + text::signed_decimal(code as int) + "  t:full view"@
                && long == head + ("✗ exited "@ + text::signed_decimal(code as int)) + "]"@)
            &&& t.status matches TaskStatusView::Failed(e) ==> short == "✗ "@ + label + ": "@ + e
                + "  t:full view"@ && long == head + ("✗ failed: "@ + e) + "]"@
        }),
{
}

// ── The review ───────────────────────────────────────────────────────────────

/// The review lists every file with its mark and its owner, and points at the
/// selected one.
pub proof fn the_review_lists_every_file(s: ReviewView, i: int)
    requires
        s.valid(),
        0 <= i < s.files.len(),
    ensures
        ({
            let lines = panels::review_lines(s);
            let line = lines[i];
            &&& lines.len() == s.files.len()
            &&& line.len() == 4
            &&& line[0].text == if i == s.selected {
                " > "@
            } else {
                "   "@
            }
            &&& line[1].text == (match s.decisions[i] {
                Some(ConffileAction::Discard) => "[discard] "@,
                Some(ConffileAction::Apply) => "[apply  ] "@,
                None => "[       ] "@,
            })
            &&& line[2].text == s.files[i].pending_path
            &&& s.files[i].package is None ==> line[3].text == ""@
            &&& s.files[i].package matches Some(p) ==> line[3].text == "  ["@ + p + "]"@
        }),
{
}

/// The question before a batch is executed says how many files it discards and
/// how many live configs it replaces.
pub proof fn the_question_counts_the_marks(s: ReviewView)
    requires
        s.confirm_execute,
    ensures
        ({
            let d = s.decisions.filter(
                |m: Option<ConffileAction>| m == Some(ConffileAction::Discard),
            ).len();
            let a = s.decisions.filter(
                |m: Option<ConffileAction>| m == Some(ConffileAction::Apply),
            ).len();
            let f = panels::review_footer(s);
            &&& f.len() == 1
            &&& f[0].text == " Execute "@ + text::decimal(d) + " discard(s), "@ + text::decimal(a)
                + " apply(ies)"@ + (if a > 0 {
                ", replacing "@ + text::decimal(a) + " live config(s) (old kept as .dpkg-old)"@
            } else {
                ""@
            }) + "?  y: confirm   any other key: cancel"@
        }),
{
    use_marks(s, ConffileAction::Discard);
    use_marks(s, ConffileAction::Apply);
    assert(crate::review::marks(ConffileAction::Discard) =~= (|m: Option<ConffileAction>|
        m == Some(ConffileAction::Discard)));
    assert(crate::review::marks(ConffileAction::Apply) =~= (|m: Option<ConffileAction>|
        m == Some(ConffileAction::Apply)));
}

proof fn use_marks(s: ReviewView, action: ConffileAction)
    ensures
        s.count(action) == s.decisions.filter(
            |m: Option<ConffileAction>| m == Some(action),
        ).len(),
{
    assert(crate::review::marks(action) =~= (|m: Option<ConffileAction>| m == Some(action)));
}

/// Lines of a diff are colored by how they start.
pub proof fn diff_lines_are_colored_by_their_start(s: Seq<char>)
    ensures
        ({
            let style = panels::diff_style(s);
            let header = text::begins(s, "+++"@) || text::begins(s, "---"@);
            &&& header ==> style.fg == Some(Color::White) && style.bold
            &&& !header && text::begins(s, "@@"@) ==> style.fg == Some(Color::Cyan)
            &&& !header && !text::begins(s, "@@"@) && text::begins(s, "+"@) ==> style.fg == Some(
                Color::Green,
            )
            &&& !header && !text::begins(s, "@@"@) && !text::begins(s, "+"@) && text::begins(
                s,
                "-"@,
            ) ==> style.fg == Some(Color::Red)
            &&& !header && !text::begins(s, "@@"@) && !text::begins(s, "+"@) && !text::begins(
                s,
                "-"@,
            ) ==> style.fg == Some(Color::Gray)
        }),
{
}

// ── The whole screen ─────────────────────────────────────────────────────────

/// The sidebar shows a line for each visible row, in order, highlights the
/// selected one, and says so where nothing matches.
pub proof fn the_sidebar_shows_the_visible_rows(app: AppView, area: Rect, k: int)
    requires
        0 <= k < app.visible().len(),
    ensures
        ({
            let draws = ui::sidebar_scene(app, area);
            let row = app.visible()[k];
            &&& draws.len() == 2
            &&& draws[1].widget is List
            &&& draws[1].widget->List_items.len() == app.visible().len()
            &&& app.rows[row] matches SidebarRowView::Host { host_idx }
                ==> draws[1].widget->List_items[k] == panels::host_row(
                app.hosts[host_idx],
                app.tick,
            )
            &&& app.rows[row] matches SidebarRowView::Group { name }
                ==> draws[1].widget->List_items[k].len() == 1
                && draws[1].widget->List_items[k][0].text == " ▸ "@ + name
            &&& row == app.selected_row ==> draws[1].widget->List_selected == Some(k)
        }),
{
    let v = app.visible();
    v.index_of_first_ensures(app.selected_row);
    sidebar::rows_stay_in_order(app.rows, app.hosts, app.matched());
    if v[k] == app.selected_row {
        assert(v.contains(app.selected_row));
        let j = v.index_of_first(app.selected_row)->0;
        if j < k {
            assert(v[j] < v[k]);
        } else if k < j {
            assert(v[k] < v[j]);
        }
    }
}

/// The end of a task's output is shown: as many of its last lines as there are
/// rows, in order.
pub proof fn the_end_of_the_output_is_shown(h: HostView, tick: u64, area: Rect, parts: Seq<Rect>)
    requires
        h.task is Some,
        area.height >= 3,
    ensures
        ({
            let draws = ui::task_scene(h, tick, area, parts);
            let out = h.task->0.output;
            let rows = area.height - 3;
            let lines = draws[2].widget->Text_lines;
            &&& draws.len() == 3
            &&& draws[1].area == parts[0] && draws[2].area == parts[1]
            &&& lines.len() == if out.len() <= rows {
                out.len() as int
            } else {
                rows
            }
            &&& forall|i: int|
                0 <= i < lines.len() ==> (#[trigger] lines[i]).len() == 1 && lines[i][0].text
                    == out[out.len() - lines.len() + i]
        }),
{
}

/// The full view shows all of the output, from where the user scrolled to, or to
/// its end.
pub proof fn the_full_view_shows_all_output(h: HostView, tick: u64, area: Rect, parts: Seq<Rect>)
    requires
        h.task is Some,
        h.task->0.output.len() < 65536,
        parts[1].height >= 2,
    ensures
        ({
            let draws = ui::log_scene(h, tick, area, parts);
            let t = h.task->0;
            let rows = parts[1].height - 2;
            let lines = draws[3].widget->Text_lines;
            let scroll = draws[3].widget->Text_scroll;
            &&& draws.len() == 5
            &&& lines.len() == t.output.len()
            &&& forall|i: int|
                0 <= i < lines.len() ==> (#[trigger] lines[i]).len() == 1 && lines[i][0].text
                    == t.output[i]
            &&& !t.auto_scroll ==> scroll == t.scroll_offset
            &&& t.auto_scroll && t.output.len() <= rows ==> scroll == 0
            &&& t.auto_scroll && t.output.len() > rows ==> scroll + rows == t.output.len()
        }),
{
}

/// The diff that is shown is that of the selected file, line by line; and what is
/// shown instead while there is none says why.
pub proof fn the_selected_diff_is_shown(s: ReviewView, tick: u64, area: Rect)
    ensures
        ({
            let d = ui::diff_scene(s.diff(), s.scroll, tick, area).widget;
            let lines = d->Text_lines;
            &&& s.diff() matches Some(DiffView::Loaded(ls)) ==> {
                &&& ls.len() > 0 ==> lines.len() == ls.len() && forall|i: int|
                    0 <= i < ls.len() ==> (#[trigger] lines[i])[0].text == ls[i]
                &&& ls.len() == 0 ==> lines[0][0].text
                    == " no differences — the new file matches the live one"@
                &&& 0 < ls.len() < 65536 ==> d->Text_scroll <= s.scroll && (d->Text_scroll == 0
                    || d->Text_scroll + area.height <= ls.len())
            }
            &&& s.diff() matches Some(DiffView::Failed(e)) ==> lines[0][0].text
                == " diff failed: "@ + e
            &&& s.diff() is None || s.diff() == Some(DiffView::Loading) ==> lines[0][0].text == " "@
                + panels::spinner_at(tick) + " loading diff…"@
        }),
{
}

/// The modals come behind what is below them, the quit confirmation last, so it
/// is on top.
pub proof fn modals_come_on_top(app: AppView, area: Rect, f: FramesView)
    ensures
        ({
            let draws = ui::screen(app, area, f);
            let below = ui::backdrop(app, area, f);
            let n = below.len() as int;
            let review = if app.review is Some {
                6int
            } else {
                0
            };
            let reboot = if app.reboot is Some {
                3int
            } else {
                0
            };
            let quit = if app.quit_confirm {
                3int
            } else {
                0
            };
            &&& draws.len() == n + review + reboot + quit
            &&& draws.take(n) == below
            &&& app.review is Some ==> draws[n].area == ui::review_area(area)
                && draws[n].widget is Clear
            &&& app.reboot is Some ==> draws[n + review].area == scene::centered(60, 11, area)
                && draws[n + review].widget is Clear
            &&& app.quit_confirm ==> draws[n + review + reboot].area == scene::centered(56, 8, area)
                && draws[n + review + reboot].widget is Clear
        }),
{
    let draws = ui::screen(app, area, f);
    let below = ui::backdrop(app, area, f);
    assert(draws.take(below.len() as int) =~= below);
}

/// What is below the modals: a task's output where one is viewed, else the detail
/// alone where it is zoomed, else title, sidebar, detail and status bar.
pub proof fn what_is_below_the_modals(app: AppView, area: Rect, f: FramesView)
    ensures
        ({
            let draws = ui::backdrop(app, area, f);
            &&& app.viewing_task matches Some(i) ==> draws == ui::log_scene(
                app.hosts[i],
                app.tick,
                area,
                f.log,
            )
            &&& app.viewing_task is None && app.detail_zoom ==> draws == ui::detail_scene(
                app,
                area,
                f,
            )
            &&& app.viewing_task is None && !app.detail_zoom ==> {
                &&& draws.first().area == f.main[0]
                &&& draws.last().area == f.main[2]
                &&& draws[1].area == f.body[0]
                &&& draws.subrange(1, 3) == ui::sidebar_scene(app, f.body[0])
                &&& draws.subrange(3, draws.len() - 1) == ui::detail_scene(app, area, f)
            }
        }),
{
    let draws = ui::backdrop(app, area, f);
    if app.viewing_task is None && !app.detail_zoom {
        assert(draws.subrange(1, 3) =~= ui::sidebar_scene(app, f.body[0]));
        assert(draws.subrange(3, draws.len() - 1) =~= ui::detail_scene(app, area, f));
    }
}

/// The bar at the bottom says how many hosts are being gathered.
pub proof fn the_status_bar_counts_gathers(app: AppView, area: Rect)
    ensures
        ({
            let n = app.hosts.filter(
                |h: HostView| h.status is Connecting || h.status is Gathering,
            ).len();
            let bar = ui::status_bar(app, area).widget->Text_lines;
            &&& bar.len() == 2
            &&& n == 0 ==> text::begins(bar[0][0].text, " r:update+refresh  R:update+refresh all"@)
            &&& n > 0 ==> text::begins(
                bar[0][0].text,
                " "@ + (" ["@ + text::decimal(n) + " refreshing…]  "@),
            )
        }),
{
    assert(ui::refreshes() =~= (|h: HostView| h.status is Connecting || h.status is Gathering));
    let n = app.hosts.filter(ui::refreshes()).len();
    let keys =
        "r:update+refresh  R:update+refresh all  u:upgrade  U:upgrade all  f:full-upgrade  F:full-upgrade all  s:sec-upgrade  S:sec-upgrade all"@;
    let s = panels::status_bar_lines(n)[0][0].text;
    if n > 0 {
        let front = " "@ + (" ["@ + text::decimal(n) + " refreshing…]  "@);
        assert(s == front + keys);
        assert(s.subrange(0, front.len() as int) =~= front);
    } else {
        reveal_strlit("");
        reveal_strlit(" ");
        reveal_strlit(
            "r:update+refresh  R:update+refresh all  u:upgrade  U:upgrade all  f:full-upgrade  F:full-upgrade all  s:sec-upgrade  S:sec-upgrade all",
        );
        reveal_strlit(" r:update+refresh  R:update+refresh all");
        assert(s =~= " "@ + keys);
        assert(s.subrange(0, 39) =~= " r:update+refresh  R:update+refresh all"@);
    }
}

/// The panels of a host are each drawn in their own frame.
pub proof fn panels_are_drawn_in_their_frames(h: HostView, tick: u64, f: FramesView)
    requires
        h.info is Some && h.task is Some,
        h.info->0.autoremovable.len() > 0,
    ensures
        ({
            let d = ui::host_scene(h, tick, f);
            &&& d.len() == 11
            &&& d[0].area == f.panes[0] && d[2].area == f.panes[1]
            &&& d[1].widget->Text_lines == panels::header_lines(h)
            &&& d[3].widget->Text_lines == panels::kernel_lines(h)
            &&& d[4].area == f.packages[0] && d[5].widget->Text_lines == panels::upgradable_lines(
                h.info->0,
            )
            &&& d[6].area == f.packages[1] && d[7].widget->Text_lines
                == panels::autoremovable_lines(h.info->0)
            &&& d[8].area == f.panes[3]
        }),
{
}

/// The autoremovable packages are listed, each once and in order.
pub proof fn autoremovable_packages_are_listed(info: HostInfoView, i: int)
    requires
        0 <= i < info.autoremovable.len(),
    ensures
        panels::autoremovable_lines(info).len() == info.autoremovable.len(),
        panels::autoremovable_lines(info)[i][0].text == " "@ + info.autoremovable[i],
{
}

/// A pending config file is shown by its live path, with its owner.
pub proof fn a_conffile_line_says_its_owner(f: PendingConffileView)
    ensures
        ({
            let line = panels::conffile_line(f);
            &&& line.len() == 2
            &&& line[0].text == "  "@ + f.live_path
            &&& f.package is None ==> line[1].text == ""@
            &&& f.package matches Some(p) ==> line[1].text == " ["@ + p + "]"@
        }),
{
}

/// The detail panel shows a line for each host of a selected group, in order, the
/// whole of a single host, and says so where nothing is selected.
pub proof fn the_detail_shows_the_selection(app: AppView, area: Rect, f: FramesView, i: int)
    ensures
        ({
            let idxs = app.selected_hosts();
            let d = ui::detail_contents(app, area, f);
            &&& idxs.len() == 0 ==> d.len() == 1 && d[0].widget->Text_lines[0][0].text
                == "No selection"@
            &&& idxs.len() == 1 ==> d == ui::host_scene(app.hosts[idxs[0]], app.tick, f)
            &&& idxs.len() > 1 ==> d.len() == 1 && d[0].widget->Text_lines.len() == idxs.len()
            &&& idxs.len() > 1 && 0 <= i < idxs.len() ==> d[0].widget->Text_lines[i]
                == panels::summary_line(app.hosts[idxs[i]], app.tick)
        }),
{
}

/// The titles of the package panels count what they list.
pub proof fn titles_count_what_is_listed(h: HostView)
    requires
        h.info is Some,
    ensures
        ({
            let info = h.info->0;
            let n = info.upgradable.len();
            let s = info.upgradable.filter(|p: PackageView| p.is_security).len();
            let m = info.autoremovable.len();
            &&& n == 0 ==> panels::upgradable_title(info) == " Upgradable: none "@
            &&& n > 0 && s == 0 ==> panels::upgradable_title(info) == " Upgradable ("@
                + text::decimal(n) + ") "@
            &&& n > 0 && s > 0 ==> panels::upgradable_title(info) == " Upgradable ("@
                + text::decimal(n) + ", "@ + text::decimal(s) + " security) "@
            &&& m == 0 ==> panels::autoremovable_title(h) == " Autoremovable: none "@
            &&& m > 0 ==> panels::autoremovable_title(h) == " Autoremovable ("@ + text::decimal(m)
                + ") "@
        }),
{
    lemma_security_len(h.info->0.upgradable);
}

/// The sidebar's title shows the filter that is in force.
pub proof fn the_title_shows_the_filter(filter: Seq<char>)
    ensures
        panels::sidebar_title(filter, true) == "Hosts  /"@ + filter,
        filter.len() > 0 ==> panels::sidebar_title(filter, false) == "Hosts  (filter: "@ + filter
            + ")"@,
        filter.len() == 0 ==> panels::sidebar_title(filter, false) == "Hosts"@,
{
}

/// The confirmations say what they are about: how much work would be cut off, and
/// which name is to be typed, what was typed so far and whether it was wrong.
pub proof fn confirmations_say_what_they_are_about(
    running: nat,
    hostname: Seq<char>,
    input: Seq<char>,
    mismatch: bool,
)
    ensures
        ({
            let q = panels::quit_lines(running);
            let r = panels::reboot_lines(hostname, input, mismatch);
            &&& q[1][0].text == "  "@ + text::decimal(running) + " background "@ + (if running
                == 1 {
                "operation"@
            } else {
                "operations"@
            }) + " still running."@
            &&& q[5][0].text == "  y: quit anyway   any other key: cancel"@
            &&& r[1][1].text == hostname
            &&& r[3][1].text == input
            &&& mismatch ==> r[5][0].text == "  ✗ hostname does not match"@
            &&& !mismatch ==> r[5].len() == 0
            &&& r[6][0].text == "  Enter: confirm reboot   Esc: cancel"@
        }),
{
}

/// The review covers the screen but for a margin, and its list gets no more than a
/// third of it beyond two rows.
pub proof fn the_review_covers_the_screen(area: Rect, files: nat)
    requires
        area.addressable(),
        area.width >= 46,
        area.height >= 16,
    ensures
        ui::review_area(area) == (Rect {
            x: (area.x + 3) as u16,
            y: (area.y + 2) as u16,
            width: (area.width - 6) as u16,
            height: (area.height - 4) as u16,
        }),
        ({
            let h = ui::review_inner(area).height;
            let rows = ui::list_height(files, h);
            &&& rows >= 2
            &&& files < 65536 ==> rows <= 2 || (rows <= files + 1 && 3 * rows <= h)
            &&& 2 <= files + 1 < 65536 && 3 * (files + 1) <= h ==> rows == files + 1
        }),
{
}

/// What the colors of a host's row and of its status stand for.
pub proof fn colors_stand_for_something(h: HostView, tick: u64)
    requires
        h.info is Some,
    ensures
        ({
            let row = panels::host_row(h, tick);
            let info = h.info->0;
            &&& info.running_kernel.len() > 0 ==> row[4].style.fg == Some(Color::Yellow)
            &&& info.upgradable.len() > 0 ==> row[5].style.fg == Some(Color::Cyan)
            &&& panels::security_count(h) > 0 ==> row[6].style.fg == Some(Color::Red)
            &&& info.pending_conffiles.len() > 0 ==> row[7].style.fg == Some(Color::Magenta)
            &&& h.status is Ready ==> panels::status_style(h.status).fg == Some(Color::Green)
            &&& h.status is Error ==> panels::status_style(h.status).fg == Some(Color::Red)
            &&& h.status is Connecting || h.status is Gathering ==> panels::status_style(
                h.status,
            ).fg == Some(Color::Yellow)
            &&& h.status is Unknown ==> panels::status_style(h.status).fg == Some(Color::Gray)
        }),
{
}

/// The colors of packages and tasks: security and failure in red, success in
/// green, what runs in yellow.
pub proof fn colors_of_packages_and_tasks(p: PackageView, held: HeldPackageView, t: TaskView)
    ensures
        panels::package_line(p)[1].style.fg == Some(Color::Cyan),
        p.is_security ==> panels::package_line(p)[2].style.fg == Some(Color::Red),
        held.reason == HoldReason::ManualHold ==> panels::held_line(held)[1].style.fg == Some(
            Color::Yellow,
        ),
        held.reason == HoldReason::KeptBack ==> panels::held_line(held)[1].style.fg == Some(
            Color::Magenta,
        ),
        t.status is Running ==> panels::task_style(t.status).fg == Some(Color::Yellow),
        t.status == TaskStatusView::Done(0) ==> panels::task_style(t.status).fg == Some(
            Color::Green,
        ),
        t.status is Failed ==> panels::task_style(t.status).fg == Some(Color::Red),
        t.status matches TaskStatusView::Done(code) ==> (code != 0 ==> panels::task_style(
            t.status,
        ).fg == Some(Color::Red)),
{
}

/// Without a kernel package, or before anything is known, the kernel panel says so;
/// a package of another name is shown as it is.
pub proof fn other_kernels_are_shown_as_they_are(h: HostView)
    ensures
        h.info is None ==> panels::kernel_lines(h).len() == 1 && panels::kernel_lines(
            h,
        )[0][0].text == " gathering…"@,
        h.info is Some && h.info->0.latest_kernel is None ==> panels::kernel_lines(h).len()
            == if h.info->0.reboot_required {
            2int
        } else {
            1
        } && panels::kernel_lines(h)[0][1].text == h.info->0.running_kernel,
        h.info is Some && h.info->0.latest_kernel is Some && !text::begins(
            h.info->0.latest_kernel->0,
            "linux-image-"@,
        ) ==> panels::kernel_lines(h)[1][1].text == h.info->0.latest_kernel->0,
{
}

} // verus!
