//! Parsers for the output of `apt`, `apt-get`, `apt-mark`, `dpkg` and `find`
//! on a host. Each has a definition over the lines of the output.

use vstd::prelude::*;

use crate::apt::{
    HeldPackage, HeldPackageView, HoldReason, Package, PackageView, PendingConffile,
    PendingConffileView, RcPackage, RcPackageView,
};
use crate::lemmas;
use crate::text;

verus! {

// ── Upgradable packages ──────────────────────────────────────────────────────

/// The version inside `[upgradable from: ...]`.
pub open spec fn previous_version(rest: Seq<char>) -> Option<Seq<char>> {
    let tag = "upgradable from: "@;
    match text::find(rest, tag) {
        Some(at) => {
            let after = rest.skip(at + tag.len());
            let end = text::until(after, ']');
            if end < after.len() {
                Some(text::trimmed(after.take(end as int)))
            } else {
                None
            }
        },
        None => None,
    }
}

/// A suite belongs to a security repository if its lowercase name says so.
pub open spec fn names_security(lowercase_suite: Seq<char>) -> bool {
    text::contains(lowercase_suite, "security"@)
}

/// The package that a line `name/suite version arch [upgradable from: old]`
/// describes.
pub open spec fn upgradable_line(line: Seq<char>) -> Option<PackageView> {
    let slash = text::until(line, '/');
    let after = line.skip(slash as int + 1);
    let suite_end = text::until(after, ' ');
    let version = after.skip(suite_end as int + 1);
    let version_end = text::until(version, ' ');
    let name = text::trimmed(line.take(slash as int));
    let new_version = text::trimmed(version.take(version_end as int));
    if slash >= line.len() || suite_end >= after.len() || name.len() == 0 || new_version.len()
        == 0 {
        None
    } else {
        Some(
            PackageView {
                name,
                new_version,
                current_version: if version_end < version.len() {
                    previous_version(version.skip(version_end as int + 1))
                } else {
                    None
                },
                is_security: names_security(text::lowercase(after.take(suite_end as int))),
            },
        )
    }
}

/// Headers, warnings and blank lines describe no package.
pub open spec fn upgradable_entry() -> spec_fn(Seq<char>) -> Option<PackageView> {
    |line: Seq<char>|
        if text::contains(line, "WARNING"@) || text::begins(line, "Listing"@) || text::trimmed(
            line,
        ).len() == 0 {
            None
        } else {
            upgradable_line(line)
        }
}

/// The packages that the output of `apt list --upgradable` lists.
pub open spec fn upgradable_packages(output: Seq<char>) -> Seq<PackageView> {
    text::lines(output).filter_map(upgradable_entry())
}

/// Whether a suite, given in lowercase, is a security suite.
pub fn is_security_suite(lowercase_suite: &str) -> (r: bool)
    ensures
        r == names_security(lowercase_suite@),
{
    let cs = text::chars_of(lowercase_suite);
    text::has(cs.as_slice(), "security")
}

fn parse_previous_version(rest: &[char]) -> (r: Option<String>)
    ensures
        r.deep_view() == previous_version(rest@),
{
    let n: usize = rest.len();
    let tag = text::chars_of("upgradable from: ");
    match text::position(rest, tag.as_slice()) {
        Some(at) => {
            let after: &[char] = &rest[at + tag.len()..n];
            assert(after@ =~= rest@.skip(at + tag@.len()));
            let end: usize = text::find_char(after, ']');
            if end < after.len() {
                assert(after@.subrange(0, end as int) =~= after@.take(end as int));
                Some(text::to_text(text::trim(&after[0..end])))
            } else {
                None
            }
        },
        None => None,
    }
}

/// Parses one line of `apt list --upgradable`.
pub fn parse_upgradable_line(line: &[char]) -> (r: Option<Package>)
    ensures
        r.deep_view() == upgradable_line(line@),
{
    let n: usize = line.len();
    let slash: usize = text::find_char(line, '/');
    if slash >= n {
        return None;
    }
    let name: &[char] = text::trim(&line[0..slash]);
    assert(line@.subrange(0, slash as int) =~= line@.take(slash as int));
    let after: &[char] = &line[slash + 1..n];
    assert(after@ =~= line@.skip(slash + 1));
    let suite_end: usize = text::find_char(after, ' ');
    if suite_end >= after.len() {
        return None;
    }
    let suite: &[char] = &after[0..suite_end];
    assert(suite@ =~= after@.take(suite_end as int));
    let version: &[char] = &after[suite_end + 1..after.len()];
    assert(version@ =~= after@.skip(suite_end + 1));
    let version_end: usize = text::find_char(version, ' ');
    let new_version: &[char] = text::trim(&version[0..version_end]);
    assert(version@.subrange(0, version_end as int) =~= version@.take(version_end as int));
    if name.len() == 0 || new_version.len() == 0 {
        return None;
    }
    let current_version: Option<String> = if version_end < version.len() {
        assert(version@.subrange(version_end + 1, version@.len() as int) =~= version@.skip(
            version_end + 1,
        ));
        parse_previous_version(&version[version_end + 1..version.len()])
    } else {
        None
    };
    let lowered = text::lower(text::to_text(suite).as_str());
    Some(
        Package {
            name: text::to_text(name),
            new_version: text::to_text(new_version),
            current_version,
            is_security: is_security_suite(lowered.as_str()),
        },
    )
}

/// Parse output of `LC_ALL=C apt list --upgradable 2>/dev/null`
pub fn parse_upgradable(output: &str) -> (r: Vec<Package>)
    ensures
        r.deep_view() == upgradable_packages(output@),
{
    let cs = text::chars_of(output);
    let ls = text::split_lines(cs.as_slice());
    let ghost all = text::lines(output@);
    let n: usize = ls.len();
    let mut r: Vec<Package> = Vec::new();
    let mut i: usize = 0;
    assert(r.deep_view() =~= all.take(0).filter_map(upgradable_entry()));
    while i < n
        invariant
            n == ls@.len(),
            all == text::pieces(ls@),
            i <= n,
            r.deep_view() == all.take(i as int).filter_map(upgradable_entry()),
        decreases n - i,
    {
        proof {
            all.lemma_filter_map_take_succ(upgradable_entry(), i as int);
        }
        let line: &[char] = ls[i];
        assert(line@ == all[i as int]);
        let ghost before = r.deep_view();
        let skip = text::has(line, "WARNING") || text::starts_with(line, "Listing") || text::trim(
            line,
        ).len() == 0;
        if !skip {
            if let Some(pkg) = parse_upgradable_line(line) {
                r.push(pkg);
                assert(r.deep_view() =~= before.push(pkg.deep_view()));
            }
        }
        i += 1;
    }
    assert(all.take(n as int) =~= all);
    r
}

// ── Removed and held packages ────────────────────────────────────────────────

/// A line of `dpkg -l` whose status column reads `rc`.
pub open spec fn rc_entry() -> spec_fn(Seq<char>) -> Option<RcPackageView> {
    |line: Seq<char>|
        {
            let columns = text::words(line);
            if columns.len() >= 2 && columns[0] == "rc"@ {
                Some(RcPackageView { name: columns[1] })
            } else {
                None
            }
        }
}

/// The packages that the output of `dpkg -l` lists as removed but configured.
pub open spec fn rc_packages(output: Seq<char>) -> Seq<RcPackageView> {
    text::lines(output).filter_map(rc_entry())
}

/// Parse output of `LC_ALL=C dpkg -l`
pub fn parse_rc_packages(output: &str) -> (r: Vec<RcPackage>)
    ensures
        r.deep_view() == rc_packages(output@),
{
    let rc = text::chars_of("rc");
    let cs = text::chars_of(output);
    let ls = text::split_lines(cs.as_slice());
    let ghost all = text::lines(output@);
    let n: usize = ls.len();
    let mut r: Vec<RcPackage> = Vec::new();
    let mut i: usize = 0;
    assert(r.deep_view() =~= all.take(0).filter_map(rc_entry()));
    while i < n
        invariant
            n == ls@.len(),
            rc@ == "rc"@,
            all == text::pieces(ls@),
            i <= n,
            r.deep_view() == all.take(i as int).filter_map(rc_entry()),
        decreases n - i,
    {
        proof {
            all.lemma_filter_map_take_succ(rc_entry(), i as int);
        }
        let line: &[char] = ls[i];
        assert(line@ == all[i as int]);
        let ghost before = r.deep_view();
        let columns = text::split_words(line);
        proof {
            let ghost cols = text::words(line@);
            assert(cols.len() == columns@.len());
            assert(forall|k: int|
                0 <= k < columns@.len() ==> #[trigger] columns@[k]@ == cols[k]);
        }
        if columns.len() >= 2 && text::same(columns[0], rc.as_slice()) {
            let p = RcPackage { name: text::to_text(columns[1]) };
            r.push(p);
            assert(r.deep_view() =~= before.push(p.deep_view()));
        }
        i += 1;
    }
    assert(all.take(n as int) =~= all);
    r
}

/// A line of `apt-mark showhold` names one package.
pub open spec fn held_entry() -> spec_fn(Seq<char>) -> Option<HeldPackageView> {
    |line: Seq<char>|
        if text::trimmed(line).len() == 0 {
            None
        } else {
            Some(
                HeldPackageView {
                    name: text::trimmed(line),
                    reason: HoldReason::ManualHold,
                    detail: None,
                },
            )
        }
}

/// The packages that the output of `apt-mark showhold` lists.
pub open spec fn manually_held(output: Seq<char>) -> Seq<HeldPackageView> {
    text::lines(output).filter_map(held_entry())
}

/// Parse output of `LC_ALL=C apt-mark showhold`
pub fn parse_held_manually(output: &str) -> (r: Vec<HeldPackage>)
    ensures
        r.deep_view() == manually_held(output@),
{
    let cs = text::chars_of(output);
    let ls = text::split_lines(cs.as_slice());
    let ghost all = text::lines(output@);
    let n: usize = ls.len();
    let mut r: Vec<HeldPackage> = Vec::new();
    let mut i: usize = 0;
    assert(r.deep_view() =~= all.take(0).filter_map(held_entry()));
    while i < n
        invariant
            n == ls@.len(),
            all == text::pieces(ls@),
            i <= n,
            r.deep_view() == all.take(i as int).filter_map(held_entry()),
        decreases n - i,
    {
        proof {
            all.lemma_filter_map_take_succ(held_entry(), i as int);
        }
        let line: &[char] = ls[i];
        assert(line@ == all[i as int]);
        let ghost before = r.deep_view();
        let name: &[char] = text::trim(line);
        if name.len() > 0 {
            let p = HeldPackage {
                name: text::to_text(name),
                reason: HoldReason::ManualHold,
                detail: None,
            };
            r.push(p);
            assert(r.deep_view() =~= before.push(p.deep_view()));
        }
        i += 1;
    }
    assert(all.take(n as int) =~= all);
    r
}

// ── Indented sections ────────────────────────────────────────────────────────

/// A line that continues a package list.
pub open spec fn indented(line: Seq<char>) -> bool {
    text::begins(line, "  "@) || text::begins(line, "\t"@)
}

fn is_indented(line: &[char]) -> (r: bool)
    ensures
        r == indented(line@),
{
    text::starts_with(line, "  ") || text::starts_with(line, "\t")
}

/// After these lines a section headed by a line with `header` in it is open:
/// its header was seen, and only indented lines since.
pub open spec fn section_open(ls: Seq<Seq<char>>, header: Seq<char>) -> bool
    decreases ls.len(),
{
    ls.len() > 0 && (text::contains(ls.last(), header) || (section_open(ls.drop_last(), header)
        && indented(ls.last())))
}

/// The last of these lines lists packages of the section.
pub open spec fn lists_packages(ls: Seq<Seq<char>>, header: Seq<char>) -> bool {
    &&& ls.len() > 0
    &&& section_open(ls.drop_last(), header)
    &&& !text::contains(ls.last(), header)
    &&& indented(ls.last())
}

/// The names listed in the sections headed by `header`, in order.
pub open spec fn section_names(ls: Seq<Seq<char>>, header: Seq<char>) -> Seq<Seq<char>>
    decreases ls.len(),
{
    if ls.len() == 0 {
        seq![]
    } else {
        section_names(ls.drop_last(), header) + if lists_packages(ls, header) {
            text::words(ls.last())
        } else {
            seq![]
        }
    }
}

/// Collects the names listed in the sections headed by `header`.
pub fn parse_section(output: &str, header: &str) -> (r: Vec<String>)
    ensures
        r.deep_view() == section_names(text::lines(output@), header@),
{
    let cs = text::chars_of(output);
    let ls = text::split_lines(cs.as_slice());
    let ghost all = text::lines(output@);
    let n: usize = ls.len();
    let mut r: Vec<String> = Vec::new();
    let mut open = false;
    let mut i: usize = 0;
    assert(r.deep_view() =~= seq![]);
    while i < n
        invariant
            n == ls@.len(),
            all == text::pieces(ls@),
            i <= n,
            open == section_open(all.take(i as int), header@),
            r.deep_view() == section_names(all.take(i as int), header@),
        decreases n - i,
    {
        let line: &[char] = ls[i];
        proof {
            assert(all.take(i + 1).drop_last() =~= all.take(i as int));
            assert(all.take(i + 1).last() == line@);
        }
        let ghost before = r.deep_view();
        if text::has(line, header) {
            open = true;
            assert(r.deep_view() =~= before + Seq::<Seq<char>>::empty());
        } else if open && is_indented(line) {
            push_words(&mut r, line);
        } else {
            open = false;
            assert(r.deep_view() =~= before + Seq::<Seq<char>>::empty());
        }
        i += 1;
    }
    assert(all.take(n as int) =~= all);
    r
}

/// Appends the words of a line.
fn push_words(r: &mut Vec<String>, line: &[char])
    ensures
        final(r).deep_view() == old(r).deep_view() + text::words(line@),
{
    let ws = text::split_words(line);
    let ghost names = text::words(line@);
    let ghost before = r.deep_view();
    let m: usize = ws.len();
    let mut k: usize = 0;
    assert(r.deep_view() =~= before + names.take(0));
    while k < m
        invariant
            m == ws@.len(),
            names == text::pieces(ws@),
            k <= m,
            r.deep_view() == before + names.take(k as int),
        decreases m - k,
    {
        let ghost so_far = r.deep_view();
        r.push(text::to_text(ws[k]));
        proof {
            assert(r.deep_view() =~= so_far.push(names[k as int]));
            assert(names.take(k + 1) =~= names.take(k as int).push(names[k as int]));
            assert(r.deep_view() =~= before + names.take(k + 1));
        }
        k += 1;
    }
    assert(names.take(m as int) =~= names);
}

// ── Kept-back packages ───────────────────────────────────────────────────────

/// The names that packages are held under.
pub open spec fn held_names(held: Seq<HeldPackageView>) -> Seq<Seq<char>> {
    held.map_values(|h: HeldPackageView| h.name)
}

/// A package that apt keeps back, unless it is held by hand.
pub open spec fn kept_back_entry(manual: Seq<Seq<char>>) -> spec_fn(Seq<char>) -> Option<
    HeldPackageView,
> {
    |name: Seq<char>|
        if manual.contains(name) {
            None
        } else {
            Some(HeldPackageView { name, reason: HoldReason::KeptBack, detail: None })
        }
}

/// The packages that a simulated upgrade keeps back, without those held by
/// hand.
pub open spec fn kept_back(output: Seq<char>, held: Seq<HeldPackageView>) -> Seq<HeldPackageView> {
    section_names(text::lines(output), "kept back:"@).filter_map(
        kept_back_entry(held_names(held)),
    )
}

fn is_held(held: &[HeldPackage], name: &String) -> (r: bool)
    ensures
        r == held_names(held.deep_view()).contains(name@),
{
    let ghost names = held_names(held.deep_view());
    let n: usize = held.len();
    let mut i: usize = 0;
    while i < n
        invariant
            n == held@.len(),
            names == held_names(held.deep_view()),
            i <= n,
            forall|j: int| 0 <= j < i ==> #[trigger] names[j] != name@,
        decreases n - i,
    {
        assert(names[i as int] == held@[i as int].name@);
        if text::same_text(held[i].name.as_str(), name.as_str()) {
            return true;
        }
        i += 1;
    }
    false
}

/// Parse output of `LC_ALL=C apt-get -s upgrade 2>&1`
/// Extracts packages listed under "The following packages have been kept back:"
pub fn parse_kept_back(output: &str, manually_held: &[HeldPackage]) -> (r: Vec<HeldPackage>)
    ensures
        r.deep_view() == kept_back(output@, manually_held.deep_view()),
{
    let names = parse_section(output, "kept back:");
    let ghost all = names.deep_view();
    let ghost f = kept_back_entry(held_names(manually_held.deep_view()));
    let n: usize = names.len();
    let mut r: Vec<HeldPackage> = Vec::new();
    let mut i: usize = 0;
    assert(r.deep_view() =~= all.take(0).filter_map(f));
    while i < n
        invariant
            n == names@.len(),
            all == names.deep_view(),
            f == kept_back_entry(held_names(manually_held.deep_view())),
            i <= n,
            r.deep_view() == all.take(i as int).filter_map(f),
        decreases n - i,
    {
        proof {
            all.lemma_filter_map_take_succ(f, i as int);
        }
        let ghost before = r.deep_view();
        if !is_held(manually_held, &names[i]) {
            let p = HeldPackage {
                name: names[i].clone(),
                reason: HoldReason::KeptBack,
                detail: None,
            };
            r.push(p);
            assert(r.deep_view() =~= before.push(p.deep_view()));
        }
        i += 1;
    }
    assert(all.take(n as int) =~= all);
    r
}

// ── Why a package is kept back ───────────────────────────────────────────────

/// The package list that a dry run is in the middle of.
#[derive(Debug, Clone, Copy, PartialEq, Eq, Structural)]
pub enum DryRunSection {
    Neither,
    NewPackages,
    Removals,
}

/// The list that is open after these lines of a dry run.
pub open spec fn dry_run_section(ls: Seq<Seq<char>>) -> DryRunSection
    decreases ls.len(),
{
    if ls.len() == 0 {
        DryRunSection::Neither
    } else if text::contains(ls.last(), "NEW packages will be installed"@) {
        DryRunSection::NewPackages
    } else if text::contains(ls.last(), "packages will be REMOVED"@) {
        DryRunSection::Removals
    } else if !indented(ls.last()) && text::trimmed(ls.last()).len() > 0 {
        DryRunSection::Neither
    } else {
        dry_run_section(ls.drop_last())
    }
}

/// A header of a package list of a dry run.
pub open spec fn dry_run_header(line: Seq<char>) -> bool {
    text::contains(line, "NEW packages will be installed"@) || text::contains(
        line,
        "packages will be REMOVED"@,
    )
}

/// The names that a dry run lists in `section`.
pub open spec fn dry_run_names(ls: Seq<Seq<char>>, section: DryRunSection) -> Seq<Seq<char>>
    decreases ls.len(),
{
    if ls.len() == 0 {
        seq![]
    } else {
        dry_run_names(ls.drop_last(), section) + if dry_run_section(ls.drop_last()) == section
            && !dry_run_header(ls.last()) && indented(ls.last()) {
            text::words(ls.last())
        } else {
            seq![]
        }
    }
}

/// Parse output of `LC_ALL=C apt-get -s install <pkg> 2>&1`
/// Returns `(new_packages, removals)` — packages that would be newly installed
/// and packages that would be removed, both of which explain why a package is
/// kept back during a regular `apt upgrade`.
pub fn parse_install_dry_run(output: &str) -> (r: (Vec<String>, Vec<String>))
    ensures
        r.0.deep_view() == dry_run_names(text::lines(output@), DryRunSection::NewPackages),
        r.1.deep_view() == dry_run_names(text::lines(output@), DryRunSection::Removals),
{
    let cs = text::chars_of(output);
    let ls = text::split_lines(cs.as_slice());
    let ghost all = text::lines(output@);
    let n: usize = ls.len();
    let mut new_pkgs: Vec<String> = Vec::new();
    let mut removals: Vec<String> = Vec::new();
    let mut section = DryRunSection::Neither;
    let mut i: usize = 0;
    assert(new_pkgs.deep_view() =~= seq![]);
    assert(removals.deep_view() =~= seq![]);
    while i < n
        invariant
            n == ls@.len(),
            all == text::pieces(ls@),
            i <= n,
            section == dry_run_section(all.take(i as int)),
            new_pkgs.deep_view() == dry_run_names(
                all.take(i as int),
                DryRunSection::NewPackages,
            ),
            removals.deep_view() == dry_run_names(all.take(i as int), DryRunSection::Removals),
        decreases n - i,
    {
        let line: &[char] = ls[i];
        proof {
            assert(all.take(i + 1).drop_last() =~= all.take(i as int));
            assert(all.take(i + 1).last() == line@);
            assert(new_pkgs.deep_view() =~= new_pkgs.deep_view() + Seq::<Seq<char>>::empty());
            assert(removals.deep_view() =~= removals.deep_view() + Seq::<Seq<char>>::empty());
        }
        if text::has(line, "NEW packages will be installed") {
            section = DryRunSection::NewPackages;
        } else if text::has(line, "packages will be REMOVED") {
            section = DryRunSection::Removals;
        } else if is_indented(line) {
            if section == DryRunSection::NewPackages {
                push_words(&mut new_pkgs, line);
            } else if section == DryRunSection::Removals {
                push_words(&mut removals, line);
            }
        } else if text::trim(line).len() > 0 {
            // Any non-indented non-empty line ends the current section
            section = DryRunSection::Neither;
        }
        i += 1;
    }
    assert(all.take(n as int) =~= all);
    (new_pkgs, removals)
}

// ── Autoremovable packages ───────────────────────────────────────────────────

/// The packages that a simulated autoremove would remove, without the asterisks
/// that mark a purge.
pub open spec fn autoremovable(output: Seq<char>) -> Seq<Seq<char>> {
    section_names(text::lines(output), "packages will be REMOVED:"@).map_values(
        |name: Seq<char>| text::without_trailing(name, '*'),
    )
}

/// Parse output of `LC_ALL=C apt-get -s autoremove --purge 2>/dev/null`
/// Returns package names listed under "The following packages will be REMOVED:".
pub fn parse_autoremovable(output: &str) -> (r: Vec<String>)
    ensures
        r.deep_view() == autoremovable(output@),
{
    let names = parse_section(output, "packages will be REMOVED:");
    let ghost all = names.deep_view();
    let n: usize = names.len();
    let mut r: Vec<String> = Vec::new();
    let mut i: usize = 0;
    while i < n
        invariant
            n == names@.len(),
            all == names.deep_view(),
            i <= n,
            r@.len() == i,
            forall|j: int| 0 <= j < i ==> #[trigger] r@[j]@ == text::without_trailing(all[j], '*'),
        decreases n - i,
    {
        r.push(text::strip_trailing(names[i].as_str(), '*'));
        i += 1;
    }
    assert(r.deep_view() =~= autoremovable(output@));
    r
}

// ── Pending config files ─────────────────────────────────────────────────────

/// The suffix that dpkg and ucf give a new version of a config file, if the
/// path has one. `.dpkg-old` is deliberately absent: that is a backup of the
/// *previous* file, not a pending change.
pub open spec fn pending_suffix(path: Seq<char>) -> Option<Seq<char>> {
    if text::ends(path, ".dpkg-dist"@) {
        Some(".dpkg-dist"@)
    } else if text::ends(path, ".dpkg-new"@) {
        Some(".dpkg-new"@)
    } else if text::ends(path, ".ucf-dist"@) {
        Some(".ucf-dist"@)
    } else {
        None
    }
}

/// The pending config file at `path`, if its suffix says that it is one.
pub open spec fn pending_at(path: Seq<char>) -> Option<PendingConffileView> {
    match pending_suffix(path) {
        Some(suffix) => Some(
            PendingConffileView {
                pending_path: path,
                live_path: path.take(path.len() - suffix.len()),
                package: None,
            },
        ),
        None => None,
    }
}

pub open spec fn pending_entry() -> spec_fn(Seq<char>) -> Option<PendingConffileView> {
    |line: Seq<char>| pending_at(text::trimmed(line))
}

/// The pending config files that the lines of `find` name, in their order.
pub open spec fn pending_found(output: Seq<char>) -> Seq<PendingConffileView> {
    text::lines(output).filter_map(pending_entry())
}

/// Code-point order on texts.
pub open spec fn text_le(a: Seq<char>, b: Seq<char>) -> bool
    decreases a.len(),
{
    if a.len() == 0 {
        true
    } else if b.len() == 0 {
        false
    } else if a[0] != b[0] {
        a[0] < b[0]
    } else {
        text_le(a.skip(1), b.skip(1))
    }
}

/// Ordered by path.
pub open spec fn path_ordered(files: Seq<PendingConffileView>) -> bool {
    forall|i: int, j: int|
        0 <= i <= j < files.len() ==> text_le(
            #[trigger] files[i].pending_path,
            #[trigger] files[j].pending_path,
        )
}

/// The files arranged by path.
pub open spec fn by_path(files: Seq<PendingConffileView>) -> Seq<PendingConffileView> {
    choose|r: Seq<PendingConffileView>|
        path_ordered(r) && #[trigger] r.to_multiset() == files.to_multiset()
}

/// The pending config files that the output of `find` names, arranged by path.
pub open spec fn pending_conffiles(output: Seq<char>) -> Seq<PendingConffileView> {
    by_path(pending_found(output))
}

proof fn lemma_text_le_refl(a: Seq<char>)
    ensures
        text_le(a, a),
    decreases a.len(),
{
    if a.len() > 0 {
        lemma_text_le_refl(a.skip(1));
    }
}

proof fn lemma_text_le_trans(a: Seq<char>, b: Seq<char>, c: Seq<char>)
    requires
        text_le(a, b),
        text_le(b, c),
    ensures
        text_le(a, c),
    decreases a.len(),
{
    if a.len() > 0 && a[0] == b[0] && b[0] == c[0] {
        lemma_text_le_trans(a.skip(1), b.skip(1), c.skip(1));
    }
}

proof fn lemma_text_le_total(a: Seq<char>, b: Seq<char>)
    ensures
        text_le(a, b) || text_le(b, a),
    decreases a.len(),
{
    if a.len() > 0 && b.len() > 0 && a[0] == b[0] {
        lemma_text_le_total(a.skip(1), b.skip(1));
    }
}

proof fn lemma_text_le_antisym(a: Seq<char>, b: Seq<char>)
    requires
        text_le(a, b),
        text_le(b, a),
    ensures
        a == b,
    decreases a.len(),
{
    if a.len() > 0 {
        lemma_text_le_antisym(a.skip(1), b.skip(1));
        assert(a =~= seq![a[0]] + a.skip(1));
        assert(b =~= seq![b[0]] + b.skip(1));
    } else {
        assert(a =~= b);
    }
}

fn text_le_exec(a: &[char], b: &[char]) -> (r: bool)
    ensures
        r == text_le(a@, b@),
{
    let n: usize = a.len();
    let m: usize = b.len();
    let mut i: usize = 0;
    assert(a@.skip(0) =~= a@);
    assert(b@.skip(0) =~= b@);
    while i < n && i < m && a[i] == b[i]
        invariant
            n == a@.len(),
            m == b@.len(),
            i <= n,
            i <= m,
            text_le(a@, b@) == text_le(a@.skip(i as int), b@.skip(i as int)),
        decreases n - i,
    {
        assert(a@.skip(i as int).skip(1) =~= a@.skip(i + 1));
        assert(b@.skip(i as int).skip(1) =~= b@.skip(i + 1));
        i += 1;
    }
    if i >= n {
        true
    } else if i >= m {
        false
    } else {
        a[i] < b[i]
    }
}

/// Inserts a file behind every file whose path is not greater.
fn insert_by_path(files: &mut Vec<PendingConffile>, file: PendingConffile)
    requires
        path_ordered(old(files).deep_view()),
    ensures
        path_ordered(final(files).deep_view()),
        final(files).deep_view().to_multiset() == old(files).deep_view().to_multiset().insert(
            file.deep_view(),
        ),
{
    let ghost before = files.deep_view();
    let ghost f = file.deep_view();
    let path = text::chars_of(file.pending_path.as_str());
    let n: usize = files.len();
    let mut k: usize = n;
    while k > 0
        invariant
            n == files@.len(),
            k <= n,
            path@ == f.pending_path,
            before == files.deep_view(),
            path_ordered(before),
            forall|j: int| k <= j < n ==> text_le(f.pending_path, #[trigger] before[j].pending_path),
        ensures
            k <= n,
            forall|j: int| k <= j < n ==> text_le(f.pending_path, #[trigger] before[j].pending_path),
            k > 0 ==> text_le(before[k - 1].pending_path, f.pending_path),
        decreases k,
    {
        let other = text::chars_of(files[k - 1].pending_path.as_str());
        if text_le_exec(other.as_slice(), path.as_slice()) {
            break;
        }
        proof {
            lemma_text_le_total(before[k - 1].pending_path, f.pending_path);
        }
        k -= 1;
    }
    files.insert(k, file);
    proof {
        let after = files.deep_view();
        assert(after =~= before.insert(k as int, f));
        vstd::seq_lib::to_multiset_insert(before, k as int, f);
        assert forall|i: int, j: int| 0 <= i <= j < after.len() implies text_le(
            #[trigger] after[i].pending_path,
            #[trigger] after[j].pending_path,
        ) by {
            if i == k && j == k {
                lemma_text_le_refl(f.pending_path);
            } else if i < k && j == k {
                assert(before[i] == after[i]);
                lemma_text_le_trans(
                    before[i].pending_path,
                    before[k - 1].pending_path,
                    f.pending_path,
                );
            } else if i == k {
                assert(after[j] == before[j - 1]);
            } else {
                let a = if i < k { i } else { i - 1 };
                let b = if j < k { j } else { j - 1 };
                assert(after[i] == before[a]);
                assert(after[j] == before[b]);
            }
        }
    }
}

fn parse_pending_path(line: &[char]) -> (r: Option<PendingConffile>)
    ensures
        r.deep_view() == (pending_entry())(line@),
{
    let path: &[char] = text::trim(line);
    let n: usize = path.len();
    let suffix_len: usize = if text::ends_with(path, ".dpkg-dist") {
        ".dpkg-dist".unicode_len()
    } else if text::ends_with(path, ".dpkg-new") {
        ".dpkg-new".unicode_len()
    } else if text::ends_with(path, ".ucf-dist") {
        ".ucf-dist".unicode_len()
    } else {
        return None;
    };
    assert(path@.subrange(0, n - suffix_len) =~= path@.take(n - suffix_len));
    Some(
        PendingConffile {
            pending_path: text::to_text(path),
            live_path: text::to_text(&path[0..n - suffix_len]),
            package: None,
        },
    )
}

/// Parse the output of the `find` that locates pending conffiles. One path per
/// line; anything without a recognised suffix is ignored. Results are sorted
/// so the review list is stable between gathers.
pub fn parse_pending_conffiles(output: &str) -> (r: Vec<PendingConffile>)
    ensures
        r.deep_view() == pending_conffiles(output@),
        path_ordered(r.deep_view()),
        r.deep_view().to_multiset() == pending_found(output@).to_multiset(),
{
    let cs = text::chars_of(output);
    let ls = text::split_lines(cs.as_slice());
    let ghost all = text::lines(output@);
    let n: usize = ls.len();
    let mut r: Vec<PendingConffile> = Vec::new();
    let mut i: usize = 0;
    assert(r.deep_view() =~= all.take(0).filter_map(pending_entry()));
    while i < n
        invariant
            n == ls@.len(),
            all == text::pieces(ls@),
            i <= n,
            path_ordered(r.deep_view()),
            r.deep_view().to_multiset() == all.take(i as int).filter_map(
                pending_entry(),
            ).to_multiset(),
        decreases n - i,
    {
        let line: &[char] = ls[i];
        assert(line@ == all[i as int]);
        proof {
            all.lemma_filter_map_take_succ(pending_entry(), i as int);
        }
        if let Some(file) = parse_pending_path(line) {
            proof {
                let found = all.take(i as int).filter_map(pending_entry());
                assert(all.take(i + 1).filter_map(pending_entry()) =~= found.push(
                    file.deep_view(),
                ));
                vstd::seq_lib::to_multiset_build(found, file.deep_view());
            }
            insert_by_path(&mut r, file);
        } else {
            assert(all.take(i + 1).filter_map(pending_entry()) =~= all.take(i as int).filter_map(
                pending_entry(),
            ));
        }
        i += 1;
    }
    proof {
        assert(all.take(n as int) =~= all);
        lemma_pending_one_per_path(all);
        lemma_by_path(r.deep_view(), pending_found(output@));
    }
    r
}

/// Files with the same path are the same.
spec fn one_per_path(files: Seq<PendingConffileView>) -> bool {
    forall|i: int, j: int|
        0 <= i < files.len() && 0 <= j < files.len() && (#[trigger] files[i]).pending_path == (
        #[trigger] files[j]).pending_path ==> files[i] == files[j]
}

proof fn lemma_pending_one_per_path(ls: Seq<Seq<char>>)
    ensures
        one_per_path(ls.filter_map(pending_entry())),
{
    let files = ls.filter_map(pending_entry());
    assert forall|i: int, j: int|
        0 <= i < files.len() && 0 <= j < files.len() && (#[trigger] files[i]).pending_path == (
        #[trigger] files[j]).pending_path implies files[i] == files[j] by {
        assert(files.contains(files[i]));
        assert(files.contains(files[j]));
        ls.lemma_filter_map_contains(pending_entry(), files[i]);
        ls.lemma_filter_map_contains(pending_entry(), files[j]);
    }
}

/// There is one way to arrange files by path, where no two differ only in
/// something else.
proof fn lemma_path_order_unique(a: Seq<PendingConffileView>, b: Seq<PendingConffileView>)
    requires
        path_ordered(a),
        path_ordered(b),
        one_per_path(a),
        a.to_multiset() == b.to_multiset(),
    ensures
        a == b,
    decreases a.len(),
{
    broadcast use vstd::seq_lib::group_to_multiset_ensures;

    assert(a.len() == a.to_multiset().len());
    assert(b.len() == b.to_multiset().len());
    if a.len() == 0 {
        assert(a =~= b);
    } else {
        let x = a.last();
        let y = b.last();
        assert(a.contains(x));
        assert(b.contains(y));
        assert(b.to_multiset().count(x) > 0);
        assert(a.to_multiset().count(y) > 0);
        assert(b.contains(x));
        assert(a.contains(y));
        let i = choose|i: int| 0 <= i < a.len() && a[i] == y;
        let j = choose|j: int| 0 <= j < b.len() && b[j] == x;
        assert(text_le(a[i].pending_path, a[a.len() - 1].pending_path));
        assert(text_le(b[j].pending_path, b[b.len() - 1].pending_path));
        lemma_text_le_antisym(x.pending_path, y.pending_path);
        assert(a[i] == a[a.len() - 1]);
        let s = a.drop_last();
        let t = b.drop_last();
        assert(a =~= s.push(x));
        assert(b =~= t.push(x));
        vstd::seq_lib::to_multiset_build(s, x);
        vstd::seq_lib::to_multiset_build(t, x);
        assert(s.to_multiset() =~= a.to_multiset().remove(x));
        assert(t.to_multiset() =~= b.to_multiset().remove(x));
        assert(path_ordered(s));
        assert(path_ordered(t));
        lemma_path_order_unique(s, t);
    }
}

proof fn lemma_same_elements(a: Seq<PendingConffileView>, b: Seq<PendingConffileView>)
    requires
        a.to_multiset() == b.to_multiset(),
        one_per_path(b),
    ensures
        one_per_path(a),
{
    broadcast use vstd::seq_lib::group_to_multiset_ensures;

    assert forall|i: int| 0 <= i < a.len() implies b.contains(#[trigger] a[i]) by {
        assert(a.contains(a[i]));
        assert(b.to_multiset().count(a[i]) > 0);
    }
}

/// Where there is one file for each path, an arrangement by path is the
/// arrangement by path.
proof fn lemma_by_path(r: Seq<PendingConffileView>, files: Seq<PendingConffileView>)
    requires
        path_ordered(r),
        r.to_multiset() == files.to_multiset(),
        one_per_path(files),
    ensures
        r == by_path(files),
{
    let s = by_path(files);
    assert(path_ordered(s) && s.to_multiset() == files.to_multiset());
    lemma_same_elements(r, files);
    lemma_path_order_unique(r, s);
}

/// A single file is its own arrangement.
pub proof fn lemma_by_path_one(file: PendingConffileView)
    ensures
        by_path(seq![file]) == seq![file],
{
    lemma_text_le_refl(file.pending_path);
    assert(path_ordered(seq![file]));
    lemma_by_path(seq![file], seq![file]);
}

/// Two files are arranged by their paths.
pub proof fn lemma_by_path_two(f: PendingConffileView, g: PendingConffileView)
    requires
        f.pending_path != g.pending_path,
        text_le(f.pending_path, g.pending_path),
    ensures
        by_path(seq![f, g]) == seq![f, g],
        by_path(seq![g, f]) == seq![f, g],
{
    lemma_text_le_refl(f.pending_path);
    lemma_text_le_refl(g.pending_path);
    let r = seq![f, g];
    let s = seq![g, f];
    assert(path_ordered(r));
    assert(one_per_path(r) && one_per_path(s));
    assert(r =~= seq![f] + seq![g] && s =~= seq![g] + seq![f]);
    vstd::seq_lib::lemma_multiset_commutative(seq![f], seq![g]);
    vstd::seq_lib::lemma_multiset_commutative(seq![g], seq![f]);
    assert(r.to_multiset() =~= s.to_multiset());
    lemma_by_path(r, r);
    lemma_by_path(r, s);
}

/// The review list does not depend on the order in which `find` came across
/// the files.
pub proof fn pending_list_is_stable(a: Seq<char>, b: Seq<char>)
    requires
        text::lines(a).to_multiset() == text::lines(b).to_multiset(),
    ensures
        pending_conffiles(a) == pending_conffiles(b),
{
    lemmas::lemma_filter_map_multiset(text::lines(a), text::lines(b), pending_entry());
}

// ── Owners of config files ───────────────────────────────────────────────────

/// There is whitespace in the text.
pub open spec fn any_white(s: Seq<char>) -> bool {
    exists|i: int| 0 <= i < s.len() && text::is_white(#[trigger] s[i])
}

/// What a line `pkg-a,pkg-b: /path` of `dpkg -S` says: the first of the
/// packages, and the path that it owns. Diversions render as
/// `diversion by x from: /path`; those have no package name to offer.
pub open spec fn attribution(line: Seq<char>) -> Option<(Seq<char>, Seq<char>)> {
    match text::rfind(line, ": "@) {
        Some(at) => {
            let pkgs = line.take(at);
            let owner = text::trimmed(pkgs.take(text::until(pkgs, ',') as int));
            if any_white(pkgs) || owner.len() == 0 {
                None
            } else {
                Some((owner, text::trimmed(line.skip(at + ": "@.len()))))
            }
        },
        None => None,
    }
}

/// The owner that the last of these lines to speak of `path` gives it.
pub open spec fn owner_among(ls: Seq<Seq<char>>, path: Seq<char>) -> Option<Seq<char>>
    decreases ls.len(),
{
    if ls.len() == 0 {
        None
    } else {
        match attribution(ls.last()) {
            Some((owner, p)) => if p == path {
                Some(owner)
            } else {
                owner_among(ls.drop_last(), path)
            },
            None => owner_among(ls.drop_last(), path),
        }
    }
}

/// A config file with the owner that `dpkg -S` gives it, if it gives one.
pub open spec fn with_owner(file: PendingConffileView, ls: Seq<Seq<char>>) -> PendingConffileView {
    PendingConffileView {
        package: match owner_among(ls, file.live_path) {
            Some(owner) => Some(owner),
            None => file.package,
        },
        ..file
    }
}

fn has_white(s: &[char]) -> (r: bool)
    ensures
        r == any_white(s@),
{
    let n: usize = s.len();
    let mut i: usize = 0;
    while i < n
        invariant
            n == s@.len(),
            i <= n,
            forall|j: int| 0 <= j < i ==> !text::is_white(#[trigger] s@[j]),
        decreases n - i,
    {
        if text::white(s[i]) {
            return true;
        }
        i += 1;
    }
    false
}

fn parse_attribution(line: &[char]) -> (r: Option<(String, String)>)
    ensures
        r.deep_view() == attribution(line@),
{
    let n: usize = line.len();
    let sep = text::chars_of(": ");
    match text::last_position(line, sep.as_slice()) {
        Some(at) => {
            let pkgs: &[char] = &line[0..at];
            assert(pkgs@ =~= line@.take(at as int));
            let path: &[char] = &line[at + sep.len()..n];
            assert(path@ =~= line@.skip(at + sep@.len()));
            let end: usize = text::find_char(pkgs, ',');
            assert(pkgs@.subrange(0, end as int) =~= pkgs@.take(end as int));
            let owner: &[char] = text::trim(&pkgs[0..end]);
            if has_white(pkgs) || owner.len() == 0 {
                None
            } else {
                Some((text::to_text(owner), text::to_text(text::trim(path))))
            }
        },
        None => None,
    }
}

/// Attach owning packages using the output of `dpkg -S <live paths…>`, whose
/// lines look like `openssh-server: /etc/ssh/sshd_config`. Paths dpkg cannot
/// attribute (it writes those to stderr) keep their `package`.
pub fn attach_conffile_owners(files: &mut [PendingConffile], dpkg_search_output: &str)
    ensures
        final(files)@.len() == old(files)@.len(),
        forall|k: int|
            0 <= k < old(files)@.len() ==> (#[trigger] final(files)@[k]).deep_view() == with_owner(
                old(files)@[k].deep_view(),
                text::lines(dpkg_search_output@),
            ),
{
    let cs = text::chars_of(dpkg_search_output);
    let ls = text::split_lines(cs.as_slice());
    let ghost all = text::lines(dpkg_search_output@);
    let ghost before = files@;
    let n: usize = ls.len();
    let m: usize = files.len();
    let mut i: usize = 0;
    while i < n
        invariant
            n == ls@.len(),
            m == before.len(),
            m == files@.len(),
            all == text::pieces(ls@),
            i <= n,
            forall|k: int|
                0 <= k < m ==> (#[trigger] files@[k]).deep_view() == with_owner(
                    before[k].deep_view(),
                    all.take(i as int),
                ),
        decreases n - i,
    {
        let line: &[char] = ls[i];
        proof {
            assert(all.take(i + 1).drop_last() =~= all.take(i as int));
            assert(all.take(i + 1).last() == line@);
        }
        if let Some((owner, path)) = parse_attribution(line) {
            let mut k: usize = 0;
            while k < m
                invariant
                    m == before.len(),
                    m == files@.len(),
                    k <= m,
                    i < n,
                    n == all.len(),
                    attribution(all[i as int]) == Some((owner@, path@)),
                    all.take(i + 1).drop_last() == all.take(i as int),
                    all.take(i + 1).last() == all[i as int],
                    forall|j: int|
                        0 <= j < k ==> (#[trigger] files@[j]).deep_view() == with_owner(
                            before[j].deep_view(),
                            all.take(i + 1),
                        ),
                    forall|j: int|
                        k <= j < m ==> (#[trigger] files@[j]).deep_view() == with_owner(
                            before[j].deep_view(),
                            all.take(i as int),
                        ),
                decreases m - k,
            {
                if text::same_text(files[k].live_path.as_str(), path.as_str()) {
                    files[k].package = Some(owner.clone());
                }
                k += 1;
            }
        }
        i += 1;
    }
    assert(all.take(n as int) =~= all);
}

// ── Laws ─────────────────────────────────────────────────────────────────────

/// Every pending file is listed with its own path, and with the live path that
/// is left when the suffix is taken off; files without a recognised suffix are
/// not listed.
pub proof fn live_paths_lack_the_suffix(output: Seq<char>, f: PendingConffileView)
    requires
        pending_found(output).contains(f),
    ensures
        pending_suffix(f.pending_path) is Some,
        f.pending_path == f.live_path + pending_suffix(f.pending_path)->0,
        f.package is None,
{
    text::lines(output).lemma_filter_map_contains(pending_entry(), f);
    let suffix = pending_suffix(f.pending_path)->0;
    let n = f.pending_path.len() - suffix.len();
    assert(f.pending_path.subrange(n as int, f.pending_path.len() as int) == suffix);
    assert(f.pending_path =~= f.pending_path.take(n as int) + suffix);
}

/// Looking up owners changes nothing but the owner, and leaves that of a file
/// which no line is about.
pub proof fn owners_are_all_that_changes(f: PendingConffileView, ls: Seq<Seq<char>>)
    ensures
        with_owner(f, ls).pending_path == f.pending_path,
        with_owner(f, ls).live_path == f.live_path,
        owner_among(ls, f.live_path) is None ==> with_owner(f, ls) == f,
{
}

/// A package counts as kept back only where it is not held by hand.
pub proof fn kept_back_is_not_held(
    output: Seq<char>,
    held: Seq<HeldPackageView>,
    p: HeldPackageView,
)
    requires
        kept_back(output, held).contains(p),
    ensures
        p.reason == HoldReason::KeptBack,
        p.detail is None,
        !held_names(held).contains(p.name),
        section_names(text::lines(output), "kept back:"@).contains(p.name),
{
    section_names(text::lines(output), "kept back:"@).lemma_filter_map_contains(
        kept_back_entry(held_names(held)),
        p,
    );
}

/// A section is open behind a line if and only if some line holds its header
/// and every line since is indented.
pub proof fn a_section_ends_at_a_flush_line(ls: Seq<Seq<char>>, header: Seq<char>)
    ensures
        section_open(ls, header) <==> exists|j: int|
            0 <= j < ls.len() && #[trigger] text::contains(ls[j], header) && forall|k: int|
                j < k < ls.len() ==> #[trigger] indented(ls[k]),
    decreases ls.len(),
{
    if ls.len() > 0 {
        let before = ls.drop_last();
        let last = ls.len() - 1;
        a_section_ends_at_a_flush_line(before, header);
        assert(forall|k: int| 0 <= k < last ==> before[k] == ls[k]);
        if section_open(ls, header) {
            if text::contains(ls[last], header) {
                assert(forall|k: int| last < k < ls.len() ==> indented(ls[k]));
            } else {
                let j = choose|j: int|
                    0 <= j < before.len() && #[trigger] text::contains(before[j], header)
                        && forall|k: int| j < k < before.len() ==> #[trigger] indented(before[k]);
                assert(text::contains(ls[j], header));
                assert forall|k: int| j < k < ls.len() implies #[trigger] indented(ls[k]) by {
                    if k < last {
                        assert(indented(before[k]));
                    }
                }
            }
        }
        if exists|j: int|
            0 <= j < ls.len() && #[trigger] text::contains(ls[j], header) && forall|k: int|
                j < k < ls.len() ==> #[trigger] indented(ls[k]) {
            let j = choose|j: int|
                0 <= j < ls.len() && #[trigger] text::contains(ls[j], header) && forall|k: int|
                    j < k < ls.len() ==> #[trigger] indented(ls[k]);
            if j < last {
                assert(text::contains(before[j], header));
                assert forall|k: int| j < k < before.len() implies #[trigger] indented(
                    before[k],
                ) by {
                    assert(indented(ls[k]));
                }
                assert(indented(ls[last]));
            }
        }
    }
}

/// Paths are ordered by their first difference, and a path comes in front of
/// those that it begins.
pub proof fn the_first_difference_decides(
    p: Seq<char>,
    a: char,
    x: Seq<char>,
    b: char,
    y: Seq<char>,
)
    requires
        a < b,
    ensures
        text_le(p + seq![a] + x, p + seq![b] + y),
        !text_le(p + seq![b] + y, p + seq![a] + x),
        text_le(p, p + seq![a] + x),
        !text_le(p + seq![a] + x, p),
    decreases p.len(),
{
    let s = p + seq![a] + x;
    let t = p + seq![b] + y;
    if p.len() > 0 {
        the_first_difference_decides(p.skip(1), a, x, b, y);
        assert(s.skip(1) =~= p.skip(1) + seq![a] + x);
        assert(t.skip(1) =~= p.skip(1) + seq![b] + y);
    } else {
        assert(s[0] == a && t[0] == b);
    }
}

} // verus!
