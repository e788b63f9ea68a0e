//! What the parsers make of the tools' output, said of the output itself: each
//! line stands for itself, and a line of the documented form is read as what
//! it says.

use vstd::prelude::*;

use crate::apt::{
    HeldPackageView,
    HoldReason,
    PackageView,
    PendingConffileView,
    RcPackageView,
};
use crate::lemmas;
use crate::parse;
use crate::parse::DryRunSection;
use crate::text;

verus! {

// ── Line by line ─────────────────────────────────────────────────────────────

/// Lists are read line by line: what is listed up to the end of a line, and
/// what is listed from there on, makes up what is listed in the whole.
pub proof fn lists_are_read_line_by_line(x: Seq<char>, y: Seq<char>)
    ensures
        ({
            let head = x + seq!['\n'];
            &&& parse::upgradable_packages(head + y) == parse::upgradable_packages(head)
                + parse::upgradable_packages(y)
            &&& parse::rc_packages(head + y) == parse::rc_packages(head) + parse::rc_packages(y)
            &&& parse::manually_held(head + y) == parse::manually_held(head)
                + parse::manually_held(y)
            &&& parse::pending_found(head + y) == parse::pending_found(head)
                + parse::pending_found(y)
        }),
{
    let head = x + seq!['\n'];
    text::lemma_lines_split(x, y);
    lemmas::lemma_filter_map_add(text::lines(head), text::lines(y), parse::upgradable_entry());
    lemmas::lemma_filter_map_add(text::lines(head), text::lines(y), parse::rc_entry());
    lemmas::lemma_filter_map_add(text::lines(head), text::lines(y), parse::held_entry());
    lemmas::lemma_filter_map_add(text::lines(head), text::lines(y), parse::pending_entry());
}

proof fn lemma_one_line<B>(line: Seq<char>, f: spec_fn(Seq<char>) -> Option<B>)
    requires
        line.len() > 0,
        !line.contains('\n'),
    ensures
        text::lines(line).filter_map(f) == match f(line) {
            Some(x) => seq![x],
            None => seq![],
        },
{
    text::lemma_lines_one(line);
    assert(seq![line].drop_last() =~= Seq::<Seq<char>>::empty());
    assert(Seq::<Seq<char>>::empty().filter_map(f) =~= Seq::<B>::empty());
    assert(seq![line].last() == line);
    assert(seq![line].filter_map(f) =~= match f(line) {
        Some(x) => seq![x],
        None => seq![],
    });
}

// ── Upgradable packages ──────────────────────────────────────────────────────

/// A line `name/suite version arch [upgradable from: old]` is read as exactly
/// that package, whatever its architecture. It comes from a security suite if
/// and only if the suite's name says so, in either case.
pub proof fn an_upgradable_line_is_read_as_it_says(
    name: Seq<char>,
    suite: Seq<char>,
    version: Seq<char>,
    arch: Seq<char>,
    old: Seq<char>,
)
    requires
        text::tight(name) && !name.contains('/') && !name.contains('\n'),
        !suite.contains(' ') && !suite.contains('\n'),
        text::tight(version) && !version.contains(' ') && !version.contains('\n'),
        !arch.contains(' ') && !arch.contains('\n'),
        (old.len() == 0 || text::tight(old)) && !old.contains(']') && !old.contains('\n'),
        !text::contains(
            name + "/"@ + suite + " "@ + version + " "@ + arch + " [upgradable from: "@ + old
                + "]"@,
            "WARNING"@,
        ),
        !text::begins(
            name + "/"@ + suite + " "@ + version + " "@ + arch + " [upgradable from: "@ + old
                + "]"@,
            "Listing"@,
        ),
    ensures
        parse::upgradable_packages(
            name + "/"@ + suite + " "@ + version + " "@ + arch + " [upgradable from: "@ + old
                + "]"@,
        ) == seq![
            PackageView {
                name,
                new_version: version,
                current_version: Some(old),
                is_security: text::contains(text::lowercase(suite), "security"@),
            },
        ],
{
    reveal_strlit("/");
    reveal_strlit(" ");
    reveal_strlit("]");
    reveal_strlit(" [upgradable from: ");
    let rest = arch + " [upgradable from: "@ + old + "]"@;
    let line = name + "/"@ + suite + " "@ + version + " "@ + arch + " [upgradable from: "@ + old
        + "]"@;
    assert(line =~= name + "/"@ + suite + " "@ + version + (" "@ + rest));
    lemma_fields(name, suite, version, " "@ + rest);
    lemma_previous(arch, old);
    assert((" "@ + rest).skip(1) =~= rest);
    lemma_no_newline(arch, " [upgradable from: "@);
    lemma_no_newline(arch + " [upgradable from: "@, old);
    lemma_no_newline(arch + " [upgradable from: "@ + old, "]"@);
    lemma_no_newline(" "@, rest);
    lemma_whole_line(name, suite, version, " "@ + rest);
    lemma_not_blank(line, name);
    lemma_one_line(line, parse::upgradable_entry());
}

/// Without an old version on the line, the current version is not known.
pub proof fn an_upgradable_line_may_lack_the_old_version(
    name: Seq<char>,
    suite: Seq<char>,
    version: Seq<char>,
    arch: Seq<char>,
)
    requires
        text::tight(name) && !name.contains('/') && !name.contains('\n'),
        !suite.contains(' ') && !suite.contains('\n'),
        text::tight(version) && !version.contains(' ') && !version.contains('\n'),
        !text::contains(arch, "upgradable from: "@) && !arch.contains('\n'),
        !text::contains(name + "/"@ + suite + " "@ + version + " "@ + arch, "WARNING"@),
        !text::begins(name + "/"@ + suite + " "@ + version + " "@ + arch, "Listing"@),
    ensures
        parse::upgradable_packages(name + "/"@ + suite + " "@ + version + " "@ + arch) == seq![
            PackageView {
                name,
                new_version: version,
                current_version: None,
                is_security: text::contains(text::lowercase(suite), "security"@),
            },
        ],
{
    reveal_strlit("/");
    reveal_strlit(" ");
    let line = name + "/"@ + suite + " "@ + version + " "@ + arch;
    assert(line =~= name + "/"@ + suite + " "@ + version + (" "@ + arch));
    lemma_fields(name, suite, version, " "@ + arch);
    assert((" "@ + arch).skip(1) =~= arch);
    assert(parse::previous_version(arch) is None) by {
        text::lemma_find_from(arch, "upgradable from: "@, 0);
        if text::find(arch, "upgradable from: "@) is Some {
            assert(text::occurs_at(
                arch,
                "upgradable from: "@,
                text::find(arch, "upgradable from: "@)->0,
            ));
        }
    }
    lemma_no_newline(" "@, arch);
    lemma_whole_line(name, suite, version, " "@ + arch);
    lemma_not_blank(line, name);
    lemma_one_line(line, parse::upgradable_entry());
}

/// Warnings, the heading, blank lines and lines without a `/` list nothing.
pub proof fn other_lines_list_no_package(line: Seq<char>)
    requires
        !line.contains('\n'),
        line.len() > 0,
        text::contains(line, "WARNING"@) || text::begins(line, "Listing"@) || text::all_white(line)
            || !line.contains('/'),
    ensures
        parse::upgradable_packages(line) == Seq::<PackageView>::empty(),
{
    if text::all_white(line) {
        text::lemma_trimmed_blank(line);
    }
    if !line.contains('/') {
        text::lemma_until_none(line, '/');
    }
    lemma_one_line(line, parse::upgradable_entry());
}

proof fn lemma_no_newline(a: Seq<char>, b: Seq<char>)
    requires
        forall|i: int| 0 <= i < a.len() ==> #[trigger] a[i] != '\n',
        forall|i: int| 0 <= i < b.len() ==> #[trigger] b[i] != '\n',
    ensures
        !(a + b).contains('\n'),
        forall|i: int| 0 <= i < (a + b).len() ==> #[trigger] (a + b)[i] != '\n',
{
    let s = a + b;
    assert forall|i: int| 0 <= i < s.len() implies #[trigger] s[i] != '\n' by {
        if i < a.len() {
            assert(s[i] == a[i]);
        } else {
            assert(s[i] == b[i - a.len()]);
        }
    }
}

proof fn lemma_whole_line(name: Seq<char>, suite: Seq<char>, version: Seq<char>, rest: Seq<char>)
    requires
        !name.contains('\n'),
        !suite.contains('\n'),
        !version.contains('\n'),
        !rest.contains('\n'),
    ensures
        !(name + "/"@ + suite + " "@ + version + rest).contains('\n'),
{
    reveal_strlit("/");
    reveal_strlit(" ");
    lemma_no_newline(name, "/"@);
    lemma_no_newline(name + "/"@, suite);
    lemma_no_newline(name + "/"@ + suite, " "@);
    lemma_no_newline(name + "/"@ + suite + " "@, version);
    lemma_no_newline(name + "/"@ + suite + " "@ + version, rest);
}

proof fn lemma_not_blank(line: Seq<char>, front: Seq<char>)
    requires
        text::tight(front),
        line.len() >= front.len(),
        line.take(front.len() as int) == front,
    ensures
        text::trimmed(line).len() > 0,
{
    assert(line[0] == front[0]);
    assert(text::trimmed_start(line) == line);
    lemma_trimmed_end_keeps(line);
}

proof fn lemma_trimmed_end_keeps(s: Seq<char>)
    requires
        s.len() > 0,
        !text::is_white(s[0]),
    ensures
        text::trimmed_end(s).len() > 0,
    decreases s.len(),
{
    if text::is_white(s.last()) {
        assert(s.len() > 1);
        lemma_trimmed_end_keeps(s.drop_last());
    }
}

/// The fields of a line, up to what follows the version.
proof fn lemma_fields(
    name: Seq<char>,
    suite: Seq<char>,
    version: Seq<char>,
    rest: Seq<char>,
)
    requires
        text::tight(name) && !name.contains('/'),
        !suite.contains(' '),
        text::tight(version) && !version.contains(' '),
        rest.len() > 0 && rest[0] == ' ',
    ensures
        ({
            let line = name + "/"@ + suite + " "@ + version + rest;
            &&& line.take(name.len() as int) == name
            &&& parse::upgradable_line(line) == Some(
                PackageView {
                    name,
                    new_version: version,
                    current_version: parse::previous_version(rest.skip(1)),
                    is_security: text::contains(text::lowercase(suite), "security"@),
                },
            )
        }),
{
    reveal_strlit("/");
    reveal_strlit(" ");
    let line = name + "/"@ + suite + " "@ + version + rest;
    let after = suite + " "@ + version + rest;
    let v = version + rest;
    let tail = rest.skip(1);
    assert(line =~= name + seq!['/'] + after);
    text::lemma_until_at(name, '/', after);
    assert(line.take(name.len() as int) =~= name);
    assert(line.skip(name.len() as int + 1) =~= after);
    assert(after =~= suite + seq![' '] + v);
    text::lemma_until_at(suite, ' ', v);
    assert(after.take(suite.len() as int) =~= suite);
    assert(after.skip(suite.len() as int + 1) =~= v);
    assert(v =~= version + seq![' '] + tail);
    text::lemma_until_at(version, ' ', tail);
    assert(v.take(version.len() as int) =~= version);
    assert(v.skip(version.len() as int + 1) =~= tail);
    text::lemma_trimmed_tight(name);
    text::lemma_trimmed_tight(version);
}

/// The tag is found behind an architecture, and nowhere before.
proof fn lemma_previous(arch: Seq<char>, old: Seq<char>)
    requires
        !arch.contains(' '),
        (old.len() == 0 || text::tight(old)) && !old.contains(']'),
    ensures
        parse::previous_version(arch + " [upgradable from: "@ + old + "]"@) == Some(old),
{
    let tag = "upgradable from: "@;
    let rest = arch + " [upgradable from: "@ + old + "]"@;
    let n = arch.len() as int;
    reveal_strlit("upgradable from: ");
    reveal_strlit(" [upgradable from: ");
    reveal_strlit("]");
    assert(rest.subrange(n + 2, n + 2 + tag.len()) =~= tag);
    assert(text::occurs_at(rest, tag, n + 2));
    text::lemma_find_from(rest, tag, 0);
    let at = text::find(rest, tag)->0;
    if at < n + 2 {
        let t = rest.subrange(at, at + tag.len());
        assert(t[10] == rest[at + 10] && t[11] == rest[at + 11]);
        assert(tag[10] == ' ' && tag[11] == 'f');
        if at + 10 < n {
            assert(arch[at + 10] == ' ');
        } else if at + 10 == n {
            assert(rest[n + 1] == '[');
        } else {
            let k = at + 10 - n;
            assert(rest[n + k] == " [upgradable from: "@[k]);
        }
    }
    assert(at == n + 2);
    let after = rest.skip(at + tag.len());
    assert(after =~= old + seq![']'] + seq![]);
    text::lemma_until_at(old, ']', seq![]);
    assert(after.take(old.len() as int) =~= old);
    if old.len() > 0 {
        text::lemma_trimmed_tight(old);
    } else {
        text::lemma_trimmed_blank(old);
        assert(text::trimmed(old) =~= old);
    }
}

// ── Removed and held packages ────────────────────────────────────────────────

/// A line of columns lists its second column if and only if the first reads
/// `rc`, whatever blanks stand between and whatever follows.
pub proof fn an_rc_line_lists_its_package(
    indent: Seq<char>,
    status: Seq<char>,
    gap: Seq<char>,
    name: Seq<char>,
    rest: Seq<char>,
)
    requires
        text::all_white(indent) && text::all_white(gap) && gap.len() > 0,
        status.len() > 0 && text::no_white(status),
        name.len() > 0 && text::no_white(name),
        rest.len() > 0 ==> text::is_white(rest[0]),
        !(indent + status + gap + name + rest).contains('\n'),
    ensures
        parse::rc_packages(indent + status + gap + name + rest) == if status == "rc"@ {
            seq![RcPackageView { name }]
        } else {
            seq![]
        },
        !(indent + status).contains('\n') ==> parse::rc_packages(indent + status) == Seq::<
            RcPackageView,
        >::empty(),
{
    if !(indent + status).contains('\n') {
        text::lemma_words_skip(indent, status);
        text::lemma_words_first(status, seq![]);
        assert(status + seq![] =~= status);
        assert(text::words(Seq::<char>::empty()) =~= seq![]);
        lemma_one_line(indent + status, parse::rc_entry());
    }
    let line = indent + status + gap + name + rest;
    let b = gap + name + rest;
    let c = name + rest;
    assert(line =~= indent + (status + b));
    text::lemma_words_skip(indent, status + b);
    assert(b[0] == gap[0]);
    text::lemma_words_first(status, b);
    assert(b =~= gap + c);
    text::lemma_words_skip(gap, c);
    text::lemma_words_first(name, rest);
    let ws = text::words(line);
    assert(ws =~= seq![status] + (seq![name] + text::words(rest)));
    assert(ws[0] == status && ws[1] == name);
    lemma_one_line(line, parse::rc_entry());
}

/// A line of `apt-mark showhold` is read as a package held by hand, without the
/// blanks round its name; a blank line is not.
pub proof fn a_held_line_lists_its_package(a: Seq<char>, name: Seq<char>, b: Seq<char>)
    requires
        text::all_white(a) && text::all_white(b),
        text::tight(name),
        !(a + name + b).contains('\n'),
    ensures
        parse::manually_held(a + name + b) == seq![
            HeldPackageView { name, reason: HoldReason::ManualHold, detail: None },
        ],
        a.len() > 0 && !a.contains('\n') ==> parse::manually_held(a) == Seq::<
            HeldPackageView,
        >::empty(),
{
    text::lemma_trimmed_around(a, name, b);
    lemma_one_line(a + name + b, parse::held_entry());
    if a.len() > 0 && !a.contains('\n') {
        text::lemma_trimmed_blank(a);
        lemma_one_line(a, parse::held_entry());
    }
}

// ── Sections ─────────────────────────────────────────────────────────────────

/// Line `m` stands in the section that a line with `header` opens: every line
/// since is indented, and it is not a header itself.
pub open spec fn stands_under(ls: Seq<Seq<char>>, header: Seq<char>, m: int) -> bool {
    &&& 0 <= m < ls.len()
    &&& !text::contains(ls[m], header)
    &&& text::begins(ls[m], "  "@) || text::begins(ls[m], "\t"@)
    &&& exists|j: int|
        0 <= j < m && #[trigger] text::contains(ls[j], header) && forall|k: int|
            j < k < m ==> text::begins(#[trigger] ls[k], "  "@) || text::begins(ls[k], "\t"@)
}

/// The names of a section are the words of the lines that stand in it, and no
/// others.
pub proof fn a_section_names_its_words(ls: Seq<Seq<char>>, header: Seq<char>, w: Seq<char>)
    ensures
        parse::section_names(ls, header).contains(w) <==> exists|m: int|
            #[trigger] stands_under(ls, header, m) && text::words(ls[m]).contains(w),
    decreases ls.len(),
{
    let names = parse::section_names(ls, header);
    if ls.len() > 0 {
        let before = ls.drop_last();
        let last = ls.len() - 1;
        let own = text::words(ls[last]);
        a_section_names_its_words(before, header, w);
        parse::a_section_ends_at_a_flush_line(before, header);
        assert(stands_under(ls, header, last) == parse::lists_packages(ls, header)) by {
            if stands_under(ls, header, last) {
                let j = choose|j: int|
                    0 <= j < last && #[trigger] text::contains(ls[j], header) && forall|k: int|
                        j < k < last ==> text::begins(#[trigger] ls[k], "  "@) || text::begins(
                            ls[k],
                            "\t"@,
                        );
                assert(text::contains(before[j], header));
                assert forall|k: int| j < k < before.len() implies #[trigger] parse::indented(
                    before[k],
                ) by {
                    assert(before[k] == ls[k]);
                }
            }
            if parse::lists_packages(ls, header) {
                let j = choose|j: int|
                    0 <= j < before.len() && #[trigger] text::contains(before[j], header)
                        && forall|k: int|
                        j < k < before.len() ==> #[trigger] parse::indented(before[k]);
                assert(text::contains(ls[j], header));
                assert forall|k: int| j < k < last implies text::begins(#[trigger] ls[k], "  "@)
                    || text::begins(ls[k], "\t"@) by {
                    assert(parse::indented(before[k]));
                }
            }
        }
        assert forall|m: int| 0 <= m < last implies stands_under(ls, header, m) == stands_under(
            before,
            header,
            m,
        ) by {
            lemma_stands_before(ls, before, header, m);
        }
        let front = parse::section_names(before, header);
        if names.contains(w) {
            let k = choose|k: int| 0 <= k < names.len() && names[k] == w;
            if k < front.len() {
                assert(front.contains(front[k]));
                let m = choose|m: int|
                    #[trigger] stands_under(before, header, m) && text::words(before[m]).contains(w);
                assert(stands_under(ls, header, m));
            } else {
                assert(own[k - front.len()] == w);
                assert(stands_under(ls, header, last));
            }
        }
        if exists|m: int| #[trigger] stands_under(ls, header, m) && text::words(ls[m]).contains(w) {
            let m = choose|m: int|
                #[trigger] stands_under(ls, header, m) && text::words(ls[m]).contains(w);
            if m < last {
                assert(stands_under(before, header, m));
                let k = choose|k: int| 0 <= k < front.len() && front[k] == w;
                assert(names[k] == w);
            } else {
                let k = choose|k: int| 0 <= k < own.len() && own[k] == w;
                assert(names[front.len() + k] == w);
            }
        }
    }
}

proof fn lemma_stands_before(
    ls: Seq<Seq<char>>,
    before: Seq<Seq<char>>,
    header: Seq<char>,
    m: int,
)
    requires
        ls.len() > 0,
        before == ls.drop_last(),
        0 <= m < before.len(),
    ensures
        stands_under(ls, header, m) == stands_under(before, header, m),
{
    assert(forall|k: int| 0 <= k < before.len() ==> before[k] == ls[k]);
    if stands_under(ls, header, m) {
        let j = choose|j: int|
            0 <= j < m && #[trigger] text::contains(ls[j], header) && forall|k: int|
                j < k < m ==> text::begins(#[trigger] ls[k], "  "@) || text::begins(ls[k], "\t"@);
        assert(text::contains(before[j], header));
        assert forall|k: int| j < k < m implies text::begins(#[trigger] before[k], "  "@)
            || text::begins(before[k], "\t"@) by {
            assert(before[k] == ls[k]);
        }
    }
    if stands_under(before, header, m) {
        let j = choose|j: int|
            0 <= j < m && #[trigger] text::contains(before[j], header) && forall|k: int|
                j < k < m ==> text::begins(#[trigger] before[k], "  "@) || text::begins(
                    before[k],
                    "\t"@,
                );
        assert(text::contains(ls[j], header));
        assert forall|k: int| j < k < m implies text::begins(#[trigger] ls[k], "  "@)
            || text::begins(ls[k], "\t"@) by {
            assert(before[k] == ls[k]);
        }
    }
}

/// The words of several lines, one after the other.
pub open spec fn all_words(ls: Seq<Seq<char>>) -> Seq<Seq<char>>
    decreases ls.len(),
{
    if ls.len() == 0 {
        seq![]
    } else {
        all_words(ls.drop_last()) + text::words(ls.last())
    }
}

/// The lines are those of a package list: indented, and none holds `header`.
pub open spec fn list_body(body: Seq<Seq<char>>, header: Seq<char>) -> bool {
    forall|i: int|
        0 <= i < body.len() ==> !text::contains(#[trigger] body[i], header) && (text::begins(
            body[i],
            "  "@,
        ) || text::begins(body[i], "\t"@))
}

/// A header and the indented lines behind it add their words to the names, in
/// order and each as often as it stands there; a line that is not indented, and
/// is no header, adds none.
pub proof fn a_section_lists_its_words_in_order(
    before: Seq<Seq<char>>,
    heading: Seq<char>,
    body: Seq<Seq<char>>,
    header: Seq<char>,
)
    requires
        text::contains(heading, header),
        list_body(body, header),
    ensures
        parse::section_names(before.push(heading) + body, header) == parse::section_names(
            before,
            header,
        ) + all_words(body),
        parse::section_open(before.push(heading) + body, header),
        forall|flush: Seq<char>|
            !text::begins(flush, "  "@) && !text::begins(flush, "\t"@)
                ==> #[trigger] parse::section_names(before.push(flush), header)
                == parse::section_names(before, header),
    decreases body.len(),
{
    let opened = before.push(heading);
    assert(opened.drop_last() =~= before);
    assert forall|flush: Seq<char>|
        !text::begins(flush, "  "@) && !text::begins(flush, "\t"@)
        implies #[trigger] parse::section_names(before.push(flush), header)
        == parse::section_names(before, header) by {
        assert(before.push(flush).drop_last() =~= before);
        assert(before.push(flush).last() == flush);
        assert(parse::section_names(before, header) + seq![] =~= parse::section_names(
            before,
            header,
        ));
    }
    if body.len() == 0 {
        assert(opened + body =~= opened);
        assert(opened.last() == heading);
        assert(parse::section_names(before, header) + seq![] =~= parse::section_names(
            before,
            header,
        ));
    } else {
        let shorter = body.drop_last();
        assert(list_body(shorter, header)) by {
            assert(forall|i: int| 0 <= i < shorter.len() ==> shorter[i] == body[i]);
        }
        a_section_lists_its_words_in_order(before, heading, shorter, header);
        let ls = opened + body;
        assert(ls.drop_last() =~= opened + shorter);
        assert(ls.last() == body[body.len() - 1]);
        assert(parse::section_names(ls, header) =~= parse::section_names(before, header)
            + all_words(body));
    }
}

/// What is kept back is exactly what stands under the heading for it, by
/// itself, unless it is held by hand.
pub proof fn kept_back_is_what_the_upgrade_says(
    output: Seq<char>,
    held: Seq<HeldPackageView>,
    name: Seq<char>,
)
    ensures
        parse::kept_back(output, held).contains(
            HeldPackageView { name, reason: HoldReason::KeptBack, detail: None },
        ) <==> (exists|m: int|
            #[trigger] stands_under(text::lines(output), "kept back:"@, m) && text::words(
                text::lines(output)[m],
            ).contains(name)) && (forall|i: int|
            0 <= i < held.len() ==> (#[trigger] held[i]).name != name),
        forall|p: HeldPackageView| #[trigger]
            parse::kept_back(output, held).contains(p) ==> p.reason == HoldReason::KeptBack
                && p.detail is None,
{
    let ls = text::lines(output);
    let names = parse::section_names(ls, "kept back:"@);
    let f = parse::kept_back_entry(parse::held_names(held));
    let p = HeldPackageView { name, reason: HoldReason::KeptBack, detail: None };
    a_section_names_its_words(ls, "kept back:"@, name);
    assert(parse::held_names(held).contains(name) <==> exists|i: int|
        0 <= i < held.len() && (#[trigger] held[i]).name == name) by {
        if parse::held_names(held).contains(name) {
            let i = choose|i: int|
                0 <= i < parse::held_names(held).len() && parse::held_names(held)[i] == name;
            assert(held[i].name == name);
        }
        if exists|i: int| 0 <= i < held.len() && (#[trigger] held[i]).name == name {
            let i = choose|i: int| 0 <= i < held.len() && (#[trigger] held[i]).name == name;
            assert(parse::held_names(held)[i] == name);
        }
    }
    if parse::kept_back(output, held).contains(p) {
        parse::kept_back_is_not_held(output, held, p);
    }
    if names.contains(name) && !parse::held_names(held).contains(name) {
        let k = choose|k: int| 0 <= k < names.len() && names[k] == name;
        assert(f(names[k]) == Some(p));
        lemmas::lemma_filter_map_has(names, f, k);
    }
    assert forall|q: HeldPackageView| #[trigger] parse::kept_back(output, held).contains(q)
        implies q.reason == HoldReason::KeptBack && q.detail is None by {
        parse::kept_back_is_not_held(output, held, q);
    }
}

/// The kept back packages stand in the order of the section, and each as often as
/// it stands there; only those held by hand are left out.
pub proof fn kept_back_keeps_the_order(output: Seq<char>, held: Seq<HeldPackageView>)
    ensures
        parse::kept_back(output, held) == parse::section_names(
            text::lines(output),
            "kept back:"@,
        ).filter(
            |name: Seq<char>| !held.map_values(|p: HeldPackageView| p.name).contains(name),
        ).map_values(
            |name: Seq<char>|
                HeldPackageView { name, reason: HoldReason::KeptBack, detail: None },
        ),
{
    let names = parse::section_names(text::lines(output), "kept back:"@);
    assert(parse::held_names(held) =~= held.map_values(|p: HeldPackageView| p.name));
    lemma_filter_map_partial(
        names,
        parse::kept_back_entry(parse::held_names(held)),
        |name: Seq<char>| !held.map_values(|p: HeldPackageView| p.name).contains(name),
        |name: Seq<char>| HeldPackageView { name, reason: HoldReason::KeptBack, detail: None },
    );
}

proof fn lemma_filter_map_partial<A, B>(
    s: Seq<A>,
    f: spec_fn(A) -> Option<B>,
    p: spec_fn(A) -> bool,
    g: spec_fn(A) -> B,
)
    requires
        forall|x: A| #[trigger] f(x) == if p(x) {
            Some(g(x))
        } else {
            None
        },
    ensures
        s.filter_map(f) == s.filter(p).map_values(g),
    decreases s.len(),
{
    reveal(Seq::filter);
    if s.len() > 0 {
        lemma_filter_map_partial(s.drop_last(), f, p, g);
        assert(f(s.last()) == if p(s.last()) {
            Some(g(s.last()))
        } else {
            None
        });
    }
    assert(s.filter_map(f) =~= s.filter(p).map_values(g));
}

/// The packages that would be removed are the words of the lines that stand
/// under the heading for it, without the asterisks that mark a purge.
pub proof fn autoremovable_is_what_would_be_removed(output: Seq<char>, w: Seq<char>)
    ensures
        parse::autoremovable(output).len() == parse::section_names(
            text::lines(output),
            "packages will be REMOVED:"@,
        ).len(),
        forall|i: int, base: Seq<char>, stars: Seq<char>|
            0 <= i < parse::autoremovable(output).len() && #[trigger] (base + stars)
                == parse::section_names(text::lines(output), "packages will be REMOVED:"@)[i] && (
            forall|k: int| 0 <= k < stars.len() ==> #[trigger] stars[k] == '*') && (base.len() == 0
                || base.last() != '*') ==> #[trigger] parse::autoremovable(output)[i] == base,
        parse::section_names(text::lines(output), "packages will be REMOVED:"@).contains(w)
            <==> exists|m: int|
            #[trigger] stands_under(text::lines(output), "packages will be REMOVED:"@, m)
                && text::words(text::lines(output)[m]).contains(w),
{
    let names = parse::section_names(text::lines(output), "packages will be REMOVED:"@);
    a_section_names_its_words(text::lines(output), "packages will be REMOVED:"@, w);
    assert forall|i: int, base: Seq<char>, stars: Seq<char>|
        0 <= i < parse::autoremovable(output).len() && #[trigger] (base + stars) == names[i] && (
        forall|k: int| 0 <= k < stars.len() ==> #[trigger] stars[k] == '*') && (base.len() == 0
            || base.last() != '*') implies #[trigger] parse::autoremovable(output)[i] == base by {
        lemma_without_stars(base, stars);
    }
}

proof fn lemma_without_stars(base: Seq<char>, stars: Seq<char>)
    requires
        forall|k: int| 0 <= k < stars.len() ==> #[trigger] stars[k] == '*',
        base.len() == 0 || base.last() != '*',
    ensures
        text::without_trailing(base + stars, '*') == base,
    decreases stars.len(),
{
    if stars.len() == 0 {
        assert(base + stars =~= base);
    } else {
        assert((base + stars).drop_last() =~= base + stars.drop_last());
        assert((base + stars).last() == stars[stars.len() - 1]);
        lemma_without_stars(base, stars.drop_last());
    }
}

// ── Dry runs ─────────────────────────────────────────────────────────────────

/// The line heads the list of packages that would be installed.
pub open spec fn heads_new(line: Seq<char>) -> bool {
    text::contains(line, "NEW packages will be installed"@)
}

/// The line heads the list of packages that would be removed, and no other.
pub open spec fn heads_removed(line: Seq<char>) -> bool {
    text::contains(line, "packages will be REMOVED"@) && !heads_new(line)
}

/// The line leaves an open list open: it is no header, and indented or blank.
pub open spec fn carries_on(line: Seq<char>) -> bool {
    &&& !heads_new(line) && !heads_removed(line)
    &&& text::begins(line, "  "@) || text::begins(line, "\t"@) || text::trimmed(line).len() == 0
}

/// The list that is open behind some lines of a dry run is that of the last
/// header among them, if every line since is indented or blank. A header opens
/// its list whatever was open before.
pub proof fn the_nearest_header_decides(ls: Seq<Seq<char>>)
    ensures
        parse::dry_run_section(ls) == DryRunSection::NewPackages <==> exists|j: int|
            0 <= j < ls.len() && heads_new(#[trigger] ls[j]) && forall|k: int|
                j < k < ls.len() ==> carries_on(#[trigger] ls[k]),
        parse::dry_run_section(ls) == DryRunSection::Removals <==> exists|j: int|
            0 <= j < ls.len() && heads_removed(#[trigger] ls[j]) && forall|k: int|
                j < k < ls.len() ==> carries_on(#[trigger] ls[k]),
    decreases ls.len(),
{
    if ls.len() > 0 {
        let before = ls.drop_last();
        let last = ls.len() - 1;
        the_nearest_header_decides(before);
        assert(forall|k: int| 0 <= k < last ==> before[k] == ls[k]);
        if carries_on(ls[last]) {
            assert(parse::dry_run_section(ls) == parse::dry_run_section(before));
            if parse::dry_run_section(ls) == DryRunSection::NewPackages {
                let j = choose|j: int|
                    0 <= j < before.len() && heads_new(#[trigger] before[j]) && forall|k: int|
                        j < k < before.len() ==> carries_on(#[trigger] before[k]);
                assert(heads_new(ls[j]));
                assert forall|k: int| j < k < ls.len() implies carries_on(#[trigger] ls[k]) by {
                    if k < last {
                        assert(carries_on(before[k]));
                    }
                }
            }
            if parse::dry_run_section(ls) == DryRunSection::Removals {
                let j = choose|j: int|
                    0 <= j < before.len() && heads_removed(#[trigger] before[j]) && forall|k: int|
                        j < k < before.len() ==> carries_on(#[trigger] before[k]);
                assert(heads_removed(ls[j]));
                assert forall|k: int| j < k < ls.len() implies carries_on(#[trigger] ls[k]) by {
                    if k < last {
                        assert(carries_on(before[k]));
                    }
                }
            }
            if exists|j: int|
                0 <= j < ls.len() && heads_new(#[trigger] ls[j]) && forall|k: int|
                    j < k < ls.len() ==> carries_on(#[trigger] ls[k]) {
                let j = choose|j: int|
                    0 <= j < ls.len() && heads_new(#[trigger] ls[j]) && forall|k: int|
                        j < k < ls.len() ==> carries_on(#[trigger] ls[k]);
                assert(heads_new(before[j]));
                assert forall|k: int| j < k < before.len() implies carries_on(
                    #[trigger] before[k],
                ) by {
                    assert(carries_on(ls[k]));
                }
            }
            if exists|j: int|
                0 <= j < ls.len() && heads_removed(#[trigger] ls[j]) && forall|k: int|
                    j < k < ls.len() ==> carries_on(#[trigger] ls[k]) {
                let j = choose|j: int|
                    0 <= j < ls.len() && heads_removed(#[trigger] ls[j]) && forall|k: int|
                        j < k < ls.len() ==> carries_on(#[trigger] ls[k]);
                assert(heads_removed(before[j]));
                assert forall|k: int| j < k < before.len() implies carries_on(
                    #[trigger] before[k],
                ) by {
                    assert(carries_on(ls[k]));
                }
            }
        } else {
            assert(!carries_on(ls[last]));
            assert(forall|k: int| last < k < ls.len() ==> carries_on(#[trigger] ls[k]));
            assert(heads_new(ls[last]) || heads_removed(ls[last]) || parse::dry_run_section(ls)
                == DryRunSection::Neither);
        }
    }
}

/// The lines of a list: no headers, and all indented.
pub open spec fn dry_run_body(body: Seq<Seq<char>>) -> bool {
    forall|i: int|
        0 <= i < body.len() ==> !heads_new(#[trigger] body[i]) && !heads_removed(body[i]) && (
        text::begins(body[i], "  "@) || text::begins(body[i], "\t"@))
}

/// A header and the indented lines behind it add their words to the list that
/// it heads, in order, and nothing to the other list; whatever came before.
pub proof fn names_belong_to_the_nearest_header(
    before: Seq<Seq<char>>,
    heading: Seq<char>,
    body: Seq<Seq<char>>,
)
    requires
        heads_new(heading) || heads_removed(heading),
        dry_run_body(body),
    ensures
        ({
            let ls = before.push(heading) + body;
            let new = |x: Seq<Seq<char>>| parse::dry_run_names(x, DryRunSection::NewPackages);
            let gone = |x: Seq<Seq<char>>| parse::dry_run_names(x, DryRunSection::Removals);
            &&& heads_new(heading) ==> new(ls) == new(before) + all_words(body) && gone(ls)
                == gone(before)
            &&& heads_removed(heading) ==> gone(ls) == gone(before) + all_words(body) && new(ls)
                == new(before)
        }),
    decreases body.len(),
{
    let opened = before.push(heading);
    let n = DryRunSection::NewPackages;
    let r = DryRunSection::Removals;
    assert(opened.drop_last() =~= before);
    assert(opened.last() == heading);
    if body.len() == 0 {
        assert(opened + body =~= opened);
        assert(parse::dry_run_names(opened, n) =~= parse::dry_run_names(before, n));
        assert(parse::dry_run_names(opened, r) =~= parse::dry_run_names(before, r));
        assert(parse::dry_run_names(before, n) + all_words(body) =~= parse::dry_run_names(
            before,
            n,
        ));
        assert(parse::dry_run_names(before, r) + all_words(body) =~= parse::dry_run_names(
            before,
            r,
        ));
    } else {
        let shorter = body.drop_last();
        assert(forall|i: int| 0 <= i < shorter.len() ==> shorter[i] == body[i]);
        names_belong_to_the_nearest_header(before, heading, shorter);
        let ls = opened + body;
        let front = opened + shorter;
        assert(ls.drop_last() =~= front);
        assert(ls.last() == body[body.len() - 1]);
        the_nearest_header_decides(front);
        let h = before.len() as int;
        assert(front[h] == heading);
        assert forall|k: int| h < k < front.len() implies carries_on(#[trigger] front[k]) by {
            assert(front[k] == shorter[k - h - 1]);
        }
        assert(heads_new(heading) ==> parse::dry_run_section(front) == n);
        assert(heads_removed(heading) ==> parse::dry_run_section(front) == r);
        if heads_new(heading) {
            assert(parse::dry_run_names(ls, n) =~= parse::dry_run_names(before, n) + all_words(
                body,
            ));
            assert(parse::dry_run_names(ls, r) =~= parse::dry_run_names(before, r));
        } else {
            assert(parse::dry_run_names(ls, r) =~= parse::dry_run_names(before, r) + all_words(
                body,
            ));
            assert(parse::dry_run_names(ls, n) =~= parse::dry_run_names(before, n));
        }
    }
}

/// A line adds names to a list only if it is indented, is no header, and that
/// list is open.
pub proof fn other_lines_name_nothing(ls: Seq<Seq<char>>, line: Seq<char>, list: DryRunSection)
    requires
        heads_new(line) || heads_removed(line) || !(text::begins(line, "  "@) || text::begins(
            line,
            "\t"@,
        )) || parse::dry_run_section(ls) != list,
    ensures
        parse::dry_run_names(ls.push(line), list) == parse::dry_run_names(ls, list),
{
    assert(ls.push(line).drop_last() =~= ls);
    assert(ls.push(line).last() == line);
    assert(parse::dry_run_names(ls.push(line), list) =~= parse::dry_run_names(ls, list));
}

// ── Pending config files ─────────────────────────────────────────────────────

/// A line that names a path with one of the three suffixes is a pending file,
/// and its live path is the path without the suffix.
pub proof fn a_pending_path_is_listed(
    a: Seq<char>,
    live: Seq<char>,
    suffix: Seq<char>,
    b: Seq<char>,
)
    requires
        text::all_white(a) && text::all_white(b),
        suffix == ".dpkg-dist"@ || suffix == ".dpkg-new"@ || suffix == ".ucf-dist"@,
        live.len() > 0 ==> !text::is_white(live[0]),
        !(a + (live + suffix) + b).contains('\n'),
    ensures
        parse::pending_found(a + (live + suffix) + b) == seq![
            PendingConffileView { pending_path: live + suffix, live_path: live, package: None },
        ],
        parse::pending_conffiles(a + (live + suffix) + b) == seq![
            PendingConffileView { pending_path: live + suffix, live_path: live, package: None },
        ],
{
    reveal_strlit(".dpkg-dist");
    reveal_strlit(".dpkg-new");
    reveal_strlit(".ucf-dist");
    let path = live + suffix;
    let file = PendingConffileView { pending_path: path, live_path: live, package: None };
    assert(path.last() == suffix.last());
    assert(live.len() == 0 ==> path[0] == suffix[0]);
    text::lemma_trimmed_around(a, path, b);
    let n = path.len() as int;
    assert(path.subrange(n - suffix.len(), n) =~= suffix);
    assert(text::ends(path, suffix));
    assert(parse::pending_suffix(path) == Some(suffix)) by {
        if text::ends(path, ".dpkg-dist"@) && suffix != ".dpkg-dist"@ {
            assert(path.subrange(n - 10, n)[9] == path[n - 1]);
            assert(path.subrange(n - 10, n)[4] == path[n - 6]);
            assert(path[n - 1] == suffix[suffix.len() - 1]);
            assert(path[n - 6] == suffix[suffix.len() - 6]);
        }
        if text::ends(path, ".dpkg-new"@) && suffix != ".dpkg-new"@ {
            assert(path.subrange(n - 9, n)[8] == path[n - 1]);
            assert(path[n - 1] == suffix[suffix.len() - 1]);
        }
    }
    assert(path.take(n - suffix.len()) =~= live);
    lemma_one_line(a + path + b, parse::pending_entry());
    parse::lemma_by_path_one(file);
}

/// A line that ends in none of the suffixes is no pending file; a backup that
/// ends in `.dpkg-old` is none.
pub proof fn other_paths_are_not_pending(line: Seq<char>)
    requires
        line.len() > 0,
        !line.contains('\n'),
        !text::ends(text::trimmed(line), ".dpkg-dist"@),
        !text::ends(text::trimmed(line), ".dpkg-new"@),
        !text::ends(text::trimmed(line), ".ucf-dist"@),
    ensures
        parse::pending_found(line) == Seq::<PendingConffileView>::empty(),
{
    lemma_one_line(line, parse::pending_entry());
}

// ── Owners ───────────────────────────────────────────────────────────────────

/// A line `package: path` gives that path its owner, and says nothing of any
/// other. Of several packages the first counts.
pub proof fn an_owner_line_is_about_its_path(
    ls: Seq<Seq<char>>,
    owner: Seq<char>,
    others: Seq<char>,
    path: Seq<char>,
    file: PendingConffileView,
)
    requires
        owner.len() > 0 && text::no_white(owner) && !owner.contains(','),
        text::no_white(others) && (others.len() == 0 || others[0] == ','),
        text::tight(path) && !text::contains(path, ": "@),
    ensures
        parse::with_owner(file, ls.push(owner + others + ": "@ + path)) == if file.live_path
            == path {
            PendingConffileView { package: Some(owner), ..file }
        } else {
            parse::with_owner(file, ls)
        },
{
    reveal_strlit(": ");
    let pkgs = owner + others;
    let line = pkgs + ": "@ + path;
    let n = pkgs.len() as int;
    assert(line.subrange(n, n + 2) =~= ": "@);
    assert(text::occurs_at(line, ": "@, n));
    text::lemma_rfind_from(line, ": "@, line.len() - 2);
    let at = text::rfind(line, ": "@)->0;
    if at > n {
        if at == n + 1 {
            assert(line.subrange(at, at + 2)[0] == line[n + 1]);
        } else {
            assert(path.subrange(at - n - 2, at - n) =~= line.subrange(at, at + 2));
            assert(text::occurs_at(path, ": "@, at - n - 2));
        }
    }
    assert(at == n);
    assert(line.take(n) =~= pkgs);
    assert(line.skip(n + 2) =~= path);
    assert(!parse::any_white(pkgs)) by {
        if parse::any_white(pkgs) {
            let k = choose|k: int| 0 <= k < pkgs.len() && text::is_white(#[trigger] pkgs[k]);
            if k < owner.len() {
                assert(!text::is_white(owner[k]));
            } else {
                assert(!text::is_white(others[k - owner.len()]));
            }
        }
    }
    if others.len() == 0 {
        assert(pkgs =~= owner);
        text::lemma_until_none(owner, ',');
        assert(pkgs.take(owner.len() as int) =~= owner);
    } else {
        assert(pkgs =~= owner + seq![','] + others.skip(1));
        text::lemma_until_at(owner, ',', others.skip(1));
        assert(pkgs.take(owner.len() as int) =~= owner);
    }
    assert(text::tight(owner)) by {
        assert(!text::is_white(owner[0]) && !text::is_white(owner[owner.len() - 1]));
    }
    text::lemma_trimmed_tight(owner);
    text::lemma_trimmed_tight(path);
    assert(parse::attribution(line) == Some((owner, path)));
    assert(ls.push(line).drop_last() =~= ls);
    assert(ls.push(line).last() == line);
}

/// A line with whitespace in front of its last `: `, such as a diversion, says
/// nothing of any owner, nor does a line without one.
pub proof fn other_lines_name_no_owner(
    ls: Seq<Seq<char>>,
    line: Seq<char>,
    file: PendingConffileView,
)
    requires
        !text::contains(line, ": "@) || (exists|at: int| #[trigger]
            text::occurs_at(line, ": "@, at) && (forall|k: int|
                at < k ==> !text::occurs_at(line, ": "@, k)) && parse::any_white(line.take(at))),
    ensures
        parse::with_owner(file, ls.push(line)) == parse::with_owner(file, ls),
{
    reveal_strlit(": ");
    text::lemma_rfind_from(line, ": "@, line.len() - 2);
    if text::rfind(line, ": "@) is Some {
        let found = text::rfind(line, ": "@)->0;
        assert(text::occurs_at(line, ": "@, found));
        let at = choose|at: int| #[trigger]
            text::occurs_at(line, ": "@, at) && (forall|k: int|
                at < k ==> !text::occurs_at(line, ": "@, k)) && parse::any_white(line.take(at));
        assert(found == at);
    }
    assert(ls.push(line).drop_last() =~= ls);
    assert(ls.push(line).last() == line);
}

/// Pending files are listed by path: of two, the one that comes first in the order
/// of paths is listed first, whichever was found first.
pub proof fn pending_files_are_listed_by_path(f: PendingConffileView, g: PendingConffileView)
    requires
        f.pending_path != g.pending_path,
        parse::text_le(f.pending_path, g.pending_path),
    ensures
        parse::by_path(seq![f, g]) == seq![f, g],
        parse::by_path(seq![g, f]) == seq![f, g],
{
    parse::lemma_by_path_two(f, g);
}

} // verus!
