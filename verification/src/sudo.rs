//! How the command of a task differs with and without root: by the prefix
//! `sudo -n ` and nothing else.

use vstd::prelude::*;

use crate::ssh;
use crate::task;
use crate::task::{ConffileAction, ConffileDecisionView, TaskKindView};
use crate::text;

verus! {

// ── Texts without "sudo" ─────────────────────────────────────────────────────

/// The text holds no "sudo".
pub open spec fn silent(s: Seq<char>) -> bool {
    !text::contains(s, "sudo"@)
}

/// The text holds no "sudo", and none can arise where another text without it
/// is put behind.
spec fn calm(s: Seq<char>) -> bool {
    silent(s) && (s.len() > 0 ==> s.last() != 's' && s.last() != 'u' && s.last() != 'd')
}

/// No `u` in the text is followed by a `d`.
spec fn no_ud(s: Seq<char>) -> bool {
    forall|i: int| 0 <= i < s.len() - 1 ==> !(#[trigger] s[i] == 'u' && s[i + 1] == 'd')
}

proof fn lemma_sudo_letters()
    ensures
        "sudo"@ == seq!['s', 'u', 'd', 'o'],
{
    reveal_strlit("sudo");
    assert("sudo"@ =~= seq!['s', 'u', 'd', 'o']);
}

proof fn lemma_no_ud_is_silent(s: Seq<char>)
    requires
        no_ud(s),
    ensures
        silent(s),
{
    lemma_sudo_letters();
    if text::contains(s, "sudo"@) {
        let i = choose|i: int| text::occurs_at(s, "sudo"@, i);
        let t = s.subrange(i, i + 4);
        assert(t[1] == s[i + 1] && t[2] == s[i + 2]);
    }
}

proof fn lemma_apt_texts()
    ensures
        calm(task::APT_ENV@),
        calm(" "@),
        calm(""@),
        calm("apt-get "@),
        calm("update </dev/null 2>&1"@),
        calm("-y "@),
        calm(task::DPKG_CONF_OPTS@),
        calm(" upgrade </dev/null 2>&1"@),
        calm("install --only-upgrade -y "@),
        calm(" </dev/null 2>&1"@),
        calm(" full-upgrade </dev/null 2>&1"@),
        calm(" autoremove --purge </dev/null 2>&1"@),
{
    reveal_strlit("DEBIAN_FRONTEND=noninteractive LC_ALL=C");
    reveal_strlit(" ");
    reveal_strlit("");
    reveal_strlit("apt-get ");
    reveal_strlit("update </dev/null 2>&1");
    reveal_strlit("-y ");
    reveal_strlit(
        "-o \"Dpkg::Options::=--force-confdef\" -o \"Dpkg::Options::=--force-confold\"",
    );
    reveal_strlit(" upgrade </dev/null 2>&1");
    reveal_strlit("install --only-upgrade -y ");
    reveal_strlit(" </dev/null 2>&1");
    reveal_strlit(" full-upgrade </dev/null 2>&1");
    reveal_strlit(" autoremove --purge </dev/null 2>&1");
    lemma_no_ud_is_silent(task::APT_ENV@);
    lemma_no_ud_is_silent(" "@);
    lemma_no_ud_is_silent(""@);
    lemma_no_ud_is_silent("apt-get "@);
    lemma_no_ud_is_silent("update </dev/null 2>&1"@);
    lemma_no_ud_is_silent("-y "@);
    lemma_no_ud_is_silent(task::DPKG_CONF_OPTS@);
    lemma_no_ud_is_silent(" upgrade </dev/null 2>&1"@);
    lemma_no_ud_is_silent("install --only-upgrade -y "@);
    lemma_no_ud_is_silent(" </dev/null 2>&1"@);
    lemma_no_ud_is_silent(" full-upgrade </dev/null 2>&1"@);
    lemma_no_ud_is_silent(" autoremove --purge </dev/null 2>&1"@);
}

proof fn lemma_other_texts()
    ensures
        calm(
            "pkgs=$(LC_ALL=C dpkg -l | awk '/^rc/{print $2}'); [ -n \"$pkgs\" ] && echo \"$pkgs\" | xargs "@,
        ),
        calm("dpkg --purge 2>&1 || echo \"No RC packages to purge\""@),
        calm("reboot 2>&1"@),
        calm("{ "@),
        calm("; "@),
        calm("; } 2>&1"@),
        calm("fail=0"@),
        calm("exit $fail"@),
{
    reveal_strlit(
        "pkgs=$(LC_ALL=C dpkg -l | awk '/^rc/{print $2}'); [ -n \"$pkgs\" ] && echo \"$pkgs\" | xargs ",
    );
    reveal_strlit("dpkg --purge 2>&1 || echo \"No RC packages to purge\"");
    reveal_strlit("reboot 2>&1");
    reveal_strlit("{ ");
    reveal_strlit("; ");
    reveal_strlit("; } 2>&1");
    reveal_strlit("fail=0");
    reveal_strlit("exit $fail");
    lemma_no_ud_is_silent(
        "pkgs=$(LC_ALL=C dpkg -l | awk '/^rc/{print $2}'); [ -n \"$pkgs\" ] && echo \"$pkgs\" | xargs "@,
    );
    lemma_no_ud_is_silent("dpkg --purge 2>&1 || echo \"No RC packages to purge\""@);
    lemma_no_ud_is_silent("reboot 2>&1"@);
    lemma_no_ud_is_silent("{ "@);
    lemma_no_ud_is_silent("; "@);
    lemma_no_ud_is_silent("; } 2>&1"@);
    lemma_no_ud_is_silent("fail=0"@);
    lemma_no_ud_is_silent("exit $fail"@);
}

proof fn lemma_conffile_texts()
    ensures
        calm("rm -f -- "@),
        calm(" && echo discarded "@),
        calm(" || { echo FAILED: "@),
        calm("; fail=1; }"@),
        calm("( set -e; if [ -e "@),
        calm(" ]; then "@),
        calm("cp -a -- "@),
        calm(" "@),
        calm("; echo 'backed up' "@),
        calm(" '->' "@),
        calm("; fi; "@),
        calm("mv -- "@),
        calm(" ) && echo installed "@),
{
    reveal_strlit("rm -f -- ");
    reveal_strlit(" && echo discarded ");
    reveal_strlit(" || { echo FAILED: ");
    reveal_strlit("; fail=1; }");
    reveal_strlit("( set -e; if [ -e ");
    reveal_strlit(" ]; then ");
    reveal_strlit("cp -a -- ");
    reveal_strlit(" ");
    reveal_strlit("; echo 'backed up' ");
    reveal_strlit(" '->' ");
    reveal_strlit("; fi; ");
    reveal_strlit("mv -- ");
    reveal_strlit(" ) && echo installed ");
    lemma_no_ud_is_silent("rm -f -- "@);
    lemma_no_ud_is_silent(" && echo discarded "@);
    lemma_no_ud_is_silent(" || { echo FAILED: "@);
    lemma_no_ud_is_silent("; fail=1; }"@);
    lemma_no_ud_is_silent("( set -e; if [ -e "@);
    lemma_no_ud_is_silent(" ]; then "@);
    lemma_no_ud_is_silent("cp -a -- "@);
    lemma_no_ud_is_silent(" "@);
    lemma_no_ud_is_silent("; echo 'backed up' "@);
    lemma_no_ud_is_silent(" '->' "@);
    lemma_no_ud_is_silent("; fi; "@);
    lemma_no_ud_is_silent("mv -- "@);
    lemma_no_ud_is_silent(" ) && echo installed "@);
}

/// A "sudo" that is in neither of two texts can only arise where they meet.
proof fn lemma_silent_add(a: Seq<char>, b: Seq<char>)
    requires
        silent(a),
        silent(b),
        calm(a) || b.len() == 0 || (b[0] != 'u' && b[0] != 'd' && b[0] != 'o'),
    ensures
        silent(a + b),
{
    lemma_sudo_letters();
    if text::contains(a + b, "sudo"@) {
        let s = a + b;
        let i = choose|i: int| text::occurs_at(s, "sudo"@, i);
        let t = s.subrange(i, i + 4);
        let n = a.len() as int;
        assert(t[0] == s[i] && t[1] == s[i + 1] && t[2] == s[i + 2] && t[3] == s[i + 3]);
        if i + 4 <= n {
            assert(a.subrange(i, i + 4) =~= t);
            assert(text::occurs_at(a, "sudo"@, i));
        } else if i >= n {
            assert(b.subrange(i - n, i - n + 4) =~= t);
            assert(text::occurs_at(b, "sudo"@, i - n));
        } else {
            assert(s[n - 1] == a.last());
            assert(s[n] == b[0]);
            assert(s[n - 1] == t[n - 1 - i] && s[n] == t[n - i]);
        }
    }
}

proof fn lemma_calm_add(a: Seq<char>, b: Seq<char>)
    requires
        calm(a),
        calm(b),
    ensures
        calm(a + b),
{
    lemma_silent_add(a, b);
    if b.len() > 0 {
        assert((a + b).last() == b.last());
    } else {
        assert(a + b =~= a);
    }
}

/// Quoting brings no "sudo" into a text.
proof fn lemma_escaped_silent(s: Seq<char>)
    requires
        silent(s),
    ensures
        silent(ssh::escaped(s)),
    decreases s.len(),
{
    lemma_sudo_letters();
    reveal_strlit("'\\''");
    if s.len() == 0 {
        assert(no_ud(ssh::escaped(s)));
        lemma_no_ud_is_silent(ssh::escaped(s));
    } else {
        let before = s.drop_last();
        assert(silent(before)) by {
            if text::contains(before, "sudo"@) {
                let i = choose|i: int| text::occurs_at(before, "sudo"@, i);
                assert(s.subrange(i, i + 4) =~= before.subrange(i, i + 4));
                assert(text::occurs_at(s, "sudo"@, i));
            }
        }
        lemma_escaped_silent(before);
        if s.last() == '\'' {
            let q = "'\\''"@;
            assert(no_ud(q));
            lemma_no_ud_is_silent(q);
            lemma_silent_add(ssh::escaped(before), q);
        } else {
            lemma_escaped_last(s);
        }
    }
}

/// A character other than a quote brings no "sudo" into the quoted text that it
/// does not bring into the text.
proof fn lemma_escaped_last(s: Seq<char>)
    requires
        s.len() > 0,
        s.last() != '\'',
        silent(s),
        silent(ssh::escaped(s.drop_last())),
    ensures
        silent(ssh::escaped(s)),
{
    lemma_sudo_letters();
    let e = ssh::escaped(s);
    let front = ssh::escaped(s.drop_last());
    assert(e =~= front.push(s.last()));
    if text::contains(e, "sudo"@) {
        let i = choose|i: int| text::occurs_at(e, "sudo"@, i);
        let t = e.subrange(i, i + 4);
        assert(t[0] == e[i] && t[1] == e[i + 1] && t[2] == e[i + 2] && t[3] == e[i + 3]);
        if i + 4 < e.len() {
            assert(front.subrange(i, i + 4) =~= t);
            assert(text::occurs_at(front, "sudo"@, i));
        } else {
            let n = s.len() as int;
            lemma_unescaped_tail(s, 4);
            let m = e.len() as int;
            assert(s[n - 1 - 0] == e[m - 1 - 0] && s[n - 1 - 1] == e[m - 1 - 1]);
            assert(s[n - 1 - 2] == e[m - 1 - 2] && s[n - 1 - 3] == e[m - 1 - 3]);
            assert(s.subrange(n - 4, n) =~= t);
            assert(text::occurs_at(s, "sudo"@, n - 4));
        }
    }
}

/// Where none of the last `k` characters of a quoted text is a quote, they are
/// the last of the text.
proof fn lemma_unescaped_tail(s: Seq<char>, k: nat)
    requires
        k <= ssh::escaped(s).len(),
        forall|i: int|
            ssh::escaped(s).len() - k <= i < ssh::escaped(s).len() ==> #[trigger] ssh::escaped(
                s,
            )[i] != '\'',
    ensures
        k <= s.len(),
        forall|j: int|
            0 <= j < k ==> #[trigger] s[s.len() - 1 - j] == ssh::escaped(s)[ssh::escaped(s).len()
                - 1 - j],
    decreases k,
{
    reveal_strlit("'\\''");
    if k > 0 {
        let e = ssh::escaped(s);
        assert(e[e.len() - 1] != '\'');
        assert(s.len() > 0);
        let front = ssh::escaped(s.drop_last());
        if s.last() == '\'' {
            assert(e.last() == "'\\''"@.last());
        }
        assert(e =~= front.push(s.last()));
        assert forall|i: int| front.len() - (k - 1) <= i < front.len() implies #[trigger] front[i]
            != '\'' by {
            assert(front[i] == e[i]);
        }
        lemma_unescaped_tail(s.drop_last(), (k - 1) as nat);
        assert forall|j: int| 0 <= j < k implies #[trigger] s[s.len() - 1 - j] == e[e.len() - 1
            - j] by {
            if j > 0 {
                let d = s.drop_last();
                assert(d[d.len() - 1 - (j - 1)] == front[front.len() - 1 - (j - 1)]);
            }
        }
    }
}

proof fn lemma_quoted_calm(s: Seq<char>)
    requires
        silent(s),
    ensures
        calm(ssh::quoted(s)),
{
    reveal_strlit("'");
    lemma_escaped_silent(s);
    assert(no_ud("'"@));
    lemma_no_ud_is_silent("'"@);
    lemma_silent_add("'"@, ssh::escaped(s));
    lemma_silent_add("'"@ + ssh::escaped(s), "'"@);
    assert(ssh::quoted(s).last() == '\'');
}

// ── Texts that differ by the prefix ──────────────────────────────────────────

/// The parts with a text between each and the next.
spec fn woven(parts: Seq<Seq<char>>, between: Seq<char>) -> Seq<char>
    decreases parts.len(),
{
    if parts.len() == 0 {
        seq![]
    } else if parts.len() == 1 {
        parts[0]
    } else {
        parts[0] + between + woven(parts.skip(1), between)
    }
}

/// Two lists of parts, with the last of one and the first of the other joined.
spec fn glued(a: Seq<Seq<char>>, b: Seq<Seq<char>>) -> Seq<Seq<char>> {
    a.drop_last() + seq![a.last() + b[0]] + b.skip(1)
}

proof fn lemma_glued(a: Seq<Seq<char>>, b: Seq<Seq<char>>, between: Seq<char>)
    requires
        a.len() > 0,
        b.len() > 0,
    ensures
        woven(glued(a, b), between) == woven(a, between) + woven(b, between),
        glued(a, b).len() == a.len() + b.len() - 1,
    decreases a.len(),
{
    let g = glued(a, b);
    if a.len() == 1 {
        assert(g.skip(1) =~= b.skip(1));
        assert(g[0] == a[0] + b[0]);
        if b.len() == 1 {
        } else {
            assert(woven(g, between) =~= a[0] + (b[0] + between + woven(b.skip(1), between)));
        }
    } else {
        lemma_glued(a.skip(1), b, between);
        assert(g[0] == a[0]);
        assert(a.skip(1).drop_last() =~= a.drop_last().skip(1));
        assert(g.skip(1) =~= glued(a.skip(1), b));
        assert(woven(g, between) =~= woven(a, between) + woven(b, between));
    }
}

/// A text with the prefix in `slots` places, and the same text without it.
struct Forms {
    with_sudo: Seq<char>,
    without_sudo: Seq<char>,
    slots: nat,
}

/// The forms are woven from the same parts, and the one without the prefix holds
/// no "sudo" and lets none arise behind it.
spec fn match_up(r: Forms) -> bool {
    &&& calm(r.without_sudo)
    &&& exists|parts: Seq<Seq<char>>|
        parts.len() == r.slots + 1 && #[trigger] woven(parts, "sudo -n "@) == r.with_sudo && woven(
            parts,
            ""@,
        ) == r.without_sudo
}

/// A text without "sudo" in both forms.
proof fn same(s: Seq<char>) -> (r: Forms)
    requires
        calm(s),
    ensures
        r == (Forms { with_sudo: s, without_sudo: s, slots: 0 }),
        match_up(r),
{
    let parts = seq![s];
    assert(woven(parts, "sudo -n "@) == s);
    assert(woven(parts, ""@) == s);
    Forms { with_sudo: s, without_sudo: s, slots: 0 }
}

/// One text behind another, in both forms.
proof fn then_forms(a: Forms, b: Forms) -> (r: Forms)
    requires
        match_up(a),
        match_up(b),
    ensures
        r == (Forms {
            with_sudo: a.with_sudo + b.with_sudo,
            without_sudo: a.without_sudo + b.without_sudo,
            slots: a.slots + b.slots,
        }),
        match_up(r),
{
    let p = choose|parts: Seq<Seq<char>>|
        parts.len() == a.slots + 1 && #[trigger] woven(parts, "sudo -n "@) == a.with_sudo && woven(
            parts,
            ""@,
        ) == a.without_sudo;
    let q = choose|parts: Seq<Seq<char>>|
        parts.len() == b.slots + 1 && #[trigger] woven(parts, "sudo -n "@) == b.with_sudo && woven(
            parts,
            ""@,
        ) == b.without_sudo;
    lemma_glued(p, q, "sudo -n "@);
    lemma_glued(p, q, ""@);
    lemma_calm_add(a.without_sudo, b.without_sudo);
    Forms {
        with_sudo: a.with_sudo + b.with_sudo,
        without_sudo: a.without_sudo + b.without_sudo,
        slots: a.slots + b.slots,
    }
}

/// A text without "sudo" behind another.
proof fn more(a: Forms, s: Seq<char>) -> (r: Forms)
    requires
        match_up(a),
        calm(s),
    ensures
        r == (Forms {
            with_sudo: a.with_sudo + s,
            without_sudo: a.without_sudo + s,
            slots: a.slots,
        }),
        match_up(r),
{
    let b = same(s);
    then_forms(a, b)
}

/// The prefix alone.
proof fn prefix() -> (r: Forms)
    ensures
        r == (Forms {
            with_sudo: task::sudo_prefix(true),
            without_sudo: task::sudo_prefix(false),
            slots: 1,
        }),
        match_up(r),
{
    lemma_apt_texts();
    reveal_strlit("");
    let nothing = Seq::<char>::empty();
    let parts = seq![nothing, nothing];
    assert(parts.skip(1) =~= seq![nothing]);
    assert(woven(parts.skip(1), "sudo -n "@) == nothing);
    assert(woven(parts.skip(1), ""@) == nothing);
    assert(woven(parts, "sudo -n "@) =~= "sudo -n "@);
    assert(woven(parts, ""@) =~= ""@);
    Forms {
        with_sudo: task::sudo_prefix(true),
        without_sudo: task::sudo_prefix(false),
        slots: 1,
    }
}

/// The prefix behind a text.
proof fn more_prefix(a: Forms) -> (r: Forms)
    requires
        match_up(a),
    ensures
        r == (Forms {
            with_sudo: a.with_sudo + task::sudo_prefix(true),
            without_sudo: a.without_sudo + task::sudo_prefix(false),
            slots: a.slots + 1,
        }),
        match_up(r),
{
    let b = prefix();
    then_forms(a, b)
}

/// Looking for the prefix behind a text without "sudo" finds it right there.
proof fn lemma_first_prefix(a: Seq<char>, rest: Seq<char>)
    requires
        silent(a),
    ensures
        text::find(a + "sudo -n "@ + rest, "sudo -n "@) == Some(a.len() as int),
{
    let p = "sudo -n "@;
    let s = a + p + rest;
    let n = a.len() as int;
    lemma_sudo_letters();
    reveal_strlit("sudo -n ");
    assert(s.subrange(n, n + p.len()) =~= p);
    assert(text::occurs_at(s, p, n));
    text::lemma_find_from(s, p, 0);
    assert forall|i: int| 0 <= i < n implies !text::occurs_at(s, p, i) by {
        if text::occurs_at(s, p, i) {
            let t = s.subrange(i, i + p.len());
            if i + 4 <= n {
                assert forall|j: int| 0 <= j < 4 implies a[i + j] == #[trigger] "sudo"@[j] by {
                    assert(t[j] == s[i + j]);
                }
                assert(a.subrange(i, i + 4) =~= "sudo"@);
                assert(text::occurs_at(a, "sudo"@, i));
            } else {
                assert(t[n - i] == s[n]);
                assert(s[n] == 's');
            }
        }
    }
}

proof fn lemma_no_prefix(s: Seq<char>)
    requires
        silent(s),
    ensures
        text::without(s, "sudo -n "@) == s,
{
    let p = "sudo -n "@;
    lemma_sudo_letters();
    reveal_strlit("sudo -n ");
    text::lemma_find_from(s, p, 0);
    if text::find(s, p) is Some {
        let i = text::find(s, p)->0;
        assert(text::occurs_at(s, p, i));
        assert(s.subrange(i, i + 4) =~= s.subrange(i, i + p.len()).subrange(0, 4));
        assert(p.subrange(0, 4) =~= "sudo"@);
        assert(text::occurs_at(s, "sudo"@, i));
    }
}

/// Taking out the prefix leaves the form without it.
proof fn lemma_unwoven(parts: Seq<Seq<char>>)
    requires
        parts.len() > 0,
        silent(woven(parts, ""@)),
    ensures
        text::without(woven(parts, "sudo -n "@), "sudo -n "@) == woven(parts, ""@),
        parts.len() > 1 ==> text::contains(woven(parts, "sudo -n "@), "sudo -n "@),
    decreases parts.len(),
{
    let p = "sudo -n "@;
    if parts.len() == 1 {
        lemma_no_prefix(parts[0]);
    } else {
        reveal_strlit("");
        reveal_strlit("sudo -n ");
        let first = parts[0];
        let rest = woven(parts.skip(1), p);
        let plain = woven(parts.skip(1), ""@);
        assert(woven(parts, ""@) =~= first + plain);
        lemma_silent_parts(first, plain);
        lemma_unwoven(parts.skip(1));
        lemma_first_prefix(first, rest);
        text::lemma_contains_middle(first, p, rest);
        let whole = first + p + rest;
        assert(whole.take(first.len() as int) =~= first);
        assert(whole.skip((first.len() + p.len()) as int) =~= rest);
    }
}

proof fn lemma_silent_parts(a: Seq<char>, b: Seq<char>)
    requires
        silent(a + b),
    ensures
        silent(a),
        silent(b),
{
    if text::contains(a, "sudo"@) {
        text::lemma_contains_middle(seq![], a, b);
        assert(seq![] + a + b =~= a + b);
        text::lemma_contains_within(a + b, a, "sudo"@);
    }
    if text::contains(b, "sudo"@) {
        text::lemma_contains_middle(a, b, seq![]);
        assert(a + b + seq![] =~= a + b);
        text::lemma_contains_within(a + b, b, "sudo"@);
    }
}

// ── Commands ─────────────────────────────────────────────────────────────────

proof fn lemma_names_silent(names: Seq<Seq<char>>)
    requires
        forall|i: int| 0 <= i < names.len() ==> silent(#[trigger] names[i]),
    ensures
        silent(text::joined(names, " "@)),
    decreases names.len(),
{
    lemma_apt_texts();
    if names.len() == 0 {
        assert(no_ud(text::joined(names, " "@)));
        lemma_no_ud_is_silent(text::joined(names, " "@));
    } else if names.len() > 1 {
        reveal_strlit(" ");
        let front = text::joined(names.drop_last(), " "@);
        lemma_names_silent(names.drop_last());
        lemma_silent_add(front, " "@);
        assert((front + " "@).last() == ' ');
        lemma_silent_add(front + " "@, names.last());
    } else {
        assert(silent(names[0]));
    }
}

proof fn apt_get_forms() -> (r: Forms)
    ensures
        r == (Forms {
            with_sudo: task::apt_get(true),
            without_sudo: task::apt_get(false),
            slots: 1,
        }),
        match_up(r),
{
    lemma_apt_texts();
    let r = same(task::APT_ENV@);
    let r = more(r, " "@);
    let r = more_prefix(r);
    more(r, "apt-get "@)
}

proof fn decision_forms(d: ConffileDecisionView) -> (r: Forms)
    requires
        silent(d.file.pending_path),
        silent(d.file.live_path),
    ensures
        r.with_sudo == task::decision_command(d, true),
        r.without_sudo == task::decision_command(d, false),
        r.slots > 0,
        match_up(r),
{
    lemma_conffile_texts();
    let p = ssh::quoted(d.file.pending_path);
    lemma_quoted_calm(d.file.pending_path);
    match d.action {
        ConffileAction::Discard => {
            let r = prefix();
            let r = more(r, "rm -f -- "@);
            let r = more(r, p);
            let r = more(r, " && echo discarded "@);
            let r = more(r, p);
            let r = more(r, " || { echo FAILED: "@);
            let r = more(r, p);
            more(r, "; fail=1; }"@)
        },
        ConffileAction::Apply => {
            reveal_strlit(".dpkg-old");
            let old = d.file.live_path + ".dpkg-old"@;
            assert(no_ud(".dpkg-old"@));
            lemma_no_ud_is_silent(".dpkg-old"@);
            lemma_silent_add(d.file.live_path, ".dpkg-old"@);
            lemma_quoted_calm(d.file.live_path);
            lemma_quoted_calm(old);
            let l = ssh::quoted(d.file.live_path);
            let b = ssh::quoted(old);
            let r = same("( set -e; if [ -e "@);
            let r = more(r, l);
            let r = more(r, " ]; then "@);
            let r = more_prefix(r);
            let r = more(r, "cp -a -- "@);
            let r = more(r, l);
            let r = more(r, " "@);
            let r = more(r, b);
            let r = more(r, "; echo 'backed up' "@);
            let r = more(r, l);
            let r = more(r, " '->' "@);
            let r = more(r, b);
            let r = more(r, "; fi; "@);
            let r = more_prefix(r);
            let r = more(r, "mv -- "@);
            let r = more(r, p);
            let r = more(r, " "@);
            let r = more(r, l);
            let r = more(r, " ) && echo installed "@);
            let r = more(r, l);
            let r = more(r, " || { echo FAILED: "@);
            let r = more(r, l);
            more(r, "; fail=1; }"@)
        },
    }
}

/// The first `k` parts of a batch, joined.
proof fn batch_forms(ds: Seq<ConffileDecisionView>, k: nat) -> (r: Forms)
    requires
        1 <= k <= ds.len() + 2,
        forall|i: int|
            0 <= i < ds.len() ==> silent((#[trigger] ds[i]).file.pending_path) && silent(
                ds[i].file.live_path,
            ),
    ensures
        r.with_sudo == text::joined(task::resolve_parts(ds, true).take(k as int), "; "@),
        r.without_sudo == text::joined(task::resolve_parts(ds, false).take(k as int), "; "@),
        k > 1 && ds.len() > 0 ==> r.slots > 0,
        match_up(r),
    decreases k,
{
    lemma_other_texts();
    let t = task::resolve_parts(ds, true);
    let f = task::resolve_parts(ds, false);
    if k == 1 {
        assert(t.take(1)[0] == "fail=0"@ && f.take(1)[0] == "fail=0"@);
        same("fail=0"@)
    } else {
        let r = batch_forms(ds, (k - 1) as nat);
        assert(t.take(k as int).drop_last() =~= t.take(k - 1));
        assert(f.take(k as int).drop_last() =~= f.take(k - 1));
        assert(t.take(k as int).last() == t[k - 1]);
        assert(f.take(k as int).last() == f[k - 1]);
        let r = more(r, "; "@);
        if k - 2 < ds.len() {
            let d = decision_forms(ds[k - 2]);
            assert(t[k - 1] == task::decision_command(ds[k - 2], true));
            assert(f[k - 1] == task::decision_command(ds[k - 2], false));
            then_forms(r, d)
        } else {
            assert(t[k - 1] == "exit $fail"@);
            assert(f[k - 1] == "exit $fail"@);
            more(r, "exit $fail"@)
        }
    }
}

/// No name or path in the task holds "sudo".
pub open spec fn names_no_sudo(kind: TaskKindView) -> bool {
    match kind {
        TaskKindView::UpgradeSecurity(pkgs) => forall|i: int|
            0 <= i < pkgs.len() ==> silent(#[trigger] pkgs[i]),
        TaskKindView::ResolveConffiles(ds) => forall|i: int|
            0 <= i < ds.len() ==> silent((#[trigger] ds[i]).file.pending_path) && silent(
                ds[i].file.live_path,
            ),
        _ => true,
    }
}

proof fn command_forms(kind: TaskKindView) -> (r: Forms)
    requires
        names_no_sudo(kind),
        kind matches TaskKindView::ResolveConffiles(ds) ==> ds.len() > 0,
    ensures
        r.with_sudo == task::command_of(kind, true),
        r.without_sudo == task::command_of(kind, false),
        r.slots > 0,
        match_up(r),
{
    lemma_apt_texts();
    lemma_other_texts();
    let apt = apt_get_forms();
    match kind {
        TaskKindView::Update => more(apt, "update </dev/null 2>&1"@),
        TaskKindView::Upgrade => {
            let r = more(apt, "-y "@);
            let r = more(r, task::DPKG_CONF_OPTS@);
            more(r, " upgrade </dev/null 2>&1"@)
        },
        TaskKindView::UpgradeSecurity(pkgs) => {
            let r = more(apt, "install --only-upgrade -y "@);
            let r = more(r, task::DPKG_CONF_OPTS@);
            let r = more(r, " "@);
            let names = text::joined(pkgs, " "@);
            let tail = " </dev/null 2>&1"@;
            lemma_names_silent(pkgs);
            reveal_strlit(" </dev/null 2>&1");
            lemma_silent_add(names, tail);
            assert((names + tail).last() == tail.last());
            let last = more(r, names + tail);
            assert(r.with_sudo + (names + tail) =~= r.with_sudo + names + tail);
            assert(r.without_sudo + (names + tail) =~= r.without_sudo + names + tail);
            last
        },
        TaskKindView::FullUpgrade => {
            let r = more(apt, "-y "@);
            let r = more(r, task::DPKG_CONF_OPTS@);
            more(r, " full-upgrade </dev/null 2>&1"@)
        },
        TaskKindView::AutoRemove => {
            let r = more(apt, "-y "@);
            let r = more(r, task::DPKG_CONF_OPTS@);
            more(r, " autoremove --purge </dev/null 2>&1"@)
        },
        TaskKindView::PurgeRc => {
            let r = same(
                "pkgs=$(LC_ALL=C dpkg -l | awk '/^rc/{print $2}'); [ -n \"$pkgs\" ] && echo \"$pkgs\" | xargs "@,
            );
            let r = more_prefix(r);
            more(r, "dpkg --purge 2>&1 || echo \"No RC packages to purge\""@)
        },
        TaskKindView::ResolveConffiles(ds) => {
            let n = ds.len() + 2;
            let b = batch_forms(ds, n);
            let t = task::resolve_parts(ds, true);
            let f = task::resolve_parts(ds, false);
            assert(t.take(n as int) =~= t);
            assert(f.take(n as int) =~= f);
            let r = same("{ "@);
            let r = then_forms(r, b);
            more(r, "; } 2>&1"@)
        },
        TaskKindView::Reboot => {
            let r = prefix();
            more(r, "reboot 2>&1"@)
        },
    }
}

/// A command with root is the one without, but for the prefix `sudo -n `: the
/// one without holds no "sudo", the other holds the prefix, and taking the
/// prefix out of it wherever it stands gives the one without. Left out are tasks
/// that name "sudo" themselves, and a batch without decisions, which does
/// nothing as root.
pub proof fn sudo_is_all_that_differs(kind: TaskKindView)
    requires
        names_no_sudo(kind),
        kind matches TaskKindView::ResolveConffiles(ds) ==> ds.len() > 0,
    ensures
        !text::contains(task::command_of(kind, false), "sudo"@),
        text::contains(task::command_of(kind, true), "sudo -n "@),
        text::without(task::command_of(kind, true), "sudo -n "@) == task::command_of(kind, false),
{
    let r = command_forms(kind);
    let parts = choose|parts: Seq<Seq<char>>|
        parts.len() == r.slots + 1 && #[trigger] woven(parts, "sudo -n "@) == r.with_sudo && woven(
            parts,
            ""@,
        ) == r.without_sudo;
    lemma_unwoven(parts);
}

} // verus!
