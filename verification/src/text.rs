//! Text as sequences of characters.
//!
//! Every function is given twice: as a mathematical definition on `Seq<char>`
//! and as executable code on `&[char]`, proved equal to it.

use vstd::prelude::*;

verus! {

/// `String::push` appends one character.
pub assume_specification[ String::push ](s: &mut String, c: char)
    ensures
        final(s)@ == old(s)@.push(c),
;

/// `String::pop` removes the last character and returns it; an empty string
/// stays empty.
pub assume_specification[ String::pop ](s: &mut String) -> (r: Option<char>)
    ensures
        old(s)@.len() == 0 ==> r is None && final(s)@ == old(s)@,
        old(s)@.len() > 0 ==> r == Some(old(s)@.last()) && final(s)@ == old(s)@.drop_last(),
;

/// The result of `str::to_lowercase` on a text that is not all ASCII: the
/// Unicode lowercase mapping of the text.
pub uninterp spec fn unicode_lowercase(s: Seq<char>) -> Seq<char>;

/// ASCII lowercase of one character.
pub open spec fn ascii_lower(c: char) -> char {
    if 'A' <= c && c <= 'Z' {
        (c as u32 + 32) as char
    } else {
        c
    }
}

/// Every character is ASCII.
pub open spec fn ascii_only(s: Seq<char>) -> bool {
    forall|i: int| 0 <= i < s.len() ==> (#[trigger] s[i] as u32) < 128
}

/// The lowercase of a text.
pub open spec fn lowercase(s: Seq<char>) -> Seq<char> {
    if ascii_only(s) {
        s.map_values(|c: char| ascii_lower(c))
    } else {
        unicode_lowercase(s)
    }
}

/// Calls `str::to_lowercase`. On ASCII text it maps `A`..`Z` to `a`..`z` and
/// keeps every other character. On any other text the result is a function of
/// the text alone, of which nothing more is said.
#[verifier::external_body]
pub(crate) fn to_lowercase(s: &str) -> (r: String)
    ensures
        ascii_only(s@) ==> r@ == s@.map_values(|c: char| ascii_lower(c)),
        !ascii_only(s@) ==> r@ == unicode_lowercase(s@),
{
    s.to_lowercase()
}

/// The lowercase of a text.
pub fn lower(s: &str) -> (r: String)
    ensures
        r@ == lowercase(s@),
{
    to_lowercase(s)
}

// ── Conversions ──────────────────────────────────────────────────────────────

/// The characters of a string.
pub fn chars_of(s: &str) -> (r: Vec<char>)
    ensures
        r@ == s@,
{
    let mut r: Vec<char> = Vec::new();
    for c in it: s.chars()
        invariant
            it.seq() == s@,
            r@ == s@.take(it.index() as int),
    {
        r.push(c);
    }
    r
}

/// The string made of the given characters.
pub fn to_text(s: &[char]) -> (r: String)
    ensures
        r@ == s@,
{
    let mut r = String::new();
    let n: usize = s.len();
    let mut i: usize = 0;
    while i < n
        invariant
            n == s@.len(),
            i <= n,
            r@ == s@.take(i as int),
        decreases n - i,
    {
        r.push(s[i]);
        assert(s@.take(i + 1) =~= s@.take(i as int).push(s@[i as int]));
        i += 1;
    }
    assert(s@.take(n as int) =~= s@);
    r
}

// ── Whitespace ───────────────────────────────────────────────────────────────

/// Characters with the Unicode property `White_Space`.
pub open spec fn is_white(c: char) -> bool {
    ||| '\u{9}' <= c && c <= '\u{d}'
    ||| c == ' '
    ||| c == '\u{85}'
    ||| c == '\u{a0}'
    ||| c == '\u{1680}'
    ||| '\u{2000}' <= c && c <= '\u{200a}'
    ||| c == '\u{2028}'
    ||| c == '\u{2029}'
    ||| c == '\u{202f}'
    ||| c == '\u{205f}'
    ||| c == '\u{3000}'
}

pub fn white(c: char) -> (r: bool)
    ensures
        r == is_white(c),
{
    ('\u{9}' <= c && c <= '\u{d}') || c == ' ' || c == '\u{85}' || c == '\u{a0}' || c
        == '\u{1680}' || ('\u{2000}' <= c && c <= '\u{200a}') || c == '\u{2028}' || c
        == '\u{2029}' || c == '\u{202f}' || c == '\u{205f}' || c == '\u{3000}'
}

/// The text without its leading whitespace.
pub open spec fn trimmed_start(s: Seq<char>) -> Seq<char>
    decreases s.len(),
{
    if s.len() > 0 && is_white(s[0]) {
        trimmed_start(s.skip(1))
    } else {
        s
    }
}

/// The text without its trailing whitespace.
pub open spec fn trimmed_end(s: Seq<char>) -> Seq<char>
    decreases s.len(),
{
    if s.len() > 0 && is_white(s.last()) {
        trimmed_end(s.drop_last())
    } else {
        s
    }
}

/// The text without whitespace at either end.
pub open spec fn trimmed(s: Seq<char>) -> Seq<char> {
    trimmed_end(trimmed_start(s))
}

pub fn trim_start(s: &[char]) -> (r: &[char])
    ensures
        r@ == trimmed_start(s@),
{
    let n: usize = s.len();
    let mut i: usize = 0;
    assert(s@.skip(0) =~= s@);
    while i < n && white(s[i])
        invariant
            n == s@.len(),
            i <= n,
            trimmed_start(s@.skip(i as int)) == trimmed_start(s@),
        decreases n - i,
    {
        assert(s@.skip(i as int).skip(1) =~= s@.skip(i + 1));
        i += 1;
    }
    &s[i..n]
}

pub fn trim_end(s: &[char]) -> (r: &[char])
    ensures
        r@ == trimmed_end(s@),
{
    let mut n: usize = s.len();
    assert(s@.take(n as int) =~= s@);
    while n > 0 && white(s[n - 1])
        invariant
            n <= s@.len(),
            trimmed_end(s@.take(n as int)) == trimmed_end(s@),
        decreases n,
    {
        assert(s@.take(n as int).drop_last() =~= s@.take(n - 1));
        n -= 1;
    }
    &s[0..n]
}

pub fn trim(s: &[char]) -> (r: &[char])
    ensures
        r@ == trimmed(s@),
{
    trim_end(trim_start(s))
}

/// The trimmed text as a string.
pub fn trim_text(s: &str) -> (r: String)
    ensures
        r@ == trimmed(s@),
{
    let cs = chars_of(s);
    to_text(trim(cs.as_slice()))
}

/// How many characters stand before the first whitespace.
pub open spec fn word_run(s: Seq<char>) -> nat
    decreases s.len(),
{
    if s.len() > 0 && !is_white(s[0]) {
        1 + word_run(s.skip(1))
    } else {
        0
    }
}

pub proof fn lemma_word_run(s: Seq<char>)
    ensures
        word_run(s) <= s.len(),
        forall|i: int| 0 <= i < word_run(s) ==> !is_white(#[trigger] s[i]),
        word_run(s) < s.len() ==> is_white(s[word_run(s) as int]),
    decreases s.len(),
{
    if s.len() > 0 && !is_white(s[0]) {
        let t = s.skip(1);
        lemma_word_run(t);
        assert forall|i: int| 0 <= i < word_run(s) implies !is_white(#[trigger] s[i]) by {
            if i > 0 {
                assert(s[i] == t[i - 1]);
            }
        }
        if word_run(s) < s.len() {
            assert(s[word_run(s) as int] == t[word_run(t) as int]);
        }
    }
}

/// The words of a text: its maximal runs of characters that are not
/// whitespace, in order.
pub open spec fn words(s: Seq<char>) -> Seq<Seq<char>>
    decreases s.len(),
{
    if s.len() == 0 {
        seq![]
    } else if is_white(s[0]) {
        words(s.skip(1))
    } else {
        let n = word_run(s);
        proof {
            lemma_word_run(s);
        }
        seq![s.take(n as int)] + words(s.skip(n as int))
    }
}

/// The texts that a vector of slices stands for.
pub open spec fn pieces(v: Seq<&[char]>) -> Seq<Seq<char>> {
    v.map_values(|p: &[char]| p@)
}

pub fn split_words(s: &[char]) -> (r: Vec<&[char]>)
    ensures
        pieces(r@) == words(s@),
{
    let n: usize = s.len();
    let mut r: Vec<&[char]> = Vec::new();
    let mut i: usize = 0;
    assert(s@.skip(0) =~= s@);
    assert(pieces(r@) + words(s@) =~= words(s@));
    while i < n
        invariant
            n == s@.len(),
            i <= n,
            pieces(r@) + words(s@.skip(i as int)) == words(s@),
        decreases n - i,
    {
        let ghost rest = s@.skip(i as int);
        if white(s[i]) {
            assert(rest.skip(1) =~= s@.skip(i + 1));
            i += 1;
        } else {
            let mut j: usize = i;
            while j < n && !white(s[j])
                invariant
                    n == s@.len(),
                    i <= j <= n,
                    rest == s@.skip(i as int),
                    word_run(rest) == (j - i) + word_run(s@.skip(j as int)),
                decreases n - j,
            {
                assert(s@.skip(j as int).skip(1) =~= s@.skip(j + 1));
                j += 1;
            }
            let w: &[char] = &s[i..j];
            proof {
                lemma_word_run(rest);
                assert(word_run(rest) == j - i);
                assert(rest.take(j - i) =~= s@.subrange(i as int, j as int));
                assert(rest.skip(j - i) =~= s@.skip(j as int));
                assert(pieces(r@.push(w)) =~= pieces(r@).push(w@));
                assert(pieces(r@).push(w@) + words(s@.skip(j as int)) =~= pieces(r@) + (seq![w@]
                    + words(s@.skip(j as int))));
            }
            r.push(w);
            i = j;
        }
    }
    assert(words(s@.skip(n as int)) =~= seq![]);
    assert(pieces(r@) =~= words(s@));
    r
}

// ── Lines ────────────────────────────────────────────────────────────────────

/// How many characters stand before the first `c`.
pub open spec fn until(s: Seq<char>, c: char) -> nat
    decreases s.len(),
{
    if s.len() > 0 && s[0] != c {
        1 + until(s.skip(1), c)
    } else {
        0
    }
}

pub proof fn lemma_until(s: Seq<char>, c: char)
    ensures
        until(s, c) <= s.len(),
        forall|i: int| 0 <= i < until(s, c) ==> #[trigger] s[i] != c,
        until(s, c) < s.len() ==> s[until(s, c) as int] == c,
    decreases s.len(),
{
    if s.len() > 0 && s[0] != c {
        let t = s.skip(1);
        lemma_until(t, c);
        assert forall|i: int| 0 <= i < until(s, c) implies #[trigger] s[i] != c by {
            if i > 0 {
                assert(s[i] == t[i - 1]);
            }
        }
        if until(s, c) < s.len() {
            assert(s[until(s, c) as int] == t[until(t, c) as int]);
        }
    }
}

/// Where `c` first stands in `s`, or the length of `s` if it does not.
pub fn find_char(s: &[char], c: char) -> (r: usize)
    ensures
        r == until(s@, c),
        r <= s@.len(),
{
    let n: usize = s.len();
    let mut i: usize = 0;
    assert(s@.skip(0) =~= s@);
    while i < n && s[i] != c
        invariant
            n == s@.len(),
            i <= n,
            until(s@, c) == i + until(s@.skip(i as int), c),
        decreases n - i,
    {
        assert(s@.skip(i as int).skip(1) =~= s@.skip(i + 1));
        i += 1;
    }
    i
}

/// A line without the carriage return of a `\r\n` line ending.
pub open spec fn strip_cr(s: Seq<char>) -> Seq<char> {
    if s.len() > 0 && s.last() == '\r' {
        s.drop_last()
    } else {
        s
    }
}

/// The lines of a text. A line ends in `\n` or `\r\n`; the last one may lack
/// its ending.
pub open spec fn lines(s: Seq<char>) -> Seq<Seq<char>>
    decreases s.len(),
{
    if s.len() == 0 {
        seq![]
    } else {
        let n = until(s, '\n');
        if n >= s.len() {
            seq![s]
        } else {
            seq![strip_cr(s.take(n as int))] + lines(s.skip(n as int + 1))
        }
    }
}

pub fn split_lines(s: &[char]) -> (r: Vec<&[char]>)
    ensures
        pieces(r@) == lines(s@),
{
    let n: usize = s.len();
    let mut r: Vec<&[char]> = Vec::new();
    let mut i: usize = 0;
    assert(s@.skip(0) =~= s@);
    assert(pieces(r@) + lines(s@) =~= lines(s@));
    while i < n
        invariant
            n == s@.len(),
            i <= n,
            pieces(r@) + lines(s@.skip(i as int)) == lines(s@),
        decreases n - i,
    {
        let ghost rest = s@.skip(i as int);
        let k: usize = find_char(&s[i..n], '\n');
        assert(s@.subrange(i as int, n as int) =~= rest);
        if k >= n - i {
            let l: &[char] = &s[i..n];
            assert(pieces(r@.push(l)) =~= pieces(r@).push(l@));
            assert(pieces(r@).push(l@) =~= pieces(r@) + seq![rest]);
            r.push(l);
            i = n;
            assert(lines(s@.skip(n as int)) =~= seq![]);
            assert(pieces(r@) + lines(s@.skip(n as int)) =~= pieces(r@));
        } else {
            let l: &[char] = if k > 0 && s[i + k - 1] == '\r' {
                &s[i..i + k - 1]
            } else {
                &s[i..i + k]
            };
            proof {
                let t = rest.take(k as int);
                assert(t =~= s@.subrange(i as int, i + k));
                if k > 0 {
                    assert(t.last() == s@[i + k - 1]);
                }
                assert(l@ =~= strip_cr(t));
                assert(rest.skip(k + 1) =~= s@.skip(i + k + 1));
                assert(pieces(r@.push(l)) =~= pieces(r@).push(l@));
                assert(pieces(r@).push(l@) + lines(s@.skip(i + k + 1)) =~= pieces(r@) + (seq![l@]
                    + lines(s@.skip(i + k + 1))));
            }
            r.push(l);
            i = i + k + 1;
        }
    }
    assert(lines(s@.skip(n as int)) =~= seq![]);
    assert(pieces(r@) =~= lines(s@));
    r
}

/// The lines of a text, as texts of their own.
pub fn lines_of(s: &str) -> (r: Vec<String>)
    ensures
        r.deep_view() == lines(s@),
{
    let cs = chars_of(s);
    let parts = split_lines(cs.as_slice());
    let ghost all = pieces(parts@);
    let n: usize = parts.len();
    let mut r: Vec<String> = Vec::new();
    let mut i: usize = 0;
    while i < n
        invariant
            n == parts@.len(),
            all == pieces(parts@),
            i <= n,
            r.deep_view() =~= all.take(i as int),
        decreases n - i,
    {
        let ghost before = r.deep_view();
        r.push(to_text(parts[i]));
        assert(r.deep_view() =~= before.push(all[i as int]));
        i += 1;
    }
    assert(all.take(n as int) =~= all);
    r
}

// ── Searching ────────────────────────────────────────────────────────────────

/// `pat` stands in `s` at position `i`.
pub open spec fn occurs_at(s: Seq<char>, pat: Seq<char>, i: int) -> bool {
    &&& 0 <= i
    &&& i + pat.len() <= s.len()
    &&& s.subrange(i, i + pat.len()) == pat
}

/// `pat` stands somewhere in `s`.
pub open spec fn contains(s: Seq<char>, pat: Seq<char>) -> bool {
    exists|i: int| occurs_at(s, pat, i)
}

/// The first position at or after `from` where `pat` stands in `s`.
pub open spec fn find_from(s: Seq<char>, pat: Seq<char>, from: int) -> Option<int>
    decreases s.len() - from + 1,
{
    if from + pat.len() > s.len() {
        None
    } else if occurs_at(s, pat, from) {
        Some(from)
    } else {
        find_from(s, pat, from + 1)
    }
}

/// The last position at or before `from` where `pat` stands in `s`.
pub open spec fn rfind_from(s: Seq<char>, pat: Seq<char>, from: int) -> Option<int>
    decreases from + 1,
{
    if from < 0 {
        None
    } else if occurs_at(s, pat, from) {
        Some(from)
    } else {
        rfind_from(s, pat, from - 1)
    }
}

/// The first position where `pat` stands in `s`.
pub open spec fn find(s: Seq<char>, pat: Seq<char>) -> Option<int> {
    find_from(s, pat, 0)
}

/// The last position where `pat` stands in `s`.
pub open spec fn rfind(s: Seq<char>, pat: Seq<char>) -> Option<int> {
    rfind_from(s, pat, s.len() - pat.len())
}

/// `find_from` gives the least position at which `pat` occurs.
pub proof fn lemma_find_from(s: Seq<char>, pat: Seq<char>, from: int)
    requires
        0 <= from,
    ensures
        match find_from(s, pat, from) {
            Some(i) => from <= i && occurs_at(s, pat, i) && forall|j: int|
                from <= j < i ==> !occurs_at(s, pat, j),
            None => forall|j: int| from <= j ==> !occurs_at(s, pat, j),
        },
    decreases s.len() - from + 1,
{
    if from + pat.len() <= s.len() && !occurs_at(s, pat, from) {
        lemma_find_from(s, pat, from + 1);
    }
}

/// `rfind_from` gives the greatest position at which `pat` occurs.
pub proof fn lemma_rfind_from(s: Seq<char>, pat: Seq<char>, from: int)
    ensures
        match rfind_from(s, pat, from) {
            Some(i) => i <= from && occurs_at(s, pat, i) && forall|j: int|
                i < j <= from ==> !occurs_at(s, pat, j),
            None => forall|j: int| j <= from ==> !occurs_at(s, pat, j),
        },
    decreases from + 1,
{
    if from >= 0 && !occurs_at(s, pat, from) {
        lemma_rfind_from(s, pat, from - 1);
    }
}

pub fn matches_at(s: &[char], pat: &[char], i: usize) -> (r: bool)
    requires
        i + pat@.len() <= s@.len(),
    ensures
        r == occurs_at(s@, pat@, i as int),
{
    let n: usize = s.len();
    let m: usize = pat.len();
    let mut k: usize = 0;
    while k < m
        invariant
            n == s@.len(),
            m == pat@.len(),
            k <= m,
            i + m <= s@.len(),
            forall|j: int| 0 <= j < k ==> s@[i + j] == #[trigger] pat@[j],
        decreases m - k,
    {
        if s[i + k] != pat[k] {
            assert(s@.subrange(i as int, i + m)[k as int] != pat@[k as int]);
            return false;
        }
        k += 1;
    }
    assert(s@.subrange(i as int, i + m) =~= pat@);
    true
}

pub fn position(s: &[char], pat: &[char]) -> (r: Option<usize>)
    ensures
        match r {
            Some(i) => find(s@, pat@) == Some(i as int) && i + pat@.len() <= s@.len(),
            None => find(s@, pat@) is None,
        },
{
    let n: usize = s.len();
    let m: usize = pat.len();
    let mut i: usize = 0;
    while m <= n && i <= n - m
        invariant
            n == s@.len(),
            m == pat@.len(),
            m <= n ==> i <= n - m + 1,
            find(s@, pat@) == find_from(s@, pat@, i as int),
        decreases n - i + 1,
    {
        if matches_at(s, pat, i) {
            return Some(i);
        }
        if i == n - m {
            assert(find_from(s@, pat@, i + 1) is None);
            return None;
        }
        i += 1;
    }
    None
}

pub fn last_position(s: &[char], pat: &[char]) -> (r: Option<usize>)
    ensures
        match r {
            Some(i) => rfind(s@, pat@) == Some(i as int) && i + pat@.len() <= s@.len(),
            None => rfind(s@, pat@) is None,
        },
{
    let n: usize = s.len();
    let m: usize = pat.len();
    if m > n {
        return None;
    }
    let mut i: usize = n - m;
    loop
        invariant
            n == s@.len(),
            m == pat@.len(),
            m <= n,
            i <= n - m,
            rfind(s@, pat@) == rfind_from(s@, pat@, i as int),
        decreases i,
    {
        if matches_at(s, pat, i) {
            return Some(i);
        }
        if i == 0 {
            assert(rfind_from(s@, pat@, -1) is None);
            return None;
        }
        i -= 1;
    }
}

pub fn has(s: &[char], pat: &str) -> (r: bool)
    ensures
        r == contains(s@, pat@),
{
    let p = chars_of(pat);
    proof {
        lemma_find_from(s@, pat@, 0);
    }
    position(s, p.as_slice()).is_some()
}

/// `s` begins with `pat`.
pub open spec fn begins(s: Seq<char>, pat: Seq<char>) -> bool {
    occurs_at(s, pat, 0)
}

/// `s` ends in `pat`.
pub open spec fn ends(s: Seq<char>, pat: Seq<char>) -> bool {
    occurs_at(s, pat, s.len() - pat.len())
}

pub fn starts_with(s: &[char], pat: &str) -> (r: bool)
    ensures
        r == begins(s@, pat@),
{
    let p = chars_of(pat);
    p.len() <= s.len() && matches_at(s, p.as_slice(), 0)
}

pub fn ends_with(s: &[char], pat: &str) -> (r: bool)
    ensures
        r == ends(s@, pat@),
{
    let p = chars_of(pat);
    p.len() <= s.len() && matches_at(s, p.as_slice(), s.len() - p.len())
}

/// Two texts are the same.
pub fn same(a: &[char], b: &[char]) -> (r: bool)
    ensures
        r == (a@ == b@),
{
    if a.len() != b.len() {
        return false;
    }
    let r = matches_at(a, b, 0);
    assert(a@.subrange(0, a@.len() as int) =~= a@);
    r
}

pub fn same_text(a: &str, b: &str) -> (r: bool)
    ensures
        r == (a@ == b@),
{
    let x = chars_of(a);
    let y = chars_of(b);
    same(x.as_slice(), y.as_slice())
}

/// The text without the `c`s at its end.
pub open spec fn without_trailing(s: Seq<char>, c: char) -> Seq<char>
    decreases s.len(),
{
    if s.len() > 0 && s.last() == c {
        without_trailing(s.drop_last(), c)
    } else {
        s
    }
}

pub fn strip_trailing(s: &str, c: char) -> (r: String)
    ensures
        r@ == without_trailing(s@, c),
{
    let cs = chars_of(s);
    let mut n: usize = cs.len();
    assert(s@.take(n as int) =~= s@);
    while n > 0 && cs[n - 1] == c
        invariant
            cs@ == s@,
            n <= cs@.len(),
            without_trailing(s@.take(n as int), c) == without_trailing(s@, c),
        decreases n,
    {
        assert(s@.take(n as int).drop_last() =~= s@.take(n - 1));
        n -= 1;
    }
    assert(cs@.subrange(0, n as int) =~= s@.take(n as int));
    to_text(&cs.as_slice()[0..n])
}

/// The text without the occurrences of `pat`, each looked for behind the last.
pub open spec fn without(s: Seq<char>, pat: Seq<char>) -> Seq<char>
    decreases s.len(),
{
    match find(s, pat) {
        Some(i) if pat.len() > 0 && 0 <= i && i + pat.len() <= s.len() => s.take(i) + without(
            s.skip(i + pat.len()),
            pat,
        ),
        _ => s,
    }
}

/// The text without the copies of `pat` at its start.
pub open spec fn without_leading(s: Seq<char>, pat: Seq<char>) -> Seq<char>
    decreases s.len(),
{
    if pat.len() > 0 && begins(s, pat) {
        without_leading(s.skip(pat.len() as int), pat)
    } else {
        s
    }
}

pub fn strip_leading(s: &str, pat: &str) -> (r: String)
    requires
        pat@.len() > 0,
    ensures
        r@ == without_leading(s@, pat@),
{
    let cs = chars_of(s);
    let n: usize = cs.len();
    let k: usize = pat.unicode_len();
    let mut i: usize = 0;
    assert(s@.skip(0) =~= s@);
    assert(cs@.subrange(0, n as int) =~= s@);
    while starts_with(&cs.as_slice()[i..n], pat)
        invariant
            cs@ == s@,
            n == cs@.len(),
            k == pat@.len(),
            k > 0,
            i <= n,
            cs@.subrange(i as int, n as int) == s@.skip(i as int),
            without_leading(s@.skip(i as int), pat@) == without_leading(s@, pat@),
        decreases n - i,
    {
        assert(s@.skip(i as int).skip(k as int) =~= s@.skip(i + k));
        i = i + k;
        assert(cs@.subrange(i as int, n as int) =~= s@.skip(i as int));
    }
    to_text(&cs.as_slice()[i..n])
}

// ── Building ─────────────────────────────────────────────────────────────────

pub open spec fn digit(d: nat) -> char {
    if d == 0 { '0' } else if d == 1 { '1' } else if d == 2 { '2' } else if d == 3 { '3' }
    else if d == 4 { '4' } else if d == 5 { '5' } else if d == 6 { '6' } else if d == 7 { '7' }
    else if d == 8 { '8' } else { '9' }
}

fn digit_char(d: u64) -> (r: char)
    requires
        d < 10,
    ensures
        r == digit(d as nat),
{
    if d == 0 { '0' } else if d == 1 { '1' } else if d == 2 { '2' } else if d == 3 { '3' }
    else if d == 4 { '4' } else if d == 5 { '5' } else if d == 6 { '6' } else if d == 7 { '7' }
    else if d == 8 { '8' } else { '9' }
}

/// A number in decimal notation.
pub open spec fn decimal(n: nat) -> Seq<char>
    decreases n,
{
    if n < 10 {
        seq![digit(n)]
    } else {
        decimal(n / 10).push(digit(n % 10))
    }
}

/// A signed number in decimal notation.
pub open spec fn signed_decimal(n: int) -> Seq<char> {
    if n < 0 {
        seq!['-'] + decimal((-n) as nat)
    } else {
        decimal(n as nat)
    }
}

pub fn number(n: u64) -> (r: String)
    ensures
        r@ == decimal(n as nat),
    decreases n,
{
    if n < 10 {
        let mut r = String::new();
        r.push(digit_char(n));
        assert(r@ =~= seq![digit(n as nat)]);
        r
    } else {
        let mut r = number(n / 10);
        r.push(digit_char(n % 10));
        r
    }
}

pub fn signed_number(n: i32) -> (r: String)
    ensures
        r@ == signed_decimal(n as int),
{
    if n < 0 {
        let mut r = String::new();
        r.push('-');
        let m: u64 = (-(n as i64)) as u64;
        r.append(number(m).as_str());
        assert(r@ =~= seq!['-'] + decimal((-n) as nat));
        r
    } else {
        number(n as u64)
    }
}

/// The parts one after the other, with `sep` between neighbours.
pub open spec fn joined(parts: Seq<Seq<char>>, sep: Seq<char>) -> Seq<char>
    decreases parts.len(),
{
    if parts.len() == 0 {
        seq![]
    } else if parts.len() == 1 {
        parts[0]
    } else {
        joined(parts.drop_last(), sep) + sep + parts.last()
    }
}

pub fn join(parts: &Vec<String>, sep: &str) -> (r: String)
    ensures
        r@ == joined(parts.deep_view(), sep@),
{
    let n: usize = parts.len();
    let ghost all = parts.deep_view();
    let mut r = String::new();
    let mut i: usize = 0;
    while i < n
        invariant
            n == parts@.len(),
            all == parts.deep_view(),
            i <= n,
            r@ == joined(all.take(i as int), sep@),
        decreases n - i,
    {
        if i > 0 {
            r.append(sep);
        }
        r.append(parts[i].as_str());
        proof {
            let t = all.take(i + 1);
            assert(t.drop_last() =~= all.take(i as int));
            assert(t.last() == parts@[i as int]@);
            if i == 0 {
                assert(r@ =~= t[0]);
            }
        }
        i += 1;
    }
    assert(all.take(n as int) =~= all);
    r
}

/// The text, with blanks appended up to a width of `width` characters.
pub open spec fn padded(s: Seq<char>, width: nat) -> Seq<char>
    decreases width,
{
    if width <= s.len() || width == 0 {
        s
    } else {
        padded(s, (width - 1) as nat).push(' ')
    }
}

pub fn pad_right(s: &str, width: usize) -> (r: String)
    ensures
        r@ == padded(s@, width as nat),
    decreases width,
{
    if width <= s.unicode_len() || width == 0 {
        s.to_string()
    } else {
        let mut r = pad_right(s, width - 1);
        r.push(' ');
        r
    }
}

/// The concatenation of two texts.
pub fn cat(a: &str, b: &str) -> (r: String)
    ensures
        r@ == a@ + b@,
{
    let mut r = a.to_string();
    r.append(b);
    r
}

// ── Facts ────────────────────────────────────────────────────────────────────

/// ASCII text stays ASCII when it is trimmed.
pub proof fn lemma_trimmed_ascii(s: Seq<char>)
    requires
        ascii_only(s),
    ensures
        ascii_only(trimmed(s)),
{
    lemma_trimmed_start_ascii(s);
    lemma_trimmed_end_ascii(trimmed_start(s));
}

proof fn lemma_trimmed_start_ascii(s: Seq<char>)
    requires
        ascii_only(s),
    ensures
        ascii_only(trimmed_start(s)),
    decreases s.len(),
{
    if s.len() > 0 && is_white(s[0]) {
        let rest = s.skip(1);
        assert(forall|i: int| 0 <= i < rest.len() ==> rest[i] == s[i + 1]);
        lemma_trimmed_start_ascii(rest);
    }
}

proof fn lemma_trimmed_end_ascii(s: Seq<char>)
    requires
        ascii_only(s),
    ensures
        ascii_only(trimmed_end(s)),
    decreases s.len(),
{
    if s.len() > 0 && is_white(s.last()) {
        lemma_trimmed_end_ascii(s.drop_last());
    }
}

/// Trimming and lowering the case of ASCII text can be done in either order.
pub proof fn lemma_trimmed_lowercase(s: Seq<char>)
    requires
        ascii_only(s),
    ensures
        trimmed(lowercase(s)) == lowercase(trimmed(s)),
{
    lemma_trimmed_start_lowercase(s);
    lemma_trimmed_start_ascii(s);
    lemma_trimmed_end_lowercase(trimmed_start(s));
}

proof fn lemma_trimmed_start_lowercase(s: Seq<char>)
    requires
        ascii_only(s),
    ensures
        trimmed_start(lowercase(s)) == lowercase(trimmed_start(s)),
    decreases s.len(),
{
    if s.len() > 0 && is_white(s[0]) {
        let rest = s.skip(1);
        assert(ascii_only(rest)) by {
            assert(forall|i: int| 0 <= i < rest.len() ==> rest[i] == s[i + 1]);
        }
        lemma_trimmed_start_lowercase(rest);
        assert(lowercase(s).skip(1) =~= lowercase(rest));
    }
}

proof fn lemma_trimmed_end_lowercase(s: Seq<char>)
    requires
        ascii_only(s),
    ensures
        trimmed_end(lowercase(s)) == lowercase(trimmed_end(s)),
    decreases s.len(),
{
    if s.len() > 0 && is_white(s.last()) {
        let rest = s.drop_last();
        assert(ascii_only(rest));
        lemma_trimmed_end_lowercase(rest);
        assert(lowercase(s).drop_last() =~= lowercase(rest));
    }
}

/// A text that stands between two others is found in the whole.
pub proof fn lemma_contains_middle(a: Seq<char>, pat: Seq<char>, b: Seq<char>)
    ensures
        contains(a + pat + b, pat),
{
    let s = a + pat + b;
    assert(s.subrange(a.len() as int, (a.len() + pat.len()) as int) =~= pat);
    assert(occurs_at(s, pat, a.len() as int));
}

/// A text that is found in a part is found in the whole.
pub proof fn lemma_contains_within(s: Seq<char>, part: Seq<char>, pat: Seq<char>)
    requires
        contains(s, part),
        contains(part, pat),
    ensures
        contains(s, pat),
{
    let i = choose|i: int| occurs_at(s, part, i);
    let j = choose|j: int| occurs_at(part, pat, j);
    assert(s.subrange(i + j, i + j + pat.len()) =~= part.subrange(j, j + pat.len()));
    assert(occurs_at(s, pat, i + j));
}

/// A number is written in digits.
pub proof fn lemma_decimal_digits(n: nat)
    ensures
        decimal(n).len() > 0,
        forall|i: int| 0 <= i < decimal(n).len() ==> '0' <= #[trigger] decimal(n)[i] <= '9',
    decreases n,
{
    if n >= 10 {
        lemma_decimal_digits(n / 10);
    }
}

/// Different numbers are written differently.
pub proof fn lemma_decimal_injective(m: nat, n: nat)
    requires
        decimal(m) == decimal(n),
    ensures
        m == n,
    decreases m,
{
    lemma_decimal_digits(m / 10);
    lemma_decimal_digits(n / 10);
    assert(decimal(m).last() == digit(m % 10));
    assert(decimal(n).last() == digit(n % 10));
    assert(m % 10 == n % 10);
    if m >= 10 && n >= 10 {
        assert(decimal(m).drop_last() =~= decimal(m / 10));
        assert(decimal(n).drop_last() =~= decimal(n / 10));
        lemma_decimal_injective(m / 10, n / 10);
    } else if m >= 10 {
        assert(decimal(m).len() > 1);
    } else if n >= 10 {
        assert(decimal(n).len() > 1);
    }
}

/// No character of the text is whitespace.
pub open spec fn no_white(s: Seq<char>) -> bool {
    forall|i: int| 0 <= i < s.len() ==> !is_white(#[trigger] s[i])
}

/// Every character of the text is whitespace.
pub open spec fn all_white(s: Seq<char>) -> bool {
    forall|i: int| 0 <= i < s.len() ==> is_white(#[trigger] s[i])
}

/// The text has something in it, and no whitespace at its ends.
pub open spec fn tight(s: Seq<char>) -> bool {
    s.len() > 0 && !is_white(s[0]) && !is_white(s.last())
}

/// A character that is in none of the front is found right behind it.
pub proof fn lemma_until_at(a: Seq<char>, c: char, b: Seq<char>)
    requires
        !a.contains(c),
    ensures
        until(a + seq![c] + b, c) == a.len(),
    decreases a.len(),
{
    let s = a + seq![c] + b;
    if a.len() == 0 {
        assert(s[0] == c);
    } else {
        assert(a.contains(a[0]));
        assert(s.skip(1) =~= a.skip(1) + seq![c] + b);
        assert(!a.skip(1).contains(c)) by {
            if a.skip(1).contains(c) {
                let k = choose|k: int| 0 <= k < a.skip(1).len() && a.skip(1)[k] == c;
                assert(a[k + 1] == c);
            }
        }
        lemma_until_at(a.skip(1), c, b);
    }
}

pub proof fn lemma_until_none(a: Seq<char>, c: char)
    requires
        !a.contains(c),
    ensures
        until(a, c) == a.len(),
{
    lemma_until(a, c);
    if until(a, c) < a.len() {
        assert(a.contains(a[until(a, c) as int]));
    }
}

/// Trimming takes off whitespace at the ends and nothing else.
pub proof fn lemma_trimmed_around(a: Seq<char>, s: Seq<char>, b: Seq<char>)
    requires
        all_white(a),
        all_white(b),
        tight(s),
    ensures
        trimmed(a + s + b) == s,
{
    lemma_trimmed_front(a, s + b);
    assert(a + s + b =~= a + (s + b));
    lemma_trimmed_back(s, b);
}

proof fn lemma_trimmed_front(a: Seq<char>, s: Seq<char>)
    requires
        all_white(a),
        s.len() > 0,
        !is_white(s[0]),
    ensures
        trimmed_start(a + s) == s,
    decreases a.len(),
{
    if a.len() == 0 {
        assert(a + s =~= s);
    } else {
        assert((a + s).skip(1) =~= a.skip(1) + s);
        assert(forall|i: int| 0 <= i < a.skip(1).len() ==> a.skip(1)[i] == a[i + 1]);
        assert(is_white(a[0]));
        lemma_trimmed_front(a.skip(1), s);
    }
}

proof fn lemma_trimmed_back(s: Seq<char>, b: Seq<char>)
    requires
        all_white(b),
        s.len() > 0,
        !is_white(s.last()),
    ensures
        trimmed_end(s + b) == s,
    decreases b.len(),
{
    if b.len() == 0 {
        assert(s + b =~= s);
    } else {
        assert((s + b).drop_last() =~= s + b.drop_last());
        assert((s + b).last() == b.last());
        assert(is_white(b[b.len() - 1]));
        lemma_trimmed_back(s, b.drop_last());
    }
}

pub proof fn lemma_trimmed_tight(s: Seq<char>)
    requires
        tight(s),
    ensures
        trimmed(s) == s,
{
    lemma_trimmed_around(seq![], s, seq![]);
    assert(seq![] + s + seq![] =~= s);
}

pub proof fn lemma_trimmed_blank(s: Seq<char>)
    requires
        all_white(s),
    ensures
        trimmed(s).len() == 0,
{
    lemma_trimmed_start_blank(s);
}

proof fn lemma_trimmed_start_blank(s: Seq<char>)
    requires
        all_white(s),
    ensures
        trimmed_start(s).len() == 0,
    decreases s.len(),
{
    if s.len() > 0 {
        assert(is_white(s[0]));
        assert(forall|i: int| 0 <= i < s.skip(1).len() ==> s.skip(1)[i] == s[i + 1]);
        lemma_trimmed_start_blank(s.skip(1));
    }
}

/// Leading whitespace does not change the words.
pub proof fn lemma_words_skip(a: Seq<char>, s: Seq<char>)
    requires
        all_white(a),
    ensures
        words(a + s) == words(s),
    decreases a.len(),
{
    if a.len() == 0 {
        assert(a + s =~= s);
    } else {
        assert(is_white(a[0]));
        assert((a + s).skip(1) =~= a.skip(1) + s);
        assert(forall|i: int| 0 <= i < a.skip(1).len() ==> a.skip(1)[i] == a[i + 1]);
        lemma_words_skip(a.skip(1), s);
    }
}

/// A word that ends the text, or is followed by whitespace, is the first word.
pub proof fn lemma_words_first(w: Seq<char>, rest: Seq<char>)
    requires
        w.len() > 0,
        no_white(w),
        rest.len() > 0 ==> is_white(rest[0]),
    ensures
        words(w + rest) == seq![w] + words(rest),
{
    let s = w + rest;
    lemma_word_run(s);
    let n = word_run(s);
    assert(!is_white(w[0]));
    if n < w.len() {
        assert(is_white(s[n as int]));
        assert(s[n as int] == w[n as int]);
    }
    if n > w.len() {
        assert(!is_white(s[w.len() as int]));
        assert(s[w.len() as int] == rest[0]);
    }
    assert(s.take(n as int) =~= w);
    assert(s.skip(n as int) =~= rest);
}

/// Whitespace between two texts keeps their words apart.
pub proof fn lemma_words_split(a: Seq<char>, b: Seq<char>)
    requires
        b.len() > 0 ==> is_white(b[0]),
    ensures
        words(a + b) == words(a) + words(b),
    decreases a.len(),
{
    if a.len() == 0 {
        assert(a + b =~= b);
        assert(words(a) + words(b) =~= words(b));
    } else if is_white(a[0]) {
        assert((a + b).skip(1) =~= a.skip(1) + b);
        lemma_words_split(a.skip(1), b);
    } else {
        lemma_word_run(a);
        let n = word_run(a) as int;
        let w = a.take(n);
        let rest = a.skip(n);
        assert(no_white(w)) by {
            assert(forall|i: int| 0 <= i < n ==> w[i] == a[i]);
        }
        assert(a =~= w + rest);
        assert(rest.len() > 0 ==> rest[0] == a[n]);
        lemma_words_first(w, rest);
        assert(a + b =~= w + (rest + b));
        assert((rest + b).len() > 0 ==> (rest + b)[0] == if rest.len() > 0 {
            rest[0]
        } else {
            b[0]
        });
        lemma_words_first(w, rest + b);
        lemma_words_split(rest, b);
        assert(seq![w] + (words(rest) + words(b)) =~= seq![w] + words(rest) + words(b));
    }
}

/// Words put together with blanks between are the words of the whole.
pub proof fn lemma_words_joined(ws: Seq<Seq<char>>)
    requires
        forall|i: int| 0 <= i < ws.len() ==> (#[trigger] ws[i]).len() > 0 && no_white(ws[i]),
    ensures
        words(joined(ws, " "@)) == ws,
{
    lemma_words_joined_then(ws, seq![]);
    assert(joined(ws, " "@) + seq![] =~= joined(ws, " "@));
    assert(words(seq![]) =~= seq![]);
    assert(ws + seq![] =~= ws);
}

proof fn lemma_words_joined_then(ws: Seq<Seq<char>>, rest: Seq<char>)
    requires
        forall|i: int| 0 <= i < ws.len() ==> (#[trigger] ws[i]).len() > 0 && no_white(ws[i]),
        rest.len() > 0 ==> is_white(rest[0]),
    ensures
        words(joined(ws, " "@) + rest) == ws + words(rest),
    decreases ws.len(),
{
    reveal_strlit(" ");
    if ws.len() == 0 {
        assert(joined(ws, " "@) + rest =~= rest);
        assert(ws + words(rest) =~= words(rest));
    } else if ws.len() == 1 {
        lemma_words_first(ws[0], rest);
        assert(ws =~= seq![ws[0]]);
    } else {
        let front = ws.drop_last();
        let last = ws.last();
        assert(ws[ws.len() - 1] == last);
        lemma_words_first(last, rest);
        lemma_words_skip(" "@, last + rest);
        lemma_words_joined_then(front, " "@ + (last + rest));
        assert(joined(ws, " "@) + rest =~= joined(front, " "@) + (" "@ + (last + rest)));
        assert(ws =~= front + seq![last]);
        assert(front + (seq![last] + words(rest)) =~= ws + words(rest));
    }
}

/// The lines of a text up to and with a line ending, and of what follows it,
/// make up the lines of the whole.
pub proof fn lemma_lines_split(x: Seq<char>, y: Seq<char>)
    ensures
        lines(x + seq!['\n'] + y) == lines(x + seq!['\n']) + lines(y),
    decreases x.len(),
{
    let head = x + seq!['\n'];
    let s = head + y;
    let n = until(x, '\n');
    lemma_until(x, '\n');
    if n >= x.len() {
        assert(!x.contains('\n')) by {
            if x.contains('\n') {
                let k = choose|k: int| 0 <= k < x.len() && x[k] == '\n';
                assert(x[k] != '\n');
            }
        }
        lemma_until_at(x, '\n', y);
        lemma_until_at(x, '\n', seq![]);
        assert(x + seq!['\n'] + seq![] =~= head);
        assert(s.take(x.len() as int) =~= x);
        assert(head.take(x.len() as int) =~= x);
        assert(s.skip(x.len() as int + 1) =~= y);
        assert(head.skip(x.len() as int + 1) =~= seq![]);
        assert(lines(head.skip(x.len() as int + 1)) =~= seq![]);
        assert(lines(head) =~= seq![strip_cr(x)]);
        assert(lines(s) =~= lines(head) + lines(y));
    } else {
        let a = x.take(n as int);
        let b = x.skip(n as int + 1);
        assert(!a.contains('\n')) by {
            if a.contains('\n') {
                let k = choose|k: int| 0 <= k < a.len() && a[k] == '\n';
                assert(x[k] != '\n');
            }
        }
        lemma_until_at(a, '\n', b + seq!['\n'] + y);
        lemma_until_at(a, '\n', b + seq!['\n']);
        assert(s =~= a + seq!['\n'] + (b + seq!['\n'] + y));
        assert(head =~= a + seq!['\n'] + (b + seq!['\n']));
        assert(s.take(n as int) =~= a && head.take(n as int) =~= a);
        assert(s.skip(n as int + 1) =~= b + seq!['\n'] + y);
        assert(head.skip(n as int + 1) =~= b + seq!['\n']);
        lemma_lines_split(b, y);
        assert(lines(s) =~= lines(head) + lines(y));
    }
}

/// A text without a line ending is one line, unless it is empty.
pub proof fn lemma_lines_one(x: Seq<char>)
    requires
        x.len() > 0,
        !x.contains('\n'),
    ensures
        lines(x) == seq![x],
{
    lemma_until_none(x, '\n');
}

/// The number that a text of digits stands for.
pub open spec fn value(s: Seq<char>) -> nat
    decreases s.len(),
{
    if s.len() == 0 {
        0
    } else {
        10 * value(s.drop_last()) + (s.last() as u32 - '0' as u32) as nat
    }
}

/// A number in decimal is read as that number, and has no leading zero.
pub proof fn decimal_is_read_back(n: nat)
    ensures
        value(decimal(n)) == n,
        n > 0 ==> decimal(n)[0] != '0',
        decimal(0) == seq!['0'],
    decreases n,
{
    reveal_with_fuel(value, 2);
    if n < 10 {
        assert(decimal(n).drop_last() =~= Seq::<char>::empty());
    } else {
        decimal_is_read_back(n / 10);
        lemma_decimal_digits(n / 10);
        assert(decimal(n).drop_last() =~= decimal(n / 10));
        assert(decimal(n).last() == digit(n % 10));
        assert(decimal(n)[0] == decimal(n / 10)[0]);
    }
    assert(decimal(0) =~= seq!['0']);
}

/// A negative number has a minus sign in front.
pub proof fn signed_decimal_has_a_sign(n: int)
    ensures
        n >= 0 ==> signed_decimal(n) == decimal(n as nat),
        n < 0 ==> signed_decimal(n) == seq!['-'] + decimal((-n) as nat),
{
    reveal_strlit("-");
    if n < 0 {
        assert(signed_decimal(n) =~= seq!['-'] + decimal((-n) as nat));
    }
}

/// Joining two lists of parts is joining each and putting the separator between.
pub proof fn joining_is_done_part_by_part(
    a: Seq<Seq<char>>,
    b: Seq<Seq<char>>,
    sep: Seq<char>,
)
    requires
        a.len() > 0,
        b.len() > 0,
    ensures
        joined(a + b, sep) == joined(a, sep) + sep + joined(b, sep),
        a.len() == 1 ==> joined(a, sep) == a[0],
        joined(Seq::<Seq<char>>::empty(), sep) == Seq::<char>::empty(),
    decreases b.len(),
{
    let s = a + b;
    assert(s.drop_last() =~= a + b.drop_last());
    assert(s.last() == b.last());
    if b.len() == 1 {
        assert(a + b.drop_last() =~= a);
    } else {
        joining_is_done_part_by_part(a, b.drop_last(), sep);
        assert(joined(s, sep) =~= joined(a, sep) + sep + joined(b, sep));
    }
}

/// A carriage return in front of a line ending belongs to the ending; elsewhere
/// it belongs to the line.
pub proof fn carriage_returns_belong_to_line_endings(x: Seq<char>)
    requires
        !x.contains('\n'),
        x.len() == 0 || x.last() != '\r',
    ensures
        lines(x + seq!['\n']) == seq![x],
        lines(x + seq!['\r', '\n']) == seq![x],
        lines(x + seq!['\r']) == seq![x + seq!['\r']],
{
    let none = Seq::<char>::empty();
    assert(lines(none) =~= seq![]);
    lemma_until_at(x, '\n', none);
    let a = x + seq!['\n'] + none;
    assert(a =~= x + seq!['\n']);
    assert(a.take(x.len() as int) =~= x && a.skip(x.len() as int + 1) =~= none);
    assert(lines(a) =~= seq![x]);
    let y = x + seq!['\r'];
    assert(!y.contains('\n')) by {
        if y.contains('\n') {
            let k = choose|k: int| 0 <= k < y.len() && y[k] == '\n';
            assert(x[k] == '\n');
        }
    }
    lemma_until_at(y, '\n', none);
    let b = y + seq!['\n'] + none;
    assert(b =~= x + seq!['\r', '\n']);
    assert(b.take(y.len() as int) =~= y && b.skip(y.len() as int + 1) =~= none);
    assert(y.drop_last() =~= x);
    assert(lines(b) =~= seq![x]);
    lemma_lines_one(y);
}

/// Padding puts blanks behind a text, and nothing else.
pub proof fn padding_is_blank(s: Seq<char>, width: nat)
    ensures
        padded(s, width).len() == if s.len() >= width {
            s.len()
        } else {
            width
        },
        padded(s, width).take(s.len() as int) == s,
        forall|i: int|
            s.len() <= i < padded(s, width).len() ==> #[trigger] padded(s, width)[i] == ' ',
    decreases width,
{
    if width <= s.len() || width == 0 {
        assert(s.take(s.len() as int) =~= s);
    } else {
        padding_is_blank(s, (width - 1) as nat);
        let p = padded(s, (width - 1) as nat);
        assert(padded(s, width).take(s.len() as int) =~= p.take(s.len() as int));
    }
}

} // verus!
