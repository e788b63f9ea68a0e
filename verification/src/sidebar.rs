//! The rows of the sidebar: which hosts stand under a row, and which rows a
//! search leaves visible.

use vstd::prelude::*;

use crate::config::{SidebarRow, SidebarRowView};
use crate::state::{HostState, HostView};
use crate::text;

verus! {

/// Every host row refers to a host that exists.
pub open spec fn rows_refer(rows: Seq<SidebarRowView>, hosts: Seq<HostView>) -> bool {
    forall|i: int|
        0 <= i < rows.len() ==> ((#[trigger] rows[i]) matches SidebarRowView::Host { host_idx }
            ==> 0 <= host_idx < hosts.len())
}

pub open spec fn is_group(rows: Seq<SidebarRowView>, i: int) -> bool {
    rows[i] is Group
}

/// Row `i` is a host that belongs to a group.
pub open spec fn is_member(rows: Seq<SidebarRowView>, hosts: Seq<HostView>, i: int) -> bool {
    rows[i] matches SidebarRowView::Host { host_idx } && hosts[host_idx].cfg.group is Some
}

/// Row `k` stands under the group row `g`: only hosts that belong to a group
/// come between. A host without a group ends the list, since such hosts follow
/// the last group with no row of their own in between.
pub open spec fn under(
    rows: Seq<SidebarRowView>,
    hosts: Seq<HostView>,
    g: int,
    k: int,
) -> bool {
    &&& 0 <= g < k < rows.len()
    &&& is_group(rows, g)
    &&& forall|j: int| g < j <= k ==> #[trigger] is_member(rows, hosts, j)
}

/// The first row from `from` on that is not a host of some group.
pub open spec fn run_end(rows: Seq<SidebarRowView>, hosts: Seq<HostView>, from: int) -> int
    decreases rows.len() - from,
{
    if 0 <= from < rows.len() && is_member(rows, hosts, from) {
        run_end(rows, hosts, from + 1)
    } else {
        from
    }
}

/// The host of a host row.
pub open spec fn host_of(row: SidebarRowView) -> int {
    row->host_idx
}

/// The hosts under row `row`: of a host row that host, of a group row the
/// hosts that stand under it.
pub open spec fn hosts_under(
    rows: Seq<SidebarRowView>,
    hosts: Seq<HostView>,
    row: int,
) -> Seq<int> {
    if 0 <= row < rows.len() {
        match rows[row] {
            SidebarRowView::Host { host_idx } => seq![host_idx],
            SidebarRowView::Group { .. } => rows.subrange(
                row + 1,
                run_end(rows, hosts, row + 1),
            ).map_values(|r: SidebarRowView| host_of(r)),
        }
    } else {
        seq![]
    }
}

/// The name that a search looks at.
pub open spec fn row_name(
    rows: Seq<SidebarRowView>,
    hosts: Seq<HostView>,
    i: int,
) -> Seq<char> {
    match rows[i] {
        SidebarRowView::Group { name } => name,
        SidebarRowView::Host { host_idx } => hosts[host_idx].cfg.hostname,
    }
}

/// What is searched for: the filter without the blanks round it, in lower case.
pub open spec fn query(filter: Seq<char>) -> Seq<char> {
    text::lowercase(text::trimmed(filter))
}

/// For each row, whether its own name holds the query in either case.
pub open spec fn matched_rows(
    rows: Seq<SidebarRowView>,
    hosts: Seq<HostView>,
    q: Seq<char>,
) -> Seq<bool> {
    Seq::new(
        rows.len(),
        |i: int| text::contains(text::lowercase(row_name(rows, hosts, i)), q),
    )
}

/// Row `i` stays visible: its own name matches, or that of the group that it
/// stands under, or that of a host that stands under it.
pub open spec fn shown(
    rows: Seq<SidebarRowView>,
    hosts: Seq<HostView>,
    matched: Seq<bool>,
    i: int,
) -> bool {
    ||| matched[i]
    ||| exists|g: int| #[trigger] under(rows, hosts, g, i) && matched[g]
    ||| exists|k: int| #[trigger] under(rows, hosts, i, k) && matched[k]
}

pub open spec fn shows(
    rows: Seq<SidebarRowView>,
    hosts: Seq<HostView>,
    matched: Seq<bool>,
) -> spec_fn(int) -> bool {
    |i: int| shown(rows, hosts, matched, i)
}

/// The numbers below `n`, in order.
pub open spec fn range(n: nat) -> Seq<int> {
    Seq::new(n, |i: int| i)
}

/// The rows that stay visible, in order.
pub open spec fn visible(
    rows: Seq<SidebarRowView>,
    hosts: Seq<HostView>,
    matched: Seq<bool>,
) -> Seq<int> {
    range(rows.len()).filter(shows(rows, hosts, matched))
}

/// Indices as mathematical integers.
pub open spec fn ints(v: Seq<usize>) -> Seq<int> {
    Seq::new(v.len(), |i: int| v[i] as int)
}

// ── Hosts under a row ────────────────────────────────────────────────────────

pub proof fn lemma_run_end(rows: Seq<SidebarRowView>, hosts: Seq<HostView>, from: int)
    requires
        0 <= from <= rows.len(),
    ensures
        from <= run_end(rows, hosts, from) <= rows.len(),
        forall|k: int|
            from <= k < run_end(rows, hosts, from) ==> #[trigger] is_member(rows, hosts, k),
        run_end(rows, hosts, from) < rows.len() ==> !is_member(
            rows,
            hosts,
            run_end(rows, hosts, from),
        ),
    decreases rows.len() - from,
{
    if from < rows.len() && is_member(rows, hosts, from) {
        lemma_run_end(rows, hosts, from + 1);
    }
}

/// The rows under a group row are those up to the end of the run.
pub proof fn lemma_under(rows: Seq<SidebarRowView>, hosts: Seq<HostView>, g: int, k: int)
    requires
        0 <= g < rows.len(),
        is_group(rows, g),
    ensures
        under(rows, hosts, g, k) <==> g < k < run_end(rows, hosts, g + 1),
{
    lemma_run_end(rows, hosts, g + 1);
    let end = run_end(rows, hosts, g + 1);
    if under(rows, hosts, g, k) && k >= end {
        assert(is_member(rows, hosts, end));
    }
}

fn is_member_row(rows: &Vec<SidebarRow>, hosts: &Vec<HostState>, i: usize) -> (r: bool)
    requires
        rows_refer(rows.deep_view(), hosts.deep_view()),
        i < rows@.len(),
    ensures
        r == is_member(rows.deep_view(), hosts.deep_view(), i as int),
{
    assert(rows.deep_view()[i as int] == rows@[i as int].deep_view());
    match &rows[i] {
        SidebarRow::Host { host_idx } => {
            assert(hosts.deep_view()[*host_idx as int] == hosts@[*host_idx as int].deep_view());
            hosts[*host_idx].cfg.group.is_some()
        },
        SidebarRow::Group { .. } => false,
    }
}

fn end_of_run(rows: &Vec<SidebarRow>, hosts: &Vec<HostState>, from: usize) -> (r: usize)
    requires
        rows_refer(rows.deep_view(), hosts.deep_view()),
        from <= rows@.len(),
    ensures
        r == run_end(rows.deep_view(), hosts.deep_view(), from as int),
        from <= r <= rows@.len(),
{
    let n: usize = rows.len();
    let mut j: usize = from;
    while j < n && is_member_row(rows, hosts, j)
        invariant
            rows_refer(rows.deep_view(), hosts.deep_view()),
            n == rows@.len(),
            from <= j <= n,
            run_end(rows.deep_view(), hosts.deep_view(), from as int) == run_end(
                rows.deep_view(),
                hosts.deep_view(),
                j as int,
            ),
        decreases n - j,
    {
        j += 1;
    }
    j
}

/// The hosts under a row.
pub fn hosts_of_row(rows: &Vec<SidebarRow>, hosts: &Vec<HostState>, row: usize) -> (r: Vec<usize>)
    requires
        rows_refer(rows.deep_view(), hosts.deep_view()),
    ensures
        ints(r@) == hosts_under(rows.deep_view(), hosts.deep_view(), row as int),
        forall|i: int| 0 <= i < r@.len() ==> #[trigger] r@[i] < hosts@.len(),
{
    let mut r: Vec<usize> = Vec::new();
    if row >= rows.len() {
        assert(ints(r@) =~= seq![]);
        return r;
    }
    assert(rows.deep_view()[row as int] == rows@[row as int].deep_view());
    match &rows[row] {
        SidebarRow::Host { host_idx } => {
            r.push(*host_idx);
            assert(ints(r@) =~= seq![*host_idx as int]);
        },
        SidebarRow::Group { .. } => {
            let end: usize = end_of_run(rows, hosts, row + 1);
            let ghost below = rows.deep_view().subrange(row + 1, end as int);
            proof {
                lemma_run_end(rows.deep_view(), hosts.deep_view(), row + 1);
            }
            let mut k: usize = row + 1;
            while k < end
                invariant
                    rows_refer(rows.deep_view(), hosts.deep_view()),
                    row + 1 <= k <= end <= rows@.len(),
                    below == rows.deep_view().subrange(row + 1, end as int),
                    forall|j: int|
                        row + 1 <= j < end ==> #[trigger] is_member(
                            rows.deep_view(),
                            hosts.deep_view(),
                            j,
                        ),
                    ints(r@) =~= below.take(k - row - 1).map_values(
                        |r: SidebarRowView| host_of(r),
                    ),
                    forall|i: int| 0 <= i < r@.len() ==> #[trigger] r@[i] < hosts@.len(),
                decreases end - k,
            {
                assert(is_member(rows.deep_view(), hosts.deep_view(), k as int));
                assert(rows.deep_view()[k as int] == rows@[k as int].deep_view());
                let ghost before = r@;
                if let SidebarRow::Host { host_idx } = &rows[k] {
                    r.push(*host_idx);
                    assert(below[k - row - 1] == rows@[k as int].deep_view());
                    assert(ints(r@) =~= ints(before).push(*host_idx as int));
                }
                k += 1;
            }
            assert(below.take(end - row - 1) =~= below);
        },
    }
    r
}

// ── Search ───────────────────────────────────────────────────────────────────

proof fn lemma_range_step(n: nat, i: int, p: spec_fn(int) -> bool)
    requires
        0 <= i < n,
    ensures
        range(n).take(i + 1).filter(p) == if p(i) {
            range(n).take(i).filter(p).push(i)
        } else {
            range(n).take(i).filter(p)
        },
{
    assert(range(n).take(i + 1) =~= range(n).take(i).push(i));
    range(n).take(i).lemma_filter_push(i, p);
}

/// No row from `i` on stands under a group row before `i`.
spec fn cut(rows: Seq<SidebarRowView>, hosts: Seq<HostView>, i: int) -> bool {
    forall|g: int, k: int| g < i <= k ==> !#[trigger] under(rows, hosts, g, k)
}

/// Given, for each row, whether its own name matches, the rows that stay
/// visible.
pub fn rows_shown(rows: &Vec<SidebarRow>, hosts: &Vec<HostState>, matched: &Vec<bool>) -> (r: Vec<
    usize,
>)
    requires
        rows_refer(rows.deep_view(), hosts.deep_view()),
        matched@.len() == rows@.len(),
    ensures
        ints(r@) == visible(rows.deep_view(), hosts.deep_view(), matched@),
{
    let ghost rv = rows.deep_view();
    let ghost hv = hosts.deep_view();
    let ghost p = shows(rv, hv, matched@);
    let n: usize = rows.len();
    let ghost all = range(n as nat);
    let mut r: Vec<usize> = Vec::new();
    let mut i: usize = 0;
    proof {
        reveal(Seq::filter);
        assert(ints(r@) =~= all.take(0).filter(p));
    }
    while i < n
        invariant
            rows_refer(rv, hv),
            rv == rows.deep_view(),
            hv == hosts.deep_view(),
            p == shows(rv, hv, matched@),
            matched@.len() == n,
            n == rows@.len(),
            all == range(n as nat),
            i <= n,
            cut(rv, hv, i as int),
            ints(r@) == all.take(i as int).filter(p),
        decreases n - i,
    {
        assert(rv[i as int] == rows@[i as int].deep_view());
        let ghost first = i as int;
        match &rows[i] {
            SidebarRow::Group { .. } => {
                let end: usize = end_of_run(rows, hosts, i + 1);
                proof {
                    lemma_run_end(rv, hv, first + 1);
                    assert forall|k: int|
                        under(rv, hv, first, k) <==> first < k < end by {
                        lemma_under(rv, hv, first, k);
                    }
                    assert forall|k: int| first < k < end implies p(k) == (matched@[k]
                        || matched@[first]) by {
                        assert(under(rv, hv, first, k));
                        assert forall|g: int| under(rv, hv, g, k) implies g == first by {
                            if g > first {
                                assert(is_member(rv, hv, g));
                            }
                        }
                        assert(is_member(rv, hv, k));
                        assert(forall|m: int| !under(rv, hv, k, m));
                    }
                }
                let head: bool = matched[i];
                let mut any: bool = head;
                let mut k: usize = i + 1;
                while k < end
                    invariant
                        first + 1 <= k <= end <= n,
                        matched@.len() == n,
                        any == (matched@[first] || exists|m: int|
                            first < m < k && #[trigger] matched@[m]),
                    decreases end - k,
                {
                    if matched[k] {
                        any = true;
                    }
                    k += 1;
                }
                proof {
                    assert(p(first) == any) by {
                        if any && !matched@[first] {
                            let m = choose|m: int| first < m < end && #[trigger] matched@[m];
                            assert(under(rv, hv, first, m));
                        }
                        assert(forall|g: int| !under(rv, hv, g, first)) by {
                            assert forall|g: int| !under(rv, hv, g, first) by {
                                if under(rv, hv, g, first) {
                                    assert(is_member(rv, hv, first));
                                }
                            }
                        }
                    }
                    lemma_range_step(n as nat, first, p);
                }
                let ghost before = r@;
                if any {
                    r.push(i);
                    assert(ints(r@) =~= ints(before).push(first));
                }
                let mut k: usize = i + 1;
                while k < end
                    invariant
                        first + 1 <= k <= end <= n,
                        matched@.len() == n,
                        all == range(n as nat),
                        head == matched@[first],
                        forall|k: int|
                            first < k < end ==> #[trigger] p(k) == (matched@[k]
                                || matched@[first]),
                        ints(r@) == all.take(k as int).filter(p),
                    decreases end - k,
                {
                    proof {
                        lemma_range_step(n as nat, k as int, p);
                    }
                    let ghost before = r@;
                    if head || matched[k] {
                        r.push(k);
                        assert(ints(r@) =~= ints(before).push(k as int));
                    }
                    k += 1;
                }
                proof {
                    assert forall|g: int, k: int| g < end <= k implies !#[trigger] under(
                        rv,
                        hv,
                        g,
                        k,
                    ) by {
                        if g > first {
                            assert(is_member(rv, hv, g));
                        } else if g < first {
                            assert(!under(rv, hv, g, k));
                        }
                    }
                }
                i = end;
            },
            SidebarRow::Host { .. } => {
                proof {
                    assert(p(first) == matched@[first]) by {
                        assert(forall|m: int| !under(rv, hv, first, m));
                    }
                    lemma_range_step(n as nat, first, p);
                    assert forall|g: int, k: int| g < first + 1 <= k implies !#[trigger] under(
                        rv,
                        hv,
                        g,
                        k,
                    ) by {
                        if g < first {
                            assert(!under(rv, hv, g, k));
                        }
                    }
                }
                let ghost before = r@;
                if matched[i] {
                    r.push(i);
                    assert(ints(r@) =~= ints(before).push(first));
                }
                i += 1;
            },
        }
    }
    assert(all.take(n as int) =~= all);
    r
}

/// For each row, whether its own name holds the query in either case.
pub fn match_rows(rows: &Vec<SidebarRow>, hosts: &Vec<HostState>, q: &str) -> (r: Vec<bool>)
    requires
        rows_refer(rows.deep_view(), hosts.deep_view()),
    ensures
        r@ == matched_rows(rows.deep_view(), hosts.deep_view(), q@),
{
    let ghost rv = rows.deep_view();
    let ghost hv = hosts.deep_view();
    let n: usize = rows.len();
    let mut r: Vec<bool> = Vec::new();
    let mut i: usize = 0;
    while i < n
        invariant
            rows_refer(rv, hv),
            rv == rows.deep_view(),
            hv == hosts.deep_view(),
            n == rows@.len(),
            i <= n,
            r@ =~= matched_rows(rv, hv, q@).take(i as int),
        decreases n - i,
    {
        assert(rv[i as int] == rows@[i as int].deep_view());
        let name: &String = match &rows[i] {
            SidebarRow::Group { name } => name,
            SidebarRow::Host { host_idx } => {
                assert(hv[*host_idx as int] == hosts@[*host_idx as int].deep_view());
                &hosts[*host_idx].cfg.hostname
            },
        };
        let lower = text::lower(name.as_str());
        let cs = text::chars_of(lower.as_str());
        r.push(text::has(cs.as_slice(), q));
        i += 1;
    }
    assert(matched_rows(rv, hv, q@).take(n as int) =~= matched_rows(rv, hv, q@));
    r
}

// ── Laws ─────────────────────────────────────────────────────────────────────

/// What stays visible are rows that exist.
pub proof fn lemma_visible_in_range(
    rows: Seq<SidebarRowView>,
    hosts: Seq<HostView>,
    matched: Seq<bool>,
    i: int,
)
    requires
        0 <= i < visible(rows, hosts, matched).len(),
    ensures
        0 <= visible(rows, hosts, matched)[i] < rows.len(),
        shown(rows, hosts, matched, visible(rows, hosts, matched)[i]),
{
    broadcast use vstd::seq_lib::group_filter_ensures;

    let all = range(rows.len());
    let p = shows(rows, hosts, matched);
    all.lemma_filter_pred(p, i);
    assert(all.filter(p).contains(all.filter(p)[i]));
    all.lemma_filter_contains_rev(p, all.filter(p)[i]);
}

/// The visible rows stand in the order of the sidebar, each of them once.
pub proof fn rows_stay_in_order(
    rows: Seq<SidebarRowView>,
    hosts: Seq<HostView>,
    matched: Seq<bool>,
)
    ensures
        forall|i: int, j: int|
            0 <= i < j < visible(rows, hosts, matched).len() ==> #[trigger] visible(
                rows,
                hosts,
                matched,
            )[i] < #[trigger] visible(rows, hosts, matched)[j],
{
    lemma_filter_increasing(rows.len(), rows.len() as int, shows(rows, hosts, matched));
    assert(range(rows.len()).take(rows.len() as int) =~= range(rows.len()));
}

proof fn lemma_filter_increasing(n: nat, k: int, p: spec_fn(int) -> bool)
    requires
        0 <= k <= n,
    ensures
        ({
            let v = range(n).take(k).filter(p);
            &&& forall|i: int| 0 <= i < v.len() ==> 0 <= #[trigger] v[i] < k
            &&& forall|i: int, j: int| 0 <= i < j < v.len() ==> #[trigger] v[i] < #[trigger] v[j]
        }),
    decreases k,
{
    reveal(Seq::filter);
    if k > 0 {
        lemma_filter_increasing(n, k - 1, p);
        lemma_range_step(n, k - 1, p);
    }
}

/// A row is visible if and only if it matches, or the group that it stands
/// under does, or a host that stands under it does.
pub proof fn visible_means_shown(
    rows: Seq<SidebarRowView>,
    hosts: Seq<HostView>,
    matched: Seq<bool>,
    i: int,
)
    requires
        0 <= i < rows.len(),
    ensures
        visible(rows, hosts, matched).contains(i) <==> shown(rows, hosts, matched, i),
{
    broadcast use vstd::seq_lib::group_filter_ensures;

    let all = range(rows.len());
    let p = shows(rows, hosts, matched);
    assert(all[i] == i);
    if visible(rows, hosts, matched).contains(i) {
        let k = choose|k: int| 0 <= k < all.filter(p).len() && all.filter(p)[k] == i;
        all.lemma_filter_pred(p, k);
    }
}

/// A host is never shown without the heading of its group, and a heading whose
/// name matches brings all of its hosts.
pub proof fn hosts_come_with_their_heading(
    rows: Seq<SidebarRowView>,
    hosts: Seq<HostView>,
    matched: Seq<bool>,
    g: int,
    k: int,
)
    requires
        under(rows, hosts, g, k),
    ensures
        shown(rows, hosts, matched, k) ==> shown(rows, hosts, matched, g),
        matched[g] ==> shown(rows, hosts, matched, k),
        shown(rows, hosts, matched, k) ==> matched[k] || matched[g],
{
    assert(is_member(rows, hosts, k));
    if shown(rows, hosts, matched, k) && !matched[k] {
        assert(forall|m: int| !under(rows, hosts, k, m));
        let h = choose|h: int| #[trigger] under(rows, hosts, h, k) && matched[h];
        if h < g {
            assert(is_member(rows, hosts, g));
        } else if g < h {
            assert(is_member(rows, hosts, h));
        }
    }
}

/// A filter that is empty, or blank, leaves every row visible.
pub proof fn no_filter_shows_everything(
    rows: Seq<SidebarRowView>,
    hosts: Seq<HostView>,
    filter: Seq<char>,
)
    requires
        text::trimmed(filter).len() == 0,
    ensures
        visible(rows, hosts, matched_rows(rows, hosts, query(filter))) == range(rows.len()),
{
    let q = query(filter);
    assert(text::ascii_only(text::trimmed(filter)));
    assert(q.len() == 0);
    let matched = matched_rows(rows, hosts, q);
    let p = shows(rows, hosts, matched);
    assert forall|i: int| 0 <= i < rows.len() implies #[trigger] p(i) by {
        let name = text::lowercase(row_name(rows, hosts, i));
        assert(name.subrange(0, 0) =~= q);
        assert(text::occurs_at(name, q, 0));
        assert(matched[i]);
    }
    lemma_filter_all(rows.len(), rows.len() as int, p);
    assert(range(rows.len()).take(rows.len() as int) =~= range(rows.len()));
}

proof fn lemma_filter_all(n: nat, k: int, p: spec_fn(int) -> bool)
    requires
        0 <= k <= n,
        forall|i: int| 0 <= i < n ==> #[trigger] p(i),
    ensures
        range(n).take(k).filter(p) == range(n).take(k),
    decreases k,
{
    reveal(Seq::filter);
    if k > 0 {
        lemma_filter_all(n, k - 1, p);
        lemma_range_step(n, k - 1, p);
        assert(p(k - 1));
        assert(range(n).take(k) =~= range(n).take(k - 1).push(k - 1));
    } else {
        assert(range(n).take(0).filter(p) =~= range(n).take(0));
    }
}

/// Case plays no part in the search: an ASCII filter finds the same rows when
/// it is written in lower case.
pub proof fn search_ignores_case(
    rows: Seq<SidebarRowView>,
    hosts: Seq<HostView>,
    filter: Seq<char>,
)
    requires
        text::ascii_only(filter),
    ensures
        query(text::lowercase(filter)) == query(filter),
        visible(rows, hosts, matched_rows(rows, hosts, query(text::lowercase(filter)))) == visible(
            rows,
            hosts,
            matched_rows(rows, hosts, query(filter)),
        ),
{
    text::lemma_trimmed_lowercase(filter);
    let t = text::trimmed(filter);
    text::lemma_trimmed_ascii(filter);
    assert(text::ascii_only(t));
    let lower = text::lowercase(t);
    assert(text::ascii_only(lower));
    assert(text::lowercase(lower) =~= lower);
}

} // verus!
