//! The configured hosts: what the configuration file says, and what each host
//! is connected to with once every default has been applied.

use std::path::PathBuf;

use vstd::prelude::*;

use crate::lemmas;

verus! {

/// A file system path, which is only carried through.
#[verifier::external_type_specification]
#[verifier::external_body]
pub struct ExPathBuf(PathBuf);

/// `PathBuf::clone` returns an equal path.
pub assume_specification[ <PathBuf as Clone>::clone ](p: &PathBuf) -> (r: PathBuf)
    ensures
        r == *p,
;

// ── Data ─────────────────────────────────────────────────────────────────────

/// Settings that hold for every host unless it, or its group, says otherwise.
#[derive(Debug)]
pub struct Defaults {
    pub user: Option<String>,
    pub port: Option<u16>,
    pub use_sudo: Option<bool>,
    pub identity_file: Option<PathBuf>,
}

/// The settings of one level: the defaults, a group or a host.
pub struct SettingsView {
    pub user: Option<Seq<char>>,
    pub port: Option<u16>,
    pub use_sudo: Option<bool>,
    pub identity_file: Option<PathBuf>,
}

impl DeepView for Defaults {
    type V = SettingsView;

    open spec fn deep_view(&self) -> SettingsView {
        SettingsView {
            user: self.user.deep_view(),
            port: self.port,
            use_sudo: self.use_sudo,
            identity_file: self.identity_file,
        }
    }
}

/// Nothing is set.
pub open spec fn no_settings() -> SettingsView {
    SettingsView { user: None, port: None, use_sudo: None, identity_file: None }
}

impl Default for Defaults {
    fn default() -> (r: Self)
        ensures
            r.deep_view() == no_settings(),
    {
        Defaults { user: None, port: None, use_sudo: None, identity_file: None }
    }
}

impl Clone for Defaults {
    fn clone(&self) -> (r: Self)
        ensures
            r.deep_view() == self.deep_view(),
    {
        Defaults {
            user: self.user.clone(),
            port: self.port,
            use_sudo: self.use_sudo,
            identity_file: self.identity_file.clone(),
        }
    }
}

/// A host as it is configured.
#[derive(Debug)]
pub struct RawHost {
    pub hostname: String,
    pub user: Option<String>,
    pub port: Option<u16>,
    pub use_sudo: Option<bool>,
    pub identity_file: Option<PathBuf>,
}

pub struct RawHostView {
    pub hostname: Seq<char>,
    pub settings: SettingsView,
}

impl DeepView for RawHost {
    type V = RawHostView;

    open spec fn deep_view(&self) -> RawHostView {
        RawHostView {
            hostname: self.hostname@,
            settings: SettingsView {
                user: self.user.deep_view(),
                port: self.port,
                use_sudo: self.use_sudo,
                identity_file: self.identity_file,
            },
        }
    }
}

impl Clone for RawHost {
    fn clone(&self) -> (r: Self)
        ensures
            r.deep_view() == self.deep_view(),
    {
        RawHost {
            hostname: self.hostname.clone(),
            user: self.user.clone(),
            port: self.port,
            use_sudo: self.use_sudo,
            identity_file: self.identity_file.clone(),
        }
    }
}

/// A named group of hosts as it is configured.
#[derive(Debug)]
pub struct RawGroup {
    pub name: String,
    pub hosts: Vec<RawHost>,
    pub user: Option<String>,
    pub port: Option<u16>,
    pub use_sudo: Option<bool>,
    pub identity_file: Option<PathBuf>,
}

pub struct RawGroupView {
    pub name: Seq<char>,
    pub hosts: Seq<RawHostView>,
    pub settings: SettingsView,
}

impl DeepView for RawGroup {
    type V = RawGroupView;

    open spec fn deep_view(&self) -> RawGroupView {
        RawGroupView {
            name: self.name@,
            hosts: self.hosts.deep_view(),
            settings: SettingsView {
                user: self.user.deep_view(),
                port: self.port,
                use_sudo: self.use_sudo,
                identity_file: self.identity_file,
            },
        }
    }
}

impl Clone for RawGroup {
    fn clone(&self) -> (r: Self)
        ensures
            r.deep_view() == self.deep_view(),
    {
        let r = RawGroup {
            name: self.name.clone(),
            hosts: self.hosts.clone(),
            user: self.user.clone(),
            port: self.port,
            use_sudo: self.use_sudo,
            identity_file: self.identity_file.clone(),
        };
        assert(r.hosts.deep_view() =~= self.hosts.deep_view());
        r
    }
}

/// The configuration file.
#[derive(Debug)]
pub struct RawConfig {
    pub defaults: Defaults,
    pub groups: Vec<RawGroup>,
    pub hosts: Vec<RawHost>,
}

pub struct RawConfigView {
    pub defaults: SettingsView,
    pub groups: Seq<RawGroupView>,
    pub hosts: Seq<RawHostView>,
}

impl DeepView for RawConfig {
    type V = RawConfigView;

    open spec fn deep_view(&self) -> RawConfigView {
        RawConfigView {
            defaults: self.defaults.deep_view(),
            groups: self.groups.deep_view(),
            hosts: self.hosts.deep_view(),
        }
    }
}

impl Default for RawConfig {
    fn default() -> (r: Self)
        ensures
            r.deep_view() == (RawConfigView {
                defaults: no_settings(),
                groups: seq![],
                hosts: seq![],
            }),
    {
        let r = RawConfig { defaults: Defaults::default(), groups: Vec::new(), hosts: Vec::new() };
        assert(r.groups.deep_view() =~= seq![]);
        assert(r.hosts.deep_view() =~= seq![]);
        r
    }
}

/// Fully resolved host configuration with all defaults applied.
#[derive(Debug)]
pub struct HostConfig {
    pub hostname: String,
    pub user: String,
    pub port: u16,
    pub use_sudo: bool,
    pub identity_file: Option<PathBuf>,
    pub group: Option<String>,
}

pub struct HostConfigView {
    pub hostname: Seq<char>,
    pub user: Seq<char>,
    pub port: u16,
    pub use_sudo: bool,
    pub identity_file: Option<PathBuf>,
    pub group: Option<Seq<char>>,
}

impl DeepView for HostConfig {
    type V = HostConfigView;

    open spec fn deep_view(&self) -> HostConfigView {
        HostConfigView {
            hostname: self.hostname@,
            user: self.user@,
            port: self.port,
            use_sudo: self.use_sudo,
            identity_file: self.identity_file,
            group: self.group.deep_view(),
        }
    }
}

impl Clone for HostConfig {
    fn clone(&self) -> (r: Self)
        ensures
            r.deep_view() == self.deep_view(),
    {
        HostConfig {
            hostname: self.hostname.clone(),
            user: self.user.clone(),
            port: self.port,
            use_sudo: self.use_sudo,
            identity_file: self.identity_file.clone(),
            group: self.group.clone(),
        }
    }
}

/// A row of the sidebar.
#[derive(Debug, PartialEq)]
pub enum SidebarRow {
    Group { name: String },
    Host { host_idx: usize },
}

pub enum SidebarRowView {
    Group { name: Seq<char> },
    Host { host_idx: int },
}

impl DeepView for SidebarRow {
    type V = SidebarRowView;

    open spec fn deep_view(&self) -> SidebarRowView {
        match self {
            SidebarRow::Group { name } => SidebarRowView::Group { name: name@ },
            SidebarRow::Host { host_idx } => SidebarRowView::Host { host_idx: *host_idx as int },
        }
    }
}

impl Clone for SidebarRow {
    fn clone(&self) -> (r: Self)
        ensures
            r.deep_view() == self.deep_view(),
    {
        match self {
            SidebarRow::Group { name } => SidebarRow::Group { name: name.clone() },
            SidebarRow::Host { host_idx } => SidebarRow::Host { host_idx: *host_idx },
        }
    }
}

// ── Resolution ───────────────────────────────────────────────────────────────

/// The first setting that is given.
pub open spec fn first_set<T>(a: Option<T>, b: Option<T>) -> Option<T> {
    if a is Some {
        a
    } else {
        b
    }
}

/// The settings of `inner`, completed by those of `outer`.
pub open spec fn layered(inner: SettingsView, outer: SettingsView) -> SettingsView {
    SettingsView {
        user: first_set(inner.user, outer.user),
        port: first_set(inner.port, outer.port),
        use_sudo: first_set(inner.use_sudo, outer.use_sudo),
        identity_file: first_set(inner.identity_file, outer.identity_file),
    }
}

/// A host with the given settings, completed by the built-in fallbacks: the
/// user `login`, port 22 and sudo.
pub open spec fn host_with(
    hostname: Seq<char>,
    settings: SettingsView,
    group: Option<Seq<char>>,
    login: Seq<char>,
) -> HostConfigView {
    HostConfigView {
        hostname,
        user: settings.user.unwrap_or(login),
        port: settings.port.unwrap_or(22),
        use_sudo: settings.use_sudo.unwrap_or(true),
        identity_file: settings.identity_file,
        group,
    }
}

/// A host of a group: its own settings come first, then the group's, then the
/// defaults.
pub open spec fn grouped_host(
    defaults: SettingsView,
    group: RawGroupView,
    host: RawHostView,
    login: Seq<char>,
) -> HostConfigView {
    host_with(
        host.hostname,
        layered(host.settings, layered(group.settings, defaults)),
        Some(group.name),
        login,
    )
}

/// A host outside the groups: its own settings come first, then the defaults.
pub open spec fn lone_host(
    defaults: SettingsView,
    host: RawHostView,
    login: Seq<char>,
) -> HostConfigView {
    host_with(host.hostname, layered(host.settings, defaults), None, login)
}

/// The hosts of one group.
pub open spec fn group_hosts(
    defaults: SettingsView,
    group: RawGroupView,
    login: Seq<char>,
) -> Seq<HostConfigView> {
    Seq::new(group.hosts.len(), |i: int| grouped_host(defaults, group, group.hosts[i], login))
}

/// The hosts of the groups, in group order.
pub open spec fn all_group_hosts(
    defaults: SettingsView,
    groups: Seq<RawGroupView>,
    login: Seq<char>,
) -> Seq<HostConfigView>
    decreases groups.len(),
{
    if groups.len() == 0 {
        seq![]
    } else {
        all_group_hosts(defaults, groups.drop_last(), login) + group_hosts(
            defaults,
            groups.last(),
            login,
        )
    }
}

/// The hosts outside the groups.
pub open spec fn lone_hosts(
    defaults: SettingsView,
    hosts: Seq<RawHostView>,
    login: Seq<char>,
) -> Seq<HostConfigView> {
    Seq::new(hosts.len(), |i: int| lone_host(defaults, hosts[i], login))
}

/// All hosts: grouped hosts first, in group order, then top-level hosts.
/// `login` is the user of hosts for which none is configured.
pub open spec fn resolved(raw: RawConfigView, login: Seq<char>) -> Seq<HostConfigView> {
    all_group_hosts(raw.defaults, raw.groups, login) + lone_hosts(raw.defaults, raw.hosts, login)
}

/// Some host has no configured user at any level.
pub open spec fn needs_login(raw: RawConfigView) -> bool {
    &&& raw.defaults.user is None
    &&& {
        ||| exists|g: int, i: int|
            0 <= g < raw.groups.len() && 0 <= i < raw.groups[g].hosts.len()
                && raw.groups[g].settings.user is None
                && #[trigger] raw.groups[g].hosts[i].settings.user is None
        ||| exists|i: int|
            0 <= i < raw.hosts.len() && #[trigger] raw.hosts[i].settings.user is None
    }
}

// ── Sidebar ──────────────────────────────────────────────────────────────────

/// How many hosts the groups hold together.
pub open spec fn host_count(groups: Seq<RawGroupView>) -> nat
    decreases groups.len(),
{
    if groups.len() == 0 {
        0
    } else {
        host_count(groups.drop_last()) + groups.last().hosts.len()
    }
}

/// The rows of `n` consecutive hosts, of which the first is `first`.
pub open spec fn host_rows(first: nat, n: nat) -> Seq<SidebarRowView> {
    Seq::new(n, |i: int| SidebarRowView::Host { host_idx: first + i })
}

/// The rows of the groups: each header is followed by the group's hosts.
pub open spec fn group_rows(groups: Seq<RawGroupView>) -> Seq<SidebarRowView>
    decreases groups.len(),
{
    if groups.len() == 0 {
        seq![]
    } else {
        group_rows(groups.drop_last()).push(
            SidebarRowView::Group { name: groups.last().name },
        ) + host_rows(host_count(groups.drop_last()), groups.last().hosts.len())
    }
}

/// The rows of the sidebar: group headers interleaved with their hosts, then
/// ungrouped hosts.
pub open spec fn rows_of(raw: RawConfigView) -> Seq<SidebarRowView> {
    group_rows(raw.groups) + host_rows(host_count(raw.groups), raw.hosts.len())
}

// ── Code ─────────────────────────────────────────────────────────────────────

/// Calls `whoami::username`, the name of the user that runs the program.
/// Nothing is said of it: it is what the machine answers.
#[verifier::external_body]
fn whoami() -> String {
    whoami::username()
}

fn pick_text(a: &Option<String>, b: Option<String>) -> (r: Option<String>)
    ensures
        r.deep_view() == first_set(a.deep_view(), b.deep_view()),
{
    match a {
        Some(x) => Some(x.clone()),
        None => b,
    }
}

fn pick_path(a: &Option<PathBuf>, b: Option<PathBuf>) -> (r: Option<PathBuf>)
    ensures
        r == first_set(*a, b),
{
    match a {
        Some(x) => Some(x.clone()),
        None => b,
    }
}

fn pick<T: Copy>(a: Option<T>, b: Option<T>) -> (r: Option<T>)
    ensures
        r == first_set(a, b),
{
    match a {
        Some(x) => Some(x),
        None => b,
    }
}

/// The configuration: a flat list of all hosts, in order: grouped hosts first
/// (in group order), then top-level hosts.
pub struct Config {
    pub raw: RawConfig,
}

impl Config {
    /// Return the resolved host list including default config paths. Where no
    /// user is configured, it is the one that runs the program.
    pub fn resolved_hosts(&self) -> (r: Vec<HostConfig>)
        ensures
            exists|login: Seq<char>| r.deep_view() == resolved(self.raw.deep_view(), login),
            !needs_login(self.raw.deep_view()) ==> forall|login: Seq<char>|
                r.deep_view() == #[trigger] resolved(self.raw.deep_view(), login),
    {
        let login: String = match &self.raw.defaults.user {
            Some(user) => user.clone(),
            None => whoami(),
        };
        let r = self.resolved_hosts_for(&login);
        proof {
            let raw = self.raw.deep_view();
            if !needs_login(raw) {
                assert forall|other: Seq<char>| r.deep_view() == #[trigger] resolved(
                    raw,
                    other,
                ) by {
                    login_is_a_fallback(raw, login@, other);
                }
            }
        }
        r
    }

    /// The resolved host list, with `login` as the user of hosts for which
    /// none is configured.
    pub fn resolved_hosts_for(&self, login: &String) -> (r: Vec<HostConfig>)
        ensures
            r.deep_view() == resolved(self.raw.deep_view(), login@),
    {
        let d = &self.raw.defaults;
        let ghost raw = self.raw.deep_view();
        let mut out: Vec<HostConfig> = Vec::new();
        let n: usize = self.raw.groups.len();
        let mut k: usize = 0;
        assert(out.deep_view() =~= seq![]);
        while k < n
            invariant
                n == self.raw.groups@.len(),
                raw == self.raw.deep_view(),
                *d == self.raw.defaults,
                k <= n,
                out.deep_view() == all_group_hosts(
                    raw.defaults,
                    raw.groups.take(k as int),
                    login@,
                ),
            decreases n - k,
        {
            let g = &self.raw.groups[k];
            let ghost group = raw.groups[k as int];
            let ghost before = out.deep_view();
            let m: usize = g.hosts.len();
            let mut i: usize = 0;
            assert(out.deep_view() =~= before + group_hosts(raw.defaults, group, login@).take(0));
            while i < m
                invariant
                    m == g.hosts@.len(),
                    group == g.deep_view(),
                    raw.defaults == d.deep_view(),
                    i <= m,
                    out.deep_view() == before + group_hosts(raw.defaults, group, login@).take(
                        i as int,
                    ),
                decreases m - i,
            {
                let h = &g.hosts[i];
                let ghost so_far = out.deep_view();
                let cfg = resolve(
                    h,
                    pick_text(&g.user, d.user.clone()),
                    pick(g.port, d.port),
                    pick(g.use_sudo, d.use_sudo),
                    pick_path(&g.identity_file, d.identity_file.clone()),
                    Some(g.name.clone()),
                    login,
                );
                out.push(cfg);
                proof {
                    let hs = group_hosts(raw.defaults, group, login@);
                    assert(cfg.deep_view() == hs[i as int]);
                    assert(out.deep_view() =~= so_far.push(hs[i as int]));
                    assert(hs.take(i + 1) =~= hs.take(i as int).push(hs[i as int]));
                    assert(out.deep_view() =~= before + hs.take(i + 1));
                }
                i += 1;
            }
            proof {
                let hs = group_hosts(raw.defaults, group, login@);
                assert(hs.take(m as int) =~= hs);
                assert(raw.groups.take(k + 1).drop_last() =~= raw.groups.take(k as int));
            }
            k += 1;
        }
        assert(raw.groups.take(n as int) =~= raw.groups);
        let ghost grouped = out.deep_view();
        let ghost lone = lone_hosts(raw.defaults, raw.hosts, login@);
        let m: usize = self.raw.hosts.len();
        let mut i: usize = 0;
        assert(out.deep_view() =~= grouped + lone.take(0));
        while i < m
            invariant
                m == self.raw.hosts@.len(),
                raw == self.raw.deep_view(),
                *d == self.raw.defaults,
                lone == lone_hosts(raw.defaults, raw.hosts, login@),
                i <= m,
                out.deep_view() == grouped + lone.take(i as int),
            decreases m - i,
        {
            let h = &self.raw.hosts[i];
            let ghost so_far = out.deep_view();
            let cfg = resolve(
                h,
                d.user.clone(),
                d.port,
                d.use_sudo,
                d.identity_file.clone(),
                None,
                login,
            );
            out.push(cfg);
            proof {
                assert(cfg.deep_view() == lone[i as int]);
                assert(out.deep_view() =~= so_far.push(lone[i as int]));
                assert(lone.take(i + 1) =~= lone.take(i as int).push(lone[i as int]));
                assert(out.deep_view() =~= grouped + lone.take(i + 1));
            }
            i += 1;
        }
        assert(lone.take(m as int) =~= lone);
        out
    }

    /// Return ordered sidebar rows: Group headers interleaved with their hosts, then ungrouped hosts.
    pub fn sidebar_rows(&self, hosts: &[HostConfig]) -> (r: Vec<SidebarRow>)
        ensures
            r.deep_view() == rows_of(self.raw.deep_view()),
    {
        let ghost raw = self.raw.deep_view();
        let mut rows: Vec<SidebarRow> = Vec::new();
        let mut idx: usize = 0;
        let n: usize = self.raw.groups.len();
        let mut k: usize = 0;
        assert(rows.deep_view() =~= seq![]);
        while k < n
            invariant
                n == self.raw.groups@.len(),
                raw == self.raw.deep_view(),
                k <= n,
                idx == host_count(raw.groups.take(k as int)),
                idx <= rows@.len(),
                rows.deep_view() == group_rows(raw.groups.take(k as int)),
            decreases n - k,
        {
            let ghost before = rows.deep_view();
            let ghost group = raw.groups[k as int];
            rows.push(SidebarRow::Group { name: self.raw.groups[k].name.clone() });
            assert(rows.deep_view() =~= before.push(SidebarRowView::Group { name: group.name }));
            push_host_rows(&mut rows, &mut idx, self.raw.groups[k].hosts.len());
            assert(raw.groups.take(k + 1).drop_last() =~= raw.groups.take(k as int));
            k += 1;
        }
        assert(raw.groups.take(n as int) =~= raw.groups);
        push_host_rows(&mut rows, &mut idx, self.raw.hosts.len());
        rows
    }
}

fn push_host_rows(rows: &mut Vec<SidebarRow>, idx: &mut usize, n: usize)
    requires
        *old(idx) <= old(rows)@.len(),
    ensures
        final(rows).deep_view() == old(rows).deep_view() + host_rows(*old(idx) as nat, n as nat),
        *final(idx) == *old(idx) + n,
        *final(idx) <= final(rows)@.len(),
{
    let ghost before = rows.deep_view();
    let ghost first = *idx as nat;
    let ghost added = host_rows(first, n as nat);
    let mut i: usize = 0;
    assert(rows.deep_view() =~= before + added.take(0));
    while i < n
        invariant
            i <= n,
            *idx == first + i,
            *idx <= rows@.len(),
            added == host_rows(first, n as nat),
            rows.deep_view() == before + added.take(i as int),
        decreases n - i,
    {
        let ghost so_far = rows.deep_view();
        rows.push(SidebarRow::Host { host_idx: *idx });
        let len: usize = rows.len();
        assert(*idx < len);
        *idx = *idx + 1;
        proof {
            assert(rows.deep_view() =~= so_far.push(added[i as int]));
            assert(added.take(i + 1) =~= added.take(i as int).push(added[i as int]));
            assert(rows.deep_view() =~= before + added.take(i + 1));
        }
        i += 1;
    }
    assert(added.take(n as int) =~= added);
}

fn resolve(
    h: &RawHost,
    user: Option<String>,
    port: Option<u16>,
    use_sudo: Option<bool>,
    identity_file: Option<PathBuf>,
    group: Option<String>,
    login: &String,
) -> (r: HostConfig)
    ensures
        r.deep_view() == host_with(
            h.hostname@,
            layered(
                h.deep_view().settings,
                SettingsView { user: user.deep_view(), port, use_sudo, identity_file },
            ),
            group.deep_view(),
            login@,
        ),
{
    HostConfig {
        hostname: h.hostname.clone(),
        user: match pick_text(&h.user, user) {
            Some(user) => user,
            None => login.clone(),
        },
        port: pick(h.port, port).unwrap_or(22),
        use_sudo: pick(h.use_sudo, use_sudo).unwrap_or(true),
        identity_file: pick_path(&h.identity_file, identity_file),
        group,
    }
}

// ── Laws ─────────────────────────────────────────────────────────────────────

/// Where every host has a user at some level, the login name plays no part.
pub proof fn login_is_a_fallback(raw: RawConfigView, a: Seq<char>, b: Seq<char>)
    requires
        !needs_login(raw),
    ensures
        resolved(raw, a) == resolved(raw, b),
{
    lemma_group_hosts_login(raw, raw.groups.len() as int, a, b);
    assert(raw.groups.take(raw.groups.len() as int) =~= raw.groups);
    assert(lone_hosts(raw.defaults, raw.hosts, a) =~= lone_hosts(raw.defaults, raw.hosts, b)) by {
        assert forall|i: int| 0 <= i < raw.hosts.len() implies lone_host(
            raw.defaults,
            #[trigger] raw.hosts[i],
            a,
        ) == lone_host(raw.defaults, raw.hosts[i], b) by {
            assert(raw.defaults.user is Some || raw.hosts[i].settings.user is Some);
        }
    }
}

proof fn lemma_group_hosts_login(raw: RawConfigView, k: int, a: Seq<char>, b: Seq<char>)
    requires
        !needs_login(raw),
        0 <= k <= raw.groups.len(),
    ensures
        all_group_hosts(raw.defaults, raw.groups.take(k), a) == all_group_hosts(
            raw.defaults,
            raw.groups.take(k),
            b,
        ),
    decreases k,
{
    if k > 0 {
        lemma_group_hosts_login(raw, k - 1, a, b);
        assert(raw.groups.take(k).drop_last() =~= raw.groups.take(k - 1));
        let group = raw.groups[k - 1];
        assert(group_hosts(raw.defaults, group, a) =~= group_hosts(raw.defaults, group, b)) by {
            assert forall|i: int| 0 <= i < group.hosts.len() implies grouped_host(
                raw.defaults,
                group,
                #[trigger] group.hosts[i],
                a,
            ) == grouped_host(raw.defaults, group, group.hosts[i], b) by {
                assert(raw.groups[k - 1].hosts[i] == group.hosts[i]);
            }
        }
    }
}

/// The sidebar refers only to hosts that are in the host list, and to each of
/// them exactly once, in order.
pub proof fn rows_list_every_host_once(raw: RawConfigView, login: Seq<char>)
    ensures
        rows_of(raw).filter_map(row_host()) == Seq::new(
            resolved(raw, login).len(),
            |i: int| i,
        ),
        resolved(raw, login).len() == host_count(raw.groups) + raw.hosts.len(),
        forall|i: int|
            0 <= i < rows_of(raw).len() ==> ((#[trigger] rows_of(
                raw,
            )[i]) matches SidebarRowView::Host { host_idx } ==> 0 <= host_idx < resolved(
                raw,
                login,
            ).len()),
{
    let n = host_count(raw.groups);
    let m = raw.hosts.len();
    let hosts = rows_of(raw).filter_map(row_host());
    lemma_group_host_count(raw.defaults, raw.groups, login);
    lemma_group_rows_hosts(raw.groups);
    lemma_host_rows_hosts(group_rows(raw.groups), n, m);
    assert(hosts =~= Seq::new(n + m, |i: int| i));
    assert forall|i: int|
        0 <= i < rows_of(raw).len() && (#[trigger] rows_of(raw)[i]) is Host implies 0
        <= rows_of(raw)[i]->host_idx < n + m by {
        let row = rows_of(raw)[i];
        assert(row_host()(row) == Some(row->host_idx));
        lemmas::lemma_filter_map_has(rows_of(raw), row_host(), i);
    }
}

/// The host of a row, if it is a host row.
pub open spec fn row_host() -> spec_fn(SidebarRowView) -> Option<int> {
    |row: SidebarRowView|
        match row {
            SidebarRowView::Host { host_idx } => Some(host_idx),
            SidebarRowView::Group { .. } => None,
        }
}

proof fn lemma_host_rows_hosts(before: Seq<SidebarRowView>, first: nat, n: nat)
    ensures
        (before + host_rows(first, n)).filter_map(row_host()) =~= before.filter_map(row_host())
            + Seq::new(n, |i: int| first + i),
    decreases n,
{
    if n == 0 {
        assert(before + host_rows(first, 0) =~= before);
    } else {
        let m = (n - 1) as nat;
        lemma_host_rows_hosts(before, first, m);
        let rows = before + host_rows(first, n);
        assert(rows.drop_last() =~= before + host_rows(first, m));
        assert(rows.last() == SidebarRowView::Host { host_idx: first + m as int });
    }
}

proof fn lemma_group_rows_hosts(groups: Seq<RawGroupView>)
    ensures
        group_rows(groups).filter_map(row_host()) =~= Seq::new(host_count(groups), |i: int| i),
    decreases groups.len(),
{
    if groups.len() > 0 {
        let before = groups.drop_last();
        lemma_group_rows_hosts(before);
        let headed = group_rows(before).push(SidebarRowView::Group { name: groups.last().name });
        assert(headed.drop_last() =~= group_rows(before));
        assert(headed.filter_map(row_host()) == group_rows(before).filter_map(row_host()));
        lemma_host_rows_hosts(headed, host_count(before), groups.last().hosts.len());
    }
}

proof fn lemma_group_host_count(
    defaults: SettingsView,
    groups: Seq<RawGroupView>,
    login: Seq<char>,
)
    ensures
        all_group_hosts(defaults, groups, login).len() == host_count(groups),
    decreases groups.len(),
{
    if groups.len() > 0 {
        lemma_group_host_count(defaults, groups.drop_last(), login);
    }
}

/// The row of a group's heading.
pub open spec fn header_row(groups: Seq<RawGroupView>, k: int) -> int {
    k + host_count(groups.take(k))
}

pub proof fn lemma_host_count_mono(groups: Seq<RawGroupView>, k: int)
    requires
        0 <= k < groups.len(),
    ensures
        host_count(groups.take(k)) + groups[k].hosts.len() == host_count(groups.take(k + 1)),
        host_count(groups.take(k + 1)) <= host_count(groups),
    decreases groups.len() - k,
{
    assert(groups.take(k + 1).drop_last() =~= groups.take(k));
    if k + 1 < groups.len() {
        lemma_host_count_mono(groups, k + 1);
    } else {
        assert(groups.take(k + 1) =~= groups);
    }
}

proof fn lemma_group_rows_len(groups: Seq<RawGroupView>)
    ensures
        group_rows(groups).len() == groups.len() + host_count(groups),
    decreases groups.len(),
{
    if groups.len() > 0 {
        lemma_group_rows_len(groups.drop_last());
    }
}

/// The rows of the first groups come first.
proof fn lemma_group_rows_prefix(groups: Seq<RawGroupView>, k: int)
    requires
        0 <= k <= groups.len(),
    ensures
        group_rows(groups.take(k)).len() == k + host_count(groups.take(k)),
        group_rows(groups.take(k)).len() <= group_rows(groups).len(),
        forall|i: int|
            0 <= i < group_rows(groups.take(k)).len() ==> #[trigger] group_rows(groups)[i]
                == group_rows(groups.take(k))[i],
    decreases groups.len() - k,
{
    lemma_group_rows_len(groups.take(k));
    if k < groups.len() {
        lemma_group_rows_prefix(groups, k + 1);
        assert(groups.take(k + 1).drop_last() =~= groups.take(k));
        let longer = group_rows(groups.take(k + 1));
        assert forall|i: int| 0 <= i < group_rows(groups.take(k)).len() implies #[trigger]
            group_rows(groups)[i] == group_rows(groups.take(k))[i] by {
            assert(group_rows(groups)[i] == longer[i]);
        }
    } else {
        assert(groups.take(k) =~= groups);
    }
}

/// A group's heading, then its hosts, then another heading, a host without a
/// group, or nothing.
pub proof fn lemma_group_block(raw: RawConfigView, k: int)
    requires
        0 <= k < raw.groups.len(),
    ensures
        ({
            let rows = rows_of(raw);
            let row = header_row(raw.groups, k);
            let first = host_count(raw.groups.take(k));
            let n = raw.groups[k].hosts.len();
            &&& 0 <= row
            &&& row + 1 + n <= rows.len()
            &&& rows[row] == SidebarRowView::Group { name: raw.groups[k].name }
            &&& forall|i: int|
                0 <= i < n ==> #[trigger] rows[row + 1 + i] == SidebarRowView::Host {
                    host_idx: first + i,
                }
            &&& row + 1 + n < rows.len() ==> rows[row + 1 + n] is Group || (rows[row + 1
                + n] is Host && rows[row + 1 + n]->host_idx >= host_count(raw.groups))
        }),
{
    let groups = raw.groups;
    let rows = rows_of(raw);
    let row = header_row(groups, k);
    let first = host_count(groups.take(k));
    let n = groups[k].hosts.len();
    let upto = group_rows(groups.take(k + 1));
    lemma_group_rows_prefix(groups, k);
    lemma_group_rows_prefix(groups, k + 1);
    assert(groups.take(k + 1).drop_last() =~= groups.take(k));
    assert(upto[row] == SidebarRowView::Group { name: groups[k].name });
    assert(rows[row] == upto[row]);
    assert forall|i: int| 0 <= i < n implies #[trigger] rows[row + 1 + i]
        == (SidebarRowView::Host { host_idx: first + i }) by {
        assert(upto[row + 1 + i] == host_rows(first, n)[i]);
    }
    let after = row + 1 + n;
    if after < rows.len() {
        if k + 1 < groups.len() {
            lemma_group_rows_prefix(groups, k + 2);
            assert(groups.take(k + 2).drop_last() =~= groups.take(k + 1));
            let further = group_rows(groups.take(k + 2));
            assert(further[after] == SidebarRowView::Group { name: groups[k + 1].name });
            assert(rows[after] == further[after]);
        } else {
            assert(groups.take(k + 1) =~= groups);
            assert(rows[after] == host_rows(host_count(groups), raw.hosts.len())[0]);
        }
    }
}

/// The hosts of groups come first, and they alone belong to a group.
pub proof fn lemma_membership(raw: RawConfigView, login: Seq<char>)
    ensures
        forall|j: int|
            0 <= j < resolved(raw, login).len() ==> ((#[trigger] resolved(
                raw,
                login,
            )[j]).group is Some <==> j < host_count(raw.groups)),
{
    lemma_group_host_count(raw.defaults, raw.groups, login);
    lemma_all_grouped(raw.defaults, raw.groups, login);
}

proof fn lemma_all_grouped(defaults: SettingsView, groups: Seq<RawGroupView>, login: Seq<char>)
    ensures
        forall|j: int|
            0 <= j < all_group_hosts(defaults, groups, login).len() ==> (#[trigger] all_group_hosts(
                defaults,
                groups,
                login,
            )[j]).group is Some,
    decreases groups.len(),
{
    if groups.len() > 0 {
        lemma_all_grouped(defaults, groups.drop_last(), login);
    }
}

/// A setting of a host is its own where it has one, else that of its group,
/// else the default; and where nothing is set, port 22 and `sudo`.
pub proof fn inner_settings_win(
    defaults: SettingsView,
    group: RawGroupView,
    host: RawHostView,
    login: Seq<char>,
)
    ensures
        ({
            let r = grouped_host(defaults, group, host, login);
            &&& r.group == Some(group.name)
            &&& r.user == (if host.settings.user is Some {
                host.settings.user->0
            } else if group.settings.user is Some {
                group.settings.user->0
            } else if defaults.user is Some {
                defaults.user->0
            } else {
                login
            })
            &&& r.port == (if host.settings.port is Some {
                host.settings.port->0
            } else if group.settings.port is Some {
                group.settings.port->0
            } else if defaults.port is Some {
                defaults.port->0
            } else {
                22
            })
            &&& r.use_sudo == (if host.settings.use_sudo is Some {
                host.settings.use_sudo->0
            } else if group.settings.use_sudo is Some {
                group.settings.use_sudo->0
            } else if defaults.use_sudo is Some {
                defaults.use_sudo->0
            } else {
                true
            })
            &&& r.identity_file == (if host.settings.identity_file is Some {
                host.settings.identity_file
            } else if group.settings.identity_file is Some {
                group.settings.identity_file
            } else {
                defaults.identity_file
            })
        }),
{
}

/// Where the hosts of a group stand in the host list.
proof fn lemma_group_hosts_at(raw: RawConfigView, login: Seq<char>, k: int, i: int)
    requires
        0 <= k < raw.groups.len(),
        0 <= i < raw.groups[k].hosts.len(),
    ensures
        0 <= host_count(raw.groups.take(k)) + i < resolved(raw, login).len(),
        resolved(raw, login)[host_count(raw.groups.take(k)) + i] == grouped_host(
            raw.defaults,
            raw.groups[k],
            raw.groups[k].hosts[i],
            login,
        ),
{
    let groups = raw.groups;
    let at = host_count(groups.take(k)) + i;
    let upto = all_group_hosts(raw.defaults, groups.take(k + 1), login);
    lemma_group_host_count(raw.defaults, groups.take(k), login);
    lemma_group_host_count(raw.defaults, groups, login);
    lemma_host_count_mono(groups, k);
    assert(groups.take(k + 1).drop_last() =~= groups.take(k));
    assert(upto[at] == group_hosts(raw.defaults, groups[k], login)[i]);
    lemma_all_group_hosts_prefix(raw, login, k + 1);
}

proof fn lemma_all_group_hosts_prefix(raw: RawConfigView, login: Seq<char>, k: int)
    requires
        0 <= k <= raw.groups.len(),
    ensures
        ({
            let part = all_group_hosts(raw.defaults, raw.groups.take(k), login);
            let all = all_group_hosts(raw.defaults, raw.groups, login);
            &&& part.len() <= all.len()
            &&& forall|i: int| 0 <= i < part.len() ==> #[trigger] all[i] == part[i]
        }),
    decreases raw.groups.len() - k,
{
    let part = all_group_hosts(raw.defaults, raw.groups.take(k), login);
    let all = all_group_hosts(raw.defaults, raw.groups, login);
    if k < raw.groups.len() {
        lemma_all_group_hosts_prefix(raw, login, k + 1);
        let longer = all_group_hosts(raw.defaults, raw.groups.take(k + 1), login);
        assert(raw.groups.take(k + 1).drop_last() =~= raw.groups.take(k));
        assert forall|i: int| 0 <= i < part.len() implies #[trigger] all[i] == part[i] by {
            assert(all[i] == longer[i]);
        }
    } else {
        assert(raw.groups.take(k) =~= raw.groups);
    }
}

/// Host `i` of group `k` is reached under its own name, with its own settings
/// where it has them, else those of its group, else the defaults; and where
/// nothing is set, as the login user, on port 22, with `sudo`.
pub proof fn a_grouped_host_is_reached_as_configured(
    raw: RawConfigView,
    login: Seq<char>,
    k: int,
    i: int,
)
    requires
        0 <= k < raw.groups.len(),
        0 <= i < raw.groups[k].hosts.len(),
    ensures
        ({
            let r = resolved(raw, login)[host_count(raw.groups.take(k)) + i];
            let group = raw.groups[k];
            let host = group.hosts[i];
            &&& r.hostname == host.hostname
            &&& r.group == Some(group.name)
            &&& r.user == (if host.settings.user is Some {
                host.settings.user->0
            } else if group.settings.user is Some {
                group.settings.user->0
            } else if raw.defaults.user is Some {
                raw.defaults.user->0
            } else {
                login
            })
            &&& r.port == (if host.settings.port is Some {
                host.settings.port->0
            } else if group.settings.port is Some {
                group.settings.port->0
            } else if raw.defaults.port is Some {
                raw.defaults.port->0
            } else {
                22
            })
            &&& r.use_sudo == (if host.settings.use_sudo is Some {
                host.settings.use_sudo->0
            } else if group.settings.use_sudo is Some {
                group.settings.use_sudo->0
            } else if raw.defaults.use_sudo is Some {
                raw.defaults.use_sudo->0
            } else {
                true
            })
            &&& r.identity_file == (if host.settings.identity_file is Some {
                host.settings.identity_file
            } else if group.settings.identity_file is Some {
                group.settings.identity_file
            } else {
                raw.defaults.identity_file
            })
        }),
{
    lemma_group_hosts_at(raw, login, k, i);
}

/// A host outside the groups follows all that are in one. It is reached under
/// its own name, with its own settings where it has them, else the defaults; and
/// where nothing is set, as the login user, on port 22, with `sudo`.
pub proof fn a_lone_host_is_reached_as_configured(raw: RawConfigView, login: Seq<char>, i: int)
    requires
        0 <= i < raw.hosts.len(),
    ensures
        resolved(raw, login).len() == host_count(raw.groups) + raw.hosts.len(),
        ({
            let r = resolved(raw, login)[host_count(raw.groups) + i];
            let host = raw.hosts[i];
            &&& r.hostname == host.hostname
            &&& r.group is None
            &&& r.user == (if host.settings.user is Some {
                host.settings.user->0
            } else if raw.defaults.user is Some {
                raw.defaults.user->0
            } else {
                login
            })
            &&& r.port == (if host.settings.port is Some {
                host.settings.port->0
            } else if raw.defaults.port is Some {
                raw.defaults.port->0
            } else {
                22
            })
            &&& r.use_sudo == (if host.settings.use_sudo is Some {
                host.settings.use_sudo->0
            } else if raw.defaults.use_sudo is Some {
                raw.defaults.use_sudo->0
            } else {
                true
            })
            &&& r.identity_file == (if host.settings.identity_file is Some {
                host.settings.identity_file
            } else {
                raw.defaults.identity_file
            })
        }),
{
    lemma_group_host_count(raw.defaults, raw.groups, login);
}

/// Where a lone host's row stands: behind all groups and their hosts.
pub proof fn lemma_lone_row(raw: RawConfigView, i: int)
    requires
        0 <= i < raw.hosts.len(),
    ensures
        ({
            let row = raw.groups.len() + host_count(raw.groups) + i;
            &&& row < rows_of(raw).len()
            &&& rows_of(raw)[row] == SidebarRowView::Host { host_idx: host_count(raw.groups) + i }
        }),
{
    lemma_group_rows_len(raw.groups);
}

/// The sidebar has one row for each group and one for each host, and no others.
pub proof fn the_sidebar_has_a_row_for_everything(raw: RawConfigView)
    ensures
        rows_of(raw).len() == raw.groups.len() + host_count(raw.groups) + raw.hosts.len(),
{
    lemma_group_rows_len(raw.groups);
}

} // verus!
