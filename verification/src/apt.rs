//! What is known of a host's packages.

use vstd::prelude::*;

use crate::lemmas;

verus! {

// ── Data ─────────────────────────────────────────────────────────────────────

/// A single upgradable apt package.
#[derive(Debug)]
pub struct Package {
    pub name: String,
    pub new_version: String,
    pub current_version: Option<String>,
    /// True if the package's origin suite looks like a security repo
    /// (e.g. `bookworm-security`, `jammy-security`).
    pub is_security: bool,
}

pub struct PackageView {
    pub name: Seq<char>,
    pub new_version: Seq<char>,
    pub current_version: Option<Seq<char>>,
    pub is_security: bool,
}

impl DeepView for Package {
    type V = PackageView;

    open spec fn deep_view(&self) -> PackageView {
        PackageView {
            name: self.name@,
            new_version: self.new_version@,
            current_version: self.current_version.deep_view(),
            is_security: self.is_security,
        }
    }
}

impl Clone for Package {
    fn clone(&self) -> (r: Self)
        ensures
            r.deep_view() == self.deep_view(),
    {
        Package {
            name: self.name.clone(),
            new_version: self.new_version.clone(),
            current_version: self.current_version.clone(),
            is_security: self.is_security,
        }
    }
}

/// Why a package is not upgraded.
#[derive(Debug, Clone, Copy, PartialEq, Eq, Structural)]
pub enum HoldReason {
    /// Held via `apt-mark hold`
    ManualHold,
    /// Kept back by apt resolver (e.g. new dependencies needed)
    KeptBack,
}

impl DeepView for HoldReason {
    type V = HoldReason;

    open spec fn deep_view(&self) -> HoldReason {
        *self
    }
}

/// Represents a package held back from upgrades, along with the reason.
#[derive(Debug)]
pub struct HeldPackage {
    pub name: String,
    pub reason: HoldReason,
    /// Human-readable explanation of why the package is kept back, if available.
    pub detail: Option<String>,
}

pub struct HeldPackageView {
    pub name: Seq<char>,
    pub reason: HoldReason,
    pub detail: Option<Seq<char>>,
}

impl DeepView for HeldPackage {
    type V = HeldPackageView;

    open spec fn deep_view(&self) -> HeldPackageView {
        HeldPackageView {
            name: self.name@,
            reason: self.reason,
            detail: self.detail.deep_view(),
        }
    }
}

impl Clone for HeldPackage {
    fn clone(&self) -> (r: Self)
        ensures
            r.deep_view() == self.deep_view(),
    {
        HeldPackage { name: self.name.clone(), reason: self.reason, detail: self.detail.clone() }
    }
}

/// A package with dpkg rc status (removed but config files remain).
#[derive(Debug)]
pub struct RcPackage {
    pub name: String,
}

pub struct RcPackageView {
    pub name: Seq<char>,
}

impl DeepView for RcPackage {
    type V = RcPackageView;

    open spec fn deep_view(&self) -> RcPackageView {
        RcPackageView { name: self.name@ }
    }
}

impl Clone for RcPackage {
    fn clone(&self) -> (r: Self)
        ensures
            r.deep_view() == self.deep_view(),
    {
        RcPackage { name: self.name.clone() }
    }
}

/// A config file that a package shipped a new version of, which dpkg left
/// beside the live file rather than installing (because upgrades run with
/// `--force-confold`). Nothing has changed on the host until it is resolved.
#[derive(Debug, PartialEq)]
pub struct PendingConffile {
    /// What dpkg wrote, e.g. `/etc/ssh/sshd_config.dpkg-dist`.
    pub pending_path: String,
    /// The live config it would replace, e.g. `/etc/ssh/sshd_config`.
    pub live_path: String,
    /// Package owning the live path, when dpkg can attribute it.
    pub package: Option<String>,
}

pub struct PendingConffileView {
    pub pending_path: Seq<char>,
    pub live_path: Seq<char>,
    pub package: Option<Seq<char>>,
}

impl DeepView for PendingConffile {
    type V = PendingConffileView;

    open spec fn deep_view(&self) -> PendingConffileView {
        PendingConffileView {
            pending_path: self.pending_path@,
            live_path: self.live_path@,
            package: self.package.deep_view(),
        }
    }
}

impl Clone for PendingConffile {
    fn clone(&self) -> (r: Self)
        ensures
            r.deep_view() == self.deep_view(),
    {
        PendingConffile {
            pending_path: self.pending_path.clone(),
            live_path: self.live_path.clone(),
            package: self.package.clone(),
        }
    }
}

/// All gathered information for a single host.
#[derive(Debug)]
pub struct HostInfo {
    pub running_kernel: String,
    pub latest_kernel: Option<String>,
    pub reboot_required: bool,
    pub upgradable: Vec<Package>,
    pub rc_packages: Vec<RcPackage>,
    pub held_packages: Vec<HeldPackage>,
    pub autoremovable: Vec<String>,
    pub pending_conffiles: Vec<PendingConffile>,
}

pub struct HostInfoView {
    pub running_kernel: Seq<char>,
    pub latest_kernel: Option<Seq<char>>,
    pub reboot_required: bool,
    pub upgradable: Seq<PackageView>,
    pub rc_packages: Seq<RcPackageView>,
    pub held_packages: Seq<HeldPackageView>,
    pub autoremovable: Seq<Seq<char>>,
    pub pending_conffiles: Seq<PendingConffileView>,
}

impl DeepView for HostInfo {
    type V = HostInfoView;

    open spec fn deep_view(&self) -> HostInfoView {
        HostInfoView {
            running_kernel: self.running_kernel@,
            latest_kernel: self.latest_kernel.deep_view(),
            reboot_required: self.reboot_required,
            upgradable: self.upgradable.deep_view(),
            rc_packages: self.rc_packages.deep_view(),
            held_packages: self.held_packages.deep_view(),
            autoremovable: self.autoremovable.deep_view(),
            pending_conffiles: self.pending_conffiles.deep_view(),
        }
    }
}

impl Clone for HostInfo {
    fn clone(&self) -> (r: Self)
        ensures
            r.deep_view() == self.deep_view(),
    {
        let r = HostInfo {
            running_kernel: self.running_kernel.clone(),
            latest_kernel: self.latest_kernel.clone(),
            reboot_required: self.reboot_required,
            upgradable: self.upgradable.clone(),
            rc_packages: self.rc_packages.clone(),
            held_packages: self.held_packages.clone(),
            autoremovable: self.autoremovable.clone(),
            pending_conffiles: self.pending_conffiles.clone(),
        };
        assert(r.upgradable.deep_view() =~= self.upgradable.deep_view());
        assert(r.rc_packages.deep_view() =~= self.rc_packages.deep_view());
        assert(r.held_packages.deep_view() =~= self.held_packages.deep_view());
        assert(r.autoremovable.deep_view() =~= self.autoremovable.deep_view());
        assert(r.pending_conffiles.deep_view() =~= self.pending_conffiles.deep_view());
        r
    }
}

/// What is known of a host before anything was gathered.
pub open spec fn no_info() -> HostInfoView {
    HostInfoView {
        running_kernel: seq![],
        latest_kernel: None,
        reboot_required: false,
        upgradable: seq![],
        rc_packages: seq![],
        held_packages: seq![],
        autoremovable: seq![],
        pending_conffiles: seq![],
    }
}

impl Default for HostInfo {
    fn default() -> (r: Self)
        ensures
            r.deep_view() == no_info(),
    {
        let r = HostInfo {
            running_kernel: String::new(),
            latest_kernel: None,
            reboot_required: false,
            upgradable: Vec::new(),
            rc_packages: Vec::new(),
            held_packages: Vec::new(),
            autoremovable: Vec::new(),
            pending_conffiles: Vec::new(),
        };
        assert(r.upgradable.deep_view() =~= seq![]);
        assert(r.rc_packages.deep_view() =~= seq![]);
        assert(r.held_packages.deep_view() =~= seq![]);
        assert(r.autoremovable.deep_view() =~= seq![]);
        assert(r.pending_conffiles.deep_view() =~= seq![]);
        r
    }
}

// ── Security updates ─────────────────────────────────────────────────────────

pub open spec fn security_name() -> spec_fn(PackageView) -> Option<Seq<char>> {
    |p: PackageView|
        if p.is_security {
            Some(p.name)
        } else {
            None
        }
}

/// The names of the packages that come from a security suite, in order.
pub open spec fn security_names(pkgs: Seq<PackageView>) -> Seq<Seq<char>> {
    pkgs.filter_map(security_name())
}

impl HostInfo {
    /// Number of upgradable packages originating from a security suite.
    pub fn security_count(&self) -> (r: usize)
        ensures
            r == security_names(self.deep_view().upgradable).len(),
            r <= self.upgradable@.len(),
    {
        let ghost all = self.upgradable.deep_view();
        let n: usize = self.upgradable.len();
        let mut count: usize = 0;
        let mut i: usize = 0;
        while i < n
            invariant
                n == self.upgradable@.len(),
                all == self.upgradable.deep_view(),
                i <= n,
                count <= i,
                count == all.take(i as int).filter_map(security_name()).len(),
            decreases n - i,
        {
            proof {
                all.lemma_filter_map_take_succ(security_name(), i as int);
            }
            if self.upgradable[i].is_security {
                count += 1;
            }
            i += 1;
        }
        assert(all.take(n as int) =~= all);
        count
    }

    /// Names of upgradable packages originating from a security suite.
    pub fn security_package_names(&self) -> (r: Vec<String>)
        ensures
            r.deep_view() == security_names(self.deep_view().upgradable),
    {
        let ghost all = self.upgradable.deep_view();
        let n: usize = self.upgradable.len();
        let mut r: Vec<String> = Vec::new();
        let mut i: usize = 0;
        assert(r.deep_view() =~= seq![]);
        while i < n
            invariant
                n == self.upgradable@.len(),
                all == self.upgradable.deep_view(),
                i <= n,
                r.deep_view() == all.take(i as int).filter_map(security_name()),
            decreases n - i,
        {
            proof {
                all.lemma_filter_map_take_succ(security_name(), i as int);
            }
            let ghost before = r.deep_view();
            if self.upgradable[i].is_security {
                r.push(self.upgradable[i].name.clone());
                assert(r.deep_view() =~= before.push(all[i as int].name));
            }
            i += 1;
        }
        assert(all.take(n as int) =~= all);
        r
    }
}

// ── Laws ─────────────────────────────────────────────────────────────────────

/// The security packages are those of the upgradable ones that come from a
/// security suite.
pub proof fn security_packages_are_upgradable(pkgs: Seq<PackageView>, name: Seq<char>)
    ensures
        security_names(pkgs).contains(name) <==> exists|i: int|
            0 <= i < pkgs.len() && #[trigger] pkgs[i].is_security && pkgs[i].name == name,
{
    if security_names(pkgs).contains(name) {
        pkgs.lemma_filter_map_contains(security_name(), name);
        let p = choose|p: PackageView| #[trigger]
            pkgs.contains(p) && security_name()(p) == Some(name);
        let i = choose|i: int| 0 <= i < pkgs.len() && pkgs[i] == p;
        assert(pkgs[i].is_security);
    }
    if exists|i: int| 0 <= i < pkgs.len() && #[trigger] pkgs[i].is_security && pkgs[i].name == name {
        let i = choose|i: int|
            0 <= i < pkgs.len() && #[trigger] pkgs[i].is_security && pkgs[i].name == name;
        lemmas::lemma_filter_map_has(pkgs, security_name(), i);
    }
}

} // verus!
