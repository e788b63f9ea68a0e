use aptmatic::apt::HoldReason;
use aptmatic::gather::Gatherer;

/// Runs a gather against a host that answers as `answer` says, and returns the
/// commands that were asked.
fn run(use_sudo: bool, answer: fn(&str) -> Option<String>) -> (Vec<String>, aptmatic::apt::HostInfo) {
    let mut g = Gatherer::new(use_sudo);
    let mut asked = vec![];
    while let Some(command) = g.command() {
        let output = answer(&command);
        asked.push(command);
        g.record(output);
    }
    (asked, g.finish())
}

fn debian(command: &str) -> Option<String> {
    let out = if command == "uname -r" {
        "6.1.0-28-amd64\n"
    } else if command.contains("linux-image") {
        "linux-image-6.1.0-32-amd64\n"
    } else if command.contains("reboot-required") {
        "yes\n"
    } else if command.contains("apt list") {
        "Listing...\ncurl/bookworm-security 8.0 amd64 [upgradable from: 7.9]\n"
    } else if command.contains("showhold") {
        "held-one\n"
    } else if command.contains("apt-get -s upgrade") {
        "The following packages have been kept back:\n  kept-a kept-b held-one\n"
    } else if command.contains("install kept-a") {
        "The following NEW packages will be installed:\n  libnew\nThe following packages will be REMOVED:\n  libold\n"
    } else if command.contains("install kept-b") {
        ""
    } else if command.contains("autoremove") {
        "The following packages will be REMOVED:\n  orphan*\n"
    } else if command.contains("find /etc") {
        "/etc/b.conf.dpkg-dist\n/etc/a.conf.dpkg-new\n"
    } else if command.contains("dpkg -S") {
        "apkg: /etc/a.conf\n"
    } else if command.contains("dpkg -l") {
        "rc  gone  1.0  amd64  text\nii  here  1.0  amd64  text\n"
    } else {
        panic!("unexpected command {command}")
    };
    Some(out.to_string())
}

#[test]
fn a_gather_asks_everything_and_learns_it() {
    let (asked, info) = run(true, debian);
    assert_eq!(
        asked,
        vec![
            "uname -r",
            "LC_ALL=C dpkg -l linux-image-[0-9]* 2>/dev/null | awk '/^ii/{print $2}' | sort -V | tail -1",
            "sudo -n test -f /var/run/reboot-required && echo yes || echo no",
            "LC_ALL=C apt list --upgradable 2>/dev/null",
            "LC_ALL=C dpkg -l 2>/dev/null",
            "LC_ALL=C apt-mark showhold 2>/dev/null",
            "LC_ALL=C apt-get -s upgrade 2>&1",
            "LC_ALL=C apt-get -s install kept-a 2>&1",
            "LC_ALL=C apt-get -s install kept-b 2>&1",
            "LC_ALL=C sudo -n apt-get -s autoremove --purge 2>/dev/null",
            "sudo -n find /etc -xdev -type f \\( -name '*.dpkg-dist' -o -name '*.dpkg-new' -o -name '*.ucf-dist' \\) -print 2>/dev/null",
            "LC_ALL=C dpkg -S '/etc/a.conf' '/etc/b.conf' 2>/dev/null",
        ]
    );
    assert_eq!(info.running_kernel, "6.1.0-28-amd64");
    assert_eq!(info.latest_kernel.as_deref(), Some("linux-image-6.1.0-32-amd64"));
    assert!(info.reboot_required);
    assert_eq!(info.upgradable.len(), 1);
    assert_eq!(info.security_package_names(), vec!["curl"]);
    assert_eq!(info.rc_packages.len(), 1);
    assert_eq!(info.rc_packages[0].name, "gone");
    let held: Vec<(&str, HoldReason, Option<&str>)> = info
        .held_packages
        .iter()
        .map(|p| (p.name.as_str(), p.reason, p.detail.as_deref()))
        .collect();
    assert_eq!(
        held,
        vec![
            ("held-one", HoldReason::ManualHold, None),
            ("kept-a", HoldReason::KeptBack, Some("needs: libnew; removes: libold")),
            ("kept-b", HoldReason::KeptBack, None),
        ]
    );
    assert_eq!(info.autoremovable, vec!["orphan"]);
    let files: Vec<(&str, Option<&str>)> = info
        .pending_conffiles
        .iter()
        .map(|f| (f.pending_path.as_str(), f.package.as_deref()))
        .collect();
    assert_eq!(
        files,
        vec![("/etc/a.conf.dpkg-new", Some("apkg")), ("/etc/b.conf.dpkg-dist", None)]
    );
}

#[test]
fn a_host_that_answers_nothing_has_nothing_to_show() {
    let (asked, info) = run(false, |_| None);
    assert_eq!(asked.len(), 9);
    assert_eq!(asked[2], "test -f /var/run/reboot-required && echo yes || echo no");
    assert_eq!(info.running_kernel, "");
    assert!(info.latest_kernel.is_none());
    assert!(!info.reboot_required);
    assert!(info.held_packages.is_empty());
    assert!(info.pending_conffiles.is_empty());
}

#[test]
fn reasons_are_given_one_by_one() {
    fn needs(command: &str) -> Option<String> {
        if command.contains("-s upgrade") {
            Some("kept back:\n  x y\n".to_string())
        } else if command.contains("install x") {
            Some("NEW packages will be installed:\n  a b\n".to_string())
        } else if command.contains("install y") {
            Some("packages will be REMOVED:\n  c\n".to_string())
        } else {
            None
        }
    }
    let (_, info) = run(true, needs);
    assert_eq!(info.held_packages[0].detail.as_deref(), Some("needs: a, b"));
    assert_eq!(info.held_packages[1].detail.as_deref(), Some("removes: c"));
}
