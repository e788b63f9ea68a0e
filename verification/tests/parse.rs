use aptmatic::apt::{HeldPackage, HoldReason, HostInfo};
use aptmatic::parse::{
    attach_conffile_owners, parse_autoremovable, parse_held_manually, parse_install_dry_run,
    parse_kept_back, parse_pending_conffiles, parse_rc_packages, parse_upgradable,
};

    
    // ── parse_pending_conffiles ───────────────────────────────────────────────

    #[test]
    fn parse_pending_conffiles_empty() {
        assert!(parse_pending_conffiles("").is_empty());
    }

    #[test]
    fn parse_pending_conffiles_derives_live_path_per_suffix() {
        let input =
            "/etc/ssh/sshd_config.dpkg-dist\n/etc/sysctl.conf.dpkg-new\n/etc/foo.ucf-dist\n";
        let files = parse_pending_conffiles(input);
        assert_eq!(files.len(), 3);
        let live: Vec<&str> = files.iter().map(|f| f.live_path.as_str()).collect();
        assert!(live.contains(&"/etc/ssh/sshd_config"));
        assert!(live.contains(&"/etc/sysctl.conf"));
        assert!(live.contains(&"/etc/foo"));
    }

    /// `.dpkg-old` is the backup of the file that was replaced — there is
    /// nothing pending about it, and offering to "apply" it would restore an
    /// old config.
    #[test]
    fn parse_pending_conffiles_ignores_dpkg_old_backups() {
        let input = "/etc/ssh/sshd_config.dpkg-old\n/etc/hosts\n";
        assert!(parse_pending_conffiles(input).is_empty());
    }

    #[test]
    fn parse_pending_conffiles_sorted_for_stable_ordering() {
        let input = "/etc/z.conf.dpkg-dist\n/etc/a.conf.dpkg-dist\n";
        let files = parse_pending_conffiles(input);
        assert_eq!(files[0].pending_path, "/etc/a.conf.dpkg-dist");
        assert_eq!(files[1].pending_path, "/etc/z.conf.dpkg-dist");
    }

    // ── attach_conffile_owners ────────────────────────────────────────────────

    #[test]
    fn attach_conffile_owners_matches_live_path() {
        let mut files = parse_pending_conffiles("/etc/ssh/sshd_config.dpkg-dist");
        attach_conffile_owners(&mut files, "openssh-server: /etc/ssh/sshd_config\n");
        assert_eq!(files[0].package.as_deref(), Some("openssh-server"));
    }

    #[test]
    fn attach_conffile_owners_takes_first_of_several_packages() {
        let mut files = parse_pending_conffiles("/etc/shared.conf.dpkg-dist");
        attach_conffile_owners(&mut files, "pkg-a,pkg-b: /etc/shared.conf\n");
        assert_eq!(files[0].package.as_deref(), Some("pkg-a"));
    }

    #[test]
    fn attach_conffile_owners_skips_diversion_lines() {
        let mut files = parse_pending_conffiles("/etc/foo.conf.dpkg-dist");
        attach_conffile_owners(&mut files, "diversion by other from: /etc/foo.conf\n");
        assert!(files[0].package.is_none());
    }

    #[test]
    fn attach_conffile_owners_leaves_unmatched_paths_alone() {
        let mut files = parse_pending_conffiles("/etc/foo.conf.dpkg-dist");
        attach_conffile_owners(&mut files, "somepkg: /etc/unrelated.conf\n");
        assert!(files[0].package.is_none());
    }

    // ── parse_upgradable ──────────────────────────────────────────────────────

    #[test]
    fn parse_upgradable_empty() {
        assert!(parse_upgradable("").is_empty());
    }

    #[test]
    fn parse_upgradable_skips_header_and_warnings() {
        let input = "Listing... Done\nWARNING: apt does not have a stable CLI interface\n";
        assert!(parse_upgradable(input).is_empty());
    }

    #[test]
    fn parse_upgradable_single_package_with_current_version() {
        let input = "curl/stable 7.88.1-10+deb12u8 amd64 [upgradable from: 7.88.1-10]";
        let pkgs = parse_upgradable(input);
        assert_eq!(pkgs.len(), 1);
        assert_eq!(pkgs[0].name, "curl");
        assert_eq!(pkgs[0].new_version, "7.88.1-10+deb12u8");
        assert_eq!(pkgs[0].current_version.as_deref(), Some("7.88.1-10"));
        assert!(!pkgs[0].is_security);
    }

    #[test]
    fn parse_upgradable_debian_security_suite() {
        let input =
            "openssl/bookworm-security 3.0.15-1~deb12u1 amd64 [upgradable from: 3.0.11-1~deb12u2]";
        let pkgs = parse_upgradable(input);
        assert!(pkgs[0].is_security);
    }

    #[test]
    fn parse_upgradable_ubuntu_security_suite() {
        let input =
            "curl/jammy-security 7.81.0-1ubuntu1.16 amd64 [upgradable from: 7.81.0-1ubuntu1.15]";
        let pkgs = parse_upgradable(input);
        assert!(pkgs[0].is_security);
    }

    #[test]
    fn parse_upgradable_multi_origin_security_suite() {
        let input = "curl/jammy-updates,jammy-security 7.81.0-1ubuntu1.16 amd64 [upgradable from: 7.81.0-1ubuntu1.15]";
        let pkgs = parse_upgradable(input);
        assert!(pkgs[0].is_security);
    }

    #[test]
    fn parse_upgradable_non_security_suite_is_not_flagged() {
        let input = "vim/jammy-updates 2:8.2.3995-1ubuntu2.15 amd64 [upgradable from: 2:8.2.3995-1ubuntu2.14]";
        let pkgs = parse_upgradable(input);
        assert!(!pkgs[0].is_security);
    }

    #[test]
    fn security_count_counts_only_security_packages() {
        let input = "\
curl/jammy-security 7.81.0-1ubuntu1.16 amd64 [upgradable from: 7.81.0-1ubuntu1.15]
vim/jammy-updates 2:8.2.3995-1ubuntu2.15 amd64 [upgradable from: 2:8.2.3995-1ubuntu2.14]
";
        let info = HostInfo {
            upgradable: parse_upgradable(input),
            ..Default::default()
        };
        assert_eq!(info.security_count(), 1);
        assert_eq!(info.security_package_names(), vec!["curl"]);
    }

    #[test]
    fn parse_upgradable_single_package_without_current_version() {
        let input = "vim/stable 2:9.0.1378-2 amd64";
        let pkgs = parse_upgradable(input);
        assert_eq!(pkgs.len(), 1);
        assert_eq!(pkgs[0].name, "vim");
        assert_eq!(pkgs[0].new_version, "2:9.0.1378-2");
        assert!(pkgs[0].current_version.is_none());
    }

    #[test]
    fn parse_upgradable_epoch_and_complex_version() {
        let input =
            "libssl3/stable-security 3.0.15-1~deb12u1 amd64 [upgradable from: 3.0.11-1~deb12u2]";
        let pkgs = parse_upgradable(input);
        assert_eq!(pkgs[0].new_version, "3.0.15-1~deb12u1");
        assert_eq!(pkgs[0].current_version.as_deref(), Some("3.0.11-1~deb12u2"));
    }

    #[test]
    fn parse_upgradable_multiple_packages() {
        let input = "\
Listing... Done
curl/stable 7.88.1-10+deb12u8 amd64 [upgradable from: 7.88.1-10]
vim/stable 2:9.0.1378-2 amd64 [upgradable from: 2:9.0.0-1]
";
        let pkgs = parse_upgradable(input);
        assert_eq!(pkgs.len(), 2);
        assert_eq!(pkgs[0].name, "curl");
        assert_eq!(pkgs[1].name, "vim");
    }

    #[test]
    fn parse_upgradable_ignores_malformed_lines() {
        let input = "this line has no slash at all\n";
        assert!(parse_upgradable(input).is_empty());
    }

    // ── parse_rc_packages ─────────────────────────────────────────────────────

    #[test]
    fn parse_rc_packages_empty() {
        assert!(parse_rc_packages("").is_empty());
    }

    #[test]
    fn parse_rc_packages_includes_rc_excludes_others() {
        let input = "\
rc  old-lib            1.2.3   amd64  Some old lib
ii  bash               5.2-2   amd64  GNU Bourne Again shell
un  missing-pkg        <none>  <none> (no description)
rc  another-ghost      0.9     amd64  Ghost config
";
        let pkgs = parse_rc_packages(input);
        assert_eq!(pkgs.len(), 2);
        assert_eq!(pkgs[0].name, "old-lib");
        assert_eq!(pkgs[1].name, "another-ghost");
    }

    #[test]
    fn parse_rc_packages_ignores_dpkg_header_lines() {
        let input = "\
Desired=Unknown/Install/Remove/Purge/Hold
| Status=Not/Inst/Conf-files/Unpacked/halF-conf/Half-inst/trig-aWait/Trig-pend
|/ Err?=(none)/Reinst-required (Status,Err: uppercase=bad)
||/ Name           Version      Architecture Description
+++-==============-============-============-=================================
rc  orphan-pkg     1.0          amd64        An orphaned package
ii  live-pkg       2.0          amd64        A live package
";
        let pkgs = parse_rc_packages(input);
        assert_eq!(pkgs.len(), 1);
        assert_eq!(pkgs[0].name, "orphan-pkg");
    }

    // ── parse_held_manually ───────────────────────────────────────────────────

    #[test]
    fn parse_held_manually_empty() {
        assert!(parse_held_manually("").is_empty());
    }

    #[test]
    fn parse_held_manually_returns_packages_with_manual_hold_reason() {
        let input = "linux-image-amd64\ngrub-pc\n";
        let pkgs = parse_held_manually(input);
        assert_eq!(pkgs.len(), 2);
        assert_eq!(pkgs[0].name, "linux-image-amd64");
        assert_eq!(pkgs[0].reason, HoldReason::ManualHold);
        assert_eq!(pkgs[1].name, "grub-pc");
    }

    #[test]
    fn parse_held_manually_trims_whitespace() {
        let input = "  linux-image-amd64  \n";
        let pkgs = parse_held_manually(input);
        assert_eq!(pkgs[0].name, "linux-image-amd64");
    }

    // ── parse_install_dry_run ─────────────────────────────────────────────────

    #[test]
    fn parse_install_dry_run_empty() {
        let (new, rem) = parse_install_dry_run("");
        assert!(new.is_empty());
        assert!(rem.is_empty());
    }

    #[test]
    fn parse_install_dry_run_new_packages() {
        let input = "\
Reading package lists... Done
Building dependency tree... Done
The following NEW packages will be installed:
  linux-image-6.1.0-28-amd64 linux-headers-6.1.0-28-amd64
The following packages will be upgraded:
  linux-image-amd64
1 upgraded, 2 newly installed, 0 to remove and 5 not upgraded.
";
        let (new, rem) = parse_install_dry_run(input);
        assert_eq!(
            new,
            vec!["linux-image-6.1.0-28-amd64", "linux-headers-6.1.0-28-amd64"]
        );
        assert!(rem.is_empty());
    }

    #[test]
    fn parse_install_dry_run_removals() {
        let input = "\
Reading package lists... Done
The following packages will be REMOVED:
  old-conflicting-pkg
1 to remove and 0 not upgraded.
";
        let (new, rem) = parse_install_dry_run(input);
        assert!(new.is_empty());
        assert_eq!(rem, vec!["old-conflicting-pkg"]);
    }

    #[test]
    fn parse_install_dry_run_new_and_removals() {
        let input = "\
The following NEW packages will be installed:
  new-dep
The following packages will be REMOVED:
  old-dep
";
        let (new, rem) = parse_install_dry_run(input);
        assert_eq!(new, vec!["new-dep"]);
        assert_eq!(rem, vec!["old-dep"]);
    }

    #[test]
    fn parse_install_dry_run_multiline_new_packages() {
        let input = "\
The following NEW packages will be installed:
  pkg-a pkg-b
  pkg-c
The following packages will be upgraded:
  mypkg
";
        let (new, _) = parse_install_dry_run(input);
        assert_eq!(new, vec!["pkg-a", "pkg-b", "pkg-c"]);
    }

    // ── parse_autoremovable ───────────────────────────────────────────────────

    #[test]
    fn parse_autoremovable_empty() {
        assert!(parse_autoremovable("").is_empty());
    }

    #[test]
    fn parse_autoremovable_no_removed_section() {
        let input = "0 upgraded, 0 newly installed, 0 to remove and 0 not upgraded.\n";
        assert!(parse_autoremovable(input).is_empty());
    }

    #[test]
    fn parse_autoremovable_single_line() {
        let input = "\
Reading package lists... Done
Building dependency tree... Done
The following packages will be REMOVED:
  libfoo1 libbar2 libbaz3
0 upgraded, 0 newly installed, 3 to remove and 0 not upgraded.
";
        let pkgs = parse_autoremovable(input);
        assert_eq!(pkgs, vec!["libfoo1", "libbar2", "libbaz3"]);
    }

    #[test]
    fn parse_autoremovable_multiline() {
        let input = "\
The following packages will be REMOVED:
  pkg-a pkg-b
  pkg-c
0 to remove.
";
        let pkgs = parse_autoremovable(input);
        assert_eq!(pkgs, vec!["pkg-a", "pkg-b", "pkg-c"]);
    }

    #[test]
    fn parse_autoremovable_strips_asterisk_suffixes() {
        let input = "\
The following packages will be REMOVED:
  libfoo1* libbar2*
";
        let pkgs = parse_autoremovable(input);
        assert_eq!(pkgs, vec!["libfoo1", "libbar2"]);
    }

    #[test]
    fn parse_kept_back_empty_output() {
        assert!(parse_kept_back("", &[]).is_empty());
    }

    #[test]
    fn parse_kept_back_no_section() {
        let input = "0 upgraded, 0 newly installed, 0 to remove and 0 not upgraded.\n";
        assert!(parse_kept_back(input, &[]).is_empty());
    }

    #[test]
    fn parse_kept_back_collects_packages_from_section() {
        let input = "\
Reading package lists...
The following packages have been kept back:
  linux-image-amd64 linux-headers-amd64
0 upgraded, 2 not upgraded.
";
        let pkgs = parse_kept_back(input, &[]);
        assert_eq!(pkgs.len(), 2);
        assert_eq!(pkgs[0].name, "linux-image-amd64");
        assert_eq!(pkgs[0].reason, HoldReason::KeptBack);
        assert_eq!(pkgs[1].name, "linux-headers-amd64");
    }

    #[test]
    fn parse_kept_back_multiple_indented_lines() {
        let input = "\
The following packages have been kept back:
  pkg-a pkg-b
  pkg-c
Inst pkg-d
";
        let pkgs = parse_kept_back(input, &[]);
        assert_eq!(pkgs.len(), 3);
        assert_eq!(pkgs[0].name, "pkg-a");
        assert_eq!(pkgs[1].name, "pkg-b");
        assert_eq!(pkgs[2].name, "pkg-c");
    }

    #[test]
    fn parse_kept_back_excludes_manually_held() {
        let manually_held = vec![HeldPackage {
            name: "linux-image-amd64".to_string(),
            reason: HoldReason::ManualHold,
            detail: None,
        }];
        let input = "\
The following packages have been kept back:
  linux-image-amd64 linux-headers-amd64
";
        let pkgs = parse_kept_back(input, &manually_held);
        assert_eq!(pkgs.len(), 1);
        assert_eq!(pkgs[0].name, "linux-headers-amd64");
    }
