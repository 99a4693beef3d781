use butterup::health::{
    boot_space_check, broken_deps_check, cache_totals, dpkg_audit_check, dpkg_interrupted_check,
    held_packages_check, kernels_check, lists_freshness_check, parse_autoremove, parse_df,
    parse_download_size, parse_journal_usage, reboot_required_check, repair, Check, DiskReading,
    ProgramOutput,
};
use butterup::privileged::action_argv;

fn out(success: bool, stdout: &str, stderr: &str) -> Result<ProgramOutput, String> {
    Ok(ProgramOutput { success, stdout: stdout.to_string(), stderr: stderr.to_string() })
}

fn repair_id(c: &Check) -> Option<String> {
    c.repair.as_ref().map(|r| r.id.clone())
}

fn assert_sound(c: &Check) {
    assert!(["ok", "warn", "bad", "info", "unknown"].contains(&c.status.as_str()));
    if c.status == "ok" {
        assert!(c.repair.is_none());
    }
    if let Some(r) = &c.repair {
        assert!(action_argv(&r.id).is_some());
    }
}

#[test]
fn new_check_and_repair_keep_their_text() {
    let c = Check::new("a", "A", "ok", "d".to_string(), repair("x", "X"));
    assert_eq!((c.id.as_str(), c.title.as_str(), c.status.as_str(), c.detail.as_str()), ("a", "A", "ok", "d"));
    let r = c.repair.unwrap();
    assert_eq!((r.id.as_str(), r.label.as_str()), ("x", "X"));
}

#[test]
fn dpkg_interrupted_counts_numeric_journal_entries() {
    let c = dpkg_interrupted_check(Ok(vec!["1".into(), "27".into(), "tmp.i".into()]));
    assert_eq!(c.id, "dpkg-interrupted");
    assert_eq!(c.title, "Interrupted package operation");
    assert_eq!(c.status, "bad");
    assert_eq!(
        c.detail,
        "dpkg was interrupted mid-operation (2 pending journal entries). Packages may be half-installed until it finishes."
    );
    assert_eq!(repair_id(&c).as_deref(), Some("configure-dpkg"));
    assert_eq!(c.repair.unwrap().label, "Finish pending configuration");
}

#[test]
fn dpkg_interrupted_ok_and_unreadable() {
    let c = dpkg_interrupted_check(Ok(vec!["tmp.i".into()]));
    assert_eq!(c.status, "ok");
    assert_eq!(c.detail, "No interrupted dpkg operation.");
    let c = dpkg_interrupted_check(Err("Permission denied (os error 13)".into()));
    assert_eq!(c.status, "unknown");
    assert_eq!(c.detail, "Could not read dpkg state: Permission denied (os error 13)");
    assert!(c.repair.is_none());
}

#[test]
fn dpkg_audit_clean_report() {
    let c = dpkg_audit_check(out(true, "  \n\n", ""));
    assert_eq!(c.status, "ok");
    assert_eq!(c.detail, "dpkg reports no half-installed or misconfigured packages.");
}

#[test]
fn dpkg_audit_long_report_is_cut_at_twelve_lines() {
    let report: String = (1..=13).map(|i| format!("line {i}\n")).collect();
    let c = dpkg_audit_check(out(false, &report, ""));
    assert_eq!(c.status, "bad");
    let expected: Vec<String> = (1..=12).map(|i| format!("line {i}")).collect();
    assert_eq!(c.detail, format!("{}\n…", expected.join("\n")));
    assert_eq!(repair_id(&c).as_deref(), Some("configure-dpkg"));
    let c = dpkg_audit_check(out(true, "\n  pkg is half-installed\n", ""));
    assert_eq!(c.detail, "pkg is half-installed");
}

#[test]
fn dpkg_audit_failure() {
    let c = dpkg_audit_check(Err("No such file or directory (os error 2)".into()));
    assert_eq!(c.status, "unknown");
    assert_eq!(c.detail, "dpkg --audit failed: No such file or directory (os error 2)");
}

#[test]
fn broken_deps_clean_simulation() {
    let stdout = "Reading package lists...\n  0 upgraded, 0 newly installed, 0 to remove and 3 not upgraded.\n";
    let c = broken_deps_check(out(true, stdout, ""));
    assert_eq!(c.status, "ok");
    assert_eq!(c.detail, "All package dependencies are satisfied.");
}

#[test]
fn broken_deps_would_change_packages() {
    let stdout = "1 upgraded, 2 newly installed, 0 to remove and 0 not upgraded.\n";
    let c = broken_deps_check(out(true, stdout, ""));
    assert_eq!(c.status, "bad");
    assert_eq!(c.detail, "apt wants to add or remove packages to repair dependencies.");
    assert_eq!(repair_id(&c).as_deref(), Some("fix-broken"));
    // No summary line at all counts as not clean.
    assert_eq!(broken_deps_check(out(true, "nothing\n", "")).status, "bad");
}

#[test]
fn broken_deps_apt_error() {
    let c = broken_deps_check(out(false, "", "E: first\nE: Unmet dependencies.\n"));
    assert_eq!(c.status, "bad");
    assert_eq!(c.detail, "E: Unmet dependencies.");
    assert_eq!(repair_id(&c).as_deref(), Some("fix-broken"));
    let c = broken_deps_check(out(false, "", "  \n"));
    assert_eq!(c.detail, "apt reported an error");
    let c = broken_deps_check(Err("boom".into()));
    assert_eq!(c.status, "unknown");
    assert_eq!(c.detail, "apt-get check failed: boom");
}

#[test]
fn held_packages_are_listed() {
    let c = held_packages_check(out(true, "foo\n   \nbar\n", ""));
    assert_eq!(c.status, "warn");
    assert_eq!(
        c.detail,
        "2 package(s) held back from upgrades: foo, bar. Holds are sometimes intentional; remove one with `sudo apt-mark unhold <pkg>`."
    );
    assert!(c.repair.is_none());
    let c = held_packages_check(out(true, "", ""));
    assert_eq!(c.status, "ok");
    assert_eq!(c.detail, "No packages are on hold.");
    let c = held_packages_check(out(false, "", "  E: lock  \n"));
    assert_eq!(c.status, "unknown");
    assert_eq!(c.detail, "E: lock");
    let c = held_packages_check(Err("x".into()));
    assert_eq!(c.detail, "apt-mark failed: x");
}

#[test]
fn df_output_is_read() {
    let df = "Filesystem     1024-blocks   Used Available Capacity Mounted on\n/dev/sda1           999320 250000    680000      27% /boot\n";
    assert_eq!(parse_df(df), Some((27, 680000)));
    assert_eq!(parse_df("only a header\n"), None);
    assert_eq!(parse_df("header\nshort line\n"), Some((0, 0)));
    assert_eq!(parse_df("header\na b c x% y\n"), Some((0, 0)));
    assert_eq!(parse_df("header\na b c +12 +5% y\n"), Some((5, 12)));
    assert_eq!(parse_df("header\na b c 99999999999999999999 4294967296% y\n"), Some((0, 0)));
}

#[test]
fn boot_space_thresholds() {
    let c = boot_space_check(DiskReading::Usage { used_pct: 90, avail: "12.3 MB".into() });
    assert_eq!(c.status, "bad");
    assert_eq!(c.detail, "90% used, 12.3 MB free. Old kernels are the usual culprit when this fills up.");
    assert_eq!(repair_id(&c).as_deref(), Some("autoremove"));
    assert_eq!(c.repair.as_ref().unwrap().label, "Remove unused packages & old kernels");
    let c = boot_space_check(DiskReading::Usage { used_pct: 75, avail: "1 GB".into() });
    assert_eq!(c.status, "warn");
    assert_eq!(repair_id(&c).as_deref(), Some("autoremove"));
    let c = boot_space_check(DiskReading::Usage { used_pct: 74, avail: "1 GB".into() });
    assert_eq!(c.status, "ok");
    assert!(c.repair.is_none());
}

#[test]
fn boot_space_unknown_states() {
    let c = boot_space_check(DiskReading::Unavailable);
    assert_eq!((c.status.as_str(), c.detail.as_str()), ("unknown", "Could not stat /boot."));
    let c = boot_space_check(DiskReading::Unexpected);
    assert_eq!((c.status.as_str(), c.detail.as_str()), ("unknown", "Unexpected df output."));
}

#[test]
fn lists_freshness_ages() {
    let c = lists_freshness_check(None);
    assert_eq!((c.status.as_str(), c.detail.as_str()), ("unknown", "Could not read /var/lib/apt/lists."));
    let c = lists_freshness_check(Some(86_399));
    assert_eq!((c.status.as_str(), c.detail.as_str()), ("ok", "Package lists refreshed today."));
    let c = lists_freshness_check(Some(3 * 86_400 + 5));
    assert_eq!(c.detail, "Package lists refreshed 3 day(s) ago.");
    let c = lists_freshness_check(Some(13 * 86_400 + 86_399));
    assert_eq!(c.status, "ok");
    let c = lists_freshness_check(Some(14 * 86_400));
    assert_eq!(c.status, "warn");
    assert_eq!(
        c.detail,
        "Package lists were last refreshed 14 days ago — the update list may be incomplete. Use “Check again” on the Updates tab to refresh."
    );
}

#[test]
fn kernels_are_counted() {
    let query = "linux-image-6.8.0-40-generic install ok installed\n\
                 linux-image-6.8.0-45-generic install ok installed\n\
                 linux-image-generic install ok installed\n\
                 linux-image-6.5.0-1-generic deinstall ok config-files\n";
    let c = kernels_check(out(true, "6.8.0-45-generic\n", ""), out(true, query, ""));
    assert_eq!(c.status, "ok");
    assert_eq!(c.detail, "Running kernel 6.8.0-45-generic · 2 kernel image(s) installed.");
    let many: String = (1..=4).map(|i| format!("linux-image-6.{i} install ok installed\n")).collect();
    let c = kernels_check(Err("no uname".into()), out(true, &many, ""));
    assert_eq!(c.status, "info");
    assert_eq!(
        c.detail,
        "Running kernel  · 4 kernel image(s) installed. Older ones can be cleaned up safely."
    );
    assert_eq!(repair_id(&c).as_deref(), Some("autoremove"));
    let c = kernels_check(out(true, "x", ""), Err("gone".into()));
    assert_eq!((c.status.as_str(), c.detail.as_str()), ("unknown", "dpkg-query failed: gone"));
}

#[test]
fn reboot_required_states() {
    let c = reboot_required_check(true, "linux-image-6.8\n\nlibc6\n");
    assert_eq!(c.status, "warn");
    assert_eq!(c.detail, "Restart needed to finish updating: linux-image-6.8, libc6.");
    let c = reboot_required_check(true, "");
    assert_eq!(c.detail, "A previous update needs a restart to take effect.");
    let c = reboot_required_check(false, "ignored");
    assert_eq!((c.status.as_str(), c.detail.as_str()), ("ok", "No restart pending."));
}

#[test]
fn download_size_is_read() {
    let s = "Reading...\nNeed to get 1,234 kB/456 MB of archives.\nAfter this operation...\n";
    assert_eq!(parse_download_size(s), "456 MB");
    assert_eq!(parse_download_size("Need to get 12.5 MB of archives.\n"), "12.5 MB");
    assert_eq!(parse_download_size("Need to get 0 B of archives.\n"), "");
    assert_eq!(parse_download_size("Need to get 0 B/5 kB of archives.\n"), "");
    assert_eq!(parse_download_size("Need to get 0 B/456 MB of archives.\n"), "");
    assert_eq!(parse_download_size("nothing to do\n"), "");
}

#[test]
fn journal_usage_is_read() {
    let s = "Archived and active journals take up 1.5G in the file system.\n";
    assert_eq!(parse_journal_usage(true, s), "1.5G");
    assert_eq!(parse_journal_usage(false, s), "");
    assert_eq!(parse_journal_usage(true, "journals take up 8.0M.\n"), "8.0M");
    assert_eq!(parse_journal_usage(true, "something else"), "");
    assert_eq!(parse_journal_usage(true, "take up "), "");
}

#[test]
fn autoremove_plan_is_read() {
    let s = "Reading package lists...\n\
             The following packages will be REMOVED:\n  \
             linux-image-6.5.0-1-generic* libold1*\n  \
             libold2\n\
             0 upgraded, 0 newly installed, 3 to remove and 0 not upgraded.\n\
             After this operation, 123 MB disk space will be freed.\n";
    let (pkgs, frees) = parse_autoremove(s);
    assert_eq!(pkgs, vec!["linux-image-6.5.0-1-generic", "libold1", "libold2"]);
    assert_eq!(frees, "123 MB");
    let (pkgs, frees) = parse_autoremove("nothing\n");
    assert!(pkgs.is_empty());
    assert_eq!(frees, "");
    let (_, frees) = parse_autoremove("After this operation 5 disk space, more\n");
    assert_eq!(frees, "");
}

#[test]
fn cache_totals_count_deb_files() {
    let files = vec![
        ("a_1.0_amd64.deb".to_string(), 100u64),
        ("lock".to_string(), 7),
        ("partial".to_string(), 4096),
        (".deb".to_string(), 3),
        ("b.deb".to_string(), 50),
        ("c.deb.part".to_string(), 9),
    ];
    assert_eq!(cache_totals(&files), Some((150, 2)));
    assert_eq!(cache_totals(&Vec::new()), Some((0, 0)));
    let huge = vec![("x.deb".to_string(), u64::MAX), ("y.deb".to_string(), 1)];
    assert_eq!(cache_totals(&huge), None);
}

#[test]
fn all_checks_are_sound() {
    let runs = vec![
        out(true, "", ""),
        out(false, "x\n", "e\n"),
        out(true, "0 upgraded, 0 newly installed, 0 to remove\n", ""),
        Err("e".into()),
    ];
    for r in &runs {
        assert_sound(&dpkg_audit_check(r.clone()));
        assert_sound(&broken_deps_check(r.clone()));
        assert_sound(&held_packages_check(r.clone()));
        assert_sound(&kernels_check(r.clone(), r.clone()));
    }
    assert_sound(&dpkg_interrupted_check(Ok(vec!["1".into()])));
    assert_sound(&dpkg_interrupted_check(Err("e".into())));
    for p in [0u32, 75, 90, 100] {
        assert_sound(&boot_space_check(DiskReading::Usage { used_pct: p, avail: "1 B".into() }));
    }
    assert_sound(&lists_freshness_check(Some(20 * 86_400)));
    assert_sound(&reboot_required_check(true, "x"));
}
