use butterup::history::{latest_first, parse_log, parse_packages, HistoryEntry};

#[test]
fn upgrade_list_renders_old_and_new() {
    let r = parse_packages("foo:amd64 (1.0, 1.1), bar:amd64 (2.0, automatic)", true);
    assert_eq!(r, vec!["foo 1.0 → 1.1".to_string(), "bar 2.0".to_string()]);
}

#[test]
fn install_list_drops_architecture_and_automatic() {
    let r = parse_packages("libfoo:amd64 (1.2-3), libbar:i386 (4.5, automatic)", false);
    assert_eq!(r, vec!["libfoo 1.2-3".to_string(), "libbar 4.5".to_string()]);
}

#[test]
fn upgrade_of_automatic_package() {
    let r = parse_packages("baz:amd64 (1.0, automatic, 2.0)", true);
    assert_eq!(r, vec!["baz 1.0 → 2.0".to_string()]);
}

#[test]
fn chunks_without_versions_are_skipped() {
    assert!(parse_packages("garbage", false).is_empty());
    assert!(parse_packages("", true).is_empty());
    let r = parse_packages("plain (1), junk, other (2)", false);
    assert_eq!(r, vec!["plain 1".to_string(), "junk, other 2".to_string()]);
}

#[test]
fn name_without_architecture_is_kept() {
    let r = parse_packages("plain (3.1)", false);
    assert_eq!(r, vec!["plain 3.1".to_string()]);
}

const LOG: &str = "\
Start-Date: 2024-05-01  10:00:00
Commandline: apt-get upgrade
Requested-By: alice (1000)
Upgrade: foo:amd64 (1.0, 1.1), bar:amd64 (2.0, 2.1)
End-Date: 2024-05-01  10:01:00

Start-Date: 2024-05-02  11:00:00
Commandline: apt-get install baz
Install: baz:amd64 (3.0), libbaz:amd64 (3.0, automatic)
Reinstall: qux:amd64 (1.5)
End-Date: 2024-05-02  11:00:30

Start-Date: 2024-05-03  12:00:00
Commandline: apt-get update
End-Date: 2024-05-03  12:00:10

Start-Date: 2024-05-04  13:00:00
Commandline: apt-get purge old
Remove: old:amd64 (0.9)
Purge: older:amd64 (0.8)
End-Date: 2024-05-04  13:00:05
";

fn parsed(content: &str) -> Vec<HistoryEntry> {
    let mut entries = Vec::new();
    parse_log(content, &mut entries);
    entries
}

#[test]
fn log_blocks_become_entries() {
    let e = parsed(LOG);
    assert_eq!(e.len(), 3);
    assert_eq!(e[0].date, "2024-05-01  10:00:00");
    assert_eq!(e[0].command, "apt-get upgrade");
    assert_eq!(e[0].requested_by, "alice (1000)");
    assert_eq!(e[0].upgraded, vec!["foo 1.0 → 1.1".to_string(), "bar 2.0 → 2.1".to_string()]);
    assert!(e[0].installed.is_empty());
    assert_eq!(e[1].installed, vec!["baz 3.0".to_string(), "libbaz 3.0".to_string(), "qux 1.5".to_string()]);
    assert_eq!(e[1].requested_by, "");
    assert_eq!(e[2].removed, vec!["old 0.9".to_string(), "older 0.8".to_string()]);
}

#[test]
fn block_without_changes_or_date_is_dropped() {
    assert!(parsed("Start-Date: 2024-05-03\nCommandline: apt-get update\n").is_empty());
    assert!(parsed("Commandline: x\nInstall: a:amd64 (1)\n").is_empty());
    assert!(parsed("").is_empty());
}

#[test]
fn parse_log_appends_after_existing_entries() {
    let mut entries = parsed("Start-Date: d1\nInstall: a (1)\n");
    parse_log("Start-Date: d2\nRemove: b (2)\n", &mut entries);
    assert_eq!(entries.len(), 2);
    assert_eq!(entries[0].date, "d1");
    assert_eq!(entries[1].date, "d2");
}

#[test]
fn crlf_lines_and_values_are_trimmed() {
    let e = parsed("Start-Date:   d3  \r\nInstall: a (1)\r\n");
    assert_eq!(e.len(), 1);
    assert_eq!(e[0].date, "d3");
    assert_eq!(e[0].installed, vec!["a 1".to_string()]);
}

#[test]
fn every_parsed_entry_has_a_date_and_changes() {
    for e in parsed(LOG) {
        assert!(!e.date.is_empty());
        assert!(!e.upgraded.is_empty() || !e.installed.is_empty() || !e.removed.is_empty());
    }
}

#[test]
fn latest_first_reverses_and_caps() {
    let e = parsed(LOG);
    let r = latest_first(e.clone(), 2);
    assert_eq!(r.len(), 2);
    assert_eq!(r[0].date, "2024-05-04  13:00:00");
    assert_eq!(r[1].date, "2024-05-02  11:00:00");
    let all = latest_first(e, 60);
    assert_eq!(all.len(), 3);
    assert_eq!(all[2].date, "2024-05-01  10:00:00");
    assert!(latest_first(Vec::new(), 5).is_empty());
    assert!(latest_first(parsed(LOG), 0).is_empty());
}

#[test]
fn joined_logs_parse_as_one_after_the_other() {
    let a = "Start-Date: d1\nInstall: a:amd64 (1)";
    let b = "Start-Date: d2\nRemove: b:amd64 (2)\n\nStart-Date: d3\nUpgrade: c:amd64 (1, 2)\n";
    let joined = parsed(&format!("{a}\n\n{b}"));
    let mut in_turn = parsed(a);
    parse_log(b, &mut in_turn);
    assert_eq!(joined.len(), 3);
    assert_eq!(joined.len(), in_turn.len());
    for (x, y) in joined.iter().zip(in_turn.iter()) {
        assert_eq!(x.date, y.date);
        assert_eq!(x.command, y.command);
        assert_eq!(x.requested_by, y.requested_by);
        assert_eq!(x.upgraded, y.upgraded);
        assert_eq!(x.installed, y.installed);
        assert_eq!(x.removed, y.removed);
    }
}
