use butterup::snapd::{parse_list_all, parse_refresh_list, refresh_argv, removal_step, removal_summary, OldSnap};

#[test]
fn refresh_list_is_read() {
    let s = "Name      Version   Rev   Size   Publisher    Notes\n\
             firefox   130.0     4848  87MB   mozilla✓     -\n\
             core22    20240904  1621  77MB   canonical✪   base\n\
             tool      1.0       3     1MB    someone**    -\n\
             \n\
             broken    1.0\n";
    let u = parse_refresh_list(s);
    assert_eq!(u.len(), 3);
    assert_eq!((u[0].name.as_str(), u[0].version.as_str(), u[0].size.as_str(), u[0].publisher.as_str()), ("firefox", "130.0", "87MB", "mozilla"));
    assert_eq!(u[1].publisher, "canonical");
    assert_eq!(u[2].publisher, "someone");
    assert!(parse_refresh_list("").is_empty());
}

#[test]
fn disabled_revisions_are_listed() {
    let s = "Name    Version  Rev   Tracking       Publisher   Notes\n\
             core22  2024     1586  latest/stable  canonical✓  base,disabled\n\
             core22  2024b    1621  latest/stable  canonical✓  base\n\
             firefox 129.0    4793  latest/stable  mozilla✓    disabled\n\
             short   1        2     x              y\n";
    let o = parse_list_all(s);
    assert_eq!(o.len(), 2);
    assert_eq!((o[0].name.as_str(), o[0].revision.as_str(), o[0].version.as_str()), ("core22", "1586", "2024"));
    assert_eq!((o[1].name.as_str(), o[1].revision.as_str(), o[1].version.as_str()), ("firefox", "4793", "129.0"));
}

#[test]
fn snap_command_lines() {
    assert_eq!(refresh_argv(&vec![]), vec!["snap", "refresh"]);
    assert_eq!(refresh_argv(&vec!["a".to_string(), "b".to_string()]), vec!["snap", "refresh", "a", "b"]);
    let old = OldSnap { name: "core22".into(), revision: "1586".into(), version: "2024".into() };
    let (msg, argv) = removal_step(&old, 0, 3);
    assert_eq!(msg, "Removing core22 revision 1586 (1/3)");
    assert_eq!(argv, vec!["snap", "remove", "core22", "--revision", "1586"]);
    assert_eq!(removal_summary(0), "No old snap revisions to remove");
    assert_eq!(removal_summary(3), "Removed 3 old snap revision(s)");
}
