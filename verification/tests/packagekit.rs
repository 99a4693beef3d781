use butterup::packagekit::{
    check_selection, error_message, list_step, ListEvent, ListStep, install_step, package_name, severity_from_pk_info,
    sort_by_name, status_label, update_from_package, InstallEvent, InstallState, InstallStep,
};

#[test]
fn severities() {
    assert_eq!(severity_from_pk_info(2), "normal");
    assert_eq!(severity_from_pk_info(3), "low");
    assert_eq!(severity_from_pk_info(4), "enhancement");
    assert_eq!(severity_from_pk_info(6), "bugfix");
    assert_eq!(severity_from_pk_info(7), "important");
    assert_eq!(severity_from_pk_info(8), "security");
    assert_eq!(severity_from_pk_info(9), "blocked");
    assert_eq!(severity_from_pk_info(26), "critical");
    assert_eq!(severity_from_pk_info(28), "normal");
    assert_eq!(severity_from_pk_info(1), "unknown");
    // The high 16 bits win over the base value when set.
    assert_eq!(severity_from_pk_info((8 << 16) | 2), "security");
    assert_eq!(severity_from_pk_info((3 << 16) | 8), "low");
    assert_eq!(severity_from_pk_info(0xFFFF_0000), "unknown");
}

#[test]
fn status_labels() {
    assert_eq!(status_label(9), "Downloading…");
    assert_eq!(status_label(21), "Waiting for authentication…");
    assert_eq!(status_label(0), "Working…");
    assert_eq!(status_label(7), "Working…");
}

#[test]
fn package_signal_becomes_update() {
    let u = update_from_package(8, "openssl;3.0.13-0ubuntu3.4;amd64;noble-security", "Secure Sockets Layer toolkit");
    assert_eq!(u.name, "openssl");
    assert_eq!(u.version, "3.0.13-0ubuntu3.4");
    assert_eq!(u.package_id, "openssl;3.0.13-0ubuntu3.4;amd64;noble-security");
    assert_eq!(u.summary, "Secure Sockets Layer toolkit");
    assert_eq!(u.severity, "security");
    assert_eq!(u.info, 8);
    let u = update_from_package(2, "lonely", "");
    assert_eq!((u.name.as_str(), u.version.as_str()), ("lonely", ""));
    assert_eq!(package_name("vim;9.1;amd64;x"), "vim");
}

#[test]
fn updates_sort_by_name_stably() {
    let v = vec![
        update_from_package(2, "zsh;1;a;o", "first"),
        update_from_package(2, "bash;1;a;o", "b"),
        update_from_package(2, "zsh;2;a;o", "second"),
        update_from_package(2, "Zeta;1;a;o", "upper"),
        update_from_package(2, "éclair;1;a;o", "accent"),
        update_from_package(2, "bash-completion;1;a;o", "bc"),
    ];
    let s = sort_by_name(v);
    let names: Vec<&str> = s.iter().map(|u| u.name.as_str()).collect();
    assert_eq!(names, vec!["Zeta", "bash", "bash-completion", "zsh", "zsh", "éclair"]);
    assert_eq!(s[3].summary, "first");
    assert_eq!(s[4].summary, "second");
    assert!(sort_by_name(Vec::new()).is_empty());
}

#[test]
fn selection_and_error_messages() {
    assert_eq!(check_selection(&vec![]), Err("no packages selected".to_string()));
    assert_eq!(check_selection(&vec!["x".into()]), Ok(()));
    assert_eq!(error_message(7, "Failed to lock"), "PackageKit error 7: Failed to lock");
}

#[test]
fn install_signals_drive_progress() {
    let mut st = InstallState::new();
    match install_step(&mut st, InstallEvent::Percentage(101)) {
        InstallStep::Progress(p, line) => { assert_eq!(p, None); assert_eq!(line, ""); }
        other => panic!("{other:?}"),
    }
    match install_step(&mut st, InstallEvent::Percentage(250)) {
        InstallStep::Progress(p, _) => assert_eq!(p, Some(100)),
        other => panic!("{other:?}"),
    }
    match install_step(&mut st, InstallEvent::Percentage(42)) {
        InstallStep::Progress(p, _) => assert_eq!(p, Some(42)),
        other => panic!("{other:?}"),
    }
    match install_step(&mut st, InstallEvent::Package { package_id: "vim;9.1;amd64;x".into(), status: 10 }) {
        InstallStep::Progress(p, line) => { assert_eq!(p, Some(42)); assert_eq!(line, "Installing… vim"); }
        other => panic!("{other:?}"),
    }
    match install_step(&mut st, InstallEvent::Status(14)) {
        InstallStep::Progress(p, line) => { assert_eq!(p, Some(42)); assert_eq!(line, "Resolving dependencies…"); }
        other => panic!("{other:?}"),
    }
    assert!(matches!(install_step(&mut st, InstallEvent::RequireRestart(2)), InstallStep::Continue));
    assert!(!st.needs_restart);
    assert!(matches!(install_step(&mut st, InstallEvent::RequireRestart(6)), InstallStep::Continue));
    assert!(st.needs_restart);
    match install_step(&mut st, InstallEvent::Finished(Some(1))) {
        InstallStep::Done(Ok(r)) => assert!(r.needs_restart),
        other => panic!("{other:?}"),
    }
}

#[test]
fn install_failures() {
    let mut st = InstallState::new();
    match install_step(&mut st, InstallEvent::ErrorCode("Cannot download".into())) {
        InstallStep::Done(Err(e)) => assert_eq!(e, "Cannot download"),
        other => panic!("{other:?}"),
    }
    match install_step(&mut st, InstallEvent::Finished(Some(2))) {
        InstallStep::Done(Err(e)) => assert_eq!(e, "update did not complete (PackageKit exit code 2)"),
        other => panic!("{other:?}"),
    }
    match install_step(&mut st, InstallEvent::Finished(None)) {
        InstallStep::Done(Err(e)) => assert_eq!(e, "update did not complete (PackageKit exit code 0)"),
        other => panic!("{other:?}"),
    }
    match install_step(&mut st, InstallEvent::Finished(Some(1))) {
        InstallStep::Done(Ok(r)) => assert!(!r.needs_restart),
        other => panic!("{other:?}"),
    }
}

#[test]
fn listing_signals_collect_updates() {
    let mut updates = Vec::new();
    let ev = ListEvent::Package { info: 8, package_id: "vim;9.1;amd64;x".into(), summary: "editor".into() };
    assert!(matches!(list_step(&mut updates, ev), ListStep::Continue));
    assert_eq!(updates.len(), 1);
    assert_eq!((updates[0].name.as_str(), updates[0].version.as_str(), updates[0].severity.as_str()), ("vim", "9.1", "security"));
    match list_step(&mut updates, ListEvent::ErrorCode { code: 13, details: "No network".into() }) {
        ListStep::Fail(e) => assert_eq!(e, "PackageKit error 13: No network"),
        other => panic!("{other:?}"),
    }
    assert!(matches!(list_step(&mut updates, ListEvent::Finished), ListStep::Done));
    assert_eq!(updates.len(), 1);
}
