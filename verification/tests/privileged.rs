use butterup::privileged::{
    action_argv, action_request, action_task, failure_message, join_strings, pkexec_command,
    pkexec_result, CommandOutcome, OutputLog,
};

fn strings(v: &[&str]) -> Vec<String> {
    v.iter().map(|s| s.to_string()).collect()
}

#[test]
fn whitelisted_actions() {
    assert_eq!(action_argv("configure-dpkg"), Some(strings(&["dpkg", "--configure", "-a"])));
    assert_eq!(action_argv("fix-broken"), Some(strings(&["apt-get", "-y", "-f", "install"])));
    assert_eq!(action_argv("autoremove"), Some(strings(&["apt-get", "-y", "--purge", "autoremove"])));
    assert_eq!(action_argv("clean-cache"), Some(strings(&["apt-get", "clean"])));
    assert_eq!(action_argv("vacuum-journal"), Some(strings(&["journalctl", "--vacuum-time=7d"])));
}

#[test]
fn unknown_actions_are_refused() {
    assert_eq!(action_argv("rm -rf /"), None);
    assert_eq!(action_argv(""), None);
    assert_eq!(action_argv("autoremove "), None);
    assert_eq!(action_request("nope"), Err("unknown action: nope".to_string()));
    assert_eq!(action_request("clean-cache"), Ok(strings(&["apt-get", "clean"])));
    assert_eq!(action_task("autoremove"), "action:autoremove");
}

#[test]
fn pkexec_wraps_the_command() {
    let line = pkexec_command(&strings(&["snap", "refresh"])).unwrap();
    assert_eq!(
        line,
        strings(&["pkexec", "env", "DEBIAN_FRONTEND=noninteractive", "LC_ALL=C.UTF-8", "snap", "refresh"])
    );
    assert_eq!(pkexec_command(&Vec::new()), Err("empty command".to_string()));
}

fn outcome(code: Option<i32>, last: &str, tail: &[&str]) -> CommandOutcome {
    CommandOutcome { code, last_line: last.to_string(), err_tail: strings(tail) }
}

#[test]
fn pkexec_exit_statuses() {
    assert_eq!(pkexec_result(outcome(Some(0), "", &[])), Ok("Done".to_string()));
    assert_eq!(pkexec_result(outcome(Some(0), "All set", &["w"])), Ok("All set".to_string()));
    assert_eq!(
        pkexec_result(outcome(Some(126), "x", &[])),
        Err("Authorization dialog was dismissed".to_string())
    );
    assert_eq!(
        pkexec_result(outcome(Some(127), "x", &[])),
        Err("Not authorized (polkit refused)".to_string())
    );
    assert_eq!(
        pkexec_result(outcome(Some(100), "x", &["E: a", "E: b"])),
        Err("command failed (exit Some(100)): E: a / E: b".to_string())
    );
    assert_eq!(
        pkexec_result(outcome(Some(-2), "", &[])),
        Err("command failed (exit Some(-2)): ".to_string())
    );
    assert_eq!(pkexec_result(outcome(None, "", &["killed"])), Err("command failed (exit None): killed".to_string()));
}

#[test]
fn output_log_keeps_last_ten_error_lines() {
    let mut log = OutputLog::new();
    assert_eq!(log.stdout_line("  hello  "), Some("hello".to_string()));
    assert_eq!(log.stdout_line("   "), None);
    assert_eq!(log.last, "hello");
    for i in 0..12 {
        assert_eq!(log.stderr_line(&format!(" err {i}\n")), Some(format!("err {i}")));
    }
    assert_eq!(log.stderr_line("\t"), None);
    assert_eq!(log.err_tail.len(), 10);
    assert_eq!(log.err_tail[0], "err 2");
    assert_eq!(log.err_tail[9], "err 11");
    let o = log.finish(Some(3));
    assert_eq!(o.code, Some(3));
    assert_eq!(o.last_line, "hello");
    assert_eq!(o.err_tail.len(), 10);
}

#[test]
fn messages() {
    assert_eq!(failure_message("snap list --all", "  error: x \n"), "snap list --all failed: error: x");
    assert_eq!(join_strings(&strings(&["a", "b", "c"]), " / "), "a / b / c");
    assert_eq!(join_strings(&Vec::new(), ", "), "");
}
