use butterup::flatpak::{parse_remote_ls, update_argv, update_result};
use butterup::privileged::CommandOutcome;

#[test]
fn remote_ls_columns_are_read() {
    let s = "org.gnome.Calculator\tCalculator\t46.1\n\
             \n\
             org.freedesktop.Platform\tFreedesktop Platform \n\
             \t\tno-app\n\
             com.example.App\n";
    let u = parse_remote_ls(s);
    assert_eq!(u.len(), 3);
    assert_eq!((u[0].application.as_str(), u[0].name.as_str(), u[0].version.as_str()), ("org.gnome.Calculator", "Calculator", "46.1"));
    assert_eq!((u[1].name.as_str(), u[1].version.as_str()), ("Freedesktop Platform", ""));
    assert_eq!((u[2].application.as_str(), u[2].name.as_str()), ("com.example.App", ""));
}

#[test]
fn flatpak_update_command_and_outcome() {
    assert_eq!(update_argv(&vec!["a".into()]), vec!["flatpak", "update", "-y", "--noninteractive", "a"]);
    let ok = CommandOutcome { code: Some(0), last_line: "x".into(), err_tail: vec![] };
    assert_eq!(update_result(ok), Ok("Flatpak apps updated".to_string()));
    let last = CommandOutcome { code: Some(1), last_line: "Nothing".into(), err_tail: vec![] };
    assert_eq!(update_result(last), Err("flatpak update failed: Nothing".to_string()));
    let tail = CommandOutcome { code: None, last_line: "x".into(), err_tail: vec!["e1".into(), "e2".into()] };
    assert_eq!(update_result(tail), Err("flatpak update failed: e1 / e2".to_string()));
}
