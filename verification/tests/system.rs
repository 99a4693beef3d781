use butterup::system::{is_debian_family, parse_os_release};

#[test]
fn os_release_of_ubuntu() {
    let s = "PRETTY_NAME=\"Ubuntu 24.04.1 LTS\"\nNAME=\"Ubuntu\"\nID=ubuntu\nID_LIKE=debian\n";
    assert_eq!(parse_os_release(s), ("Ubuntu 24.04.1 LTS".to_string(), true));
}

#[test]
fn os_release_ids_are_lowercased() {
    let s = "PRETTY_NAME=Some Distro\nID=\"Debian\"\n";
    assert_eq!(parse_os_release(s), ("Some Distro".to_string(), true));
    let s = "ID=UBUNTU\n";
    assert_eq!(parse_os_release(s), ("Unknown Linux".to_string(), true));
}

#[test]
fn os_release_of_other_systems() {
    let s = "PRETTY_NAME=\"Fedora Linux 40\"\nID=fedora\nVERSION_ID=40\n";
    assert_eq!(parse_os_release(s), ("Fedora Linux 40".to_string(), false));
    assert_eq!(parse_os_release(""), ("Unknown Linux".to_string(), false));
    // A value that mentions Debian outside ID and ID_LIKE does not count.
    assert_eq!(parse_os_release("NAME=debian\nPRETTY_NAME=\n"), ("".to_string(), false));
}

#[test]
fn family_text() {
    assert!(is_debian_family(" linuxmint ubuntu debian"));
    assert!(!is_debian_family(" arch"));
    assert!(!is_debian_family(""));
}
