use wsl_manager::output::{
    parse_distribution, parse_ip_address, parse_online_list, parse_os_release_pretty_name,
    parse_running_names,
};
use wsl_manager::error::WslError;

#[test]
fn parse_online_list_sample() {
    let text = "NAME                                   FRIENDLY NAME\nUbuntu                                 Ubuntu\nDebian                                 Debian GNU/Linux\n";
    let names = parse_online_list(text);
    assert_eq!(names, vec!["Ubuntu", "Debian"]);
}

#[test]
fn online_list_keeps_lines_before_the_header_and_name_lines_after_it() {
    let text = "The following is a list:\r\n\r\n  NAME   FRIENDLY NAME\r\n  NAMEless  x\r\nkali-linux  Kali\r\n";
    assert_eq!(parse_online_list(text), vec!["The", "NAMEless", "kali-linux"]);
    assert!(parse_online_list("").is_empty());
}

#[test]
fn pretty_name_is_unquoted() {
    let text = "NAME=\"Ubuntu\"\nPRETTY_NAME=\"Ubuntu 22.04.3 LTS\"\nID=ubuntu\n";
    assert_eq!(parse_os_release_pretty_name(text), Some("Ubuntu 22.04.3 LTS".to_string()));
    assert_eq!(parse_os_release_pretty_name("  PRETTY_NAME= Arch Linux \n"), Some("Arch Linux".to_string()));
    assert_eq!(parse_os_release_pretty_name("PRETTY_NAME=\""), Some("".to_string()));
    assert_eq!(parse_os_release_pretty_name("NAME=x\n"), None);
}

#[test]
fn distribution_error_when_missing() {
    assert_eq!(parse_distribution("PRETTY_NAME='x'").unwrap(), "'x'");
    match parse_distribution("ID=debian") {
        Err(WslError::ParseError(m)) => assert_eq!(m, "PRETTY_NAME not found in /etc/os-release"),
        other => panic!("unexpected {:?}", other),
    }
}

#[test]
fn running_names_strip_markers_and_repeat_once() {
    let names = parse_running_names("* Ubuntu\r\n  Debian \n\nUbuntu\n**\n");
    assert_eq!(names, vec!["Ubuntu", "Debian"]);
}

#[test]
fn first_ip_address() {
    assert_eq!(parse_ip_address("172.21.21.2 10.0.0.5 \n").unwrap(), "172.21.21.2");
    match parse_ip_address("  \n") {
        Err(WslError::ParseError(m)) => assert_eq!(m, "no IP returned"),
        other => panic!("unexpected {:?}", other),
    }
}

#[test]
fn pretty_name_round_trips() {
    for s in ["", "Ubuntu 24.04 LTS", "a \"quoted\" name", " spaced "] {
        assert_eq!(parse_os_release_pretty_name(&format!("PRETTY_NAME=\"{}\"", s)), Some(s.to_string()));
    }
}
