use wsl_manager::listing::{locate_columns, parse_list_text, substring};
use wsl_manager::models::InstanceState;

const SAMPLE_TEXT: &str = r#"  NAME              STATE       VERSION
* Ubuntu            Running     2
  Debian            Stopped     2
  openSUSE-Leap     Stopped     1
"#;

#[test]
fn parse_sample_list() {
    let instances = parse_list_text(SAMPLE_TEXT).unwrap();
    assert_eq!(instances.len(), 3);

    assert_eq!(instances[0].name, "Ubuntu");
    assert!(instances[0].default);
    assert_eq!(instances[0].state, InstanceState::Running);
    assert_eq!(instances[0].version, 2);

    assert_eq!(instances[1].name, "Debian");
    assert!(!instances[1].default);
    assert_eq!(instances[1].state, InstanceState::Stopped);
    assert_eq!(instances[1].version, 2);

    assert_eq!(instances[2].name, "openSUSE-Leap");
    assert_eq!(instances[2].version, 1);
}

#[test]
fn parse_localized_header_fallback() {
    let text = "  名称      状态       版本\n* Ubuntu    正在运行     2\n  Debian    已停止       2\n";
    let instances = parse_list_text(text).unwrap();
    assert_eq!(instances.len(), 2);
    assert_eq!(instances[0].name, "Ubuntu");
    assert!(instances[0].default);
    assert_eq!(instances[1].name, "Debian");
}

#[test]
fn parse_empty_list() {
    let instances = parse_list_text("Windows Subsystem for Linux has no installed distributions.").unwrap();
    assert!(instances.is_empty());
}

#[test]
fn locate_columns_of_sample_header() {
    assert_eq!(locate_columns(SAMPLE_TEXT), (Some(2), Some(20), Some(32)));
    assert_eq!(locate_columns("no header here\n"), (None, None, None));
}

#[test]
fn substring_clamps_to_length() {
    assert_eq!(substring("abcdef", 2, 4), "cd");
    assert_eq!(substring("abcdef", 4, 2), "");
    assert_eq!(substring("abcdef", 3, 100), "def");
    assert_eq!(substring("abcdef", 100, 200), "");
}

use wsl_manager::listing::list_text_parsable;

#[test]
fn header_without_state_uses_the_midpoint() {
    let text = "NAME      VERSION\nUbuntu    2\n";
    assert_eq!(locate_columns(text), (Some(0), Some(5), Some(10)));
    let instances = parse_list_text(text).unwrap();
    assert_eq!(instances.len(), 1);
    assert_eq!(instances[0].name, "Ubunt");
    assert_eq!(instances[0].state, InstanceState::Unknown);
    assert_eq!(instances[0].version, 2);
    assert!(!instances[0].default);
}

#[test]
fn unknown_state_words_and_bad_versions() {
    let text = "  NAME  STATE  VERSION\n  Arch  Weird  1\n  Gone  Stopped  x\n* Alp   Running  +3\n";
    let instances = parse_list_text(text).unwrap();
    assert_eq!(instances.len(), 2);
    assert_eq!(instances[0].name, "Arch");
    assert_eq!(instances[0].state, InstanceState::Unknown);
    assert_eq!(instances[1].name, "Alp");
    assert!(instances[1].default);
    assert_eq!(instances[1].version, 3);
    assert!(instances.iter().all(|i| i.distribution.is_none() && i.ip_address.is_none()));
}

#[test]
fn whitespace_fallback_reads_two_field_lines() {
    let instances = parse_list_text("**Solo 1\r\n  name 2\n   \nA B 300\n").unwrap();
    assert_eq!(instances.len(), 1);
    assert_eq!(instances[0].name, "Solo");
    assert!(instances[0].default);
    assert_eq!(instances[0].state, InstanceState::Unknown);
    assert_eq!(instances[0].version, 1);
}

#[test]
fn parsability_of_listings() {
    assert!(list_text_parsable(SAMPLE_TEXT));
    assert!(list_text_parsable("  名称  状态  版本\n* Ubuntu  正在运行  2\n"));
    assert!(!list_text_parsable("  NAME  STATE  VERSION\n* aééé Running 2\n"));
    assert!(!list_text_parsable("VERSION NAME\nx 1\n"));
    assert!(list_text_parsable("VERSION NAME STATE\nx 1\n"));
}

#[test]
fn instance_state_from_words() {
    assert_eq!(InstanceState::parse_state("Running"), InstanceState::Running);
    assert_eq!(InstanceState::parse_state("Stopped"), InstanceState::Stopped);
    assert_eq!(InstanceState::parse_state("running"), InstanceState::Unknown);
    assert_eq!("Stopped".parse::<InstanceState>(), Ok(InstanceState::Stopped));
}

#[test]
fn headerless_listings_concatenate() {
    let a = "* Ubuntu Running 2\r\n";
    let b = "  Debian Stopped 1\nbroken\n";
    let joined = parse_list_text(&format!("{a}{b}")).unwrap();
    let mut parts = parse_list_text(a).unwrap();
    parts.extend(parse_list_text(b).unwrap());
    assert_eq!(joined, parts);
    assert_eq!(joined.len(), 2);
}
