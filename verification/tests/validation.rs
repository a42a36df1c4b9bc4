use wsl_manager::commands::{
    delete_instance, install_distribution, list_online_distributions, open_terminal,
    set_default_instance, shutdown, start_instance, stop_instance, validate_distro_name, TerminalLaunch, WslCommand,
};
use wsl_manager::error::WslError;

#[test]
fn validate_name_rejects_invalid() {
    assert!(validate_distro_name("").is_err());
    assert!(validate_distro_name("--flag").is_err());
    assert!(validate_distro_name("Ubuntu 22.04").is_err());
    assert!(validate_distro_name("Ubuntu;rm").is_err());
    assert!(validate_distro_name("Ubuntu-22.04").is_ok());
    assert!(validate_distro_name("docker-desktop").is_ok());
}

fn invalid_message(r: Result<(), WslError>) -> String {
    match r {
        Err(WslError::InvalidName(m)) => m,
        other => panic!("expected InvalidName, got {:?}", other),
    }
}

#[test]
fn validate_name_error_texts() {
    assert_eq!(invalid_message(validate_distro_name("")), "name cannot be empty");
    assert_eq!(
        invalid_message(validate_distro_name("-x")),
        "name cannot start with '-': -x"
    );
    assert_eq!(
        invalid_message(validate_distro_name("Übuntu")),
        "name contains invalid characters: Übuntu"
    );
    assert!(validate_distro_name("a_b.c-1").is_ok());
}

#[test]
fn error_messages_read_like_the_display_texts() {
    assert_eq!(
        WslError::NotAvailable.message(),
        "WSL is not installed or not available on this system"
    );
    assert_eq!(
        WslError::InvalidName("bad".to_string()).message(),
        "Invalid distribution name: bad"
    );
    assert_eq!(
        WslError::CommandFailed { command: "wsl --shutdown".to_string(), message: "denied".to_string() }
            .message(),
        "Command 'wsl --shutdown' failed: denied"
    );
    assert_eq!(WslError::ParseError("x".to_string()).message(), "Failed to parse WSL output: x");
    assert_eq!(WslError::InstanceNotFound("Arch".to_string()).message(), "Instance 'Arch' not found");
    assert_eq!(WslError::Io("boom".to_string()).message(), "IO error: boom");
}

#[test]
fn start_instance_plans() {
    assert!(start_instance("bad name", false).is_err());
    assert!(matches!(start_instance("Ubuntu", true), Ok(None)));
    match start_instance("Ubuntu", false) {
        Ok(Some(cmd)) => assert_eq!(cmd.args(), vec!["-d", "Ubuntu", "-e", "true"]),
        other => panic!("unexpected {:?}", other),
    }
}

#[test]
fn single_instance_commands() {
    assert_eq!(stop_instance("Debian", false).unwrap().unwrap().args(), vec!["--terminate", "Debian"]);
    assert_eq!(
        set_default_instance("Debian", false).unwrap().unwrap().args(),
        vec!["--set-default", "Debian"]
    );
    assert_eq!(delete_instance("Debian", false).unwrap().unwrap().args(), vec!["--unregister", "Debian"]);
    assert!(stop_instance("-rf", false).is_err());
    assert!(set_default_instance("", false).is_err());
    assert!(delete_instance("a b", false).is_err());
}

#[test]
fn mock_mode_commands_succeed_without_running() {
    assert!(matches!(stop_instance("Debian", true), Ok(None)));
    assert!(matches!(set_default_instance("Debian", true), Ok(None)));
    assert!(matches!(delete_instance("Debian", true), Ok(None)));
    assert!(stop_instance("a b", true).is_err());
    assert!(shutdown(true).is_none());
    assert_eq!(shutdown(false).unwrap().args(), vec!["--shutdown"]);
    assert!(list_online_distributions(true).is_none());
    assert_eq!(list_online_distributions(false).unwrap().args(), vec!["--list", "--online"]);
}

#[test]
fn terminal_choice() {
    match open_terminal("Ubuntu", false, true) {
        Ok(Some(TerminalLaunch::WindowsTerminal(a))) => assert_eq!(a, vec!["wsl.exe", "-d", "Ubuntu"]),
        other => panic!("unexpected {:?}", other),
    }
    match open_terminal("Ubuntu", false, false) {
        Ok(Some(TerminalLaunch::Console(c))) => assert_eq!(c.args(), vec!["-d", "Ubuntu"]),
        other => panic!("unexpected {:?}", other),
    }
    assert!(matches!(open_terminal("Ubuntu", true, true), Ok(None)));
    assert!(open_terminal("x y", false, true).is_err());
}

#[test]
fn install_arguments() {
    let c = install_distribution("Ubuntu", "", false).unwrap().unwrap();
    assert_eq!(c.args(), vec!["--install", "-d", "Ubuntu", "--no-launch"]);
    let c = install_distribution("Ubuntu", "Work", false).unwrap().unwrap();
    assert_eq!(c.args(), vec!["--install", "-d", "Ubuntu", "--name", "Work", "--no-launch"]);
    assert!(install_distribution("Ubuntu", "bad name", false).is_err());
    assert!(install_distribution("", "Work", false).is_err());
    assert!(matches!(install_distribution("Ubuntu", "Work", true), Ok(None)));
}

#[test]
fn fixed_command_arguments() {
    assert_eq!(WslCommand::ListVerbose.args(), vec!["--list", "--verbose"]);
    assert_eq!(WslCommand::ListRunning.args(), vec!["--list", "--running", "--quiet"]);
    assert_eq!(WslCommand::ListOnline.args(), vec!["--list", "--online"]);
    assert_eq!(WslCommand::Version.args(), vec!["--version"]);
    assert_eq!(WslCommand::Status.args(), vec!["--status"]);
    assert_eq!(WslCommand::Shutdown.args(), vec!["--shutdown"]);
    assert_eq!(
        WslCommand::OsRelease("Ubuntu".to_string()).args(),
        vec!["-d", "Ubuntu", "-e", "cat", "/etc/os-release"]
    );
    assert_eq!(
        WslCommand::HostAddresses("Ubuntu".to_string()).args(),
        vec!["-d", "Ubuntu", "-e", "hostname", "-I"]
    );
    assert_eq!(
        WslCommand::Import {
            name: "New".to_string(),
            dir: "D".to_string(),
            tar: "T".to_string(),
            version: 2
        }
        .args(),
        vec!["--import", "New", "D", "T", "--version", "2"]
    );
    assert_eq!(
        WslCommand::Export { name: "Old".to_string(), tar: "T".to_string() }.args(),
        vec!["--export", "Old", "T"]
    );
}
