use wsl_manager::commands::{
    apply_running_names, attach_details, command_result, detail_commands, join_strings,
    run_permitted, settle_states, system_root, u8_to_string, wsl_program, WslCommand,
};
use wsl_manager::error::WslError;
use wsl_manager::models::{InstanceState, WslInstance};

fn inst(name: &str, state: InstanceState) -> WslInstance {
    WslInstance {
        name: name.to_string(),
        state,
        version: 2,
        default: false,
        distribution: None,
        ip_address: None,
    }
}

#[test]
fn command_outcomes() {
    let cmd = WslCommand::Terminate("Arch".to_string());
    assert_eq!(command_result(&cmd, true, vec![1, 2], b"ignored").unwrap(), vec![1, 2]);
    match command_result(&cmd, false, vec![], b"") {
        Err(WslError::CommandFailed { command, message }) => {
            assert_eq!(command, "wsl --terminate Arch");
            assert_eq!(message, "unknown error");
        }
        other => panic!("unexpected {:?}", other),
    }
    match command_result(&WslCommand::Shutdown, false, vec![], &[0xFF, 0xFE, b' ', 0, b'E', 0, b'r', 0, b'\n', 0]) {
        Err(WslError::CommandFailed { command, message }) => {
            assert_eq!(command, "wsl --shutdown");
            assert_eq!(message, "Er");
        }
        other => panic!("unexpected {:?}", other),
    }
}

#[test]
fn mock_mode_blocks_commands() {
    assert!(matches!(run_permitted(true), Err(WslError::NotAvailable)));
    assert!(run_permitted(false).is_ok());
}

#[test]
fn locating_wsl_exe() {
    let s32 = "C:\\Windows\\System32\\wsl.exe";
    let nat = "C:\\Windows\\Sysnative\\wsl.exe";
    assert!(matches!(wsl_program(false, false, s32, nat, |_: &str| true), Err(WslError::NotAvailable)));
    assert_eq!(wsl_program(true, false, s32, nat, |_: &str| true).unwrap(), s32);
    assert_eq!(wsl_program(true, true, s32, nat, |p: &str| p == nat).unwrap(), nat);
    assert!(matches!(wsl_program(true, false, s32, nat, |p: &str| p == nat), Err(WslError::NotAvailable)));
    assert!(matches!(wsl_program(true, true, s32, nat, |_: &str| false), Err(WslError::NotAvailable)));
    assert_eq!(system_root(None), "C:\\Windows");
    assert_eq!(system_root(Some("D:\\Win".to_string())), "D:\\Win");
}

#[test]
fn small_formatting() {
    assert_eq!(u8_to_string(0), "0");
    assert_eq!(u8_to_string(7), "7");
    assert_eq!(u8_to_string(42), "42");
    assert_eq!(u8_to_string(100), "100");
    assert_eq!(u8_to_string(255), "255");
    assert_eq!(join_strings(&vec!["a".to_string(), "b".to_string(), "c".to_string()], ", "), "a, b, c");
    assert_eq!(join_strings(&vec![], " "), "");
}

#[test]
fn cross_check_settles_unknown_states() {
    let mut v = vec![
        inst("A", InstanceState::Unknown),
        inst("B", InstanceState::Unknown),
        inst("C", InstanceState::Stopped),
        inst("D", InstanceState::Running),
    ];
    apply_running_names(&mut v, &vec!["A".to_string(), "C".to_string()]);
    let states: Vec<InstanceState> = v.iter().map(|i| i.state).collect();
    assert_eq!(
        states,
        vec![InstanceState::Running, InstanceState::Stopped, InstanceState::Stopped, InstanceState::Running]
    );
    assert!(v.iter().all(|i| i.state != InstanceState::Unknown));
}

#[test]
fn detail_commands_depend_on_name_and_state() {
    let (d, ip) = detail_commands(&inst("Ubuntu", InstanceState::Running));
    assert_eq!(d.unwrap().args(), vec!["-d", "Ubuntu", "-e", "cat", "/etc/os-release"]);
    assert_eq!(ip.unwrap().args(), vec!["-d", "Ubuntu", "-e", "hostname", "-I"]);
    let (d, ip) = detail_commands(&inst("Ubuntu", InstanceState::Stopped));
    assert!(d.is_some() && ip.is_none());
    let (d, ip) = detail_commands(&inst("bad name", InstanceState::Running));
    assert!(d.is_none() && ip.is_none());
}

#[test]
fn details_go_to_the_first_instance_of_the_name() {
    let mut v = vec![inst("A", InstanceState::Running), inst("B", InstanceState::Running), inst("B", InstanceState::Stopped)];
    attach_details(&mut v, &"B".to_string(), Some("Debian".to_string()), Some("1.2.3.4".to_string()));
    assert_eq!(v[1].distribution.as_deref(), Some("Debian"));
    assert_eq!(v[1].ip_address.as_deref(), Some("1.2.3.4"));
    assert!(v[0].distribution.is_none() && v[2].distribution.is_none());
    attach_details(&mut v, &"Z".to_string(), Some("x".to_string()), None);
    assert!(v.iter().all(|i| i.distribution.as_deref() != Some("x")));
}

#[test]
fn settle_states_from_running_output() {
    let mut v = vec![inst("A", InstanceState::Unknown), inst("B", InstanceState::Unknown)];
    settle_states(&mut v, None);
    assert!(v.iter().all(|i| i.state == InstanceState::Unknown));
    settle_states(&mut v, Some("B\r\n"));
    assert_eq!(v[0].state, InstanceState::Stopped);
    assert_eq!(v[1].state, InstanceState::Running);
}
