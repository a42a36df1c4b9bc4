use wsl_manager::commands::WslCommand;
use wsl_manager::error::WslError;
use wsl_manager::models::{InstanceState, WslInstance};
use wsl_manager::rename::{
    local_app_data_base, rename_instance, rename_step, RenameAction, RenameEvent, RenameStage,
};

fn inst(name: &str, version: u8, default: bool) -> WslInstance {
    WslInstance {
        name: name.to_string(),
        state: InstanceState::Stopped,
        version,
        default,
        distribution: None,
        ip_address: None,
    }
}

fn run_args(a: &RenameAction) -> Vec<String> {
    match a {
        RenameAction::Run(c) => c.args(),
        other => panic!("expected a command, got {:?}", other),
    }
}

#[test]
fn full_rename_of_the_default_instance() {
    let (s, a) = rename_instance("Ubuntu", "Work", false);
    assert!(matches!(a, RenameAction::ListInstances));
    let (s, a) = rename_step(s, RenameEvent::Listed(Ok(vec![inst("Debian", 2, false), inst("Ubuntu", 1, true)])));
    assert_eq!(run_args(&a), vec!["--terminate", "Ubuntu"]);
    let (s, a) = rename_step(s, RenameEvent::CommandFinished(Err(WslError::NotAvailable)));
    match &a {
        RenameAction::PrepareDirs { temp_dir, install_dir, tar_file } => {
            assert_eq!(temp_dir, &vec!["wsl-manager-temp".to_string()]);
            assert_eq!(install_dir, &vec!["wsl".to_string(), "Work".to_string()]);
            assert_eq!(tar_file, "Ubuntu-rename.tar");
        }
        other => panic!("unexpected {:?}", other),
    }
    let (s, a) = rename_step(s, RenameEvent::PathsPrepared(Ok(("T.tar".to_string(), "D".to_string()))));
    assert_eq!(run_args(&a), vec!["--export", "Ubuntu", "T.tar"]);
    let (s, a) = rename_step(s, RenameEvent::CommandFinished(Ok(())));
    assert_eq!(run_args(&a), vec!["--import", "Work", "D", "T.tar", "--version", "1"]);
    let (s, a) = rename_step(s, RenameEvent::CommandFinished(Ok(())));
    assert_eq!(run_args(&a), vec!["--set-default", "Work"]);
    let (s, a) = rename_step(s, RenameEvent::CommandFinished(Err(WslError::NotAvailable)));
    assert_eq!(run_args(&a), vec!["--unregister", "Ubuntu"]);
    let (s, a) = rename_step(s, RenameEvent::CommandFinished(Ok(())));
    assert!(matches!(&a, RenameAction::RemoveFile(p) if p == "T.tar"));
    let (s, a) = rename_step(s, RenameEvent::FileRemoved);
    assert!(matches!(a, RenameAction::Finish(Ok(()))));
    assert_eq!(s.stage, RenameStage::Done);
}

#[test]
fn non_default_instance_skips_set_default() {
    let (s, _) = rename_instance("Arch", "Arch2", false);
    let (s, _) = rename_step(s, RenameEvent::Listed(Ok(vec![inst("Arch", 2, false)])));
    let (s, _) = rename_step(s, RenameEvent::CommandFinished(Ok(())));
    let (s, _) = rename_step(s, RenameEvent::PathsPrepared(Ok(("t".to_string(), "d".to_string()))));
    let (s, _) = rename_step(s, RenameEvent::CommandFinished(Ok(())));
    let (_, a) = rename_step(s, RenameEvent::CommandFinished(Ok(())));
    assert_eq!(run_args(&a), vec!["--unregister", "Arch"]);
}

#[test]
fn rename_failures() {
    let (_, a) = rename_instance("bad name", "x", false);
    assert!(matches!(a, RenameAction::Finish(Err(WslError::InvalidName(_)))));
    let (_, a) = rename_instance("x", "-y", false);
    assert!(matches!(a, RenameAction::Finish(Err(WslError::InvalidName(_)))));
    let (_, a) = rename_instance("x", "x", true);
    assert!(matches!(a, RenameAction::Finish(Ok(()))));
    match rename_instance("x", "x", false).1 {
        RenameAction::Finish(Err(WslError::InvalidName(m))) => {
            assert_eq!(m, "new name must be different from old name")
        }
        other => panic!("unexpected {:?}", other),
    }
    let (s, _) = rename_instance("x", "y", false);
    match rename_step(s, RenameEvent::Listed(Ok(vec![inst("z", 2, false)]))).1 {
        RenameAction::Finish(Err(WslError::InstanceNotFound(n))) => assert_eq!(n, "x"),
        other => panic!("unexpected {:?}", other),
    }
    let (s, _) = rename_instance("x", "y", false);
    let (s, _) = rename_step(s, RenameEvent::Listed(Ok(vec![inst("x", 2, false)])));
    let (s, _) = rename_step(s, RenameEvent::CommandFinished(Ok(())));
    let (s, _) = rename_step(s, RenameEvent::PathsPrepared(Ok(("t".to_string(), "d".to_string()))));
    let (s, a) = rename_step(s, RenameEvent::CommandFinished(Err(WslError::Io("disk full".to_string()))));
    assert!(matches!(a, RenameAction::Finish(Err(WslError::Io(_)))));
    assert_eq!(s.stage, RenameStage::Done);
    assert!(!s.imported);
}

#[test]
fn rename_base_directory() {
    assert_eq!(local_app_data_base(Some("L".to_string()), Some("U".to_string())), "L");
    assert_eq!(local_app_data_base(None, Some("U".to_string())), "U");
    assert_eq!(local_app_data_base(None, None), ".");
}

#[test]
fn unused_command_variant_args() {
    assert_eq!(WslCommand::Unregister("a".to_string()).args(), vec!["--unregister", "a"]);
}
