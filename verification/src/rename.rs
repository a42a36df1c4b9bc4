//! Renaming an instance. WSL has no rename command, so the instance is
//! exported to a tar file, imported under the new name, made the default if
//! the old one was, and the old one unregistered.
//!
//! The decisions form a state machine: `rename_instance` starts it and
//! `rename_step` takes the outcome of each action and gives the next action.
//! Whoever drives it performs the actions (listing the instances, running a
//! command, creating the directories, removing the tar file).
use vstd::prelude::*;
use crate::commands::{validate_distro_name, valid_distro_name, validate_distro_name_fails, WslCommand};
use crate::error::WslError;
use crate::models::{instance_views, WslInstance};
use crate::commands::{first_named, lemma_first_named};
use crate::output::string_views;
use crate::text::chars_eq;
use crate::text::str_to_chars;

verus! {

/// Where a rename stands: the action it waits for the outcome of.
#[derive(Clone, Copy, Debug, PartialEq, Eq, Structural)]
pub enum RenameStage {
    Listing,
    Stopping,
    Preparing,
    Exporting,
    Importing,
    SettingDefault,
    Unregistering,
    CleaningUp,
    Done,
}

/// The state of a rename in progress.
#[derive(Debug)]
pub struct RenameState {
    pub stage: RenameStage,
    pub old_name: String,
    pub new_name: String,
    /// WSL version of the old instance, given again on import.
    pub version: u8,
    /// Whether the old instance was the default.
    pub was_default: bool,
    pub temp_tar: String,
    pub install_dir: String,
    /// The import under the new name has succeeded.
    pub imported: bool,
}

/// The outcome of an action.
#[derive(Debug)]
pub enum RenameEvent {
    /// The instances were listed.
    Listed(Result<Vec<WslInstance>, WslError>),
    /// A command finished.
    CommandFinished(Result<(), WslError>),
    /// The directories were created: the tar file path and the install
    /// directory path.
    PathsPrepared(Result<(String, String), WslError>),
    /// The removal of the tar file was attempted.
    FileRemoved,
}

/// What to do next.
#[derive(Debug)]
pub enum RenameAction {
    /// List the instances.
    ListInstances,
    /// Run a `wsl.exe` command.
    Run(WslCommand),
    /// Under the local application-data directory, create the directory
    /// `temp_dir` (path components) and the directory `install_dir`; the tar
    /// file is `tar_file` in the former.
    PrepareDirs { temp_dir: Vec<String>, install_dir: Vec<String>, tar_file: String },
    /// Remove this file; failure does not matter.
    RemoveFile(String),
    /// The rename is over, with this result.
    Finish(Result<(), WslError>),
}

/// The event that the action of `stage` produces.
pub open spec fn expects(stage: RenameStage, e: RenameEvent) -> bool {
    match stage {
        RenameStage::Listing => e is Listed,
        RenameStage::Preparing => e is PathsPrepared,
        RenameStage::CleaningUp => e is FileRemoved,
        RenameStage::Done => false,
        _ => e is CommandFinished,
    }
}

impl RenameState {
    /// Whether `e` is the outcome this (well-formed) state waits for.
    pub fn expects_event(&self, e: &RenameEvent) -> (r: bool)
        ensures
            r == (expects(self.stage, *e) && rename_wf(*self)),
    {
        let wf = (!(self.stage == RenameStage::SettingDefault || self.stage
            == RenameStage::Unregistering || self.stage == RenameStage::CleaningUp)
            || self.imported) && (self.stage != RenameStage::SettingDefault || self.was_default);
        wf && match self.stage {
            RenameStage::Listing => matches!(e, RenameEvent::Listed(_)),
            RenameStage::Preparing => matches!(e, RenameEvent::PathsPrepared(_)),
            RenameStage::CleaningUp => matches!(e, RenameEvent::FileRemoved),
            RenameStage::Done => false,
            _ => matches!(e, RenameEvent::CommandFinished(_)),
        }
    }
}

pub open spec fn temp_dir_name() -> Seq<char> {
    "wsl-manager-temp"@
}

pub open spec fn install_root_name() -> Seq<char> {
    "wsl"@
}

pub open spec fn tar_suffix() -> Seq<char> {
    "-rename.tar"@
}

/// The directory under which the temporary and the new instance's files go:
/// `LOCALAPPDATA`, else `USERPROFILE`, else the current directory.
pub fn local_app_data_base(local_app_data: Option<String>, user_profile: Option<String>) -> (r:
    String)
    ensures
        local_app_data matches Some(v) ==> r@ == v@,
        local_app_data is None && user_profile is Some ==> r@ == user_profile->0@,
        local_app_data is None && user_profile is None ==> r@ == "."@,
{
    match local_app_data {
        Some(v) => v,
        None => match user_profile {
            Some(v) => v,
            None => String::from_str("."),
        },
    }
}

fn finished(old_name: String, new_name: String, result: Result<(), WslError>) -> (r: (
    RenameState,
    RenameAction,
))
    ensures
        r.0.stage == RenameStage::Done,
        r.0.old_name == old_name,
        r.0.new_name == new_name,
        !r.0.imported,
        r.1 == RenameAction::Finish(result),
{
    (
        RenameState {
            stage: RenameStage::Done,
            old_name,
            new_name,
            version: 0,
            was_default: false,
            temp_tar: String::new(),
            install_dir: String::new(),
            imported: false,
        },
        RenameAction::Finish(result),
    )
}

/// Starts renaming `old_name` to `new_name`. Both names must be valid; in
/// mock mode nothing happens; the names must differ; then the instances are
/// listed.
pub fn rename_instance(old_name: &str, new_name: &str, mock: bool) -> (r: (
    RenameState,
    RenameAction,
))
    ensures
        rename_wf(r.0),
        !valid_distro_name(old_name@) ==> r.0.stage == RenameStage::Done && (r.1 matches RenameAction::Finish(e) && validate_distro_name_fails(old_name@, e)),
        valid_distro_name(old_name@) && !valid_distro_name(new_name@) ==> r.0.stage
            == RenameStage::Done && (r.1 matches RenameAction::Finish(e) && validate_distro_name_fails(new_name@, e)),
        valid_distro_name(old_name@) && valid_distro_name(new_name@) && mock ==> r.0.stage
            == RenameStage::Done && (r.1 matches RenameAction::Finish(Ok(()))),
        valid_distro_name(old_name@) && valid_distro_name(new_name@) && !mock && old_name@
            == new_name@ ==> r.0.stage == RenameStage::Done && (r.1 matches RenameAction::Finish(
            Err(WslError::InvalidName(m)),
        ) && m@ == "new name must be different from old name"@),
        valid_distro_name(old_name@) && valid_distro_name(new_name@) && !mock && old_name@
            != new_name@ ==> r.0.stage == RenameStage::Listing && r.1 == RenameAction::ListInstances
            && r.0.old_name@ == old_name@ && r.0.new_name@ == new_name@ && !r.0.imported,
{
    let old_s = String::from_str(old_name);
    let new_s = String::from_str(new_name);
    match validate_distro_name(old_name) {
        Err(e) => {
            return finished(old_s, new_s, Err(e));
        },
        Ok(()) => {},
    }
    match validate_distro_name(new_name) {
        Err(e) => {
            return finished(old_s, new_s, Err(e));
        },
        Ok(()) => {},
    }
    if mock {
        return finished(old_s, new_s, Ok(()));
    }
    if chars_eq(&str_to_chars(old_name), &str_to_chars(new_name)) {
        let e = WslError::InvalidName(String::from_str("new name must be different from old name"));
        return finished(old_s, new_s, Err(e));
    }
    (
        RenameState {
            stage: RenameStage::Listing,
            old_name: old_s,
            new_name: new_s,
            version: 0,
            was_default: false,
            temp_tar: String::new(),
            install_dir: String::new(),
            imported: false,
        },
        RenameAction::ListInstances,
    )
}

/// Index of the first instance named `name`.
fn find_named(list: &Vec<WslInstance>, name: &String) -> (r: Option<usize>)
    ensures
        r matches Some(j) ==> first_named(instance_views(list@), name@, 0) == Some(j as int) && j
            < list@.len(),
        r is None ==> first_named(instance_views(list@), name@, 0) is None,
{
    let ghost v = instance_views(list@);
    let mut k: usize = 0;
    while k < list.len()
        invariant
            v == instance_views(list@),
            k <= list@.len(),
            first_named(v, name@, 0) == first_named(v, name@, k as int),
        decreases list@.len() - k,
    {
        assert(v[k as int] == list@[k as int]@);
        if list[k].name == *name {
            proof {
                lemma_first_named(v, name@, 0);
            }
            return Some(k);
        }
        k = k + 1;
    }
    None
}

/// A rename past the import has imported, and one setting the default mark
/// had it on the old instance.
pub open spec fn rename_wf(s: RenameState) -> bool {
    &&& (s.stage == RenameStage::SettingDefault || s.stage == RenameStage::Unregistering
        || s.stage == RenameStage::CleaningUp) ==> s.imported
    &&& s.stage == RenameStage::SettingDefault ==> s.was_default
}

/// The state after a step, with the fields that the step does not change
/// taken from `s`.
pub open spec fn keeps_names(s: RenameState, t: RenameState) -> bool {
    t.old_name == s.old_name && t.new_name == s.new_name
}

/// Advances a rename by the outcome of its last action.
///
/// Listing: an error ends the rename; an absent old instance ends it with
/// `InstanceNotFound`; otherwise its version and default mark are kept and it
/// is terminated. The termination's result is ignored; the directories are
/// prepared (an error ends the rename). Export and import end the rename on
/// error. After the import, the new instance is made the default (result
/// ignored) when the old one was; then the old instance is unregistered (an
/// error ends the rename), the tar file removed, and the rename succeeds.
pub fn rename_step(s: RenameState, e: RenameEvent) -> (r: (RenameState, RenameAction))
    requires
        expects(s.stage, e),
        rename_wf(s),
    ensures
        rename_wf(r.0),
        keeps_names(s, r.0),
        // the old instance is only unregistered once the import succeeded
        r.1 matches RenameAction::Run(WslCommand::Unregister(_)) ==> r.0.imported,
        // the new instance is only made the default when the old one was
        r.1 matches RenameAction::Run(WslCommand::SetDefault(_)) ==> r.0.was_default && r.0.imported,
        // success is only reported once the old instance was unregistered
        r.1 matches RenameAction::Finish(Ok(())) ==> s.stage == RenameStage::CleaningUp,
        s.stage == RenameStage::Listing ==> match e {
            RenameEvent::Listed(Err(x)) => r.0.stage == RenameStage::Done && r.1
                == RenameAction::Finish(Err(x)),
            RenameEvent::Listed(Ok(list)) => match first_named(
                instance_views(list@),
                s.old_name@,
                0,
            ) {
                None => r.0.stage == RenameStage::Done && (r.1 matches RenameAction::Finish(
                    Err(WslError::InstanceNotFound(n)),
                ) && n@ == s.old_name@),
                Some(j) => r.0.stage == RenameStage::Stopping && r.0.version == list@[j].version
                    && r.0.was_default == list@[j].default && !r.0.imported && (r.1 matches RenameAction::Run(
                    WslCommand::Terminate(n),
                ) && n@ == s.old_name@),
            },
            _ => true,
        },
        s.stage == RenameStage::Stopping ==> r.0.stage == RenameStage::Preparing && r.0.version
            == s.version && r.0.was_default == s.was_default && !r.0.imported && (r.1 matches RenameAction::PrepareDirs {
            temp_dir: t,
            install_dir: d,
            tar_file: f,
        } && string_views(t@) == seq![temp_dir_name()] && string_views(d@) == seq![
            install_root_name(),
            s.new_name@,
        ] && f@ == s.old_name@ + tar_suffix()),
        s.stage == RenameStage::Preparing ==> match e {
            RenameEvent::PathsPrepared(Err(x)) => r.0.stage == RenameStage::Done && r.1
                == RenameAction::Finish(Err(x)),
            RenameEvent::PathsPrepared(Ok((tar, dir))) => r.0.stage == RenameStage::Exporting
                && r.0.temp_tar == tar && r.0.install_dir == dir && r.0.version == s.version
                && r.0.was_default == s.was_default && !r.0.imported && (r.1 matches RenameAction::Run(
                WslCommand::Export { name: n, tar: t },
            ) && n@ == s.old_name@ && t@ == tar@),
            _ => true,
        },
        s.stage == RenameStage::Exporting ==> match e {
            RenameEvent::CommandFinished(Err(x)) => r.0.stage == RenameStage::Done && r.1
                == RenameAction::Finish(Err(x)),
            RenameEvent::CommandFinished(Ok(())) => r.0.stage == RenameStage::Importing
                && r.0.temp_tar == s.temp_tar && r.0.install_dir == s.install_dir && r.0.version
                == s.version && r.0.was_default == s.was_default && !r.0.imported && (r.1 matches RenameAction::Run(
                WslCommand::Import { name: n, dir: d, tar: t, version: v },
            ) && n@ == s.new_name@ && d@ == s.install_dir@ && t@ == s.temp_tar@ && v
                == s.version),
            _ => true,
        },
        s.stage == RenameStage::Importing ==> match e {
            RenameEvent::CommandFinished(Err(x)) => r.0.stage == RenameStage::Done && r.1
                == RenameAction::Finish(Err(x)),
            RenameEvent::CommandFinished(Ok(())) => r.0.imported && r.0.temp_tar == s.temp_tar
                && r.0.was_default == s.was_default && (if s.was_default {
                r.0.stage == RenameStage::SettingDefault && (r.1 matches RenameAction::Run(
                    WslCommand::SetDefault(n),
                ) && n@ == s.new_name@)
            } else {
                r.0.stage == RenameStage::Unregistering && (r.1 matches RenameAction::Run(
                    WslCommand::Unregister(n),
                ) && n@ == s.old_name@)
            }),
            _ => true,
        },
        s.stage == RenameStage::SettingDefault ==> r.0.stage == RenameStage::Unregistering
            && r.0.imported == s.imported && r.0.temp_tar == s.temp_tar && (r.1 matches RenameAction::Run(
            WslCommand::Unregister(n),
        ) && n@ == s.old_name@),
        s.stage == RenameStage::Unregistering ==> match e {
            RenameEvent::CommandFinished(Err(x)) => r.0.stage == RenameStage::Done && r.1
                == RenameAction::Finish(Err(x)),
            RenameEvent::CommandFinished(Ok(())) => r.0.stage == RenameStage::CleaningUp
                && r.1 == RenameAction::RemoveFile(s.temp_tar),
            _ => true,
        },
        s.stage == RenameStage::CleaningUp ==> r.0.stage == RenameStage::Done && (r.1 matches RenameAction::Finish(Ok(()))),
{
    let RenameState {
        stage,
        old_name,
        new_name,
        version,
        was_default,
        temp_tar,
        install_dir,
        imported,
    } = s;
    match stage {
        RenameStage::Listing => match e {
            RenameEvent::Listed(Err(x)) => finished(old_name, new_name, Err(x)),
            RenameEvent::Listed(Ok(list)) => match find_named(&list, &old_name) {
                None => {
                    let n = old_name.clone();
                    finished(old_name, new_name, Err(WslError::InstanceNotFound(n)))
                },
                Some(j) => {
                    assert(instance_views(list@)[j as int] == list@[j as int]@);
                    let cmd = WslCommand::Terminate(old_name.clone());
                    (
                        RenameState {
                            stage: RenameStage::Stopping,
                            old_name,
                            new_name,
                            version: list[j].version,
                            was_default: list[j].default,
                            temp_tar,
                            install_dir,
                            imported: false,
                        },
                        RenameAction::Run(cmd),
                    )
                },
            },
            _ => finished(old_name, new_name, Err(WslError::NotAvailable)),
        },
        RenameStage::Stopping => {
            let mut temp_dir: Vec<String> = Vec::new();
            temp_dir.push(String::from_str("wsl-manager-temp"));
            let mut install: Vec<String> = Vec::new();
            install.push(String::from_str("wsl"));
            install.push(new_name.clone());
            let mut tar_file = old_name.clone();
            tar_file.append("-rename.tar");
            assert(string_views(temp_dir@) =~= seq![temp_dir_name()]);
            assert(string_views(install@) =~= seq![install_root_name(), new_name@]);
            (
                RenameState {
                    stage: RenameStage::Preparing,
                    old_name,
                    new_name,
                    version,
                    was_default,
                    temp_tar,
                    install_dir,
                    imported: false,
                },
                RenameAction::PrepareDirs { temp_dir, install_dir: install, tar_file },
            )
        },
        RenameStage::Preparing => match e {
            RenameEvent::PathsPrepared(Err(x)) => finished(old_name, new_name, Err(x)),
            RenameEvent::PathsPrepared(Ok((tar, dir))) => {
                let cmd = WslCommand::Export { name: old_name.clone(), tar: tar.clone() };
                (
                    RenameState {
                        stage: RenameStage::Exporting,
                        old_name,
                        new_name,
                        version,
                        was_default,
                        temp_tar: tar,
                        install_dir: dir,
                        imported: false,
                    },
                    RenameAction::Run(cmd),
                )
            },
            _ => finished(old_name, new_name, Err(WslError::NotAvailable)),
        },
        RenameStage::Exporting => match e {
            RenameEvent::CommandFinished(Err(x)) => finished(old_name, new_name, Err(x)),
            _ => {
                let cmd = WslCommand::Import {
                    name: new_name.clone(),
                    dir: install_dir.clone(),
                    tar: temp_tar.clone(),
                    version,
                };
                (
                    RenameState {
                        stage: RenameStage::Importing,
                        old_name,
                        new_name,
                        version,
                        was_default,
                        temp_tar,
                        install_dir,
                        imported: false,
                    },
                    RenameAction::Run(cmd),
                )
            },
        },
        RenameStage::Importing => match e {
            RenameEvent::CommandFinished(Err(x)) => finished(old_name, new_name, Err(x)),
            _ => {
                if was_default {
                    let cmd = WslCommand::SetDefault(new_name.clone());
                    (
                        RenameState {
                            stage: RenameStage::SettingDefault,
                            old_name,
                            new_name,
                            version,
                            was_default,
                            temp_tar,
                            install_dir,
                            imported: true,
                        },
                        RenameAction::Run(cmd),
                    )
                } else {
                    let cmd = WslCommand::Unregister(old_name.clone());
                    (
                        RenameState {
                            stage: RenameStage::Unregistering,
                            old_name,
                            new_name,
                            version,
                            was_default,
                            temp_tar,
                            install_dir,
                            imported: true,
                        },
                        RenameAction::Run(cmd),
                    )
                }
            },
        },
        RenameStage::SettingDefault => {
            let cmd = WslCommand::Unregister(old_name.clone());
            (
                RenameState {
                    stage: RenameStage::Unregistering,
                    old_name,
                    new_name,
                    version,
                    was_default,
                    temp_tar,
                    install_dir,
                    imported,
                },
                RenameAction::Run(cmd),
            )
        },
        RenameStage::Unregistering => match e {
            RenameEvent::CommandFinished(Err(x)) => finished(old_name, new_name, Err(x)),
            _ => {
                let tar = temp_tar.clone();
                (
                    RenameState {
                        stage: RenameStage::CleaningUp,
                        old_name,
                        new_name,
                        version,
                        was_default,
                        temp_tar,
                        install_dir,
                        imported,
                    },
                    RenameAction::RemoveFile(tar),
                )
            },
        },
        RenameStage::CleaningUp => finished(old_name, new_name, Ok(())),
        RenameStage::Done => finished(old_name, new_name, Err(WslError::NotAvailable)),
    }
}

} // verus!
