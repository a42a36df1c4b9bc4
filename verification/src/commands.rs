//! The `wsl.exe` commands this manager runs: name validation, the whitelisted
//! argument lists, the decisions each operation takes before and after a
//! command, and the reading of a command's exit status.
use vstd::prelude::*;
use crate::decode::{decodable, decode_output, decoded_text};
use crate::error::WslError;
use crate::models::{InstanceState, InstanceView, WslInstance, instance_views, opt_view};
use crate::output::{contains_string, parse_running_names, running_names_spec, string_views};
use crate::text::{str_to_chars, trim, trim_chars, chars_to_string};

verus! {

// ---------------------------------------------------------------------------
// Distribution names
// ---------------------------------------------------------------------------

/// Letters, digits, `.`, `-` and `_` (ASCII only).
pub open spec fn is_name_char(c: char) -> bool {
    ('a' <= c && c <= 'z') || ('A' <= c && c <= 'Z') || ('0' <= c && c <= '9') || c == '.' || c
        == '-' || c == '_'
}

/// A name that may be handed to `wsl.exe`: not empty, not starting with `-`
/// (so it cannot be read as an option), and made of name characters only.
pub open spec fn valid_distro_name(s: Seq<char>) -> bool {
    &&& s.len() > 0
    &&& s[0] != '-'
    &&& forall|i: int| 0 <= i < s.len() ==> is_name_char(#[trigger] s[i])
}

/// The accepted names are exactly the non-empty ones made of ASCII letters,
/// digits, `.`, `-` and `_` that do not start with `-`, whatever their
/// length.
pub proof fn lemma_distro_name_rule(s: Seq<char>)
    ensures
        valid_distro_name(s) <==> {
            &&& s.len() > 0
            &&& s[0] != '-'
            &&& forall|i: int|
                0 <= i < s.len() ==> {
                    let c = #[trigger] s[i];
                    ||| 'a' <= c <= 'z'
                    ||| 'A' <= c <= 'Z'
                    ||| '0' <= c <= '9'
                    ||| c == '.'
                    ||| c == '-'
                    ||| c == '_'
                }
        },
{
}

/// Accepted names joined, directly or by `.`, `-` or `_`, give an accepted
/// name: no length limit applies.
pub proof fn lemma_distro_name_join(a: Seq<char>, sep: Seq<char>, b: Seq<char>)
    requires
        valid_distro_name(a),
        valid_distro_name(b),
        sep.len() == 0 || sep == seq!['.'] || sep == seq!['-'] || sep == seq!['_'],
    ensures
        valid_distro_name(a + sep + b),
{
    let j = a + sep + b;
    assert forall|i: int| 0 <= i < j.len() implies is_name_char(#[trigger] j[i]) by {
        if i < a.len() {
            assert(j[i] == a[i]);
        } else if i < a.len() + sep.len() {
            assert(j[i] == sep[i - a.len()]);
        } else {
            assert(j[i] == b[i - a.len() - sep.len()]);
        }
    }
}

/// Checks a distribution name; the error says which rule failed.
pub fn validate_distro_name(name: &str) -> (r: Result<(), WslError>)
    ensures
        r is Ok <==> valid_distro_name(name@),
        name@.len() == 0 ==> (r matches Err(WslError::InvalidName(m)) && m@
            == "name cannot be empty"@),
        name@.len() > 0 && name@[0] == '-' ==> (r matches Err(WslError::InvalidName(m)) && m@
            == "name cannot start with '-': "@ + name@),
        name@.len() > 0 && name@[0] != '-' && !valid_distro_name(name@) ==> (r matches Err(
            WslError::InvalidName(m),
        ) && m@ == "name contains invalid characters: "@ + name@),
{
    let chars = str_to_chars(name);
    if chars.len() == 0 {
        return Err(WslError::InvalidName(String::from_str("name cannot be empty")));
    }
    if chars[0] == '-' {
        let mut m = String::from_str("name cannot start with '-': ");
        m.append(name);
        return Err(WslError::InvalidName(m));
    }
    let mut i: usize = 0;
    while i < chars.len()
        invariant
            chars@ == name@,
            chars@.len() > 0,
            chars@[0] != '-',
            i <= chars@.len(),
            forall|j: int| 0 <= j < i ==> is_name_char(#[trigger] chars@[j]),
        decreases chars@.len() - i,
    {
        let c = chars[i];
        if !(('a' <= c && c <= 'z') || ('A' <= c && c <= 'Z') || ('0' <= c && c <= '9') || c
            == '.' || c == '-' || c == '_') {
            assert(!is_name_char(name@[i as int]));
            let mut m = String::from_str("name contains invalid characters: ");
            m.append(name);
            return Err(WslError::InvalidName(m));
        }
        i = i + 1;
    }
    Ok(())
}

// ---------------------------------------------------------------------------
// Commands and their argument lists
// ---------------------------------------------------------------------------

/// A `wsl.exe` invocation; the names it carries are passed as single
/// arguments.
#[derive(Debug)]
pub enum WslCommand {
    /// `--list --verbose`
    ListVerbose,
    /// `--list --running --quiet`
    ListRunning,
    /// `--list --online`
    ListOnline,
    /// `--version`
    Version,
    /// `--status`
    Status,
    /// `--shutdown`
    Shutdown,
    /// `--terminate <name>`
    Terminate(String),
    /// `--set-default <name>`
    SetDefault(String),
    /// `--unregister <name>`
    Unregister(String),
    /// `-d <name> -e cat /etc/os-release`
    OsRelease(String),
    /// `-d <name> -e hostname -I`
    HostAddresses(String),
    /// `-d <name> -e true`: starts an instance without a window.
    Start(String),
    /// `-d <name>`: an interactive shell.
    Shell(String),
    /// `--install -d <distro> [--name <name>] --no-launch`.
    Install { distro: String, instance_name: Option<String> },
    /// `--export <name> <tar>`
    Export { name: String, tar: String },
    /// `--import <name> <dir> <tar> --version <version>`
    Import { name: String, dir: String, tar: String, version: u8 },
}

/// Decimal digits of `v`, without leading zeros (`u8::to_string`).
pub open spec fn decimal(v: nat) -> Seq<char>
    decreases v,
{
    if v < 10 {
        seq![('0' as u32 + v) as char]
    } else {
        decimal(v / 10) + seq![('0' as u32 + v % 10) as char]
    }
}

fn digit_char(d: u8) -> (c: char)
    requires
        d < 10,
    ensures
        c == ('0' as u32 + d) as char,
{
    (('0' as u8) + d) as char
}

/// `u8::to_string`.
pub fn u8_to_string(v: u8) -> (r: String)
    ensures
        r@ == decimal(v as nat),
{
    let mut cs: Vec<char> = Vec::new();
    if v >= 100 {
        cs.push(digit_char(v / 100));
        cs.push(digit_char((v / 10) % 10));
        cs.push(digit_char(v % 10));
        assert(decimal((v / 10) as nat) == decimal((v / 100) as nat) + seq![
            ('0' as u32 + (v / 10) % 10) as char,
        ]);
    } else if v >= 10 {
        cs.push(digit_char(v / 10));
        cs.push(digit_char(v % 10));
    } else {
        cs.push(digit_char(v));
    }
    proof {
        reveal_with_fuel(decimal, 3);
    }
    assert(cs@ =~= decimal(v as nat));
    chars_to_string(&cs)
}

impl WslCommand {
    /// The argument list of the command.
    pub open spec fn args_spec(self) -> Seq<Seq<char>> {
        match self {
            WslCommand::ListVerbose => seq!["--list"@, "--verbose"@],
            WslCommand::ListRunning => seq!["--list"@, "--running"@, "--quiet"@],
            WslCommand::ListOnline => seq!["--list"@, "--online"@],
            WslCommand::Version => seq!["--version"@],
            WslCommand::Status => seq!["--status"@],
            WslCommand::Shutdown => seq!["--shutdown"@],
            WslCommand::Terminate(n) => seq!["--terminate"@, n@],
            WslCommand::SetDefault(n) => seq!["--set-default"@, n@],
            WslCommand::Unregister(n) => seq!["--unregister"@, n@],
            WslCommand::OsRelease(n) => seq!["-d"@, n@, "-e"@, "cat"@, "/etc/os-release"@],
            WslCommand::HostAddresses(n) => seq!["-d"@, n@, "-e"@, "hostname"@, "-I"@],
            WslCommand::Start(n) => seq!["-d"@, n@, "-e"@, "true"@],
            WslCommand::Shell(n) => seq!["-d"@, n@],
            WslCommand::Install { distro, instance_name } => {
                match instance_name {
                    Some(n) => seq!["--install"@, "-d"@, distro@, "--name"@, n@, "--no-launch"@],
                    None => seq!["--install"@, "-d"@, distro@, "--no-launch"@],
                }
            },
            WslCommand::Export { name, tar } => seq!["--export"@, name@, tar@],
            WslCommand::Import { name, dir, tar, version } => seq![
                "--import"@,
                name@,
                dir@,
                tar@,
                "--version"@,
                decimal(version as nat),
            ],
        }
    }

    /// The argument list of the command.
    pub fn args(&self) -> (r: Vec<String>)
        ensures
            string_views(r@) == self.args_spec(),
    {
        let mut r: Vec<String> = Vec::new();
        match self {
            WslCommand::ListVerbose => {
                r.push(String::from_str("--list"));
                r.push(String::from_str("--verbose"));
            },
            WslCommand::ListRunning => {
                r.push(String::from_str("--list"));
                r.push(String::from_str("--running"));
                r.push(String::from_str("--quiet"));
            },
            WslCommand::ListOnline => {
                r.push(String::from_str("--list"));
                r.push(String::from_str("--online"));
            },
            WslCommand::Version => {
                r.push(String::from_str("--version"));
            },
            WslCommand::Status => {
                r.push(String::from_str("--status"));
            },
            WslCommand::Shutdown => {
                r.push(String::from_str("--shutdown"));
            },
            WslCommand::Terminate(n) => {
                r.push(String::from_str("--terminate"));
                r.push(n.clone());
            },
            WslCommand::SetDefault(n) => {
                r.push(String::from_str("--set-default"));
                r.push(n.clone());
            },
            WslCommand::Unregister(n) => {
                r.push(String::from_str("--unregister"));
                r.push(n.clone());
            },
            WslCommand::OsRelease(n) => {
                r.push(String::from_str("-d"));
                r.push(n.clone());
                r.push(String::from_str("-e"));
                r.push(String::from_str("cat"));
                r.push(String::from_str("/etc/os-release"));
            },
            WslCommand::HostAddresses(n) => {
                r.push(String::from_str("-d"));
                r.push(n.clone());
                r.push(String::from_str("-e"));
                r.push(String::from_str("hostname"));
                r.push(String::from_str("-I"));
            },
            WslCommand::Start(n) => {
                r.push(String::from_str("-d"));
                r.push(n.clone());
                r.push(String::from_str("-e"));
                r.push(String::from_str("true"));
            },
            WslCommand::Shell(n) => {
                r.push(String::from_str("-d"));
                r.push(n.clone());
            },
            WslCommand::Install { distro, instance_name } => {
                r.push(String::from_str("--install"));
                r.push(String::from_str("-d"));
                r.push(distro.clone());
                match instance_name {
                    Some(n) => {
                        r.push(String::from_str("--name"));
                        r.push(n.clone());
                    },
                    None => {},
                }
                r.push(String::from_str("--no-launch"));
            },
            WslCommand::Export { name, tar } => {
                r.push(String::from_str("--export"));
                r.push(name.clone());
                r.push(tar.clone());
            },
            WslCommand::Import { name, dir, tar, version } => {
                r.push(String::from_str("--import"));
                r.push(name.clone());
                r.push(dir.clone());
                r.push(tar.clone());
                r.push(String::from_str("--version"));
                r.push(u8_to_string(*version));
            },
        }
        assert(string_views(r@) =~= self.args_spec());
        r
    }
}

// ---------------------------------------------------------------------------
// Running a command
// ---------------------------------------------------------------------------

/// Mock mode is on when `WSL_MANAGER_MOCK` is set to `1`.
pub fn mock_requested(env_value: Option<String>) -> (r: bool)
    ensures
        r == (env_value matches Some(v) && v@ == "1"@),
{
    match env_value {
        Some(v) => {
            let one = String::from_str("1");
            v == one
        },
        None => false,
    }
}

/// In mock mode no command runs: every one reports `NotAvailable`.
pub fn run_permitted(mock: bool) -> (r: Result<(), WslError>)
    ensures
        mock ==> (r matches Err(WslError::NotAvailable)),
        !mock ==> r is Ok,
{
    if mock {
        Err(WslError::NotAvailable)
    } else {
        Ok(())
    }
}

/// `items` joined with `sep` between neighbours.
pub open spec fn join(items: Seq<Seq<char>>, sep: Seq<char>) -> Seq<char>
    decreases items.len(),
{
    if items.len() == 0 {
        seq![]
    } else if items.len() == 1 {
        items[0]
    } else {
        join(items.drop_last(), sep) + sep + items.last()
    }
}

/// `[String]::join`.
pub fn join_strings(items: &Vec<String>, sep: &str) -> (r: String)
    ensures
        r@ == join(string_views(items@), sep@),
{
    let mut r = String::new();
    let mut i: usize = 0;
    while i < items.len()
        invariant
            i <= items@.len(),
            r@ == join(string_views(items@).take(i as int), sep@),
        decreases items@.len() - i,
    {
        let ghost prev = string_views(items@).take(i as int);
        if i > 0 {
            r.append(sep);
        }
        r.append(items[i].as_str());
        proof {
            let next = string_views(items@).take(i + 1);
            assert(next.drop_last() =~= prev);
            assert(next.last() == items@[i as int]@);
            if i == 0 {
                assert(prev =~= Seq::<Seq<char>>::empty());
            }
        }
        i = i + 1;
    }
    assert(string_views(items@).take(i as int) =~= string_views(items@));
    r
}

/// How a failed command is named in its error: `wsl` and its arguments.
pub open spec fn command_line(cmd: WslCommand) -> Seq<char> {
    "wsl "@ + join(cmd.args_spec(), " "@)
}

/// The message of a failed command: its trimmed standard error, or
/// `unknown error` when that is empty.
pub open spec fn failure_message(stderr: Seq<u8>) -> Seq<char> {
    let t = trim(decoded_text(stderr));
    if t.len() == 0 {
        "unknown error"@
    } else {
        t
    }
}

/// Reads the exit status of a command: its standard output when it succeeded,
/// otherwise `CommandFailed` with the command line and its error text.
pub fn command_result(cmd: &WslCommand, success: bool, stdout: Vec<u8>, stderr: &[u8]) -> (r:
    Result<Vec<u8>, WslError>)
    requires
        decodable(stderr@),
    ensures
        success ==> (r matches Ok(out) && out@ == stdout@),
        !success ==> (r matches Err(WslError::CommandFailed { command, message }) && command@
            == command_line(*cmd) && message@ == failure_message(stderr@)),
{
    if success {
        return Ok(stdout);
    }
    let text = decode_output(stderr);
    let t = trim_chars(&str_to_chars(text.as_str()));
    let message = if t.len() == 0 {
        String::from_str("unknown error")
    } else {
        chars_to_string(&t)
    };
    let mut command = String::from_str("wsl ");
    let args = cmd.args();
    let joined = join_strings(&args, " ");
    command.append(joined.as_str());
    Err(WslError::CommandFailed { command, message })
}

// ---------------------------------------------------------------------------
// Locating wsl.exe
// ---------------------------------------------------------------------------

/// The Windows directory: the `SystemRoot` variable, or `C:\Windows`.
pub fn system_root(env_value: Option<String>) -> (r: String)
    ensures
        env_value matches Some(v) ==> r@ == v@,
        env_value is None ==> r@ == "C:\\Windows"@,
{
    match env_value {
        Some(v) => v,
        None => String::from_str("C:\\Windows"),
    }
}

/// Picks `wsl.exe`: off Windows there is none; on Windows the one under
/// `System32` if it exists, else (for a 32-bit process, which Windows
/// redirects away from `System32`) the one under `Sysnative` if it exists.
pub fn wsl_program<F: Fn(&str) -> bool>(
    on_windows: bool,
    pointer_width_32: bool,
    system32_exe: &str,
    sysnative_exe: &str,
    path_exists: F,
) -> (r: Result<String, WslError>)
    requires
        forall|p: &str| path_exists.requires((p,)),
    ensures
        !on_windows ==> (r matches Err(WslError::NotAvailable)),
        r matches Ok(p) ==> on_windows && ((p@ == system32_exe@ && path_exists.ensures(
            (system32_exe,),
            true,
        )) || (pointer_width_32 && p@ == sysnative_exe@ && path_exists.ensures(
            (system32_exe,),
            false,
        ) && path_exists.ensures((sysnative_exe,), true))),
        r is Err ==> (r matches Err(WslError::NotAvailable)) && (!on_windows || (
        path_exists.ensures((system32_exe,), false) && (!pointer_width_32 || path_exists.ensures(
            (sysnative_exe,),
            false,
        )))),
{
    if !on_windows {
        return Err(WslError::NotAvailable);
    }
    if path_exists(system32_exe) {
        return Ok(String::from_str(system32_exe));
    }
    if pointer_width_32 {
        if path_exists(sysnative_exe) {
            return Ok(String::from_str(sysnative_exe));
        }
    }
    Err(WslError::NotAvailable)
}

// ---------------------------------------------------------------------------
// Operations on one instance
// ---------------------------------------------------------------------------

/// Starting an instance: validate, then (outside mock mode) spawn
/// `wsl -d <name> -e true`.
pub fn start_instance(name: &str, mock: bool) -> (r: Result<Option<WslCommand>, WslError>)
    ensures
        r is Ok <==> valid_distro_name(name@),
        r matches Ok(c) ==> (mock ==> c is None) && (!mock ==> (c matches Some(
            WslCommand::Start(n),
        ) && n@ == name@)),
        r is Err ==> validate_distro_name_fails(name@, r),
{
    validate_distro_name(name)?;
    if mock {
        Ok(None)
    } else {
        Ok(Some(WslCommand::Start(String::from_str(name))))
    }
}

/// The error `validate_distro_name` gives for `name`, carried on by `r`.
pub open spec fn validate_distro_name_fails<T>(name: Seq<char>, r: Result<T, WslError>) -> bool {
    &&& !valid_distro_name(name)
    &&& r matches Err(WslError::InvalidName(m))
    &&& (name.len() == 0 ==> m@ == "name cannot be empty"@)
    &&& (name.len() > 0 && name[0] == '-' ==> m@ == "name cannot start with '-': "@ + name)
    &&& (name.len() > 0 && name[0] != '-' ==> m@ == "name contains invalid characters: "@ + name)
}

/// Stopping an instance: validate, then (outside mock mode, where it simply
/// succeeds) run `wsl --terminate <name>`.
pub fn stop_instance(name: &str, mock: bool) -> (r: Result<Option<WslCommand>, WslError>)
    ensures
        r is Ok <==> valid_distro_name(name@),
        r is Err ==> validate_distro_name_fails(name@, r),
        r is Ok && mock ==> (r matches Ok(None)),
        r is Ok && !mock ==> (r matches Ok(Some(WslCommand::Terminate(n))) && n@ == name@),
{
    validate_distro_name(name)?;
    if mock {
        return Ok(None);
    }
    Ok(Some(WslCommand::Terminate(String::from_str(name))))
}

/// Making an instance the default: validate, then (outside mock mode, where it
/// simply succeeds) run `wsl --set-default <name>`.
pub fn set_default_instance(name: &str, mock: bool) -> (r: Result<Option<WslCommand>, WslError>)
    ensures
        r is Ok <==> valid_distro_name(name@),
        r is Err ==> validate_distro_name_fails(name@, r),
        r is Ok && mock ==> (r matches Ok(None)),
        r is Ok && !mock ==> (r matches Ok(Some(WslCommand::SetDefault(n))) && n@ == name@),
{
    validate_distro_name(name)?;
    if mock {
        return Ok(None);
    }
    Ok(Some(WslCommand::SetDefault(String::from_str(name))))
}

/// Deleting an instance: validate, then (outside mock mode, where it simply
/// succeeds) run `wsl --unregister <name>`.
pub fn delete_instance(name: &str, mock: bool) -> (r: Result<Option<WslCommand>, WslError>)
    ensures
        r is Ok <==> valid_distro_name(name@),
        r is Err ==> validate_distro_name_fails(name@, r),
        r is Ok && mock ==> (r matches Ok(None)),
        r is Ok && !mock ==> (r matches Ok(Some(WslCommand::Unregister(n))) && n@ == name@),
{
    validate_distro_name(name)?;
    if mock {
        return Ok(None);
    }
    Ok(Some(WslCommand::Unregister(String::from_str(name))))
}

/// Stopping every instance and the WSL 2 VM: `wsl --shutdown`, nothing in
/// mock mode (where it simply succeeds).
pub fn shutdown(mock: bool) -> (r: Option<WslCommand>)
    ensures
        mock ==> r is None,
        !mock ==> (r matches Some(WslCommand::Shutdown)),
{
    if mock {
        None
    } else {
        Some(WslCommand::Shutdown)
    }
}

/// Listing the installable distributions: `wsl --list --online`, nothing in
/// mock mode (where it simply succeeds, offering no distribution).
pub fn list_online_distributions(mock: bool) -> (r: Option<WslCommand>)
    ensures
        mock ==> r is None,
        !mock ==> (r matches Some(WslCommand::ListOnline)),
{
    if mock {
        None
    } else {
        Some(WslCommand::ListOnline)
    }
}

/// How a terminal is opened on an instance.
#[derive(Debug)]
pub enum TerminalLaunch {
    /// `wt.exe` with these arguments.
    WindowsTerminal(Vec<String>),
    /// `wsl.exe` itself in the default console host.
    Console(WslCommand),
}

/// Opening a terminal: validate, then (outside mock mode) Windows Terminal
/// running `wsl.exe -d <name>` when it is available, else `wsl -d <name>`.
pub fn open_terminal(name: &str, mock: bool, windows_terminal: bool) -> (r: Result<
    Option<TerminalLaunch>,
    WslError,
>)
    ensures
        r is Ok <==> valid_distro_name(name@),
        r is Err ==> validate_distro_name_fails(name@, r),
        r matches Ok(l) ==> (mock ==> l is None),
        r matches Ok(Some(TerminalLaunch::WindowsTerminal(a))) ==> !mock && windows_terminal
            && string_views(a@) == seq!["wsl.exe"@, "-d"@, name@],
        r matches Ok(Some(TerminalLaunch::Console(c))) ==> !mock && !windows_terminal && (c matches WslCommand::Shell(n) && n@ == name@),
        r is Ok && !mock ==> r matches Ok(Some(_)),
{
    validate_distro_name(name)?;
    if mock {
        return Ok(None);
    }
    if windows_terminal {
        let mut a: Vec<String> = Vec::new();
        a.push(String::from_str("wsl.exe"));
        a.push(String::from_str("-d"));
        a.push(String::from_str(name));
        assert(string_views(a@) =~= seq!["wsl.exe"@, "-d"@, name@]);
        Ok(Some(TerminalLaunch::WindowsTerminal(a)))
    } else {
        Ok(Some(TerminalLaunch::Console(WslCommand::Shell(String::from_str(name)))))
    }
}

/// Installing a distribution: the distribution name and, when not empty, the
/// instance name must be valid; outside mock mode
/// `wsl --install -d <distro> [--name <install_name>] --no-launch` is spawned.
pub fn install_distribution(distro: &str, install_name: &str, mock: bool) -> (r: Result<
    Option<WslCommand>,
    WslError,
>)
    ensures
        r is Ok <==> valid_distro_name(distro@) && (install_name@.len() == 0 || valid_distro_name(
            install_name@,
        )),
        !valid_distro_name(distro@) ==> validate_distro_name_fails(distro@, r),
        valid_distro_name(distro@) && install_name@.len() > 0 && !valid_distro_name(install_name@)
            ==> validate_distro_name_fails(install_name@, r),
        r matches Ok(c) ==> (mock ==> c is None),
        r matches Ok(Some(c)) ==> !mock && (c matches WslCommand::Install { distro: d, instance_name: n }
            && d@ == distro@ && (install_name@.len() == 0 ==> n is None) && (install_name@.len()
            > 0 ==> (n matches Some(x) && x@ == install_name@))),
        r is Ok && !mock ==> r matches Ok(Some(_)),
{
    validate_distro_name(distro)?;
    let empty = install_name.is_empty();
    if !empty {
        validate_distro_name(install_name)?;
    }
    if mock {
        return Ok(None);
    }
    let name = if empty {
        None
    } else {
        Some(String::from_str(install_name))
    };
    Ok(Some(WslCommand::Install { distro: String::from_str(distro), instance_name: name }))
}

// ---------------------------------------------------------------------------
// Listing instances
// ---------------------------------------------------------------------------

/// The state an instance has after the running list was consulted: states
/// read from the table are kept; an `Unknown` one becomes `Running` when the
/// name is in the running list, `Stopped` otherwise.
pub open spec fn cross_checked(i: InstanceView, running: Seq<Seq<char>>) -> InstanceView {
    if i.state == InstanceState::Unknown {
        InstanceView {
            state: if running.contains(i.name) {
                InstanceState::Running
            } else {
                InstanceState::Stopped
            },
            ..i
        }
    } else {
        i
    }
}

/// After the running list was consulted no state is `Unknown`, states read
/// from the table are unchanged, and an instance is `Running` exactly when it
/// was read so or, with an unreadable state, is in the running list.
pub proof fn lemma_cross_check_settles(i: InstanceView, running: Seq<Seq<char>>)
    ensures
        cross_checked(i, running).state != InstanceState::Unknown,
        i.state != InstanceState::Unknown ==> cross_checked(i, running) == i,
        cross_checked(i, running).name == i.name,
        (cross_checked(i, running).state == InstanceState::Running) <==> (i.state
            == InstanceState::Running || (i.state == InstanceState::Unknown && running.contains(
            i.name,
        ))),
{
}

/// Settles the `Unknown` states (a localized `STATE` column) with the list of
/// running names.
pub fn apply_running_names(instances: &mut Vec<WslInstance>, running: &Vec<String>)
    ensures
        instance_views(final(instances)@).len() == instance_views(old(instances)@).len(),
        forall|k: int|
            0 <= k < old(instances)@.len() ==> #[trigger] instance_views(final(instances)@)[k]
                == cross_checked(instance_views(old(instances)@)[k], string_views(running@)),
{
    let ghost orig = instance_views(instances@);
    let mut k: usize = 0;
    while k < instances.len()
        invariant
            k <= instances@.len(),
            instances@.len() == orig.len(),
            forall|j: int|
                0 <= j < k ==> #[trigger] instances@[j]@ == cross_checked(
                    orig[j],
                    string_views(running@),
                ),
            forall|j: int| k <= j < orig.len() ==> #[trigger] instances@[j]@ == orig[j],
        decreases instances@.len() - k,
    {
        if instances[k].state == InstanceState::Unknown {
            let mut inst = instances[k].duplicate();
            inst.state = if contains_string(running, &inst.name) {
                InstanceState::Running
            } else {
                InstanceState::Stopped
            };
            instances.set(k, inst);
        }
        k = k + 1;
    }
    assert(instance_views(instances@) =~= Seq::new(
        orig.len(),
        |j: int| cross_checked(orig[j], string_views(running@)),
    ));
}

/// Settles the states with the decoded output of
/// `wsl --list --running --quiet`; when that command failed (`None`) the
/// states read from the table are kept.
pub fn settle_states(instances: &mut Vec<WslInstance>, running_output: Option<&str>)
    ensures
        running_output is None ==> final(instances)@ == old(instances)@,
        running_output matches Some(t) ==> instance_views(final(instances)@).len()
            == instance_views(old(instances)@).len() && forall|k: int|
            0 <= k < old(instances)@.len() ==> #[trigger] instance_views(final(instances)@)[k]
                == cross_checked(instance_views(old(instances)@)[k], running_names_spec(t@)),
{
    match running_output {
        Some(t) => {
            let names = parse_running_names(t);
            apply_running_names(instances, &names);
        },
        None => {},
    }
}

/// The commands that fill in an instance's details: the distribution name
/// for any valid instance name, the address only for a running one.
pub fn detail_commands(inst: &WslInstance) -> (r: (Option<WslCommand>, Option<WslCommand>))
    ensures
        valid_distro_name(inst.name@) ==> (r.0 matches Some(WslCommand::OsRelease(n)) && n@
            == inst.name@),
        !valid_distro_name(inst.name@) ==> r.0 is None,
        valid_distro_name(inst.name@) && inst.state == InstanceState::Running ==> (r.1 matches Some(
            WslCommand::HostAddresses(n),
        ) && n@ == inst.name@),
        !(valid_distro_name(inst.name@) && inst.state == InstanceState::Running) ==> r.1 is None,
{
    match validate_distro_name(inst.name.as_str()) {
        Ok(()) => {
            let ip = if inst.state == InstanceState::Running {
                Some(WslCommand::HostAddresses(inst.name.clone()))
            } else {
                None
            };
            (Some(WslCommand::OsRelease(inst.name.clone())), ip)
        },
        Err(_) => (None, None),
    }
}

/// Index of the first instance named `name` at or after `j`.
pub open spec fn first_named(v: Seq<InstanceView>, name: Seq<char>, j: int) -> Option<int>
    decreases v.len() - j,
{
    if j < 0 || j >= v.len() {
        None
    } else if v[j].name == name {
        Some(j)
    } else {
        first_named(v, name, j + 1)
    }
}

pub proof fn lemma_first_named(v: Seq<InstanceView>, name: Seq<char>, j: int)
    requires
        0 <= j,
    ensures
        first_named(v, name, j) matches Some(k) ==> j <= k < v.len() && v[k].name == name,
        first_named(v, name, j) is None ==> forall|k: int| j <= k < v.len() ==> #[trigger] v[k].name != name,
    decreases v.len() - j,
{
    if j < v.len() && v[j].name != name {
        lemma_first_named(v, name, j + 1);
    }
}

/// Records the details fetched for `name` on the first instance of that name.
pub fn attach_details(
    instances: &mut Vec<WslInstance>,
    name: &String,
    distribution: Option<String>,
    ip_address: Option<String>,
)
    ensures
        first_named(instance_views(old(instances)@), name@, 0) matches Some(j) ==> instance_views(
            final(instances)@,
        ) == instance_views(old(instances)@).update(
            j,
            InstanceView {
                distribution: opt_view(distribution),
                ip_address: opt_view(ip_address),
                ..instance_views(old(instances)@)[j]
            },
        ),
        first_named(instance_views(old(instances)@), name@, 0) is None ==> final(instances)@
            == old(instances)@,
{
    let ghost orig = instance_views(instances@);
    let mut k: usize = 0;
    while k < instances.len()
        invariant
            k <= instances@.len(),
            instances@ == old(instances)@,
            orig == instance_views(instances@),
            first_named(orig, name@, 0) == first_named(orig, name@, k as int),
        decreases instances@.len() - k,
    {
        assert(orig[k as int] == instances@[k as int]@);
        if instances[k].name == *name {
            let mut inst = instances[k].duplicate();
            let ghost dv = opt_view(distribution);
            let ghost iv = opt_view(ip_address);
            inst.distribution = distribution;
            inst.ip_address = ip_address;
            instances.set(k, inst);
            assert(instance_views(instances@) =~= orig.update(
                k as int,
                InstanceView { distribution: dv, ip_address: iv, ..orig[k as int] },
            ));
            return;
        }
        k = k + 1;
    }
}

} // verus!
