//! Errors of WSL operations.
use vstd::prelude::*;

verus! {

/// What can go wrong in a WSL operation.
#[derive(Debug, Clone)]
pub enum WslError {
    /// `wsl.exe` cannot be used on this system.
    NotAvailable,
    /// A distribution name failed validation; the text says why.
    InvalidName(String),
    /// `wsl.exe` exited unsuccessfully.
    CommandFailed { command: String, message: String },
    /// The output of `wsl.exe` did not hold what was looked for.
    ParseError(String),
    /// No instance of the given name exists.
    InstanceNotFound(String),
    /// An operating-system error, by its description.
    Io(String),
}

impl WslError {
    /// The text shown to the user for this error.
    pub open spec fn message_spec(self) -> Seq<char> {
        match self {
            WslError::NotAvailable => "WSL is not installed or not available on this system"@,
            WslError::InvalidName(m) => "Invalid distribution name: "@ + m@,
            WslError::CommandFailed { command, message } => "Command '"@ + command@
                + "' failed: "@ + message@,
            WslError::ParseError(m) => "Failed to parse WSL output: "@ + m@,
            WslError::InstanceNotFound(n) => "Instance '"@ + n@ + "' not found"@,
            WslError::Io(m) => "IO error: "@ + m@,
        }
    }

    /// The text shown to the user for this error.
    pub fn message(&self) -> (r: String)
        ensures
            r@ == self.message_spec(),
    {
        match self {
            WslError::NotAvailable => String::from_str(
                "WSL is not installed or not available on this system",
            ),
            WslError::InvalidName(m) => {
                let mut r = String::from_str("Invalid distribution name: ");
                r.append(m.as_str());
                r
            },
            WslError::CommandFailed { command, message } => {
                let mut r = String::from_str("Command '");
                r.append(command.as_str());
                r.append("' failed: ");
                r.append(message.as_str());
                r
            },
            WslError::ParseError(m) => {
                let mut r = String::from_str("Failed to parse WSL output: ");
                r.append(m.as_str());
                r
            },
            WslError::InstanceNotFound(n) => {
                let mut r = String::from_str("Instance '");
                r.append(n.as_str());
                r.append("' not found");
                r
            },
            WslError::Io(m) => {
                let mut r = String::from_str("IO error: ");
                r.append(m.as_str());
                r
            },
        }
    }
}

} // verus!
