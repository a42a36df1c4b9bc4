//! Verified core of a WSL instance manager: validation of distribution
//! names, the whitelisted `wsl.exe` argument lists, decoding and parsing of
//! `wsl.exe` output, and the decision logic around each command.
pub mod text;
pub mod models;
pub mod error;
pub mod listing;
pub mod output;
pub mod version;
pub mod decode;
pub mod commands;
pub mod rename;
