//! Argument types of the command-line surface. The argument parser itself is
//! an unverified shell around the compositor; these are the plain values it
//! hands over.

use vstd::prelude::*;

verus! {

/// A backend the compositor can try to start.
#[derive(Copy, Clone, Debug, Hash, PartialEq, Eq, Structural)]
pub enum CliBackend {
    X11,
    Metal,
}

/// A log level selectable on the command line.
#[derive(Copy, Clone, Debug, Hash, PartialEq, Eq, Structural)]
pub enum CliLogLevel {
    Trace,
    Debug,
    Info,
    Warn,
    Error,
}

/// A log level of the compositor's logger.
#[derive(Copy, Clone, Debug, PartialEq, Eq, Structural)]
pub enum LogLevel {
    Trace,
    Debug,
    Info,
    Warn,
    Error,
}

impl CliLogLevel {
    /// The logger level this command-line level selects.
    pub fn to_level(self) -> (r: LogLevel)
        ensures
            r == (match self {
                CliLogLevel::Trace => LogLevel::Trace,
                CliLogLevel::Debug => LogLevel::Debug,
                CliLogLevel::Info => LogLevel::Info,
                CliLogLevel::Warn => LogLevel::Warn,
                CliLogLevel::Error => LogLevel::Error,
            }),
    {
        match self {
            CliLogLevel::Trace => LogLevel::Trace,
            CliLogLevel::Debug => LogLevel::Debug,
            CliLogLevel::Info => LogLevel::Info,
            CliLogLevel::Warn => LogLevel::Warn,
            CliLogLevel::Error => LogLevel::Error,
        }
    }
}

impl Default for CliLogLevel {
    /// The default log level is `Info`.
    fn default() -> (r: Self)
        ensures
            r == CliLogLevel::Info,
    {
        Self::Info
    }
}

/// The flags every subcommand shares.
#[derive(Debug)]
pub struct GlobalArgs {
    /// The log level.
    pub log_level: CliLogLevel,
}

/// Arguments of the subcommand that runs the compositor.
#[derive(Debug)]
pub struct RunArgs {
    /// The backends to try, in order; empty means the default order.
    pub backends: Vec<CliBackend>,
}

/// Arguments of the subcommand that opens the log file.
#[derive(Debug)]
pub struct LogArgs {
    /// Print the path of the log file.
    pub path: bool,
    /// Follow the log.
    pub follow: bool,
    /// Immediately jump to the end in the pager.
    pub pager_end: bool,
}

} // verus!
