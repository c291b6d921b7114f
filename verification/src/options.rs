//! The options of the program and what they select.

use crate::bytes::same;
use vstd::prelude::*;
use vstd::string::*;

verus! {

/// The port of the control connection unless another is given.
pub const DEFAULT_PORT: u16 = 8888;

/// The options as given on the command line.
#[derive(Clone, Debug)]
pub struct Opt {
    /// The level of verbosity: error, warn, info, debug or trace.
    pub log_level: String,
    /// Run as Runner: the machine on which the executables run.
    pub remote_runner: bool,
    /// The TCP port to talk over; the same on both sides.
    pub port: u16,
    /// The Runner to connect to.
    pub target: Option<String>,
    /// The executable to run.
    pub filename: Option<String>,
    /// The address on which the Runner listens.
    pub bind_address: String,
    /// How many connections the Runner serves at once.
    pub max_connections: usize,
    /// Connection timeout in seconds.
    pub connect_timeout_secs: u64,
    /// Read timeout in seconds.
    pub read_timeout_secs: u64,
    /// Write timeout in seconds.
    pub write_timeout_secs: u64,
    /// TCP keepalive interval in seconds.
    pub keepalive_secs: u64,
    /// Send the executable again whenever it changes.
    pub watch: bool,
    /// The directory that the Host serves to the child.
    pub file_dir: Option<String>,
}

impl Default for Opt {
    fn default() -> (o: Opt)
        ensures
            o.log_level@ == "warn"@,
            !o.remote_runner,
            o.port == DEFAULT_PORT,
            o.target is None,
            o.filename is None,
            o.bind_address@ == "127.0.0.1"@,
            o.max_connections == 10,
            o.connect_timeout_secs == 10,
            o.read_timeout_secs == 30,
            o.write_timeout_secs == 30,
            o.keepalive_secs == 60,
            !o.watch,
            o.file_dir is None,
    {
        Opt {
            log_level: String::from_str("warn"),
            remote_runner: false,
            port: DEFAULT_PORT,
            target: None,
            filename: None,
            bind_address: String::from_str("127.0.0.1"),
            max_connections: 10,
            connect_timeout_secs: 10,
            read_timeout_secs: 30,
            write_timeout_secs: 30,
            keepalive_secs: 60,
            watch: false,
            file_dir: None,
        }
    }
}

/// How much is logged.
#[derive(Copy, Clone, PartialEq, Eq, Debug, Structural)]
pub enum LogLevel {
    Error,
    Warn,
    Info,
    Debug,
    Trace,
}

/// The level that a name stands for; a name that stands for none selects
/// `Warn`.
pub open spec fn spec_log_level(name: Seq<u8>) -> LogLevel {
    if name == "error".spec_bytes() {
        LogLevel::Error
    } else if name == "warn".spec_bytes() {
        LogLevel::Warn
    } else if name == "info".spec_bytes() {
        LogLevel::Info
    } else if name == "debug".spec_bytes() {
        LogLevel::Debug
    } else if name == "trace".spec_bytes() {
        LogLevel::Trace
    } else {
        LogLevel::Warn
    }
}

/// The level of verbosity that the option names.
pub fn log_level(name: &str) -> (r: LogLevel)
    ensures
        r == spec_log_level(name.spec_bytes()),
{
    let b = name.as_bytes();
    if same(b, "error".as_bytes()) {
        LogLevel::Error
    } else if same(b, "warn".as_bytes()) {
        LogLevel::Warn
    } else if same(b, "info".as_bytes()) {
        LogLevel::Info
    } else if same(b, "debug".as_bytes()) {
        LogLevel::Debug
    } else if same(b, "trace".as_bytes()) {
        LogLevel::Trace
    } else {
        LogLevel::Warn
    }
}

/// What the program runs as.
pub enum Mode {
    /// The Runner.
    Runner,
    /// The Host, connecting to this Runner.
    Host { target: String },
    /// The Host was asked for, but no Runner is named: the program cannot
    /// start.
    MissingTarget,
}

/// What the options make the program run as.
pub fn mode(remote_runner: bool, target: Option<String>) -> (m: Mode)
    ensures
        m == if remote_runner {
            Mode::Runner
        } else {
            match target {
                Some(t) => Mode::Host { target: t },
                None => Mode::MissingTarget,
            }
        },
{
    if remote_runner {
        return Mode::Runner;
    }
    match target {
        Some(t) => Mode::Host { target: t },
        None => Mode::MissingTarget,
    }
}

} // verus!
