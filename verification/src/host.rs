//! The Host's decisions: the handshake, what to do with each message from
//! the Runner, what to send for a binary and its libraries, and how long to
//! wait for a stop to be confirmed.

use crate::codec::{deserialize_as, parse, Message, MessageView};
use crate::messages::{
    HandshakeRequest, LaunchExecutableRequest, LibraryDataRequest, Messages, StopExecutableRequest,
    REMOTELINK_MAJOR_VERSION, REMOTELINK_MINOR_VERSION,
};
use crate::wire::text_of_bytes;
use vstd::prelude::*;
use vstd::string::*;
use vstd::utf8::{decode_utf8, valid_utf8};

verus! {

/// How long the Host waits for a stop to be confirmed before it sends a
/// rebuilt binary, in milliseconds.
pub const RESTART_STOP_TIMEOUT_MS: u32 = 5000;

/// How long the Host sleeps between two looks for the confirmation while it
/// restarts, in milliseconds.
pub const RESTART_POLL_MS: u32 = 10;

/// How long the Host waits for a stop to be confirmed when it was
/// interrupted, in milliseconds.
pub const SHUTDOWN_STOP_TIMEOUT_MS: u32 = 30;

/// How long the Host sleeps between two looks for the confirmation while it
/// shuts down, in milliseconds.
pub const SHUTDOWN_POLL_MS: u32 = 1;

/// Why the Host gives up a connection.
#[derive(Copy, Clone, PartialEq, Eq, Debug, Structural)]
pub enum HostError {
    /// No message came where one was due.
    NoReply,
    /// Another message came than the one that was due.
    UnexpectedMessage(Messages),
    /// A payload could not be read.
    MalformedPayload,
    /// The child's output is not UTF-8 text.
    InvalidText,
    /// The Runner speaks another major version.
    VersionMismatch { host: u8, runner: u8 },
}

/// What the Host shows for a message.
pub enum HostAction {
    /// Write the text to standard output and flush.
    PrintStdout(String),
    /// Write the text to standard error and flush.
    PrintStderr(String),
    /// The executable could not be launched, for this reason.
    ReportLaunchFailure(String),
    /// The process has exited with this status.
    ReportExit(i32),
    /// The Runner has confirmed a stop.
    StopAcknowledged,
    Nothing,
}

/// How the Host goes on after a message.
#[derive(Copy, Clone, PartialEq, Eq, Debug, Structural)]
pub enum HostNext {
    /// Arm the next read and go on, with the remote process running or not.
    Continue { running: bool },
    /// Leave the loop: the remote execution is complete.
    Exit,
}

/// What the Host does with a message: what to show, and how to go on.
pub struct HostStep {
    pub action: HostAction,
    pub next: HostNext,
}

/// The handshake that the Host opens a connection with.
pub fn handshake_request() -> (m: Message)
    ensures
        m == Message::HandshakeRequest(
            HandshakeRequest {
                version_major: REMOTELINK_MAJOR_VERSION,
                version_minor: REMOTELINK_MINOR_VERSION,
            },
        ),
{
    Message::HandshakeRequest(
        HandshakeRequest {
            version_major: REMOTELINK_MAJOR_VERSION,
            version_minor: REMOTELINK_MINOR_VERSION,
        },
    )
}

/// What answering a handshake comes to.
pub open spec fn spec_handshake(received: Option<Messages>, payload: Seq<u8>) -> Result<
    bool,
    HostError,
> {
    match received {
        None => Err(HostError::NoReply),
        Some(kind) => if kind != Messages::HandshakeReply {
            Err(HostError::UnexpectedMessage(kind))
        } else {
            match parse(kind, payload) {
                Some(MessageView::HandshakeReply(r)) => if r.version_major
                    != REMOTELINK_MAJOR_VERSION {
                    Err(
                        HostError::VersionMismatch {
                            host: REMOTELINK_MAJOR_VERSION,
                            runner: r.version_major,
                        },
                    )
                } else {
                    Ok(r.version_minor != REMOTELINK_MINOR_VERSION)
                },
                _ => Err(HostError::MalformedPayload),
            }
        },
    }
}

/// Checks the answer to the handshake: it must be a handshake reply with
/// the Host's major version. `Ok(true)` says that the minor versions
/// differ, which is worth a warning.
pub fn handshake(received: Option<Messages>, payload: &[u8]) -> (r: Result<bool, HostError>)
    ensures
        r == spec_handshake(received, payload@),
{
    let kind = match received {
        Some(k) => k,
        None => {
            return Err(HostError::NoReply);
        },
    };
    match kind {
        Messages::HandshakeReply => {},
        _ => {
            return Err(HostError::UnexpectedMessage(kind));
        },
    }
    match deserialize_as(kind, payload) {
        Ok(Message::HandshakeReply(reply)) => {
            if reply.version_major != REMOTELINK_MAJOR_VERSION {
                Err(
                    HostError::VersionMismatch {
                        host: REMOTELINK_MAJOR_VERSION,
                        runner: reply.version_major,
                    },
                )
            } else {
                Ok(reply.version_minor != REMOTELINK_MINOR_VERSION)
            }
        },
        _ => Err(HostError::MalformedPayload),
    }
}

/// How the Host goes on when the remote process is no longer running: in
/// watch mode it waits for the next change of the binary, else it is done.
pub open spec fn after_process_ended(watch_mode: bool) -> HostNext {
    if watch_mode {
        HostNext::Continue { running: false }
    } else {
        HostNext::Exit
    }
}

/// What handling a message from the Runner comes to.
pub open spec fn handled(
    message: Messages,
    payload: Seq<u8>,
    watch_mode: bool,
    r: Result<HostStep, HostError>,
) -> bool {
    match message {
        Messages::StdoutOutput => match parse(message, payload) {
            Some(MessageView::StdoutOutput { data }) => if valid_utf8(data) {
                r matches Ok(step) && step.next == (HostNext::Continue { running: true }) && (
                step.action matches HostAction::PrintStdout(text) && text@ == decode_utf8(data))
            } else {
                r matches Err(HostError::InvalidText)
            },
            _ => r matches Err(HostError::MalformedPayload),
        },
        Messages::StderrOutput => match parse(message, payload) {
            Some(MessageView::StderrOutput { data }) => if valid_utf8(data) {
                r matches Ok(step) && step.next == (HostNext::Continue { running: true }) && (
                step.action matches HostAction::PrintStderr(text) && text@ == decode_utf8(data))
            } else {
                r matches Err(HostError::InvalidText)
            },
            _ => r matches Err(HostError::MalformedPayload),
        },
        Messages::LaunchExecutableReply => match parse(message, payload) {
            Some(MessageView::LaunchExecutableReply { launch_status, error_info }) => {
                &&& r matches Ok(step) && step.next == after_process_ended(watch_mode)
                    && match error_info {
                    Some(reason) => if launch_status == -1 {
                        step.action matches HostAction::ReportLaunchFailure(text) && text@
                            == reason
                    } else {
                        step.action matches HostAction::ReportExit(status) && status
                            == launch_status
                    },
                    None => step.action matches HostAction::ReportExit(status) && status
                        == launch_status,
                }
            },
            _ => r matches Err(HostError::MalformedPayload),
        },
        Messages::StopExecutableReply => r matches Ok(step) && step.next == (
        HostNext::Continue { running: true }) && step.action is StopAcknowledged,
        _ => r matches Ok(step) && step.next == (HostNext::Continue { running: true })
            && step.action is Nothing,
    }
}

/// Handles a message from the Runner.
///
/// Output of the child is shown on the stream it came from. The reply to a
/// launch ends the remote process: status -1 with a reason says that it
/// never started, anything else is its exit status. Every other message
/// leaves things as they are. Output that is not UTF-8 and payloads that
/// cannot be read are errors.
pub fn handle_incoming_msg(message: Messages, payload: &[u8], watch_mode: bool) -> (r: Result<
    HostStep,
    HostError,
>)
    ensures
        handled(message, payload@, watch_mode, r),
{
    match message {
        Messages::StdoutOutput => {
            match deserialize_as(message, payload) {
                Ok(Message::StdoutOutput(m)) => match text_of_bytes(m.data) {
                    Some(text) => Ok(
                        HostStep {
                            action: HostAction::PrintStdout(text),
                            next: HostNext::Continue { running: true },
                        },
                    ),
                    None => Err(HostError::InvalidText),
                },
                _ => Err(HostError::MalformedPayload),
            }
        },
        Messages::StderrOutput => {
            match deserialize_as(message, payload) {
                Ok(Message::StderrOutput(m)) => match text_of_bytes(m.data) {
                    Some(text) => Ok(
                        HostStep {
                            action: HostAction::PrintStderr(text),
                            next: HostNext::Continue { running: true },
                        },
                    ),
                    None => Err(HostError::InvalidText),
                },
                _ => Err(HostError::MalformedPayload),
            }
        },
        Messages::LaunchExecutableReply => {
            match deserialize_as(message, payload) {
                Ok(Message::LaunchExecutableReply(reply)) => {
                    let next = if watch_mode {
                        HostNext::Continue { running: false }
                    } else {
                        HostNext::Exit
                    };
                    let action = match reply.error_info {
                        Some(reason) => {
                            if reply.launch_status == -1 {
                                HostAction::ReportLaunchFailure(reason)
                            } else {
                                HostAction::ReportExit(reply.launch_status)
                            }
                        },
                        None => HostAction::ReportExit(reply.launch_status),
                    };
                    Ok(HostStep { action, next })
                },
                _ => Err(HostError::MalformedPayload),
            }
        },
        Messages::StopExecutableReply => Ok(
            HostStep {
                action: HostAction::StopAcknowledged,
                next: HostNext::Continue { running: true },
            },
        ),
        _ => Ok(HostStep { action: HostAction::Nothing, next: HostNext::Continue { running: true } }),
    }
}

/// Takes in what an update of the stream engine brought: a message is
/// handled, anything else changes nothing. `Ok(None)` says that there was no
/// message.
pub fn process_messages(received: Option<Messages>, payload: &[u8], watch_mode: bool) -> (r: Result<
    Option<HostStep>,
    HostError,
>)
    ensures
        match received {
            None => r matches Ok(None),
            Some(message) => match r {
                Ok(Some(step)) => handled(
                    message,
                    payload@,
                    watch_mode,
                    Ok::<HostStep, HostError>(step),
                ),
                Ok(None) => false,
                Err(e) => handled(message, payload@, watch_mode, Err::<HostStep, HostError>(e)),
            },
        },
{
    match received {
        Some(message) => match handle_incoming_msg(message, payload, watch_mode) {
            Ok(step) => Ok(Some(step)),
            Err(e) => Err(e),
        },
        None => Ok(None),
    }
}

/// The message that carries a library to the Runner.
pub fn library_message(name: String, data: Vec<u8>) -> (m: Message)
    ensures
        m == Message::LibraryDataRequest(LibraryDataRequest { name, data }),
{
    Message::LibraryDataRequest(LibraryDataRequest { name, data })
}

/// The message that carries the executable to the Runner.
pub fn launch_message(file_server: bool, path: String, data: Vec<u8>) -> (m: Message)
    ensures
        m == Message::LaunchExecutableRequest(LaunchExecutableRequest { file_server, path, data }),
{
    Message::LaunchExecutableRequest(LaunchExecutableRequest { file_server, path, data })
}

/// The message that asks the Runner to stop the child.
pub fn stop_message() -> (m: Message)
    ensures
        m == Message::StopExecutableRequest(StopExecutableRequest { dummy: 0 }),
{
    Message::StopExecutableRequest(StopExecutableRequest { dummy: 0 })
}

/// Checks the message that answers a library: it must be a library reply.
/// Gives back the error number of the reply, which is 0 when the library
/// was stored.
pub fn library_reply(message: Messages, payload: &[u8]) -> (r: Result<i32, HostError>)
    ensures
        r == if message != Messages::LibraryDataReply {
            Err::<i32, HostError>(HostError::UnexpectedMessage(message))
        } else {
            match parse(message, payload@) {
                Some(MessageView::LibraryDataReply(p)) => Ok::<i32, HostError>(p.error),
                _ => Err::<i32, HostError>(HostError::MalformedPayload),
            }
        },
{
    match message {
        Messages::LibraryDataReply => {},
        _ => {
            return Err(HostError::UnexpectedMessage(message));
        },
    }
    match deserialize_as(message, payload) {
        Ok(Message::LibraryDataReply(p)) => Ok(p.error),
        _ => Err(HostError::MalformedPayload),
    }
}

/// What one look for the confirmation of a stop comes to.
#[derive(Copy, Clone, PartialEq, Eq, Debug, Structural)]
pub enum StopPoll {
    /// The Runner has confirmed.
    Confirmed,
    /// Sleep this many milliseconds and look again.
    Sleep(u32),
    /// The time is up: go on without the confirmation.
    GiveUp,
}

/// Waits for the confirmation of a stop, for a limited time.
pub struct StopWait {
    waited_ms: u32,
    timeout_ms: u32,
    step_ms: u32,
}

impl StopWait {
    /// How long the wait has lasted, in milliseconds.
    pub closed spec fn waited(&self) -> nat {
        self.waited_ms as nat
    }

    /// How long the wait may last, in milliseconds.
    pub closed spec fn timeout(&self) -> nat {
        self.timeout_ms as nat
    }

    /// How long the Host sleeps between two looks, in milliseconds.
    pub closed spec fn step(&self) -> nat {
        self.step_ms as nat
    }

    /// A wait of at most `timeout_ms`, looking every `step_ms`.
    pub fn new(timeout_ms: u32, step_ms: u32) -> (w: StopWait)
        ensures
            w.waited() == 0,
            w.timeout() == timeout_ms,
            w.step() == step_ms,
    {
        StopWait { waited_ms: 0, timeout_ms, step_ms }
    }

    /// The wait before a rebuilt binary is sent: five seconds, looking
    /// every ten milliseconds.
    pub fn for_restart() -> (w: StopWait)
        ensures
            w.waited() == 0,
            w.timeout() == RESTART_STOP_TIMEOUT_MS,
            w.step() == RESTART_POLL_MS,
    {
        StopWait::new(RESTART_STOP_TIMEOUT_MS, RESTART_POLL_MS)
    }

    /// The wait when the Host was interrupted: thirty milliseconds, looking
    /// every millisecond.
    pub fn for_shutdown() -> (w: StopWait)
        ensures
            w.waited() == 0,
            w.timeout() == SHUTDOWN_STOP_TIMEOUT_MS,
            w.step() == SHUTDOWN_POLL_MS,
    {
        StopWait::new(SHUTDOWN_STOP_TIMEOUT_MS, SHUTDOWN_POLL_MS)
    }

    /// One look: `received` is the message that the engine reported, if
    /// any. The confirmation ends the wait; any other message is passed
    /// over. Without it the wait goes on until the time waited reaches the
    /// timeout.
    pub fn poll(&mut self, received: Option<Messages>) -> (r: StopPoll)
        ensures
            final(self).timeout() == old(self).timeout(),
            final(self).step() == old(self).step(),
            received == Some(Messages::StopExecutableReply) ==> r == StopPoll::Confirmed
                && final(self).waited() == old(self).waited(),
            received != Some(Messages::StopExecutableReply) ==> {
                let waited = old(self).waited() + old(self).step();
                &&& final(self).waited() == if waited <= u32::MAX {
                    waited
                } else {
                    u32::MAX as nat
                }
                &&& r == if final(self).waited() < old(self).timeout() && old(self).step() > 0 {
                    StopPoll::Sleep(old(self).step() as u32)
                } else {
                    StopPoll::GiveUp
                }
            },
    {
        match received {
            Some(Messages::StopExecutableReply) => {
                return StopPoll::Confirmed;
            },
            _ => {},
        }
        self.waited_ms = if self.step_ms <= u32::MAX - self.waited_ms {
            self.waited_ms + self.step_ms
        } else {
            u32::MAX
        };
        if self.waited_ms < self.timeout_ms && self.step_ms > 0 {
            StopPoll::Sleep(self.step_ms)
        } else {
            StopPoll::GiveUp
        }
    }
}

/// What the watcher reported.
#[derive(Copy, Clone, PartialEq, Eq, Debug, Structural)]
pub enum WatchReport {
    NoChange,
    ChangedAndStable,
    Failed,
}

/// What the Host does with a report of the watcher.
#[derive(Copy, Clone, PartialEq, Eq, Debug, Structural)]
pub enum WatchStep {
    /// Nothing has changed: go on.
    Nothing,
    /// Send the rebuilt binary; stop the running process first if
    /// `stop_first` says so.
    Restart { stop_first: bool },
    /// The watcher has failed: go on without watching.
    DisableWatching,
}

/// Decides what to do with a report of the watcher.
pub fn handle_file_change(report: WatchReport, process_running: bool) -> (r: WatchStep)
    ensures
        r == match report {
            WatchReport::NoChange => WatchStep::Nothing,
            WatchReport::ChangedAndStable => WatchStep::Restart { stop_first: process_running },
            WatchReport::Failed => WatchStep::DisableWatching,
        },
{
    match report {
        WatchReport::NoChange => WatchStep::Nothing,
        WatchReport::ChangedAndStable => WatchStep::Restart { stop_first: process_running },
        WatchReport::Failed => WatchStep::DisableWatching,
    }
}

/// Whether and what to watch.
pub enum WatchSetup {
    /// Watching was not asked for.
    Off,
    /// Watching was asked for, but there is no file to watch.
    MissingFilename,
    /// Watch this file.
    Watch(String),
}

/// Decides whether and what to watch from the options.
pub fn setup_file_watcher(watch: bool, filename: Option<String>) -> (r: WatchSetup)
    ensures
        r == if !watch {
            WatchSetup::Off
        } else {
            match filename {
                Some(f) => WatchSetup::Watch(f),
                None => WatchSetup::MissingFilename,
            }
        },
{
    if !watch {
        return WatchSetup::Off;
    }
    match filename {
        Some(f) => WatchSetup::Watch(f),
        None => WatchSetup::MissingFilename,
    }
}

} // verus!
