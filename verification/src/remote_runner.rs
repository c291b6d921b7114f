//! The Runner's decisions: what to do with each message of a control
//! connection, what to clean up when a child is done, how to name and equip a
//! staged executable, and how many connections to serve at once.
//!
//! The program around the library owns the child process, its pipes and the
//! staged file. The context here records what exists, decides what must be
//! done, and is told how it went.

use crate::bytes::{same, to_vec};
use crate::codec::{deserialize_as, parse, Message, MessageView};
use crate::errno::{EINVAL, EIO};
use crate::message_stream::{MessageStream, State};
use crate::messages::{
    HandshakeReply, HandshakeRequest, LaunchExecutableReply, LaunchExecutableRequest,
    LibraryDataReply, Messages, StopExecutableReply, TextMessage, REMOTELINK_MAJOR_VERSION,
    REMOTELINK_MINOR_VERSION,
};
use crate::text::{concat2, concat3, decimal, decimal_string};
use vstd::prelude::*;
use vstd::string::*;
use vstd::utf8::encode_utf8;

verus! {

// ---------------------------------------------------------------------------
// Connections
// ---------------------------------------------------------------------------

/// Counts the connections being served against the most allowed.
pub struct ConnectionCounter {
    active: usize,
    max: usize,
}

/// What happens to the acceptor's count.
#[derive(Copy, Clone, PartialEq, Eq, Debug, Structural)]
pub enum ConnectionEvent {
    /// A connection came in.
    Incoming,
    /// A handler has ended.
    Closed,
}

/// The count after an event: a connection is taken on only below the
/// limit, and a handler that ends gives its place back.
pub open spec fn count_after(active: nat, max: nat, event: ConnectionEvent) -> nat {
    match event {
        ConnectionEvent::Incoming => if active < max {
            active + 1
        } else {
            active
        },
        ConnectionEvent::Closed => if active > 0 {
            (active - 1) as nat
        } else {
            active
        },
    }
}

/// The count after a run of events.
pub open spec fn count_after_all(active: nat, max: nat, events: Seq<ConnectionEvent>) -> nat
    decreases events.len(),
{
    if events.len() == 0 {
        active
    } else {
        count_after(count_after_all(active, max, events.drop_last()), max, events.last())
    }
}

/// The count never exceeds the limit: whatever connections come in and
/// whatever handlers end, in whatever order, a count that was within the
/// limit stays within it.
pub proof fn lemma_count_stays_within_limit(active: nat, max: nat, events: Seq<ConnectionEvent>)
    requires
        active <= max,
    ensures
        count_after_all(active, max, events) <= max,
    decreases events.len(),
{
    if events.len() > 0 {
        lemma_count_stays_within_limit(active, max, events.drop_last());
    }
}

impl ConnectionCounter {
    /// How many connections are being served.
    pub closed spec fn active(&self) -> nat {
        self.active as nat
    }

    /// How many connections may be served at once.
    pub closed spec fn limit(&self) -> nat {
        self.max as nat
    }

    /// The invariant: the count is within the limit.
    pub closed spec fn wf(&self) -> bool {
        self.active <= self.max
    }

    /// What the invariant says.
    pub proof fn lemma_within_limit(&self)
        requires
            self.wf(),
        ensures
            self.active() <= self.limit(),
    {
    }

    /// A counter with no connection and the limit given.
    pub fn new(max_connections: usize) -> (c: ConnectionCounter)
        ensures
            c.wf(),
            c.active() == 0,
            c.limit() == max_connections,
    {
        ConnectionCounter { active: 0, max: max_connections }
    }

    /// How many connections are being served.
    pub fn current(&self) -> (n: usize)
        requires
            self.wf(),
        ensures
            n == self.active(),
            n <= self.limit(),
    {
        self.active
    }

    /// A connection came in: it is taken on, and counted, unless the limit
    /// is reached; then it is to be closed at once.
    pub fn try_accept(&mut self) -> (accepted: bool)
        requires
            old(self).wf(),
        ensures
            final(self).wf(),
            final(self).limit() == old(self).limit(),
            accepted <==> old(self).active() < old(self).limit(),
            final(self).active() == count_after(
                old(self).active(),
                old(self).limit(),
                ConnectionEvent::Incoming,
            ),
            final(self).active() <= final(self).limit(),
    {
        if self.active >= self.max {
            false
        } else {
            self.active = self.active + 1;
            true
        }
    }

    /// A handler has ended. Gives back how many connections remain.
    pub fn release(&mut self) -> (remaining: usize)
        requires
            old(self).wf(),
        ensures
            final(self).wf(),
            final(self).limit() == old(self).limit(),
            remaining == final(self).active(),
            final(self).active() == count_after(
                old(self).active(),
                old(self).limit(),
                ConnectionEvent::Closed,
            ),
            final(self).active() <= final(self).limit(),
    {
        if self.active > 0 {
            self.active = self.active - 1;
        }
        self.active
    }
}

/// One step of the acceptor: a connection has come in, or a handler has
/// ended. A connection that comes in is served, and counted, only while the
/// count is below the limit; otherwise it is to be closed at once and the
/// count stays. A handler that ends gives its place back, once. Whatever
/// comes, in whatever order, the count stays within the limit.
pub fn update(counter: &mut ConnectionCounter, event: ConnectionEvent) -> (serve: bool)
    requires
        old(counter).wf(),
    ensures
        final(counter).wf(),
        final(counter).limit() == old(counter).limit(),
        final(counter).active() == count_after(old(counter).active(), old(counter).limit(), event),
        final(counter).active() <= final(counter).limit(),
        serve <==> (event is Incoming && old(counter).active() < old(counter).limit()),
{
    match event {
        ConnectionEvent::Incoming => counter.try_accept(),
        ConnectionEvent::Closed => {
            counter.release();
            false
        },
    }
}

/// The address to listen on: the bind address, a colon, the port.
pub fn listen_address(bind_address: &str, port: u16) -> (r: String)
    ensures
        r@ == bind_address@ + ":"@ + decimal(port as nat),
{
    let number = decimal_string(port as u64);
    concat3(bind_address, ":", number.as_str())
}

/// Whether the bind address is the one that listens on every interface, of
/// which the operator is warned.
pub fn binds_every_interface(bind_address: &str) -> (r: bool)
    ensures
        r == (bind_address.spec_bytes() == "0.0.0.0".spec_bytes()),
{
    same(bind_address.as_bytes(), "0.0.0.0".as_bytes())
}

// ---------------------------------------------------------------------------
// Staging
// ---------------------------------------------------------------------------

/// A lower-case hexadecimal digit.
pub open spec fn is_hex_lower(c: char) -> bool {
    ('0' <= c && c <= '9') || ('a' <= c && c <= 'f')
}

/// The hyphenated form of a UUID: 36 characters, hyphens at 8, 13, 18 and
/// 23, lower-case hexadecimal digits elsewhere.
pub open spec fn is_uuid_text(s: Seq<char>) -> bool {
    &&& s.len() == 36
    &&& forall|i: int|
        0 <= i < 36 ==> if i == 8 || i == 13 || i == 18 || i == 23 {
            #[trigger] s[i] == '-'
        } else {
            is_hex_lower(s[i])
        }
}

/// `uuid::Uuid::new_v4`, written out by `to_string`: a random UUID in
/// hyphenated lower-case form. Which UUID comes is chance; the contract
/// states the form only. The call panics when the system has no random
/// bytes to give.
#[verifier::external_body]
fn new_uuid_text() -> (out: String)
    ensures
        is_uuid_text(out@),
{
    uuid::Uuid::new_v4().to_string()
}

/// The file name of a staged executable for an identifier.
pub fn staged_name(id: &str) -> (r: String)
    ensures
        r@ == "remotelink-"@ + id@,
{
    concat2("remotelink-", id)
}

/// A fresh file name for a staged executable: the prefix and a random UUID.
pub fn fresh_staged_name() -> (r: String)
    ensures
        exists|id: Seq<char>| is_uuid_text(id) && r@ == "remotelink-"@ + id,
{
    let id = new_uuid_text();
    staged_name(id.as_str())
}

/// The endpoint of the Host's file service as the child's environment names
/// it: the Host's address, a colon, the file-service port.
pub fn file_server_endpoint(host_addr: &str) -> (r: String)
    ensures
        r@ == host_addr@ + ":8889"@,
{
    concat2(host_addr, ":8889")
}

/// The library search path for the child: the directory of the staged
/// executable, in front of the search path that the Runner itself has.
pub fn library_search_path(exe_dir: &str, existing: Option<&str>) -> (r: String)
    ensures
        r@ == match existing {
            Some(e) => exe_dir@ + ":"@ + e@,
            None => exe_dir@,
        },
{
    match existing {
        Some(e) => concat3(exe_dir, ":", e),
        None => String::from_str(exe_dir),
    }
}

/// Where the interposer library may be, in the order in which the places
/// are tried: beside the Runner's own executable if that place is known,
/// then the system's library directories, then the build outputs.
pub fn preload_candidates(beside_runner: Option<String>) -> (r: Vec<String>)
    ensures
        r@.len() == if beside_runner is Some {
            5int
        } else {
            4int
        },
        beside_runner matches Some(p) ==> r@[0] == p,
        ({
            let k = r@.len() - 4;
            &&& r@[k]@ == "/usr/local/lib/libremotelink_preload.so"@
            &&& r@[k + 1]@ == "/usr/lib/libremotelink_preload.so"@
            &&& r@[k + 2]@ == "./target/release/libremotelink_preload.so"@
            &&& r@[k + 3]@ == "./target/debug/libremotelink_preload.so"@
        }),
{
    let mut r: Vec<String> = Vec::new();
    match beside_runner {
        Some(p) => {
            r.push(p);
        },
        None => {},
    }
    r.push(String::from_str("/usr/local/lib/libremotelink_preload.so"));
    r.push(String::from_str("/usr/lib/libremotelink_preload.so"));
    r.push(String::from_str("./target/release/libremotelink_preload.so"));
    r.push(String::from_str("./target/debug/libremotelink_preload.so"));
    r
}

/// Whether a library name can be used as a file name: it is not empty,
/// holds no slash and no zero byte, and is neither `.` nor `..`.
pub open spec fn plain_name(name: Seq<u8>) -> bool {
    &&& name.len() > 0
    &&& forall|i: int| 0 <= i < name.len() ==> name[i] != 0x2fu8 && name[i] != 0u8
    &&& name != seq![0x2eu8]
    &&& name != seq![0x2eu8, 0x2eu8]
}

/// Whether a library can be stored under its name beside the staged
/// executables.
pub fn is_plain_name(name: &[u8]) -> (r: bool)
    ensures
        r == plain_name(name@),
{
    let n: usize = name.len();
    if n == 0 {
        return false;
    }
    if n == 1 && name[0] == 0x2e {
        assert(name@ =~= seq![0x2eu8]);
        return false;
    }
    if n == 2 && name[0] == 0x2e && name[1] == 0x2e {
        assert(name@ =~= seq![0x2eu8, 0x2eu8]);
        return false;
    }
    let mut i: usize = 0;
    while i < n
        invariant
            i <= n,
            n == name@.len(),
            forall|j: int| 0 <= j < i ==> name@[j] != 0x2fu8 && name@[j] != 0u8,
        decreases n - i,
    {
        if name[i] == 0x2f || name[i] == 0 {
            return false;
        }
        i = i + 1;
    }
    proof {
        if name@ == seq![0x2eu8] {
            assert(name@.len() == 1);
            assert(name@[0] == 0x2eu8);
        }
        if name@ == seq![0x2eu8, 0x2eu8] {
            assert(name@.len() == 2);
            assert(name@[0] == 0x2eu8 && name@[1] == 0x2eu8);
        }
    }
    true
}

// ---------------------------------------------------------------------------
// The child context
// ---------------------------------------------------------------------------

/// What must be undone when a child is done with.
#[derive(Clone, PartialEq, Eq, Debug)]
pub struct Cleanup {
    /// Kill the child if it still runs, and wait for it.
    pub stop_child: bool,
    /// Drop the queue of the child's standard output.
    pub close_stdout: bool,
    /// Drop the queue of the child's standard error.
    pub close_stderr: bool,
    /// Remove the staged executable at this path.
    pub remove_file: Option<String>,
}

/// What the Runner holds for the child of one connection.
pub struct Context {
    /// Whether a child process is held.
    running: bool,
    /// Whether the queue of the child's standard output is held.
    stdout_open: bool,
    /// Whether the queue of the child's standard error is held.
    stderr_open: bool,
    /// The path of the staged executable, if one is staged.
    temp_exe_path: Option<String>,
    /// The address of the Host, for the file service.
    host_addr: String,
}

/// Which of the child's streams a chunk of output comes from.
#[derive(Copy, Clone, PartialEq, Eq, Debug, Structural)]
pub enum OutputStream {
    Stdout,
    Stderr,
}

/// What the Runner does with a message.
pub enum RunnerStep {
    /// Send the reply and go on. `minor_mismatch` says that the Host has
    /// another minor version, which is worth a warning.
    Reply { reply: Message, minor_mismatch: bool },
    /// Carry out the cleanup, send the reply, and leave the connection's
    /// loop.
    Stop { cleanup: Cleanup, reply: Message },
    /// Carry out the cleanup of what was there before, then stage the
    /// executable under the file name and launch it.
    Launch { previous: Cleanup, request: LaunchExecutableRequest, file_name: String },
    /// Store the library beside the staged executables, then answer with
    /// `library_stored`.
    StoreLibrary { name: String, data: Vec<u8> },
    /// The message asks nothing of the Runner.
    Ignore,
}

/// Why a connection is ended.
#[derive(Copy, Clone, PartialEq, Eq, Debug, Structural)]
pub enum RunnerError {
    /// The Host speaks another major version.
    VersionMismatch { runner: u8, host: u8 },
    /// The handshake could not be read.
    MalformedHandshake,
}

impl Context {
    /// Whether a child process is held.
    pub closed spec fn holds_child(&self) -> bool {
        self.running
    }

    /// Whether the queue of the child's standard output is held.
    pub closed spec fn holds_stdout(&self) -> bool {
        self.stdout_open
    }

    /// Whether the queue of the child's standard error is held.
    pub closed spec fn holds_stderr(&self) -> bool {
        self.stderr_open
    }

    /// The path of the staged executable, if one is staged.
    pub closed spec fn staged_path(&self) -> Option<String> {
        self.temp_exe_path
    }

    /// The address of the Host.
    pub closed spec fn host(&self) -> Seq<char> {
        self.host_addr@
    }

    /// Nothing of a child is left: no process, no queues, no staged file.
    pub open spec fn is_clean(&self) -> bool {
        &&& !self.holds_child()
        &&& !self.holds_stdout()
        &&& !self.holds_stderr()
        &&& self.staged_path() is None
    }

    /// What a cleanup of this context undoes: all that it holds.
    pub open spec fn pending(&self) -> Cleanup {
        Cleanup {
            stop_child: self.holds_child(),
            close_stdout: self.holds_stdout(),
            close_stderr: self.holds_stderr(),
            remove_file: self.staged_path(),
        }
    }

    /// A context that holds nothing, for a connection from this Host.
    pub fn new(host_addr: String) -> (c: Context)
        ensures
            c.is_clean(),
            c.host() == host_addr@,
    {
        Context {
            running: false,
            stdout_open: false,
            stderr_open: false,
            temp_exe_path: None,
            host_addr,
        }
    }

    /// The address of the Host.
    pub fn host_addr(&self) -> (h: &String)
        ensures
            h@ == self.host(),
    {
        &self.host_addr
    }

    /// Whether a child process is held.
    pub fn has_child(&self) -> (r: bool)
        ensures
            r == self.holds_child(),
    {
        self.running
    }

    /// Whether there is no output to wait for, so that the loop may sleep.
    pub fn is_idle(&self) -> (r: bool)
        ensures
            r == (!self.holds_stdout() && !self.holds_stderr()),
    {
        !self.stdout_open && !self.stderr_open
    }

    /// Gives up all that the context holds and says what must be undone.
    /// A second cleanup finds nothing to undo.
    pub fn cleanup(&mut self) -> (undo: Cleanup)
        ensures
            undo == old(self).pending(),
            final(self).is_clean(),
            final(self).host() == old(self).host(),
    {
        let undo = Cleanup {
            stop_child: self.running,
            close_stdout: self.stdout_open,
            close_stderr: self.stderr_open,
            remove_file: self.temp_exe_path.take(),
        };
        self.running = false;
        self.stdout_open = false;
        self.stderr_open = false;
        undo
    }

    /// The connection is gone: everything is cleaned up.
    pub fn disconnected(&mut self) -> (undo: Cleanup)
        ensures
            undo == old(self).pending(),
            final(self).is_clean(),
            final(self).host() == old(self).host(),
    {
        self.cleanup()
    }

    /// The executable is about to be written to `path`. From here on a
    /// cleanup removes that file.
    pub fn staged(&mut self, path: String)
        ensures
            final(self).staged_path() == Some(path),
            final(self).holds_child() == old(self).holds_child(),
            final(self).holds_stdout() == old(self).holds_stdout(),
            final(self).holds_stderr() == old(self).holds_stderr(),
            final(self).host() == old(self).host(),
    {
        self.temp_exe_path = Some(path);
    }

    /// The launch was attempted. When the child runs, the context holds it
    /// and its two queues, and nothing is sent yet: the reply follows when
    /// the child exits. When it could not be started, what was staged is
    /// cleaned up and the failure is reported.
    pub fn launched(&mut self, spawned: bool) -> (r: Option<(Message, Cleanup)>)
        ensures
            final(self).host() == old(self).host(),
            spawned ==> {
                &&& r is None
                &&& final(self).holds_child()
                &&& final(self).holds_stdout()
                &&& final(self).holds_stderr()
                &&& final(self).staged_path() == old(self).staged_path()
            },
            !spawned ==> {
                &&& final(self).is_clean()
                &&& r matches Some((reply, undo)) && undo == old(self).pending()
                    && reply@ == (MessageView::LaunchExecutableReply {
                    launch_status: -1i32,
                    error_info: Some("Failed to launch executable"@),
                })
            },
    {
        if spawned {
            self.running = true;
            self.stdout_open = true;
            self.stderr_open = true;
            None
        } else {
            let undo = self.cleanup();
            let reply = Message::LaunchExecutableReply(
                LaunchExecutableReply {
                    launch_status: -1,
                    error_info: Some(String::from_str("Failed to launch executable")),
                },
            );
            Some((reply, undo))
        }
    }

    /// The child has exited with this status, or without one when a signal
    /// ended it. The reply carries the status, -1 if there is none; then
    /// everything is cleaned up. `exit_messages` puts the reply behind the
    /// output that is still queued.
    pub fn child_exited(&mut self, code: Option<i32>) -> (r: (Message, Cleanup))
        ensures
            final(self).is_clean(),
            final(self).host() == old(self).host(),
            r.1 == old(self).pending(),
            r.0@ == exit_reply_view(code),
    {
        let launch_status: i32 = match code {
            Some(c) => c,
            None => -1,
        };
        let reply = Message::LaunchExecutableReply(
            LaunchExecutableReply { launch_status, error_info: None },
        );
        let undo = self.cleanup();
        (reply, undo)
    }

    /// The child has exited and these chunks of its output are still
    /// queued. Gives the messages to send, in the order in which they go
    /// out: the chunks of standard output in the order the child produced
    /// them, then those of standard error, and last of all the reply that
    /// carries the exit status. Empty chunks are left out. Then everything is
    /// cleaned up.
    pub fn exit_messages(
        &mut self,
        stdout_left: Vec<Vec<u8>>,
        stderr_left: Vec<Vec<u8>>,
        code: Option<i32>,
    ) -> (r: (Vec<Message>, Cleanup))
        ensures
            final(self).is_clean(),
            final(self).host() == old(self).host(),
            r.1 == old(self).pending(),
            messages_view(r.0@) == output_views(stdout_left@, OutputStream::Stdout) + output_views(
                stderr_left@,
                OutputStream::Stderr,
            ) + seq![exit_reply_view(code)],
    {
        let mut messages: Vec<Message> = Vec::new();
        assert(messages_view(messages@) =~= Seq::<MessageView>::empty());
        append_outputs(&mut messages, &stdout_left, OutputStream::Stdout);
        append_outputs(&mut messages, &stderr_left, OutputStream::Stderr);
        let ghost before = messages_view(messages@);
        let (reply, undo) = self.child_exited(code);
        messages.push(reply);
        assert(messages_view(messages@) =~= before + seq![exit_reply_view(code)]);
        (messages, undo)
    }

    /// Handles a message of the control connection.
    ///
    /// A handshake is answered with the Runner's version; another major
    /// version, or a handshake that cannot be read, ends the connection. A
    /// stop request cleans up and is confirmed. A launch request that can be
    /// read cleans up what was there and is handed on for staging; one that
    /// cannot be read is answered with status -1. A library whose name can
    /// serve as a file name is handed on for storing; any other, and one that
    /// cannot be read, is answered with `EINVAL`. Every other message is
    /// passed over.
    pub fn handle_incoming_msg(&mut self, message: Messages, payload: &[u8]) -> (r: Result<
        RunnerStep,
        RunnerError,
    >)
        ensures
            final(self).host() == old(self).host(),
            match message {
                Messages::HandshakeRequest => {
                    &&& *final(self) == *old(self)
                    &&& match parse(message, payload@) {
                        Some(MessageView::HandshakeRequest(q)) => if q.version_major
                            != REMOTELINK_MAJOR_VERSION {
                            r == Err::<RunnerStep, RunnerError>(
                                RunnerError::VersionMismatch {
                                    runner: REMOTELINK_MAJOR_VERSION,
                                    host: q.version_major,
                                },
                            )
                        } else {
                            r matches Ok(RunnerStep::Reply { reply, minor_mismatch })
                                && minor_mismatch == (q.version_minor != REMOTELINK_MINOR_VERSION)
                                && reply == Message::HandshakeReply(
                                HandshakeReply {
                                    version_major: REMOTELINK_MAJOR_VERSION,
                                    version_minor: REMOTELINK_MINOR_VERSION,
                                },
                            )
                        },
                        _ => r == Err::<RunnerStep, RunnerError>(RunnerError::MalformedHandshake),
                    }
                },
                Messages::StopExecutableRequest => {
                    &&& final(self).is_clean()
                    &&& r matches Ok(RunnerStep::Stop { cleanup, reply }) && cleanup == old(
                        self,
                    ).pending() && reply == Message::StopExecutableReply(
                        StopExecutableReply { dummy: 0 },
                    )
                },
                Messages::LaunchExecutableRequest => match parse(message, payload@) {
                    Some(v) => {
                        &&& final(self).is_clean()
                        &&& r matches Ok(RunnerStep::Launch { previous, request, file_name })
                            && previous == old(self).pending() && Message::LaunchExecutableRequest(
                            request,
                        )@ == v && exists|id: Seq<char>|
                            is_uuid_text(id) && file_name@ == "remotelink-"@ + id
                    },
                    None => {
                        &&& *final(self) == *old(self)
                        &&& r matches Ok(RunnerStep::Reply { reply, minor_mismatch })
                            && !minor_mismatch && reply@ == (MessageView::LaunchExecutableReply {
                            launch_status: -1i32,
                            error_info: Some("Invalid message format"@),
                        })
                    },
                },
                Messages::LibraryDataRequest => {
                    &&& *final(self) == *old(self)
                    &&& match parse(message, payload@) {
                        Some(MessageView::LibraryDataRequest { name: wanted, data: bytes }) => if plain_name(
                            encode_utf8(wanted),
                        ) {
                            r matches Ok(RunnerStep::StoreLibrary { name, data }) && name@ == wanted
                                && data@ == bytes
                        } else {
                            r matches Ok(RunnerStep::Reply { reply, minor_mismatch })
                                && !minor_mismatch && reply == Message::LibraryDataReply(
                                LibraryDataReply { error: EINVAL },
                            )
                        },
                        _ => r matches Ok(RunnerStep::Reply { reply, minor_mismatch })
                            && !minor_mismatch && reply == Message::LibraryDataReply(
                            LibraryDataReply { error: EINVAL },
                        ),
                    }
                },
                _ => *final(self) == *old(self) && r matches Ok(RunnerStep::Ignore),
            },
    {
        match message {
            Messages::HandshakeRequest => {
                match deserialize_as(message, payload) {
                    Ok(Message::HandshakeRequest(q)) => {
                        if q.version_major != REMOTELINK_MAJOR_VERSION {
                            Err(
                                RunnerError::VersionMismatch {
                                    runner: REMOTELINK_MAJOR_VERSION,
                                    host: q.version_major,
                                },
                            )
                        } else {
                            Ok(
                                RunnerStep::Reply {
                                    reply: Message::HandshakeReply(
                                        HandshakeReply {
                                            version_major: REMOTELINK_MAJOR_VERSION,
                                            version_minor: REMOTELINK_MINOR_VERSION,
                                        },
                                    ),
                                    minor_mismatch: q.version_minor != REMOTELINK_MINOR_VERSION,
                                },
                            )
                        }
                    },
                    _ => Err(RunnerError::MalformedHandshake),
                }
            },
            Messages::StopExecutableRequest => {
                let cleanup = self.cleanup();
                Ok(
                    RunnerStep::Stop {
                        cleanup,
                        reply: Message::StopExecutableReply(StopExecutableReply { dummy: 0 }),
                    },
                )
            },
            Messages::LaunchExecutableRequest => {
                match deserialize_as(message, payload) {
                    Ok(Message::LaunchExecutableRequest(request)) => {
                        let previous = self.cleanup();
                        let file_name = fresh_staged_name();
                        Ok(RunnerStep::Launch { previous, request, file_name })
                    },
                    _ => Ok(
                        RunnerStep::Reply {
                            reply: Message::LaunchExecutableReply(
                                LaunchExecutableReply {
                                    launch_status: -1,
                                    error_info: Some(String::from_str("Invalid message format")),
                                },
                            ),
                            minor_mismatch: false,
                        },
                    ),
                }
            },
            Messages::LibraryDataRequest => {
                match deserialize_as(message, payload) {
                    Ok(Message::LibraryDataRequest(q)) => {
                        if is_plain_name(q.name.as_str().as_bytes()) {
                            Ok(RunnerStep::StoreLibrary { name: q.name, data: q.data })
                        } else {
                            Ok(
                                RunnerStep::Reply {
                                    reply: Message::LibraryDataReply(
                                        LibraryDataReply { error: EINVAL },
                                    ),
                                    minor_mismatch: false,
                                },
                            )
                        }
                    },
                    _ => Ok(
                        RunnerStep::Reply {
                            reply: Message::LibraryDataReply(LibraryDataReply { error: EINVAL }),
                            minor_mismatch: false,
                        },
                    ),
                }
            },
            _ => Ok(RunnerStep::Ignore),
        }
    }
}

/// The reply to a library that was handed on for storing: 0 when it was
/// stored, `EIO` when it was not.
pub fn library_stored(stored: bool) -> (reply: Message)
    ensures
        reply == Message::LibraryDataReply(
            LibraryDataReply {
                error: if stored {
                    0
                } else {
                    EIO
                },
            },
        ),
{
    let error: i32 = if stored {
        0
    } else {
        EIO
    };
    Message::LibraryDataReply(LibraryDataReply { error })
}

/// The message for a chunk of the child's output; an empty chunk has none.
pub open spec fn output_message(data: Vec<u8>, stream: OutputStream) -> Option<Message> {
    if data@.len() == 0 {
        None
    } else {
        Some(
            match stream {
                OutputStream::Stdout => Message::StdoutOutput(TextMessage { data }),
                OutputStream::Stderr => Message::StderrOutput(TextMessage { data }),
            },
        )
    }
}

/// What the message of a chunk holds.
pub open spec fn output_view(data: Seq<u8>, stream: OutputStream) -> MessageView {
    match stream {
        OutputStream::Stdout => MessageView::StdoutOutput { data },
        OutputStream::Stderr => MessageView::StderrOutput { data },
    }
}

/// What the messages of some chunks hold, in the order of the chunks; empty
/// chunks have no message.
pub open spec fn output_views(chunks: Seq<Vec<u8>>, stream: OutputStream) -> Seq<MessageView>
    decreases chunks.len(),
{
    if chunks.len() == 0 {
        Seq::empty()
    } else if chunks.last()@.len() == 0 {
        output_views(chunks.drop_last(), stream)
    } else {
        output_views(chunks.drop_last(), stream).push(output_view(chunks.last()@, stream))
    }
}

/// What the messages of a list hold, in order.
pub open spec fn messages_view(messages: Seq<Message>) -> Seq<MessageView> {
    Seq::new(messages.len(), |i: int| messages[i]@)
}

/// What the reply to a launch holds when the child has exited: the exit
/// status, or -1 when a signal ended the child, and no reason.
pub open spec fn exit_reply_view(code: Option<i32>) -> MessageView {
    MessageView::LaunchExecutableReply {
        launch_status: match code {
            Some(c) => c,
            None => -1i32,
        },
        error_info: None,
    }
}

/// Appends the messages of some chunks, in the order of the chunks.
fn append_outputs(out: &mut Vec<Message>, chunks: &Vec<Vec<u8>>, stream: OutputStream)
    ensures
        messages_view(final(out)@) == messages_view(old(out)@) + output_views(chunks@, stream),
{
    let ghost start = messages_view(out@);
    let mut k: usize = 0;
    assert(chunks@.subrange(0, 0) =~= Seq::<Vec<u8>>::empty());
    assert(messages_view(out@) =~= start + output_views(chunks@.subrange(0, 0), stream));
    while k < chunks.len()
        invariant
            k <= chunks.len(),
            messages_view(out@) == start + output_views(chunks@.subrange(0, k as int), stream),
        decreases chunks.len() - k,
    {
        let ghost before = messages_view(out@);
        proof {
            let upto = chunks@.subrange(0, k + 1);
            assert(upto.drop_last() =~= chunks@.subrange(0, k as int));
            assert(upto.last() == chunks@[k as int]);
        }
        match send_output(to_vec(chunks[k].as_slice()), stream) {
            Some(message) => {
                out.push(message);
                assert(messages_view(out@) =~= before.push(output_view(chunks@[k as int]@, stream)));
            },
            None => {},
        }
        k = k + 1;
    }
    assert(chunks@.subrange(0, chunks@.len() as int) =~= chunks@);
}

/// Takes the next chunk of output from its queue when the engine can take a
/// message: when nothing is in flight. While the engine is busy, and while
/// the queue is empty, nothing leaves the queue. A chunk that leaves the
/// queue is the first one, and what is returned is its message, so that no
/// chunk is lost and none overtakes another.
pub fn next_output(engine: &MessageStream, queue: &mut Vec<Vec<u8>>, stream: OutputStream) -> (r:
    Option<Message>)
    ensures
        !(engine.spec_state() is Complete) || old(queue)@.len() == 0 ==> r is None && final(queue)@
            == old(queue)@,
        engine.spec_state() is Complete && old(queue)@.len() > 0 ==> final(queue)@ == old(
            queue,
        )@.skip(1) && r == output_message(old(queue)@[0], stream),
{
    match engine.state() {
        State::Complete => {},
        _ => {
            return None;
        },
    }
    if queue.len() == 0 {
        return None;
    }
    let chunk = queue.remove(0);
    assert(queue@ =~= old(queue)@.skip(1));
    send_output(chunk, stream)
}

/// The message for a chunk of the child's output; an empty chunk is not
/// sent.
pub fn send_output(data: Vec<u8>, stream: OutputStream) -> (r: Option<Message>)
    ensures
        r == output_message(data, stream),
        r matches Some(m) ==> m@ == output_view(data@, stream),
{
    if data.len() == 0 {
        return None;
    }
    match stream {
        OutputStream::Stdout => Some(Message::StdoutOutput(TextMessage { data })),
        OutputStream::Stderr => Some(Message::StderrOutput(TextMessage { data })),
    }
}

} // verus!
