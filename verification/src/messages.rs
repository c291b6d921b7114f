//! Message type tags and the payload of each message kind.

use crate::text::{concat2, decimal, decimal_string};
use vstd::prelude::*;
use vstd::string::*;

verus! {

/// Protocol major version; a peer with another major version is refused.
pub const REMOTELINK_MAJOR_VERSION: u8 = 0;

/// Protocol minor version; a difference is only reported.
pub const REMOTELINK_MINOR_VERSION: u8 = 1;

/// The one-byte type tag that opens every frame. The variants are declared in
/// tag order, so the position of a variant is its value on the wire.
#[derive(Copy, Clone, PartialEq, Eq, Debug, Structural)]
pub enum Messages {
    HandshakeRequest,
    HandshakeReply,
    LaunchExecutableRequest,
    LaunchExecutableReply,
    StopExecutableRequest,
    StopExecutableReply,
    StdoutOutput,
    StderrOutput,
    /// Reserved tag: no payload is defined for it.
    NoMessage,
    FileOpenRequest,
    FileOpenReply,
    FileReadRequest,
    FileReadReply,
    FileCloseRequest,
    FileCloseReply,
    FileStatRequest,
    FileStatReply,
    FileReaddirRequest,
    FileReaddirReply,
    LibraryDataRequest,
    LibraryDataReply,
}

/// The largest tag value in use.
pub const MAX_MESSAGE_TAG: u8 = 20;

/// A byte that names no message type.
#[derive(Copy, Clone, PartialEq, Eq, Debug, Structural)]
pub struct InvalidMessageType {
    pub value: u8,
}

impl InvalidMessageType {
    /// The text of the error: what is wrong, and the value in decimal.
    pub fn to_string(&self) -> (r: String)
        ensures
            r@ == "Invalid message type: "@ + decimal(self.value as nat),
    {
        let number = decimal_string(self.value as u64);
        concat2("Invalid message type: ", number.as_str())
    }
}

/// The tag value of a message type.
pub open spec fn tag_of(m: Messages) -> u8 {
    match m {
        Messages::HandshakeRequest => 0,
        Messages::HandshakeReply => 1,
        Messages::LaunchExecutableRequest => 2,
        Messages::LaunchExecutableReply => 3,
        Messages::StopExecutableRequest => 4,
        Messages::StopExecutableReply => 5,
        Messages::StdoutOutput => 6,
        Messages::StderrOutput => 7,
        Messages::NoMessage => 8,
        Messages::FileOpenRequest => 9,
        Messages::FileOpenReply => 10,
        Messages::FileReadRequest => 11,
        Messages::FileReadReply => 12,
        Messages::FileCloseRequest => 13,
        Messages::FileCloseReply => 14,
        Messages::FileStatRequest => 15,
        Messages::FileStatReply => 16,
        Messages::FileReaddirRequest => 17,
        Messages::FileReaddirReply => 18,
        Messages::LibraryDataRequest => 19,
        Messages::LibraryDataReply => 20,
    }
}

/// The message type that a tag value names, if any.
pub open spec fn message_of_tag(value: u8) -> Option<Messages> {
    if value == 0 {
        Some(Messages::HandshakeRequest)
    } else if value == 1 {
        Some(Messages::HandshakeReply)
    } else if value == 2 {
        Some(Messages::LaunchExecutableRequest)
    } else if value == 3 {
        Some(Messages::LaunchExecutableReply)
    } else if value == 4 {
        Some(Messages::StopExecutableRequest)
    } else if value == 5 {
        Some(Messages::StopExecutableReply)
    } else if value == 6 {
        Some(Messages::StdoutOutput)
    } else if value == 7 {
        Some(Messages::StderrOutput)
    } else if value == 8 {
        Some(Messages::NoMessage)
    } else if value == 9 {
        Some(Messages::FileOpenRequest)
    } else if value == 10 {
        Some(Messages::FileOpenReply)
    } else if value == 11 {
        Some(Messages::FileReadRequest)
    } else if value == 12 {
        Some(Messages::FileReadReply)
    } else if value == 13 {
        Some(Messages::FileCloseRequest)
    } else if value == 14 {
        Some(Messages::FileCloseReply)
    } else if value == 15 {
        Some(Messages::FileStatRequest)
    } else if value == 16 {
        Some(Messages::FileStatReply)
    } else if value == 17 {
        Some(Messages::FileReaddirRequest)
    } else if value == 18 {
        Some(Messages::FileReaddirReply)
    } else if value == 19 {
        Some(Messages::LibraryDataRequest)
    } else if value == 20 {
        Some(Messages::LibraryDataReply)
    } else {
        None
    }
}

impl Messages {
    /// Converts a tag byte to its message type. Values above
    /// `MAX_MESSAGE_TAG` name nothing and are refused.
    pub fn from_u8(value: u8) -> (r: Result<Messages, InvalidMessageType>)
        ensures
            r is Ok <==> value <= MAX_MESSAGE_TAG,
            match r {
                Ok(m) => message_of_tag(value) == Some(m) && tag_of(m) == value,
                Err(e) => e.value == value && message_of_tag(value) is None,
            },
    {
        match value {
            0 => Ok(Messages::HandshakeRequest),
            1 => Ok(Messages::HandshakeReply),
            2 => Ok(Messages::LaunchExecutableRequest),
            3 => Ok(Messages::LaunchExecutableReply),
            4 => Ok(Messages::StopExecutableRequest),
            5 => Ok(Messages::StopExecutableReply),
            6 => Ok(Messages::StdoutOutput),
            7 => Ok(Messages::StderrOutput),
            8 => Ok(Messages::NoMessage),
            9 => Ok(Messages::FileOpenRequest),
            10 => Ok(Messages::FileOpenReply),
            11 => Ok(Messages::FileReadRequest),
            12 => Ok(Messages::FileReadReply),
            13 => Ok(Messages::FileCloseRequest),
            14 => Ok(Messages::FileCloseReply),
            15 => Ok(Messages::FileStatRequest),
            16 => Ok(Messages::FileStatReply),
            17 => Ok(Messages::FileReaddirRequest),
            18 => Ok(Messages::FileReaddirReply),
            19 => Ok(Messages::LibraryDataRequest),
            20 => Ok(Messages::LibraryDataReply),
            _ => Err(InvalidMessageType { value }),
        }
    }

    /// The tag byte of this message type.
    pub fn to_u8(self) -> (r: u8)
        ensures
            r == tag_of(self),
            r <= MAX_MESSAGE_TAG,
    {
        match self {
            Messages::HandshakeRequest => 0,
            Messages::HandshakeReply => 1,
            Messages::LaunchExecutableRequest => 2,
            Messages::LaunchExecutableReply => 3,
            Messages::StopExecutableRequest => 4,
            Messages::StopExecutableReply => 5,
            Messages::StdoutOutput => 6,
            Messages::StderrOutput => 7,
            Messages::NoMessage => 8,
            Messages::FileOpenRequest => 9,
            Messages::FileOpenReply => 10,
            Messages::FileReadRequest => 11,
            Messages::FileReadReply => 12,
            Messages::FileCloseRequest => 13,
            Messages::FileCloseReply => 14,
            Messages::FileStatRequest => 15,
            Messages::FileStatReply => 16,
            Messages::FileReaddirRequest => 17,
            Messages::FileReaddirReply => 18,
            Messages::LibraryDataRequest => 19,
            Messages::LibraryDataReply => 20,
        }
    }
}

/// Opens a control connection: the Host's protocol version.
#[derive(Copy, Clone, PartialEq, Eq, Debug, Structural)]
pub struct HandshakeRequest {
    pub version_major: u8,
    pub version_minor: u8,
}

/// The Runner's protocol version, in answer to a handshake request.
#[derive(Copy, Clone, PartialEq, Eq, Debug, Structural)]
pub struct HandshakeReply {
    pub version_major: u8,
    pub version_minor: u8,
}

/// An executable to stage and run on the Runner.
#[derive(Clone, PartialEq, Eq, Debug)]
pub struct LaunchExecutableRequest {
    /// Whether the Host serves files to the child.
    pub file_server: bool,
    /// The executable's path on the Host.
    pub path: String,
    /// The executable image.
    pub data: Vec<u8>,
}

/// A chunk of the child's standard output or standard error.
#[derive(Clone, PartialEq, Eq, Debug)]
pub struct TextMessage {
    pub data: Vec<u8>,
}

/// How a launch ended: the child's exit status, or -1 with a reason when the
/// child could not be started.
#[derive(Clone, PartialEq, Eq, Debug)]
pub struct LaunchExecutableReply {
    pub launch_status: i32,
    pub error_info: Option<String>,
}

/// Asks the Runner to stop the running child.
#[derive(Copy, Clone, PartialEq, Eq, Debug, Structural)]
pub struct StopExecutableRequest {
    pub dummy: u32,
}

/// Confirms that the child was stopped.
#[derive(Copy, Clone, PartialEq, Eq, Debug, Structural)]
pub struct StopExecutableReply {
    pub dummy: u32,
}

/// Opens a file below the file service's base directory.
#[derive(Clone, PartialEq, Eq, Debug)]
pub struct FileOpenRequest {
    /// Path relative to the base directory.
    pub path: String,
}

/// The answer to an open: a handle and the size of the file.
#[derive(Copy, Clone, PartialEq, Eq, Debug, Structural)]
pub struct FileOpenReply {
    /// File handle; 0 on failure.
    pub handle: u32,
    /// File size in bytes.
    pub size: u64,
    /// 0 on success, an errno value on failure.
    pub error: i32,
}

/// Reads from an open file.
#[derive(Copy, Clone, PartialEq, Eq, Debug, Structural)]
pub struct FileReadRequest {
    /// A handle from a `FileOpenReply`.
    pub handle: u32,
    /// Where in the file to start.
    pub offset: u64,
    /// How many bytes to read, 4 MiB at most.
    pub size: u32,
}

/// The answer to a read: the bytes read.
#[derive(Clone, PartialEq, Eq, Debug)]
pub struct FileReadReply {
    /// The bytes read; empty at or behind the end of the file.
    pub data: Vec<u8>,
    /// 0 on success, an errno value on failure.
    pub error: i32,
}

/// Closes an open file.
#[derive(Copy, Clone, PartialEq, Eq, Debug, Structural)]
pub struct FileCloseRequest {
    pub handle: u32,
}

/// The answer to a close.
#[derive(Copy, Clone, PartialEq, Eq, Debug, Structural)]
pub struct FileCloseReply {
    /// 0 on success, an errno value on failure.
    pub error: i32,
}

/// Asks for the statistics of a path below the base directory.
#[derive(Clone, PartialEq, Eq, Debug)]
pub struct FileStatRequest {
    /// Path relative to the base directory.
    pub path: String,
}

/// The answer to a stat.
#[derive(Copy, Clone, PartialEq, Eq, Debug, Structural)]
pub struct FileStatReply {
    /// File size in bytes.
    pub size: u64,
    /// Last modification, in seconds since the Unix epoch.
    pub mtime: i64,
    pub is_dir: bool,
    /// 0 on success, an errno value on failure.
    pub error: i32,
}

/// Asks for the entries of a directory below the base directory.
#[derive(Clone, PartialEq, Eq, Debug)]
pub struct FileReaddirRequest {
    /// Path relative to the base directory.
    pub path: String,
}

/// One name in a directory listing.
#[derive(Clone, PartialEq, Eq, Debug)]
pub struct DirEntry {
    pub name: String,
    pub is_dir: bool,
}

/// The answer to a readdir: the entries in the order of the filesystem.
#[derive(Clone, PartialEq, Eq, Debug)]
pub struct FileReaddirReply {
    pub entries: Vec<DirEntry>,
    /// 0 on success, an errno value on failure.
    pub error: i32,
}

/// A shared library that the executable needs, sent ahead of it.
#[derive(Clone, PartialEq, Eq, Debug)]
pub struct LibraryDataRequest {
    /// The file name to store the library under.
    pub name: String,
    pub data: Vec<u8>,
}

/// The answer to a library: whether it was stored.
#[derive(Copy, Clone, PartialEq, Eq, Debug, Structural)]
pub struct LibraryDataReply {
    /// 0 on success, an errno value on failure.
    pub error: i32,
}

impl Default for StopExecutableRequest {
    fn default() -> (r: StopExecutableRequest)
        ensures
            r.dummy == 0,
    {
        StopExecutableRequest { dummy: 0 }
    }
}

impl Default for StopExecutableReply {
    fn default() -> (r: StopExecutableReply)
        ensures
            r.dummy == 0,
    {
        StopExecutableReply { dummy: 0 }
    }
}

/// Tag values and message types correspond one to one.
pub proof fn lemma_tag_round_trip(m: Messages)
    ensures
        message_of_tag(tag_of(m)) == Some(m),
        tag_of(m) <= MAX_MESSAGE_TAG,
{
}

} // verus!
