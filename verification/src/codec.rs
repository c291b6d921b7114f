//! The message codec: every message as a typed value, its payload bytes, and
//! the way back from a type tag and payload bytes to the message.

use crate::messages::{
    message_of_tag, tag_of, DirEntry, FileCloseReply, FileCloseRequest, FileOpenReply,
    FileOpenRequest, FileReadReply, FileReadRequest, FileReaddirReply, FileReaddirRequest,
    FileStatReply, FileStatRequest, HandshakeReply, HandshakeRequest, LaunchExecutableReply,
    LaunchExecutableRequest, LibraryDataReply, LibraryDataRequest, Messages, StopExecutableReply,
    StopExecutableRequest, TextMessage,
};
use crate::wire::{
    enc_bool, enc_bytes, enc_opt_str, enc_str, enc_u8, fits_bytes, fits_str, get_bool, get_bytes,
    get_i32, get_i64, get_opt_str, get_str, get_u32, get_u64, get_u8, holds_at, le_i32, le_i64,
    le_u32, le_u64, lemma_holds_at_concat, lemma_holds_at_front, lemma_read_bool,
    lemma_read_bytes, lemma_read_i32, lemma_read_i64, lemma_read_opt_str, lemma_read_str,
    lemma_read_u32, lemma_read_u64, lemma_read_u8, lemma_stands_bool, lemma_stands_bytes,
    lemma_stands_i32, lemma_stands_i64, lemma_stands_opt_str, lemma_stands_str, lemma_stands_u32,
    lemma_stands_u64, lemma_stands_u8, opt_str_view, put_bool, put_bytes, put_i32,
    put_i64, put_opt_str, put_str, put_u32, put_u64, put_u8, read_bool, read_bytes, read_i32,
    read_i64, read_opt_str, read_str, read_u32, read_u64, read_u8,
};
use vstd::prelude::*;
use vstd::string::*;
use vstd::utf8::*;

verus! {

/// A message of the protocol: one variant for each type tag that carries a
/// payload.
#[derive(Clone, PartialEq, Eq, Debug)]
pub enum Message {
    HandshakeRequest(HandshakeRequest),
    HandshakeReply(HandshakeReply),
    LaunchExecutableRequest(LaunchExecutableRequest),
    LaunchExecutableReply(LaunchExecutableReply),
    StopExecutableRequest(StopExecutableRequest),
    StopExecutableReply(StopExecutableReply),
    StdoutOutput(TextMessage),
    StderrOutput(TextMessage),
    FileOpenRequest(FileOpenRequest),
    FileOpenReply(FileOpenReply),
    FileReadRequest(FileReadRequest),
    FileReadReply(FileReadReply),
    FileCloseRequest(FileCloseRequest),
    FileCloseReply(FileCloseReply),
    FileStatRequest(FileStatRequest),
    FileStatReply(FileStatReply),
    FileReaddirRequest(FileReaddirRequest),
    FileReaddirReply(FileReaddirReply),
    LibraryDataRequest(LibraryDataRequest),
    LibraryDataReply(LibraryDataReply),
}

/// What a directory entry holds.
pub struct DirEntryView {
    pub name: Seq<char>,
    pub is_dir: bool,
}

/// What a message holds: text as characters, data as bytes.
pub enum MessageView {
    HandshakeRequest(HandshakeRequest),
    HandshakeReply(HandshakeReply),
    LaunchExecutableRequest { file_server: bool, path: Seq<char>, data: Seq<u8> },
    LaunchExecutableReply { launch_status: i32, error_info: Option<Seq<char>> },
    StopExecutableRequest(StopExecutableRequest),
    StopExecutableReply(StopExecutableReply),
    StdoutOutput { data: Seq<u8> },
    StderrOutput { data: Seq<u8> },
    FileOpenRequest { path: Seq<char> },
    FileOpenReply(FileOpenReply),
    FileReadRequest(FileReadRequest),
    FileReadReply { data: Seq<u8>, error: i32 },
    FileCloseRequest(FileCloseRequest),
    FileCloseReply(FileCloseReply),
    FileStatRequest { path: Seq<char> },
    FileStatReply(FileStatReply),
    FileReaddirRequest { path: Seq<char> },
    FileReaddirReply { entries: Seq<DirEntryView>, error: i32 },
    LibraryDataRequest { name: Seq<char>, data: Seq<u8> },
    LibraryDataReply(LibraryDataReply),
}

impl View for DirEntry {
    type V = DirEntryView;

    open spec fn view(&self) -> DirEntryView {
        DirEntryView { name: self.name@, is_dir: self.is_dir }
    }
}

/// The views of a list of directory entries, in order.
pub open spec fn entries_view(entries: Seq<DirEntry>) -> Seq<DirEntryView> {
    Seq::new(entries.len(), |i: int| entries[i]@)
}

impl View for Message {
    type V = MessageView;

    open spec fn view(&self) -> MessageView {
        match *self {
            Message::HandshakeRequest(m) => MessageView::HandshakeRequest(m),
            Message::HandshakeReply(m) => MessageView::HandshakeReply(m),
            Message::LaunchExecutableRequest(m) => MessageView::LaunchExecutableRequest {
                file_server: m.file_server,
                path: m.path@,
                data: m.data@,
            },
            Message::LaunchExecutableReply(m) => MessageView::LaunchExecutableReply {
                launch_status: m.launch_status,
                error_info: opt_str_view(m.error_info),
            },
            Message::StopExecutableRequest(m) => MessageView::StopExecutableRequest(m),
            Message::StopExecutableReply(m) => MessageView::StopExecutableReply(m),
            Message::StdoutOutput(m) => MessageView::StdoutOutput { data: m.data@ },
            Message::StderrOutput(m) => MessageView::StderrOutput { data: m.data@ },
            Message::FileOpenRequest(m) => MessageView::FileOpenRequest { path: m.path@ },
            Message::FileOpenReply(m) => MessageView::FileOpenReply(m),
            Message::FileReadRequest(m) => MessageView::FileReadRequest(m),
            Message::FileReadReply(m) => MessageView::FileReadReply {
                data: m.data@,
                error: m.error,
            },
            Message::FileCloseRequest(m) => MessageView::FileCloseRequest(m),
            Message::FileCloseReply(m) => MessageView::FileCloseReply(m),
            Message::FileStatRequest(m) => MessageView::FileStatRequest { path: m.path@ },
            Message::FileStatReply(m) => MessageView::FileStatReply(m),
            Message::FileReaddirRequest(m) => MessageView::FileReaddirRequest { path: m.path@ },
            Message::FileReaddirReply(m) => MessageView::FileReaddirReply {
                entries: entries_view(m.entries@),
                error: m.error,
            },
            Message::LibraryDataRequest(m) => MessageView::LibraryDataRequest {
                name: m.name@,
                data: m.data@,
            },
            Message::LibraryDataReply(m) => MessageView::LibraryDataReply(m),
        }
    }
}

/// The type tag under which a message travels.
pub open spec fn kind_of(v: MessageView) -> Messages {
    match v {
        MessageView::HandshakeRequest(_) => Messages::HandshakeRequest,
        MessageView::HandshakeReply(_) => Messages::HandshakeReply,
        MessageView::LaunchExecutableRequest { .. } => Messages::LaunchExecutableRequest,
        MessageView::LaunchExecutableReply { .. } => Messages::LaunchExecutableReply,
        MessageView::StopExecutableRequest(_) => Messages::StopExecutableRequest,
        MessageView::StopExecutableReply(_) => Messages::StopExecutableReply,
        MessageView::StdoutOutput { .. } => Messages::StdoutOutput,
        MessageView::StderrOutput { .. } => Messages::StderrOutput,
        MessageView::FileOpenRequest { .. } => Messages::FileOpenRequest,
        MessageView::FileOpenReply(_) => Messages::FileOpenReply,
        MessageView::FileReadRequest(_) => Messages::FileReadRequest,
        MessageView::FileReadReply { .. } => Messages::FileReadReply,
        MessageView::FileCloseRequest(_) => Messages::FileCloseRequest,
        MessageView::FileCloseReply(_) => Messages::FileCloseReply,
        MessageView::FileStatRequest { .. } => Messages::FileStatRequest,
        MessageView::FileStatReply(_) => Messages::FileStatReply,
        MessageView::FileReaddirRequest { .. } => Messages::FileReaddirRequest,
        MessageView::FileReaddirReply { .. } => Messages::FileReaddirReply,
        MessageView::LibraryDataRequest { .. } => Messages::LibraryDataRequest,
        MessageView::LibraryDataReply(_) => Messages::LibraryDataReply,
    }
}

// ---------------------------------------------------------------------------
// Directory listings
// ---------------------------------------------------------------------------

/// A directory entry: the name, then whether it is a directory.
pub open spec fn enc_entry(e: DirEntryView) -> Seq<u8> {
    enc_str(e.name) + enc_bool(e.is_dir)
}

/// The entries one after the other, without a count in front.
pub open spec fn enc_entry_list(es: Seq<DirEntryView>) -> Seq<u8>
    decreases es.len(),
{
    if es.len() == 0 {
        Seq::empty()
    } else {
        enc_entry_list(es.drop_last()) + enc_entry(es.last())
    }
}

/// The number of entries as a 64-bit integer, then the entries.
pub open spec fn enc_entries(es: Seq<DirEntryView>) -> Seq<u8> {
    le_u64(es.len() as u64) + enc_entry_list(es)
}

/// A listing whose count and names fit their 64-bit prefixes.
pub open spec fn fits_entries(es: Seq<DirEntryView>) -> bool {
    &&& es.len() <= u64::MAX
    &&& forall|i: int| 0 <= i < es.len() ==> fits_str(#[trigger] es[i].name)
}

/// Reads one directory entry at a position.
pub open spec fn read_entry(b: Seq<u8>, pos: int) -> Option<(DirEntryView, int)> {
    let name = read_str(b, pos);
    let is_dir = read_bool(b, name.unwrap().1);
    if name is Some && is_dir is Some {
        Some((DirEntryView { name: name.unwrap().0, is_dir: is_dir.unwrap().0 }, is_dir.unwrap().1))
    } else {
        None
    }
}

/// Reads `count` entries from `pos` on.
pub open spec fn read_entry_list(b: Seq<u8>, pos: int, count: nat) -> Option<
    (Seq<DirEntryView>, int),
>
    decreases count,
{
    if count == 0 {
        Some((Seq::empty(), pos))
    } else {
        let front = read_entry_list(b, pos, (count - 1) as nat);
        let last = read_entry(b, front.unwrap().1);
        if front is Some && last is Some {
            Some((front.unwrap().0.push(last.unwrap().0), last.unwrap().1))
        } else {
            None
        }
    }
}

/// Reads a count and that many directory entries.
pub open spec fn read_entries(b: Seq<u8>, pos: int) -> Option<(Seq<DirEntryView>, int)> {
    match read_u64(b, pos) {
        Some((n, p)) => read_entry_list(b, p, n as nat),
        None => None,
    }
}

// ---------------------------------------------------------------------------
// Encoding
// ---------------------------------------------------------------------------

/// A message whose every length fits its 64-bit prefix. Every message held in
/// memory is one.
pub open spec fn well_formed(v: MessageView) -> bool {
    match v {
        MessageView::LaunchExecutableRequest { file_server, path, data } => fits_str(path)
            && fits_bytes(data),
        MessageView::LaunchExecutableReply { launch_status, error_info } => (error_info matches Some(
            s,
        ) ==> fits_str(s)),
        MessageView::StdoutOutput { data } => fits_bytes(data),
        MessageView::StderrOutput { data } => fits_bytes(data),
        MessageView::FileOpenRequest { path } => fits_str(path),
        MessageView::FileReadReply { data, error } => fits_bytes(data),
        MessageView::FileStatRequest { path } => fits_str(path),
        MessageView::FileReaddirRequest { path } => fits_str(path),
        MessageView::FileReaddirReply { entries, error } => fits_entries(entries),
        MessageView::LibraryDataRequest { name, data } => fits_str(name) && fits_bytes(data),
        _ => true,
    }
}

/// The payload bytes of a message: its fields in declaration order.
pub open spec fn encode(v: MessageView) -> Seq<u8> {
    match v {
        MessageView::HandshakeRequest(m) => enc_u8(m.version_major) + enc_u8(m.version_minor),
        MessageView::HandshakeReply(m) => enc_u8(m.version_major) + enc_u8(m.version_minor),
        MessageView::LaunchExecutableRequest { file_server, path, data } => enc_bool(file_server)
            + enc_str(path) + enc_bytes(data),
        MessageView::LaunchExecutableReply { launch_status, error_info } => le_i32(launch_status)
            + enc_opt_str(error_info),
        MessageView::StopExecutableRequest(m) => le_u32(m.dummy),
        MessageView::StopExecutableReply(m) => le_u32(m.dummy),
        MessageView::StdoutOutput { data } => enc_bytes(data),
        MessageView::StderrOutput { data } => enc_bytes(data),
        MessageView::FileOpenRequest { path } => enc_str(path),
        MessageView::FileOpenReply(m) => le_u32(m.handle) + le_u64(m.size) + le_i32(m.error),
        MessageView::FileReadRequest(m) => le_u32(m.handle) + le_u64(m.offset) + le_u32(m.size),
        MessageView::FileReadReply { data, error } => enc_bytes(data) + le_i32(error),
        MessageView::FileCloseRequest(m) => le_u32(m.handle),
        MessageView::FileCloseReply(m) => le_i32(m.error),
        MessageView::FileStatRequest { path } => enc_str(path),
        MessageView::FileStatReply(m) => le_u64(m.size) + le_i64(m.mtime) + enc_bool(m.is_dir)
            + le_i32(m.error),
        MessageView::FileReaddirRequest { path } => enc_str(path),
        MessageView::FileReaddirReply { entries, error } => enc_entries(entries) + le_i32(error),
        MessageView::LibraryDataRequest { name, data } => enc_str(name) + enc_bytes(data),
        MessageView::LibraryDataReply(m) => le_i32(m.error),
    }
}

// ---------------------------------------------------------------------------
// Decoding
// ---------------------------------------------------------------------------

/// Why payload bytes gave no message.
#[derive(Copy, Clone, PartialEq, Eq, Debug, Structural)]
pub enum CodecError {
    /// The tag byte names no message type.
    UnknownMessageType(u8),
    /// The tag is the reserved one, for which no payload is defined.
    ReservedMessageType,
    /// The bytes are not a payload of the named type: they end too early, or
    /// hold text that is not UTF-8 or a flag that is neither 0 nor 1.
    MalformedPayload,
}

/// Reads a payload of the given type from the front of `b`. Bytes behind the
/// payload are left alone.
pub open spec fn parse(kind: Messages, b: Seq<u8>) -> Option<MessageView> {
    match kind {
        Messages::HandshakeRequest => {
            let f0 = read_u8(b, 0);
            let f1 = read_u8(b, f0.unwrap().1);
            if f0 is Some && f1 is Some {
                Some(
                    MessageView::HandshakeRequest(
                        HandshakeRequest {
                            version_major: f0.unwrap().0,
                            version_minor: f1.unwrap().0,
                        },
                    ),
                )
            } else {
                None
            }
        },
        Messages::HandshakeReply => {
            let f0 = read_u8(b, 0);
            let f1 = read_u8(b, f0.unwrap().1);
            if f0 is Some && f1 is Some {
                Some(
                    MessageView::HandshakeReply(
                        HandshakeReply {
                            version_major: f0.unwrap().0,
                            version_minor: f1.unwrap().0,
                        },
                    ),
                )
            } else {
                None
            }
        },
        Messages::LaunchExecutableRequest => {
            let f0 = read_bool(b, 0);
            let f1 = read_str(b, f0.unwrap().1);
            let f2 = read_bytes(b, f1.unwrap().1);
            if f0 is Some && f1 is Some && f2 is Some {
                Some(
                    MessageView::LaunchExecutableRequest {
                        file_server: f0.unwrap().0,
                        path: f1.unwrap().0,
                        data: f2.unwrap().0,
                    },
                )
            } else {
                None
            }
        },
        Messages::LaunchExecutableReply => {
            let f0 = read_i32(b, 0);
            let f1 = read_opt_str(b, f0.unwrap().1);
            if f0 is Some && f1 is Some {
                Some(
                    MessageView::LaunchExecutableReply {
                        launch_status: f0.unwrap().0,
                        error_info: f1.unwrap().0,
                    },
                )
            } else {
                None
            }
        },
        Messages::StopExecutableRequest => match read_u32(b, 0) {
            Some((dummy, _)) => Some(
                MessageView::StopExecutableRequest(StopExecutableRequest { dummy }),
            ),
            None => None,
        },
        Messages::StopExecutableReply => match read_u32(b, 0) {
            Some((dummy, _)) => Some(
                MessageView::StopExecutableReply(StopExecutableReply { dummy }),
            ),
            None => None,
        },
        Messages::StdoutOutput => match read_bytes(b, 0) {
            Some((data, _)) => Some(MessageView::StdoutOutput { data }),
            None => None,
        },
        Messages::StderrOutput => match read_bytes(b, 0) {
            Some((data, _)) => Some(MessageView::StderrOutput { data }),
            None => None,
        },
        Messages::NoMessage => None,
        Messages::FileOpenRequest => match read_str(b, 0) {
            Some((path, _)) => Some(MessageView::FileOpenRequest { path }),
            None => None,
        },
        Messages::FileOpenReply => {
            let f0 = read_u32(b, 0);
            let f1 = read_u64(b, f0.unwrap().1);
            let f2 = read_i32(b, f1.unwrap().1);
            if f0 is Some && f1 is Some && f2 is Some {
                Some(
                    MessageView::FileOpenReply(
                        FileOpenReply {
                            handle: f0.unwrap().0,
                            size: f1.unwrap().0,
                            error: f2.unwrap().0,
                        },
                    ),
                )
            } else {
                None
            }
        },
        Messages::FileReadRequest => {
            let f0 = read_u32(b, 0);
            let f1 = read_u64(b, f0.unwrap().1);
            let f2 = read_u32(b, f1.unwrap().1);
            if f0 is Some && f1 is Some && f2 is Some {
                Some(
                    MessageView::FileReadRequest(
                        FileReadRequest {
                            handle: f0.unwrap().0,
                            offset: f1.unwrap().0,
                            size: f2.unwrap().0,
                        },
                    ),
                )
            } else {
                None
            }
        },
        Messages::FileReadReply => {
            let f0 = read_bytes(b, 0);
            let f1 = read_i32(b, f0.unwrap().1);
            if f0 is Some && f1 is Some {
                Some(MessageView::FileReadReply { data: f0.unwrap().0, error: f1.unwrap().0 })
            } else {
                None
            }
        },
        Messages::FileCloseRequest => match read_u32(b, 0) {
            Some((handle, _)) => Some(MessageView::FileCloseRequest(FileCloseRequest { handle })),
            None => None,
        },
        Messages::FileCloseReply => match read_i32(b, 0) {
            Some((error, _)) => Some(MessageView::FileCloseReply(FileCloseReply { error })),
            None => None,
        },
        Messages::FileStatRequest => match read_str(b, 0) {
            Some((path, _)) => Some(MessageView::FileStatRequest { path }),
            None => None,
        },
        Messages::FileStatReply => {
            let f0 = read_u64(b, 0);
            let f1 = read_i64(b, f0.unwrap().1);
            let f2 = read_bool(b, f1.unwrap().1);
            let f3 = read_i32(b, f2.unwrap().1);
            if f0 is Some && f1 is Some && f2 is Some && f3 is Some {
                Some(
                    MessageView::FileStatReply(
                        FileStatReply {
                            size: f0.unwrap().0,
                            mtime: f1.unwrap().0,
                            is_dir: f2.unwrap().0,
                            error: f3.unwrap().0,
                        },
                    ),
                )
            } else {
                None
            }
        },
        Messages::FileReaddirRequest => match read_str(b, 0) {
            Some((path, _)) => Some(MessageView::FileReaddirRequest { path }),
            None => None,
        },
        Messages::FileReaddirReply => {
            let f0 = read_entries(b, 0);
            let f1 = read_i32(b, f0.unwrap().1);
            if f0 is Some && f1 is Some {
                Some(MessageView::FileReaddirReply { entries: f0.unwrap().0, error: f1.unwrap().0 })
            } else {
                None
            }
        },
        Messages::LibraryDataRequest => {
            let f0 = read_str(b, 0);
            let f1 = read_bytes(b, f0.unwrap().1);
            if f0 is Some && f1 is Some {
                Some(MessageView::LibraryDataRequest { name: f0.unwrap().0, data: f1.unwrap().0 })
            } else {
                None
            }
        },
        Messages::LibraryDataReply => match read_i32(b, 0) {
            Some((error, _)) => Some(MessageView::LibraryDataReply(LibraryDataReply { error })),
            None => None,
        },
    }
}

/// What `deserialize` returns for a tag byte and payload bytes.
pub open spec fn spec_deserialize(tag: u8, b: Seq<u8>) -> Result<MessageView, CodecError> {
    match message_of_tag(tag) {
        None => Err(CodecError::UnknownMessageType(tag)),
        Some(kind) => spec_deserialize_as(kind, b),
    }
}

/// What `deserialize_as` returns for a message type and payload bytes.
pub open spec fn spec_deserialize_as(kind: Messages, b: Seq<u8>) -> Result<
    MessageView,
    CodecError,
> {
    if kind == Messages::NoMessage {
        Err(CodecError::ReservedMessageType)
    } else {
        match parse(kind, b) {
            Some(v) => Ok(v),
            None => Err(CodecError::MalformedPayload),
        }
    }
}

/// The view of a decoding result.
pub open spec fn result_view(r: Result<Message, CodecError>) -> Result<MessageView, CodecError> {
    match r {
        Ok(m) => Ok(m@),
        Err(e) => Err(e),
    }
}

// ---------------------------------------------------------------------------
// Executable codec
// ---------------------------------------------------------------------------

impl Message {
    /// The type under which this message travels.
    pub fn kind(&self) -> (k: Messages)
        ensures
            k == kind_of(self@),
    {
        match self {
            Message::HandshakeRequest(_) => Messages::HandshakeRequest,
            Message::HandshakeReply(_) => Messages::HandshakeReply,
            Message::LaunchExecutableRequest(_) => Messages::LaunchExecutableRequest,
            Message::LaunchExecutableReply(_) => Messages::LaunchExecutableReply,
            Message::StopExecutableRequest(_) => Messages::StopExecutableRequest,
            Message::StopExecutableReply(_) => Messages::StopExecutableReply,
            Message::StdoutOutput(_) => Messages::StdoutOutput,
            Message::StderrOutput(_) => Messages::StderrOutput,
            Message::FileOpenRequest(_) => Messages::FileOpenRequest,
            Message::FileOpenReply(_) => Messages::FileOpenReply,
            Message::FileReadRequest(_) => Messages::FileReadRequest,
            Message::FileReadReply(_) => Messages::FileReadReply,
            Message::FileCloseRequest(_) => Messages::FileCloseRequest,
            Message::FileCloseReply(_) => Messages::FileCloseReply,
            Message::FileStatRequest(_) => Messages::FileStatRequest,
            Message::FileStatReply(_) => Messages::FileStatReply,
            Message::FileReaddirRequest(_) => Messages::FileReaddirRequest,
            Message::FileReaddirReply(_) => Messages::FileReaddirReply,
            Message::LibraryDataRequest(_) => Messages::LibraryDataRequest,
            Message::LibraryDataReply(_) => Messages::LibraryDataReply,
        }
    }

    /// The tag byte under which this message travels.
    pub fn tag(&self) -> (t: u8)
        ensures
            t == tag_of(kind_of(self@)),
    {
        self.kind().to_u8()
    }
}

fn put_entries(out: &mut Vec<u8>, entries: &Vec<DirEntry>)
    ensures
        final(out)@ == old(out)@ + enc_entries(entries_view(entries@)),
        fits_entries(entries_view(entries@)),
{
    let ghost start = out@;
    let ghost ev = entries_view(entries@);
    let n: usize = entries.len();
    put_u64(out, n as u64);
    let mut i: usize = 0;
    while i < n
        invariant
            i <= n,
            n == entries.len(),
            ev == entries_view(entries@),
            out@ == start + le_u64(n as u64) + enc_entry_list(ev.subrange(0, i as int)),
            forall|j: int| 0 <= j < i ==> fits_str(#[trigger] ev[j].name),
        decreases n - i,
    {
        let ghost before = out@;
        put_str(out, entries[i].name.as_str());
        put_bool(out, entries[i].is_dir);
        proof {
            let upto = ev.subrange(0, i as int + 1);
            assert(upto.drop_last() =~= ev.subrange(0, i as int));
            assert(upto.last() == ev[i as int]);
            assert(out@ =~= before + enc_entry(ev[i as int]));
            assert(out@ =~= start + le_u64(n as u64) + enc_entry_list(upto));
        }
        i = i + 1;
    }
    proof {
        assert(ev.subrange(0, n as int) =~= ev);
        assert(out@ =~= start + enc_entries(ev));
    }
}

/// Once reading entries has failed, asking for more of them fails too.
proof fn lemma_entry_list_fails(b: Seq<u8>, pos: int, k: nat, n: nat)
    requires
        k <= n,
        read_entry_list(b, pos, k) is None,
    ensures
        read_entry_list(b, pos, n) is None,
    decreases n,
{
    if k < n {
        lemma_entry_list_fails(b, pos, k, (n - 1) as nat);
    }
}

fn get_entries(b: &[u8], pos: usize) -> (r: Option<(Vec<DirEntry>, usize)>)
    ensures
        match r {
            Some((v, p)) => read_entries(b@, pos as int) == Some((entries_view(v@), p as int)),
            None => read_entries(b@, pos as int) is None,
        },
{
    let (n, start) = match get_u64(b, pos) {
        Some(x) => x,
        None => {
            return None;
        },
    };
    let mut acc: Vec<DirEntry> = Vec::new();
    let mut p: usize = start;
    let mut i: u64 = 0;
    proof {
        assert(entries_view(acc@) =~= Seq::<DirEntryView>::empty());
    }
    while i < n
        invariant
            i <= n,
            read_u64(b@, pos as int) == Some((n, start as int)),
            read_entry_list(b@, start as int, i as nat) == Some((entries_view(acc@), p as int)),
        decreases n - i,
    {
        let ghost before = entries_view(acc@);
        let (name, q) = match get_str(b, p) {
            Some(x) => x,
            None => {
                proof {
                    lemma_entry_list_fails(b@, start as int, (i + 1) as nat, n as nat);
                }
                return None;
            },
        };
        let (is_dir, q2) = match get_bool(b, q) {
            Some(x) => x,
            None => {
                proof {
                    lemma_entry_list_fails(b@, start as int, (i + 1) as nat, n as nat);
                }
                return None;
            },
        };
        let entry = DirEntry { name, is_dir };
        acc.push(entry);
        proof {
            assert(entries_view(acc@) =~= before.push(entry@));
        }
        p = q2;
        i = i + 1;
    }
    Some((acc, p))
}

/// The payload bytes of a message.
pub fn serialize(m: &Message) -> (out: Vec<u8>)
    ensures
        out@ == encode(m@),
        well_formed(m@),
{
    let mut out: Vec<u8> = Vec::new();
    match m {
        Message::HandshakeRequest(p) => {
            put_u8(&mut out, p.version_major);
            put_u8(&mut out, p.version_minor);
        },
        Message::HandshakeReply(p) => {
            put_u8(&mut out, p.version_major);
            put_u8(&mut out, p.version_minor);
        },
        Message::LaunchExecutableRequest(p) => {
            put_bool(&mut out, p.file_server);
            put_str(&mut out, p.path.as_str());
            put_bytes(&mut out, p.data.as_slice());
        },
        Message::LaunchExecutableReply(p) => {
            put_i32(&mut out, p.launch_status);
            put_opt_str(&mut out, &p.error_info);
        },
        Message::StopExecutableRequest(p) => {
            put_u32(&mut out, p.dummy);
        },
        Message::StopExecutableReply(p) => {
            put_u32(&mut out, p.dummy);
        },
        Message::StdoutOutput(p) => {
            put_bytes(&mut out, p.data.as_slice());
        },
        Message::StderrOutput(p) => {
            put_bytes(&mut out, p.data.as_slice());
        },
        Message::FileOpenRequest(p) => {
            put_str(&mut out, p.path.as_str());
        },
        Message::FileOpenReply(p) => {
            put_u32(&mut out, p.handle);
            put_u64(&mut out, p.size);
            put_i32(&mut out, p.error);
        },
        Message::FileReadRequest(p) => {
            put_u32(&mut out, p.handle);
            put_u64(&mut out, p.offset);
            put_u32(&mut out, p.size);
        },
        Message::FileReadReply(p) => {
            put_bytes(&mut out, p.data.as_slice());
            put_i32(&mut out, p.error);
        },
        Message::FileCloseRequest(p) => {
            put_u32(&mut out, p.handle);
        },
        Message::FileCloseReply(p) => {
            put_i32(&mut out, p.error);
        },
        Message::FileStatRequest(p) => {
            put_str(&mut out, p.path.as_str());
        },
        Message::FileStatReply(p) => {
            put_u64(&mut out, p.size);
            put_i64(&mut out, p.mtime);
            put_bool(&mut out, p.is_dir);
            put_i32(&mut out, p.error);
        },
        Message::FileReaddirRequest(p) => {
            put_str(&mut out, p.path.as_str());
        },
        Message::FileReaddirReply(p) => {
            put_entries(&mut out, &p.entries);
            put_i32(&mut out, p.error);
        },
        Message::LibraryDataRequest(p) => {
            put_str(&mut out, p.name.as_str());
            put_bytes(&mut out, p.data.as_slice());
        },
        Message::LibraryDataReply(p) => {
            put_i32(&mut out, p.error);
        },
    }
    assert(out@ =~= encode(m@));
    out
}

fn decode_payload(kind: Messages, b: &[u8]) -> (r: Option<Message>)
    ensures
        match r {
            Some(m) => parse(kind, b@) == Some(m@),
            None => parse(kind, b@) is None,
        },
{
    match kind {
        Messages::HandshakeRequest => {
            let (version_major, p) = get_u8(b, 0)?;
            let (version_minor, _) = get_u8(b, p)?;
            Some(Message::HandshakeRequest(HandshakeRequest { version_major, version_minor }))
        },
        Messages::HandshakeReply => {
            let (version_major, p) = get_u8(b, 0)?;
            let (version_minor, _) = get_u8(b, p)?;
            Some(Message::HandshakeReply(HandshakeReply { version_major, version_minor }))
        },
        Messages::LaunchExecutableRequest => {
            let (file_server, p) = get_bool(b, 0)?;
            let (path, q) = get_str(b, p)?;
            let (data, _) = get_bytes(b, q)?;
            Some(
                Message::LaunchExecutableRequest(
                    LaunchExecutableRequest { file_server, path, data },
                ),
            )
        },
        Messages::LaunchExecutableReply => {
            let (launch_status, p) = get_i32(b, 0)?;
            let (error_info, _) = get_opt_str(b, p)?;
            Some(Message::LaunchExecutableReply(LaunchExecutableReply { launch_status, error_info }))
        },
        Messages::StopExecutableRequest => {
            let (dummy, _) = get_u32(b, 0)?;
            Some(Message::StopExecutableRequest(StopExecutableRequest { dummy }))
        },
        Messages::StopExecutableReply => {
            let (dummy, _) = get_u32(b, 0)?;
            Some(Message::StopExecutableReply(StopExecutableReply { dummy }))
        },
        Messages::StdoutOutput => {
            let (data, _) = get_bytes(b, 0)?;
            Some(Message::StdoutOutput(TextMessage { data }))
        },
        Messages::StderrOutput => {
            let (data, _) = get_bytes(b, 0)?;
            Some(Message::StderrOutput(TextMessage { data }))
        },
        Messages::NoMessage => None,
        Messages::FileOpenRequest => {
            let (path, _) = get_str(b, 0)?;
            Some(Message::FileOpenRequest(FileOpenRequest { path }))
        },
        Messages::FileOpenReply => {
            let (handle, p) = get_u32(b, 0)?;
            let (size, q) = get_u64(b, p)?;
            let (error, _) = get_i32(b, q)?;
            Some(Message::FileOpenReply(FileOpenReply { handle, size, error }))
        },
        Messages::FileReadRequest => {
            let (handle, p) = get_u32(b, 0)?;
            let (offset, q) = get_u64(b, p)?;
            let (size, _) = get_u32(b, q)?;
            Some(Message::FileReadRequest(FileReadRequest { handle, offset, size }))
        },
        Messages::FileReadReply => {
            let (data, p) = get_bytes(b, 0)?;
            let (error, _) = get_i32(b, p)?;
            Some(Message::FileReadReply(FileReadReply { data, error }))
        },
        Messages::FileCloseRequest => {
            let (handle, _) = get_u32(b, 0)?;
            Some(Message::FileCloseRequest(FileCloseRequest { handle }))
        },
        Messages::FileCloseReply => {
            let (error, _) = get_i32(b, 0)?;
            Some(Message::FileCloseReply(FileCloseReply { error }))
        },
        Messages::FileStatRequest => {
            let (path, _) = get_str(b, 0)?;
            Some(Message::FileStatRequest(FileStatRequest { path }))
        },
        Messages::FileStatReply => {
            let (size, p) = get_u64(b, 0)?;
            let (mtime, q) = get_i64(b, p)?;
            let (is_dir, s) = get_bool(b, q)?;
            let (error, _) = get_i32(b, s)?;
            Some(Message::FileStatReply(FileStatReply { size, mtime, is_dir, error }))
        },
        Messages::FileReaddirRequest => {
            let (path, _) = get_str(b, 0)?;
            Some(Message::FileReaddirRequest(FileReaddirRequest { path }))
        },
        Messages::FileReaddirReply => {
            let (entries, p) = get_entries(b, 0)?;
            let (error, _) = get_i32(b, p)?;
            Some(Message::FileReaddirReply(FileReaddirReply { entries, error }))
        },
        Messages::LibraryDataRequest => {
            let (name, p) = get_str(b, 0)?;
            let (data, _) = get_bytes(b, p)?;
            Some(Message::LibraryDataRequest(LibraryDataRequest { name, data }))
        },
        Messages::LibraryDataReply => {
            let (error, _) = get_i32(b, 0)?;
            Some(Message::LibraryDataReply(LibraryDataReply { error }))
        },
    }
}

/// Reads the message of a known type from its payload bytes.
///
/// The reserved type has no payload and is refused as such; for every other
/// type the bytes must start with a complete payload of that type.
pub fn deserialize_as(kind: Messages, b: &[u8]) -> (r: Result<Message, CodecError>)
    ensures
        result_view(r) == spec_deserialize_as(kind, b@),
{
    match kind {
        Messages::NoMessage => Err(CodecError::ReservedMessageType),
        _ => match decode_payload(kind, b) {
            Some(m) => Ok(m),
            None => Err(CodecError::MalformedPayload),
        },
    }
}

/// Reads the message that a tag byte and payload bytes stand for.
pub fn deserialize(tag: u8, b: &[u8]) -> (r: Result<Message, CodecError>)
    ensures
        result_view(r) == spec_deserialize(tag, b@),
{
    match Messages::from_u8(tag) {
        Ok(kind) => deserialize_as(kind, b),
        Err(_) => Err(CodecError::UnknownMessageType(tag)),
    }
}

// ---------------------------------------------------------------------------
// Laws
// ---------------------------------------------------------------------------

/// In `e1 + e2 + e3 + e4 + rest` each part stands right behind the parts
/// before it.
proof fn lemma_layout(e1: Seq<u8>, e2: Seq<u8>, e3: Seq<u8>, e4: Seq<u8>, rest: Seq<u8>)
    ensures
        holds_at(e1 + e2 + e3 + e4 + rest, 0, e1),
        holds_at(e1 + e2 + e3 + e4 + rest, e1.len() as int, e2),
        holds_at(e1 + e2 + e3 + e4 + rest, (e1.len() + e2.len()) as int, e3),
        holds_at(e1 + e2 + e3 + e4 + rest, (e1.len() + e2.len() + e3.len()) as int, e4),
{
    let b = e1 + e2 + e3 + e4 + rest;
    let at1 = e1.len() as int;
    let at2 = at1 + e2.len();
    let at3 = at2 + e3.len();
    let at4 = at3 + e4.len();
    assert(b.subrange(0, at1) =~= e1);
    assert(b.subrange(at1, at2) =~= e2);
    assert(b.subrange(at2, at3) =~= e3);
    assert(b.subrange(at3, at4) =~= e4);
}

/// Where the encoding of one entry stands, reading an entry gives it back.
proof fn lemma_read_entry(b: Seq<u8>, pos: int, e: DirEntryView)
    requires
        fits_str(e.name),
        holds_at(b, pos, enc_entry(e)),
    ensures
        read_entry(b, pos) == Some((e, pos + enc_entry(e).len())),
{
    lemma_holds_at_concat(b, pos, enc_str(e.name), enc_bool(e.is_dir));
    lemma_read_str(b, pos, e.name);
    lemma_read_bool(b, pos + enc_str(e.name).len(), e.is_dir);
}

/// Where the encodings of some entries stand one after the other, reading
/// that many entries gives them back.
proof fn lemma_read_entry_list(b: Seq<u8>, pos: int, es: Seq<DirEntryView>)
    requires
        forall|i: int| 0 <= i < es.len() ==> fits_str(#[trigger] es[i].name),
        holds_at(b, pos, enc_entry_list(es)),
    ensures
        read_entry_list(b, pos, es.len()) == Some((es, pos + enc_entry_list(es).len())),
    decreases es.len(),
{
    if es.len() > 0 {
        let front = es.drop_last();
        lemma_holds_at_concat(b, pos, enc_entry_list(front), enc_entry(es.last()));
        lemma_read_entry_list(b, pos, front);
        lemma_read_entry(b, pos + enc_entry_list(front).len(), es.last());
        assert(front.push(es.last()) =~= es);
    }
}

/// Where the encoding of a directory listing stands, reading a listing
/// gives it back.
proof fn lemma_read_entries(b: Seq<u8>, pos: int, es: Seq<DirEntryView>)
    requires
        fits_entries(es),
        holds_at(b, pos, enc_entries(es)),
    ensures
        read_entries(b, pos) == Some((es, pos + enc_entries(es).len())),
{
    lemma_holds_at_concat(b, pos, le_u64(es.len() as u64), enc_entry_list(es));
    lemma_read_u64(b, pos, es.len() as u64);
    lemma_read_entry_list(b, pos + 8, es);
}

proof fn lemma_parse_handshake_request(v: MessageView, rest: Seq<u8>)
    requires
        v is HandshakeRequest,
        well_formed(v),
    ensures
        parse(kind_of(v), encode(v) + rest) == Some(v),
{
    let b = encode(v) + rest;
    let none = Seq::<u8>::empty();
    match v {
        MessageView::HandshakeRequest(m) => {
            let e1 = enc_u8(m.version_major);
            let e2 = enc_u8(m.version_minor);
            lemma_layout(e1, e2, none, none, rest);
            assert(b =~= e1 + e2 + none + none + rest);
            lemma_read_u8(b, 0, m.version_major);
            lemma_read_u8(b, 1, m.version_minor);
        },
        _ => {},
    }
}

proof fn lemma_parse_handshake_reply(v: MessageView, rest: Seq<u8>)
    requires
        v is HandshakeReply,
        well_formed(v),
    ensures
        parse(kind_of(v), encode(v) + rest) == Some(v),
{
    let b = encode(v) + rest;
    let none = Seq::<u8>::empty();
    match v {
        MessageView::HandshakeReply(m) => {
            let e1 = enc_u8(m.version_major);
            let e2 = enc_u8(m.version_minor);
            lemma_layout(e1, e2, none, none, rest);
            assert(b =~= e1 + e2 + none + none + rest);
            lemma_read_u8(b, 0, m.version_major);
            lemma_read_u8(b, 1, m.version_minor);
        },
        _ => {},
    }
}

proof fn lemma_parse_launch_executable_request(v: MessageView, rest: Seq<u8>)
    requires
        v is LaunchExecutableRequest,
        well_formed(v),
    ensures
        parse(kind_of(v), encode(v) + rest) == Some(v),
{
    let b = encode(v) + rest;
    let none = Seq::<u8>::empty();
    match v {
        MessageView::LaunchExecutableRequest { file_server, path, data } => {
            let e1 = enc_bool(file_server);
            let e2 = enc_str(path);
            let e3 = enc_bytes(data);
            lemma_layout(e1, e2, e3, none, rest);
            assert(b =~= e1 + e2 + e3 + none + rest);
            lemma_read_bool(b, 0, file_server);
            lemma_read_str(b, 1, path);
            lemma_read_bytes(b, 1 + e2.len() as int, data);
        },
        _ => {},
    }
}

proof fn lemma_parse_launch_executable_reply(v: MessageView, rest: Seq<u8>)
    requires
        v is LaunchExecutableReply,
        well_formed(v),
    ensures
        parse(kind_of(v), encode(v) + rest) == Some(v),
{
    let b = encode(v) + rest;
    let none = Seq::<u8>::empty();
    match v {
        MessageView::LaunchExecutableReply { launch_status, error_info } => {
            let e1 = le_i32(launch_status);
            let e2 = enc_opt_str(error_info);
            lemma_layout(e1, e2, none, none, rest);
            assert(b =~= e1 + e2 + none + none + rest);
            lemma_read_i32(b, 0, launch_status);
            lemma_read_opt_str(b, 4, error_info);
        },
        _ => {},
    }
}

proof fn lemma_parse_stop_executable_request(v: MessageView, rest: Seq<u8>)
    requires
        v is StopExecutableRequest,
        well_formed(v),
    ensures
        parse(kind_of(v), encode(v) + rest) == Some(v),
{
    let b = encode(v) + rest;
    let none = Seq::<u8>::empty();
    match v {
        MessageView::StopExecutableRequest(m) => {
            lemma_holds_at_front(le_u32(m.dummy), rest);
            lemma_read_u32(b, 0, m.dummy);
        },
        _ => {},
    }
}

proof fn lemma_parse_stop_executable_reply(v: MessageView, rest: Seq<u8>)
    requires
        v is StopExecutableReply,
        well_formed(v),
    ensures
        parse(kind_of(v), encode(v) + rest) == Some(v),
{
    let b = encode(v) + rest;
    let none = Seq::<u8>::empty();
    match v {
        MessageView::StopExecutableReply(m) => {
            lemma_holds_at_front(le_u32(m.dummy), rest);
            lemma_read_u32(b, 0, m.dummy);
        },
        _ => {},
    }
}

proof fn lemma_parse_stdout_output(v: MessageView, rest: Seq<u8>)
    requires
        v is StdoutOutput,
        well_formed(v),
    ensures
        parse(kind_of(v), encode(v) + rest) == Some(v),
{
    let b = encode(v) + rest;
    let none = Seq::<u8>::empty();
    match v {
        MessageView::StdoutOutput { data } => {
            lemma_holds_at_front(enc_bytes(data), rest);
            lemma_read_bytes(b, 0, data);
        },
        _ => {},
    }
}

proof fn lemma_parse_stderr_output(v: MessageView, rest: Seq<u8>)
    requires
        v is StderrOutput,
        well_formed(v),
    ensures
        parse(kind_of(v), encode(v) + rest) == Some(v),
{
    let b = encode(v) + rest;
    let none = Seq::<u8>::empty();
    match v {
        MessageView::StderrOutput { data } => {
            lemma_holds_at_front(enc_bytes(data), rest);
            lemma_read_bytes(b, 0, data);
        },
        _ => {},
    }
}

proof fn lemma_parse_file_open_request(v: MessageView, rest: Seq<u8>)
    requires
        v is FileOpenRequest,
        well_formed(v),
    ensures
        parse(kind_of(v), encode(v) + rest) == Some(v),
{
    let b = encode(v) + rest;
    let none = Seq::<u8>::empty();
    match v {
        MessageView::FileOpenRequest { path } => {
            lemma_holds_at_front(enc_str(path), rest);
            lemma_read_str(b, 0, path);
        },
        _ => {},
    }
}

proof fn lemma_parse_file_open_reply(v: MessageView, rest: Seq<u8>)
    requires
        v is FileOpenReply,
        well_formed(v),
    ensures
        parse(kind_of(v), encode(v) + rest) == Some(v),
{
    let b = encode(v) + rest;
    let none = Seq::<u8>::empty();
    match v {
        MessageView::FileOpenReply(m) => {
            let e1 = le_u32(m.handle);
            let e2 = le_u64(m.size);
            let e3 = le_i32(m.error);
            lemma_layout(e1, e2, e3, none, rest);
            assert(b =~= e1 + e2 + e3 + none + rest);
            lemma_read_u32(b, 0, m.handle);
            lemma_read_u64(b, 4, m.size);
            lemma_read_i32(b, 12, m.error);
        },
        _ => {},
    }
}

proof fn lemma_parse_file_read_request(v: MessageView, rest: Seq<u8>)
    requires
        v is FileReadRequest,
        well_formed(v),
    ensures
        parse(kind_of(v), encode(v) + rest) == Some(v),
{
    let b = encode(v) + rest;
    let none = Seq::<u8>::empty();
    match v {
        MessageView::FileReadRequest(m) => {
            let e1 = le_u32(m.handle);
            let e2 = le_u64(m.offset);
            let e3 = le_u32(m.size);
            lemma_layout(e1, e2, e3, none, rest);
            assert(b =~= e1 + e2 + e3 + none + rest);
            lemma_read_u32(b, 0, m.handle);
            lemma_read_u64(b, 4, m.offset);
            lemma_read_u32(b, 12, m.size);
        },
        _ => {},
    }
}

proof fn lemma_parse_file_read_reply(v: MessageView, rest: Seq<u8>)
    requires
        v is FileReadReply,
        well_formed(v),
    ensures
        parse(kind_of(v), encode(v) + rest) == Some(v),
{
    let b = encode(v) + rest;
    let none = Seq::<u8>::empty();
    match v {
        MessageView::FileReadReply { data, error } => {
            let e1 = enc_bytes(data);
            let e2 = le_i32(error);
            lemma_layout(e1, e2, none, none, rest);
            assert(b =~= e1 + e2 + none + none + rest);
            lemma_read_bytes(b, 0, data);
            lemma_read_i32(b, e1.len() as int, error);
        },
        _ => {},
    }
}

proof fn lemma_parse_file_close_request(v: MessageView, rest: Seq<u8>)
    requires
        v is FileCloseRequest,
        well_formed(v),
    ensures
        parse(kind_of(v), encode(v) + rest) == Some(v),
{
    let b = encode(v) + rest;
    let none = Seq::<u8>::empty();
    match v {
        MessageView::FileCloseRequest(m) => {
            lemma_holds_at_front(le_u32(m.handle), rest);
            lemma_read_u32(b, 0, m.handle);
        },
        _ => {},
    }
}

proof fn lemma_parse_file_close_reply(v: MessageView, rest: Seq<u8>)
    requires
        v is FileCloseReply,
        well_formed(v),
    ensures
        parse(kind_of(v), encode(v) + rest) == Some(v),
{
    let b = encode(v) + rest;
    let none = Seq::<u8>::empty();
    match v {
        MessageView::FileCloseReply(m) => {
            lemma_holds_at_front(le_i32(m.error), rest);
            lemma_read_i32(b, 0, m.error);
        },
        _ => {},
    }
}

proof fn lemma_parse_file_stat_request(v: MessageView, rest: Seq<u8>)
    requires
        v is FileStatRequest,
        well_formed(v),
    ensures
        parse(kind_of(v), encode(v) + rest) == Some(v),
{
    let b = encode(v) + rest;
    let none = Seq::<u8>::empty();
    match v {
        MessageView::FileStatRequest { path } => {
            lemma_holds_at_front(enc_str(path), rest);
            lemma_read_str(b, 0, path);
        },
        _ => {},
    }
}

proof fn lemma_parse_file_stat_reply(v: MessageView, rest: Seq<u8>)
    requires
        v is FileStatReply,
        well_formed(v),
    ensures
        parse(kind_of(v), encode(v) + rest) == Some(v),
{
    let b = encode(v) + rest;
    let none = Seq::<u8>::empty();
    match v {
        MessageView::FileStatReply(m) => {
            let e1 = le_u64(m.size);
            let e2 = le_i64(m.mtime);
            let e3 = enc_bool(m.is_dir);
            let e4 = le_i32(m.error);
            lemma_layout(e1, e2, e3, e4, rest);
            lemma_read_u64(b, 0, m.size);
            lemma_read_i64(b, 8, m.mtime);
            lemma_read_bool(b, 16, m.is_dir);
            lemma_read_i32(b, 17, m.error);
        },
        _ => {},
    }
}

proof fn lemma_parse_file_readdir_request(v: MessageView, rest: Seq<u8>)
    requires
        v is FileReaddirRequest,
        well_formed(v),
    ensures
        parse(kind_of(v), encode(v) + rest) == Some(v),
{
    let b = encode(v) + rest;
    let none = Seq::<u8>::empty();
    match v {
        MessageView::FileReaddirRequest { path } => {
            lemma_holds_at_front(enc_str(path), rest);
            lemma_read_str(b, 0, path);
        },
        _ => {},
    }
}

proof fn lemma_parse_file_readdir_reply(v: MessageView, rest: Seq<u8>)
    requires
        v is FileReaddirReply,
        well_formed(v),
    ensures
        parse(kind_of(v), encode(v) + rest) == Some(v),
{
    let b = encode(v) + rest;
    let none = Seq::<u8>::empty();
    match v {
        MessageView::FileReaddirReply { entries, error } => {
            let e1 = enc_entries(entries);
            let e2 = le_i32(error);
            lemma_layout(e1, e2, none, none, rest);
            assert(b =~= e1 + e2 + none + none + rest);
            lemma_read_entries(b, 0, entries);
            lemma_read_i32(b, e1.len() as int, error);
        },
        _ => {},
    }
}

proof fn lemma_parse_library_data_request(v: MessageView, rest: Seq<u8>)
    requires
        v is LibraryDataRequest,
        well_formed(v),
    ensures
        parse(kind_of(v), encode(v) + rest) == Some(v),
{
    let b = encode(v) + rest;
    let none = Seq::<u8>::empty();
    match v {
        MessageView::LibraryDataRequest { name, data } => {
            let e1 = enc_str(name);
            let e2 = enc_bytes(data);
            lemma_layout(e1, e2, none, none, rest);
            assert(b =~= e1 + e2 + none + none + rest);
            lemma_read_str(b, 0, name);
            lemma_read_bytes(b, e1.len() as int, data);
        },
        _ => {},
    }
}

proof fn lemma_parse_library_data_reply(v: MessageView, rest: Seq<u8>)
    requires
        v is LibraryDataReply,
        well_formed(v),
    ensures
        parse(kind_of(v), encode(v) + rest) == Some(v),
{
    let b = encode(v) + rest;
    let none = Seq::<u8>::empty();
    match v {
        MessageView::LibraryDataReply(m) => {
            lemma_holds_at_front(le_i32(m.error), rest);
            lemma_read_i32(b, 0, m.error);
        },
        _ => {},
    }
}

/// Reading a payload from the front of its own encoding gives the message
/// back, whatever bytes follow.
pub proof fn lemma_parse_encode(v: MessageView, rest: Seq<u8>)
    requires
        well_formed(v),
    ensures
        parse(kind_of(v), encode(v) + rest) == Some(v),
{
    match v {
        MessageView::HandshakeRequest(_) => lemma_parse_handshake_request(v, rest),
        MessageView::HandshakeReply(_) => lemma_parse_handshake_reply(v, rest),
        MessageView::LaunchExecutableRequest { .. } => lemma_parse_launch_executable_request(v, rest),
        MessageView::LaunchExecutableReply { .. } => lemma_parse_launch_executable_reply(v, rest),
        MessageView::StopExecutableRequest(_) => lemma_parse_stop_executable_request(v, rest),
        MessageView::StopExecutableReply(_) => lemma_parse_stop_executable_reply(v, rest),
        MessageView::StdoutOutput { .. } => lemma_parse_stdout_output(v, rest),
        MessageView::StderrOutput { .. } => lemma_parse_stderr_output(v, rest),
        MessageView::FileOpenRequest { .. } => lemma_parse_file_open_request(v, rest),
        MessageView::FileOpenReply(_) => lemma_parse_file_open_reply(v, rest),
        MessageView::FileReadRequest(_) => lemma_parse_file_read_request(v, rest),
        MessageView::FileReadReply { .. } => lemma_parse_file_read_reply(v, rest),
        MessageView::FileCloseRequest(_) => lemma_parse_file_close_request(v, rest),
        MessageView::FileCloseReply(_) => lemma_parse_file_close_reply(v, rest),
        MessageView::FileStatRequest { .. } => lemma_parse_file_stat_request(v, rest),
        MessageView::FileStatReply(_) => lemma_parse_file_stat_reply(v, rest),
        MessageView::FileReaddirRequest { .. } => lemma_parse_file_readdir_request(v, rest),
        MessageView::FileReaddirReply { .. } => lemma_parse_file_readdir_reply(v, rest),
        MessageView::LibraryDataRequest { .. } => lemma_parse_library_data_request(v, rest),
        MessageView::LibraryDataReply(_) => lemma_parse_library_data_reply(v, rest),
    }
}

/// Round trip: deserializing the serialized form of a message under the
/// message's own tag gives the message back.
pub proof fn lemma_round_trip(v: MessageView)
    requires
        well_formed(v),
    ensures
        spec_deserialize(tag_of(kind_of(v)), encode(v)) == Ok::<MessageView, CodecError>(v),
{
    lemma_parse_encode(v, Seq::empty());
    assert(encode(v) + Seq::<u8>::empty() =~= encode(v));
}

/// No message travels under the reserved tag or under a tag out of range.
pub proof fn lemma_kind_has_payload(v: MessageView)
    ensures
        kind_of(v) != Messages::NoMessage,
        message_of_tag(tag_of(kind_of(v))) == Some(kind_of(v)),
{
}

// ---------------------------------------------------------------------------
// What is read stands there
// ---------------------------------------------------------------------------

/// The entries that `read_entry_list` reads are those whose encodings stand
/// one after the other at the position.
proof fn lemma_stands_entry_list(b: Seq<u8>, pos: int, count: nat)
    requires
        0 <= pos <= b.len(),
        read_entry_list(b, pos, count) is Some,
    ensures
        read_entry_list(b, pos, count).unwrap().0.len() == count,
        forall|i: int|
            0 <= i < count ==> fits_str(#[trigger] read_entry_list(b, pos, count).unwrap().0[i].name),
        holds_at(b, pos, enc_entry_list(read_entry_list(b, pos, count).unwrap().0)),
        read_entry_list(b, pos, count).unwrap().1 == pos + enc_entry_list(
            read_entry_list(b, pos, count).unwrap().0,
        ).len(),
    decreases count,
{
    let es = read_entry_list(b, pos, count).unwrap().0;
    if count == 0 {
        assert(enc_entry_list(es) =~= Seq::<u8>::empty());
        assert(b.subrange(pos, pos) =~= Seq::<u8>::empty());
    } else {
        let front = read_entry_list(b, pos, (count - 1) as nat).unwrap();
        lemma_stands_entry_list(b, pos, (count - 1) as nat);
        let at = front.1;
        lemma_stands_str(b, at);
        let name = read_str(b, at).unwrap();
        lemma_stands_bool(b, name.1);
        let is_dir = read_bool(b, name.1).unwrap();
        let last = DirEntryView { name: name.0, is_dir: is_dir.0 };
        lemma_holds_at_concat(b, at, enc_str(name.0), enc_bool(is_dir.0));
        assert(es == front.0.push(last));
        assert(es.drop_last() =~= front.0);
        assert(es.last() == last);
        lemma_holds_at_concat(b, pos, enc_entry_list(front.0), enc_entry(last));
        assert forall|i: int| 0 <= i < count implies fits_str(#[trigger] es[i].name) by {
            if i < count - 1 {
                assert(es[i] == front.0[i]);
            }
        }
    }
}

/// The listing that `read_entries` reads is the one whose encoding stands at
/// the position.
proof fn lemma_stands_entries(b: Seq<u8>, pos: int)
    requires
        read_entries(b, pos) is Some,
    ensures
        fits_entries(read_entries(b, pos).unwrap().0),
        holds_at(b, pos, enc_entries(read_entries(b, pos).unwrap().0)),
        read_entries(b, pos).unwrap().1 == pos + enc_entries(read_entries(b, pos).unwrap().0).len(),
{
    lemma_stands_u64(b, pos);
    let n = read_u64(b, pos).unwrap().0;
    lemma_stands_entry_list(b, pos + 8, n as nat);
    lemma_read_u64(b, pos, n);
    let es = read_entries(b, pos).unwrap().0;
    lemma_holds_at_concat(b, pos, le_u64(n), enc_entry_list(es));
}

proof fn lemma_stands_handshake_request(b: Seq<u8>)
    requires
        parse(Messages::HandshakeRequest, b) is Some,
    ensures
        kind_of(parse(Messages::HandshakeRequest, b).unwrap()) == Messages::HandshakeRequest,
        well_formed(parse(Messages::HandshakeRequest, b).unwrap()),
        holds_at(b, 0, encode(parse(Messages::HandshakeRequest, b).unwrap())),
{
    let at0: int = 0;
    lemma_stands_u8(b, at0);
    let f0 = read_u8(b, at0).unwrap();
    let e0 = enc_u8(f0.0);
    let at1: int = f0.1;
    lemma_stands_u8(b, at1);
    let f1 = read_u8(b, at1).unwrap();
    let e1 = enc_u8(f1.0);
    let at2: int = f1.1;
    lemma_holds_at_concat(b, 0, e0, e1);
}

proof fn lemma_stands_handshake_reply(b: Seq<u8>)
    requires
        parse(Messages::HandshakeReply, b) is Some,
    ensures
        kind_of(parse(Messages::HandshakeReply, b).unwrap()) == Messages::HandshakeReply,
        well_formed(parse(Messages::HandshakeReply, b).unwrap()),
        holds_at(b, 0, encode(parse(Messages::HandshakeReply, b).unwrap())),
{
    let at0: int = 0;
    lemma_stands_u8(b, at0);
    let f0 = read_u8(b, at0).unwrap();
    let e0 = enc_u8(f0.0);
    let at1: int = f0.1;
    lemma_stands_u8(b, at1);
    let f1 = read_u8(b, at1).unwrap();
    let e1 = enc_u8(f1.0);
    let at2: int = f1.1;
    lemma_holds_at_concat(b, 0, e0, e1);
}

proof fn lemma_stands_launch_executable_request(b: Seq<u8>)
    requires
        parse(Messages::LaunchExecutableRequest, b) is Some,
    ensures
        kind_of(parse(Messages::LaunchExecutableRequest, b).unwrap()) == Messages::LaunchExecutableRequest,
        well_formed(parse(Messages::LaunchExecutableRequest, b).unwrap()),
        holds_at(b, 0, encode(parse(Messages::LaunchExecutableRequest, b).unwrap())),
{
    let at0: int = 0;
    lemma_stands_bool(b, at0);
    let f0 = read_bool(b, at0).unwrap();
    let e0 = enc_bool(f0.0);
    let at1: int = f0.1;
    lemma_stands_str(b, at1);
    let f1 = read_str(b, at1).unwrap();
    let e1 = enc_str(f1.0);
    let at2: int = f1.1;
    lemma_stands_bytes(b, at2);
    let f2 = read_bytes(b, at2).unwrap();
    let e2 = enc_bytes(f2.0);
    let at3: int = f2.1;
    lemma_holds_at_concat(b, 0, e0, e1);
    lemma_holds_at_concat(b, 0, e0 + e1, e2);
}

proof fn lemma_stands_launch_executable_reply(b: Seq<u8>)
    requires
        parse(Messages::LaunchExecutableReply, b) is Some,
    ensures
        kind_of(parse(Messages::LaunchExecutableReply, b).unwrap()) == Messages::LaunchExecutableReply,
        well_formed(parse(Messages::LaunchExecutableReply, b).unwrap()),
        holds_at(b, 0, encode(parse(Messages::LaunchExecutableReply, b).unwrap())),
{
    let at0: int = 0;
    lemma_stands_i32(b, at0);
    let f0 = read_i32(b, at0).unwrap();
    let e0 = le_i32(f0.0);
    let at1: int = f0.1;
    lemma_stands_opt_str(b, at1);
    let f1 = read_opt_str(b, at1).unwrap();
    let e1 = enc_opt_str(f1.0);
    let at2: int = f1.1;
    lemma_holds_at_concat(b, 0, e0, e1);
}

proof fn lemma_stands_stop_executable_request(b: Seq<u8>)
    requires
        parse(Messages::StopExecutableRequest, b) is Some,
    ensures
        kind_of(parse(Messages::StopExecutableRequest, b).unwrap()) == Messages::StopExecutableRequest,
        well_formed(parse(Messages::StopExecutableRequest, b).unwrap()),
        holds_at(b, 0, encode(parse(Messages::StopExecutableRequest, b).unwrap())),
{
    let at0: int = 0;
    lemma_stands_u32(b, at0);
    let f0 = read_u32(b, at0).unwrap();
    let e0 = le_u32(f0.0);
    let at1: int = f0.1;
}

proof fn lemma_stands_stop_executable_reply(b: Seq<u8>)
    requires
        parse(Messages::StopExecutableReply, b) is Some,
    ensures
        kind_of(parse(Messages::StopExecutableReply, b).unwrap()) == Messages::StopExecutableReply,
        well_formed(parse(Messages::StopExecutableReply, b).unwrap()),
        holds_at(b, 0, encode(parse(Messages::StopExecutableReply, b).unwrap())),
{
    let at0: int = 0;
    lemma_stands_u32(b, at0);
    let f0 = read_u32(b, at0).unwrap();
    let e0 = le_u32(f0.0);
    let at1: int = f0.1;
}

proof fn lemma_stands_stdout_output(b: Seq<u8>)
    requires
        parse(Messages::StdoutOutput, b) is Some,
    ensures
        kind_of(parse(Messages::StdoutOutput, b).unwrap()) == Messages::StdoutOutput,
        well_formed(parse(Messages::StdoutOutput, b).unwrap()),
        holds_at(b, 0, encode(parse(Messages::StdoutOutput, b).unwrap())),
{
    let at0: int = 0;
    lemma_stands_bytes(b, at0);
    let f0 = read_bytes(b, at0).unwrap();
    let e0 = enc_bytes(f0.0);
    let at1: int = f0.1;
}

proof fn lemma_stands_stderr_output(b: Seq<u8>)
    requires
        parse(Messages::StderrOutput, b) is Some,
    ensures
        kind_of(parse(Messages::StderrOutput, b).unwrap()) == Messages::StderrOutput,
        well_formed(parse(Messages::StderrOutput, b).unwrap()),
        holds_at(b, 0, encode(parse(Messages::StderrOutput, b).unwrap())),
{
    let at0: int = 0;
    lemma_stands_bytes(b, at0);
    let f0 = read_bytes(b, at0).unwrap();
    let e0 = enc_bytes(f0.0);
    let at1: int = f0.1;
}

proof fn lemma_stands_file_open_request(b: Seq<u8>)
    requires
        parse(Messages::FileOpenRequest, b) is Some,
    ensures
        kind_of(parse(Messages::FileOpenRequest, b).unwrap()) == Messages::FileOpenRequest,
        well_formed(parse(Messages::FileOpenRequest, b).unwrap()),
        holds_at(b, 0, encode(parse(Messages::FileOpenRequest, b).unwrap())),
{
    let at0: int = 0;
    lemma_stands_str(b, at0);
    let f0 = read_str(b, at0).unwrap();
    let e0 = enc_str(f0.0);
    let at1: int = f0.1;
}

proof fn lemma_stands_file_open_reply(b: Seq<u8>)
    requires
        parse(Messages::FileOpenReply, b) is Some,
    ensures
        kind_of(parse(Messages::FileOpenReply, b).unwrap()) == Messages::FileOpenReply,
        well_formed(parse(Messages::FileOpenReply, b).unwrap()),
        holds_at(b, 0, encode(parse(Messages::FileOpenReply, b).unwrap())),
{
    let at0: int = 0;
    lemma_stands_u32(b, at0);
    let f0 = read_u32(b, at0).unwrap();
    let e0 = le_u32(f0.0);
    let at1: int = f0.1;
    lemma_stands_u64(b, at1);
    let f1 = read_u64(b, at1).unwrap();
    let e1 = le_u64(f1.0);
    let at2: int = f1.1;
    lemma_stands_i32(b, at2);
    let f2 = read_i32(b, at2).unwrap();
    let e2 = le_i32(f2.0);
    let at3: int = f2.1;
    lemma_holds_at_concat(b, 0, e0, e1);
    lemma_holds_at_concat(b, 0, e0 + e1, e2);
}

proof fn lemma_stands_file_read_request(b: Seq<u8>)
    requires
        parse(Messages::FileReadRequest, b) is Some,
    ensures
        kind_of(parse(Messages::FileReadRequest, b).unwrap()) == Messages::FileReadRequest,
        well_formed(parse(Messages::FileReadRequest, b).unwrap()),
        holds_at(b, 0, encode(parse(Messages::FileReadRequest, b).unwrap())),
{
    let at0: int = 0;
    lemma_stands_u32(b, at0);
    let f0 = read_u32(b, at0).unwrap();
    let e0 = le_u32(f0.0);
    let at1: int = f0.1;
    lemma_stands_u64(b, at1);
    let f1 = read_u64(b, at1).unwrap();
    let e1 = le_u64(f1.0);
    let at2: int = f1.1;
    lemma_stands_u32(b, at2);
    let f2 = read_u32(b, at2).unwrap();
    let e2 = le_u32(f2.0);
    let at3: int = f2.1;
    lemma_holds_at_concat(b, 0, e0, e1);
    lemma_holds_at_concat(b, 0, e0 + e1, e2);
}

proof fn lemma_stands_file_read_reply(b: Seq<u8>)
    requires
        parse(Messages::FileReadReply, b) is Some,
    ensures
        kind_of(parse(Messages::FileReadReply, b).unwrap()) == Messages::FileReadReply,
        well_formed(parse(Messages::FileReadReply, b).unwrap()),
        holds_at(b, 0, encode(parse(Messages::FileReadReply, b).unwrap())),
{
    let at0: int = 0;
    lemma_stands_bytes(b, at0);
    let f0 = read_bytes(b, at0).unwrap();
    let e0 = enc_bytes(f0.0);
    let at1: int = f0.1;
    lemma_stands_i32(b, at1);
    let f1 = read_i32(b, at1).unwrap();
    let e1 = le_i32(f1.0);
    let at2: int = f1.1;
    lemma_holds_at_concat(b, 0, e0, e1);
}

proof fn lemma_stands_file_close_request(b: Seq<u8>)
    requires
        parse(Messages::FileCloseRequest, b) is Some,
    ensures
        kind_of(parse(Messages::FileCloseRequest, b).unwrap()) == Messages::FileCloseRequest,
        well_formed(parse(Messages::FileCloseRequest, b).unwrap()),
        holds_at(b, 0, encode(parse(Messages::FileCloseRequest, b).unwrap())),
{
    let at0: int = 0;
    lemma_stands_u32(b, at0);
    let f0 = read_u32(b, at0).unwrap();
    let e0 = le_u32(f0.0);
    let at1: int = f0.1;
}

proof fn lemma_stands_file_close_reply(b: Seq<u8>)
    requires
        parse(Messages::FileCloseReply, b) is Some,
    ensures
        kind_of(parse(Messages::FileCloseReply, b).unwrap()) == Messages::FileCloseReply,
        well_formed(parse(Messages::FileCloseReply, b).unwrap()),
        holds_at(b, 0, encode(parse(Messages::FileCloseReply, b).unwrap())),
{
    let at0: int = 0;
    lemma_stands_i32(b, at0);
    let f0 = read_i32(b, at0).unwrap();
    let e0 = le_i32(f0.0);
    let at1: int = f0.1;
}

proof fn lemma_stands_file_stat_request(b: Seq<u8>)
    requires
        parse(Messages::FileStatRequest, b) is Some,
    ensures
        kind_of(parse(Messages::FileStatRequest, b).unwrap()) == Messages::FileStatRequest,
        well_formed(parse(Messages::FileStatRequest, b).unwrap()),
        holds_at(b, 0, encode(parse(Messages::FileStatRequest, b).unwrap())),
{
    let at0: int = 0;
    lemma_stands_str(b, at0);
    let f0 = read_str(b, at0).unwrap();
    let e0 = enc_str(f0.0);
    let at1: int = f0.1;
}

proof fn lemma_stands_file_stat_reply(b: Seq<u8>)
    requires
        parse(Messages::FileStatReply, b) is Some,
    ensures
        kind_of(parse(Messages::FileStatReply, b).unwrap()) == Messages::FileStatReply,
        well_formed(parse(Messages::FileStatReply, b).unwrap()),
        holds_at(b, 0, encode(parse(Messages::FileStatReply, b).unwrap())),
{
    let at0: int = 0;
    lemma_stands_u64(b, at0);
    let f0 = read_u64(b, at0).unwrap();
    let e0 = le_u64(f0.0);
    let at1: int = f0.1;
    lemma_stands_i64(b, at1);
    let f1 = read_i64(b, at1).unwrap();
    let e1 = le_i64(f1.0);
    let at2: int = f1.1;
    lemma_stands_bool(b, at2);
    let f2 = read_bool(b, at2).unwrap();
    let e2 = enc_bool(f2.0);
    let at3: int = f2.1;
    lemma_stands_i32(b, at3);
    let f3 = read_i32(b, at3).unwrap();
    let e3 = le_i32(f3.0);
    let at4: int = f3.1;
    lemma_holds_at_concat(b, 0, e0, e1);
    lemma_holds_at_concat(b, 0, e0 + e1, e2);
    lemma_holds_at_concat(b, 0, e0 + e1 + e2, e3);
}

proof fn lemma_stands_file_readdir_request(b: Seq<u8>)
    requires
        parse(Messages::FileReaddirRequest, b) is Some,
    ensures
        kind_of(parse(Messages::FileReaddirRequest, b).unwrap()) == Messages::FileReaddirRequest,
        well_formed(parse(Messages::FileReaddirRequest, b).unwrap()),
        holds_at(b, 0, encode(parse(Messages::FileReaddirRequest, b).unwrap())),
{
    let at0: int = 0;
    lemma_stands_str(b, at0);
    let f0 = read_str(b, at0).unwrap();
    let e0 = enc_str(f0.0);
    let at1: int = f0.1;
}

proof fn lemma_stands_file_readdir_reply(b: Seq<u8>)
    requires
        parse(Messages::FileReaddirReply, b) is Some,
    ensures
        kind_of(parse(Messages::FileReaddirReply, b).unwrap()) == Messages::FileReaddirReply,
        well_formed(parse(Messages::FileReaddirReply, b).unwrap()),
        holds_at(b, 0, encode(parse(Messages::FileReaddirReply, b).unwrap())),
{
    let at0: int = 0;
    lemma_stands_entries(b, at0);
    let f0 = read_entries(b, at0).unwrap();
    let e0 = enc_entries(f0.0);
    let at1: int = f0.1;
    lemma_stands_i32(b, at1);
    let f1 = read_i32(b, at1).unwrap();
    let e1 = le_i32(f1.0);
    let at2: int = f1.1;
    lemma_holds_at_concat(b, 0, e0, e1);
}

proof fn lemma_stands_library_data_request(b: Seq<u8>)
    requires
        parse(Messages::LibraryDataRequest, b) is Some,
    ensures
        kind_of(parse(Messages::LibraryDataRequest, b).unwrap()) == Messages::LibraryDataRequest,
        well_formed(parse(Messages::LibraryDataRequest, b).unwrap()),
        holds_at(b, 0, encode(parse(Messages::LibraryDataRequest, b).unwrap())),
{
    let at0: int = 0;
    lemma_stands_str(b, at0);
    let f0 = read_str(b, at0).unwrap();
    let e0 = enc_str(f0.0);
    let at1: int = f0.1;
    lemma_stands_bytes(b, at1);
    let f1 = read_bytes(b, at1).unwrap();
    let e1 = enc_bytes(f1.0);
    let at2: int = f1.1;
    lemma_holds_at_concat(b, 0, e0, e1);
}

proof fn lemma_stands_library_data_reply(b: Seq<u8>)
    requires
        parse(Messages::LibraryDataReply, b) is Some,
    ensures
        kind_of(parse(Messages::LibraryDataReply, b).unwrap()) == Messages::LibraryDataReply,
        well_formed(parse(Messages::LibraryDataReply, b).unwrap()),
        holds_at(b, 0, encode(parse(Messages::LibraryDataReply, b).unwrap())),
{
    let at0: int = 0;
    lemma_stands_i32(b, at0);
    let f0 = read_i32(b, at0).unwrap();
    let e0 = le_i32(f0.0);
    let at1: int = f0.1;
}

/// What is read stands there: a message that `parse` reads from some bytes
/// is of the type asked for, is well formed, and its encoding opens those
/// bytes. Together with `lemma_parse_encode` this makes reading the inverse
/// of encoding.
pub proof fn lemma_encode_parse(kind: Messages, b: Seq<u8>)
    requires
        parse(kind, b) is Some,
    ensures
        kind_of(parse(kind, b).unwrap()) == kind,
        well_formed(parse(kind, b).unwrap()),
        holds_at(b, 0, encode(parse(kind, b).unwrap())),
        encode(parse(kind, b).unwrap()).is_prefix_of(b),
{
    match kind {
        Messages::HandshakeRequest => lemma_stands_handshake_request(b),
        Messages::HandshakeReply => lemma_stands_handshake_reply(b),
        Messages::LaunchExecutableRequest => lemma_stands_launch_executable_request(b),
        Messages::LaunchExecutableReply => lemma_stands_launch_executable_reply(b),
        Messages::StopExecutableRequest => lemma_stands_stop_executable_request(b),
        Messages::StopExecutableReply => lemma_stands_stop_executable_reply(b),
        Messages::StdoutOutput => lemma_stands_stdout_output(b),
        Messages::StderrOutput => lemma_stands_stderr_output(b),
        Messages::FileOpenRequest => lemma_stands_file_open_request(b),
        Messages::FileOpenReply => lemma_stands_file_open_reply(b),
        Messages::FileReadRequest => lemma_stands_file_read_request(b),
        Messages::FileReadReply => lemma_stands_file_read_reply(b),
        Messages::FileCloseRequest => lemma_stands_file_close_request(b),
        Messages::FileCloseReply => lemma_stands_file_close_reply(b),
        Messages::FileStatRequest => lemma_stands_file_stat_request(b),
        Messages::FileStatReply => lemma_stands_file_stat_reply(b),
        Messages::FileReaddirRequest => lemma_stands_file_readdir_request(b),
        Messages::FileReaddirReply => lemma_stands_file_readdir_reply(b),
        Messages::LibraryDataRequest => lemma_stands_library_data_request(b),
        Messages::LibraryDataReply => lemma_stands_library_data_reply(b),
        Messages::NoMessage => {},
    }
    let e = encode(parse(kind, b).unwrap());
    assert(e =~= b.subrange(0, e.len() as int));
}

} // verus!
