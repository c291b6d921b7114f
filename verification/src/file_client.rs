//! The client of the file service: what to send for each operation, which
//! reply to wait for, and what the reply comes to.
//!
//! An operation sends one request and takes the next frame as its reply. A
//! frame of another type than the reply expected, and a reply that cannot
//! be read, are `EIO`. A reply with an error number gives that number.

use crate::codec::{deserialize_as, parse, Message, MessageView};
use crate::errno::EIO;
use crate::messages::{
    DirEntry, FileCloseRequest, FileOpenRequest, FileReadRequest, FileReaddirRequest,
    FileStatRequest, Messages,
};
use vstd::prelude::*;
use vstd::string::*;

verus! {

/// The most bytes that a download asks for at once.
pub const DOWNLOAD_CHUNK_SIZE: u32 = 64 * 1024;

/// How long one operation may take, in seconds.
pub const OPERATION_TIMEOUT_SECS: u64 = 30;

/// The type of the reply that answers a request; `None` for a message that
/// is no request to the file service.
pub fn expected_reply(request: Messages) -> (r: Option<Messages>)
    ensures
        r == match request {
            Messages::FileOpenRequest => Some(Messages::FileOpenReply),
            Messages::FileReadRequest => Some(Messages::FileReadReply),
            Messages::FileCloseRequest => Some(Messages::FileCloseReply),
            Messages::FileStatRequest => Some(Messages::FileStatReply),
            Messages::FileReaddirRequest => Some(Messages::FileReaddirReply),
            _ => None,
        },
{
    match request {
        Messages::FileOpenRequest => Some(Messages::FileOpenReply),
        Messages::FileReadRequest => Some(Messages::FileReadReply),
        Messages::FileCloseRequest => Some(Messages::FileCloseReply),
        Messages::FileStatRequest => Some(Messages::FileStatReply),
        Messages::FileReaddirRequest => Some(Messages::FileReaddirReply),
        _ => None,
    }
}

/// The request that opens a file.
pub fn open_request(path: String) -> (m: Message)
    ensures
        m == Message::FileOpenRequest(FileOpenRequest { path }),
{
    Message::FileOpenRequest(FileOpenRequest { path })
}

/// The request that reads from an open file.
pub fn read_request(handle: u32, offset: u64, size: u32) -> (m: Message)
    ensures
        m == Message::FileReadRequest(FileReadRequest { handle, offset, size }),
{
    Message::FileReadRequest(FileReadRequest { handle, offset, size })
}

/// The request that closes a file.
pub fn close_request(handle: u32) -> (m: Message)
    ensures
        m == Message::FileCloseRequest(FileCloseRequest { handle }),
{
    Message::FileCloseRequest(FileCloseRequest { handle })
}

/// The request for the statistics of a path.
pub fn stat_request(path: String) -> (m: Message)
    ensures
        m == Message::FileStatRequest(FileStatRequest { path }),
{
    Message::FileStatRequest(FileStatRequest { path })
}

/// The request for the entries of a directory.
pub fn readdir_request(path: String) -> (m: Message)
    ensures
        m == Message::FileReaddirRequest(FileReaddirRequest { path }),
{
    Message::FileReaddirRequest(FileReaddirRequest { path })
}

/// The payload of a frame as the reply expected: `None` unless the frame
/// has the type expected and its payload can be read.
pub open spec fn reply_view(expected: Messages, received: Messages, payload: Seq<u8>) -> Option<
    MessageView,
> {
    if received == expected {
        parse(received, payload)
    } else {
        None
    }
}

/// Takes a frame as the reply expected. A frame of another type, and a
/// payload that cannot be read, are `EIO`.
pub fn send_request_and_wait(expected: Messages, received: Messages, payload: &[u8]) -> (r: Result<
    Message,
    i32,
>)
    ensures
        match reply_view(expected, received, payload@) {
            Some(v) => r matches Ok(m) && m@ == v,
            None => r == Err::<Message, i32>(EIO),
        },
{
    if received != expected {
        return Err(EIO);
    }
    match deserialize_as(received, payload) {
        Ok(m) => Ok(m),
        Err(_) => Err(EIO),
    }
}

/// What the reply to an open comes to: the handle and the size.
pub fn open(received: Messages, payload: &[u8]) -> (r: Result<(u32, u64), i32>)
    ensures
        r == match reply_view(Messages::FileOpenReply, received, payload@) {
            Some(MessageView::FileOpenReply(p)) => if p.error != 0 {
                Err::<(u32, u64), i32>(p.error)
            } else {
                Ok::<(u32, u64), i32>((p.handle, p.size))
            },
            _ => Err::<(u32, u64), i32>(EIO),
        },
{
    match send_request_and_wait(Messages::FileOpenReply, received, payload) {
        Ok(Message::FileOpenReply(p)) => {
            if p.error != 0 {
                Err(p.error)
            } else {
                Ok((p.handle, p.size))
            }
        },
        _ => Err(EIO),
    }
}

/// What the reply to a read comes to: the bytes read.
pub fn read(received: Messages, payload: &[u8]) -> (r: Result<Vec<u8>, i32>)
    ensures
        match reply_view(Messages::FileReadReply, received, payload@) {
            Some(MessageView::FileReadReply { data, error }) => if error != 0 {
                r == Err::<Vec<u8>, i32>(error)
            } else {
                r matches Ok(d) && d@ == data
            },
            _ => r == Err::<Vec<u8>, i32>(EIO),
        },
{
    match send_request_and_wait(Messages::FileReadReply, received, payload) {
        Ok(Message::FileReadReply(p)) => {
            if p.error != 0 {
                Err(p.error)
            } else {
                Ok(p.data)
            }
        },
        _ => Err(EIO),
    }
}

/// What the reply to a close comes to.
pub fn close(received: Messages, payload: &[u8]) -> (r: Result<(), i32>)
    ensures
        r == match reply_view(Messages::FileCloseReply, received, payload@) {
            Some(MessageView::FileCloseReply(p)) => if p.error != 0 {
                Err::<(), i32>(p.error)
            } else {
                Ok::<(), i32>(())
            },
            _ => Err::<(), i32>(EIO),
        },
{
    match send_request_and_wait(Messages::FileCloseReply, received, payload) {
        Ok(Message::FileCloseReply(p)) => {
            if p.error != 0 {
                Err(p.error)
            } else {
                Ok(())
            }
        },
        _ => Err(EIO),
    }
}

/// What the reply to a stat comes to: size, modification time, and whether
/// the path is a directory.
pub fn stat(received: Messages, payload: &[u8]) -> (r: Result<(u64, i64, bool), i32>)
    ensures
        r == match reply_view(Messages::FileStatReply, received, payload@) {
            Some(MessageView::FileStatReply(p)) => if p.error != 0 {
                Err::<(u64, i64, bool), i32>(p.error)
            } else {
                Ok::<(u64, i64, bool), i32>((p.size, p.mtime, p.is_dir))
            },
            _ => Err::<(u64, i64, bool), i32>(EIO),
        },
{
    match send_request_and_wait(Messages::FileStatReply, received, payload) {
        Ok(Message::FileStatReply(p)) => {
            if p.error != 0 {
                Err(p.error)
            } else {
                Ok((p.size, p.mtime, p.is_dir))
            }
        },
        _ => Err(EIO),
    }
}

/// What the reply to a readdir comes to: the entries, in the order of the
/// reply.
pub fn readdir(received: Messages, payload: &[u8]) -> (r: Result<Vec<DirEntry>, i32>)
    ensures
        match reply_view(Messages::FileReaddirReply, received, payload@) {
            Some(MessageView::FileReaddirReply { entries, error }) => if error != 0 {
                r == Err::<Vec<DirEntry>, i32>(error)
            } else {
                r matches Ok(list) && crate::codec::entries_view(list@) == entries
            },
            _ => r == Err::<Vec<DirEntry>, i32>(EIO),
        },
{
    match send_request_and_wait(Messages::FileReaddirReply, received, payload) {
        Ok(Message::FileReaddirReply(p)) => {
            if p.error != 0 {
                Err(p.error)
            } else {
                Ok(p.entries)
            }
        },
        _ => Err(EIO),
    }
}

/// A file being fetched whole, chunk by chunk.
pub struct Download {
    handle: u32,
    size: u64,
    chunk_size: u32,
    data: Vec<u8>,
    /// Whether the Host has answered a read with no bytes.
    ended: bool,
}

impl Download {
    /// The handle of the file on the Host.
    pub closed spec fn handle(&self) -> u32 {
        self.handle
    }

    /// The size that the Host reported when the file was opened.
    pub closed spec fn size(&self) -> u64 {
        self.size
    }

    /// The most bytes asked for at once.
    pub closed spec fn chunk_size(&self) -> u32 {
        self.chunk_size
    }

    /// The bytes fetched so far.
    pub closed spec fn fetched(&self) -> Seq<u8> {
        self.data@
    }

    /// Whether the Host has answered a read with no bytes.
    pub closed spec fn ended(&self) -> bool {
        self.ended
    }

    /// Whether nothing more is to be asked for: the bytes fetched reach the
    /// size, or the Host has run out of bytes.
    pub open spec fn complete(&self) -> bool {
        self.ended() || self.fetched().len() >= self.size()
    }

    /// A download of the file behind `handle`, of `size` bytes, in chunks of
    /// at most `chunk_size` bytes.
    pub fn new(handle: u32, size: u64, chunk_size: u32) -> (d: Download)
        ensures
            d.handle() == handle,
            d.size() == size,
            d.chunk_size() == chunk_size,
            d.fetched() == Seq::<u8>::empty(),
            !d.ended(),
    {
        Download { handle, size, chunk_size, data: Vec::new(), ended: false }
    }

    /// The next read to ask of the Host: handle, offset and count. The
    /// offset is the number of bytes fetched; the count is what is left of
    /// the file, but the chunk size at most. `None` when the download is
    /// complete, or when the chunk size is 0.
    pub fn next_request(&self) -> (r: Option<(u32, u64, u32)>)
        ensures
            r == if self.complete() || self.chunk_size() == 0 {
                None::<(u32, u64, u32)>
            } else {
                Some(
                    (
                        self.handle(),
                        self.fetched().len() as u64,
                        if self.size() - self.fetched().len() < self.chunk_size() {
                            (self.size() - self.fetched().len()) as u32
                        } else {
                            self.chunk_size()
                        },
                    ),
                )
            },
    {
        let offset: u64 = self.data.len() as u64;
        if self.ended || offset >= self.size || self.chunk_size == 0 {
            return None;
        }
        let left: u64 = self.size - offset;
        let count: u32 = if left < self.chunk_size as u64 {
            left as u32
        } else {
            self.chunk_size
        };
        Some((self.handle, offset, count))
    }

    /// Takes in the bytes that a read brought. An empty chunk ends the
    /// download.
    pub fn received(&mut self, chunk: Vec<u8>)
        ensures
            final(self).handle() == old(self).handle(),
            final(self).size() == old(self).size(),
            final(self).chunk_size() == old(self).chunk_size(),
            final(self).fetched() == old(self).fetched() + chunk@,
            final(self).ended() == (old(self).ended() || chunk@.len() == 0),
    {
        if chunk.len() == 0 {
            self.ended = true;
        }
        let mut chunk = chunk;
        self.data.append(&mut chunk);
    }

    /// The bytes fetched.
    pub fn download_file(self) -> (data: Vec<u8>)
        ensures
            data@ == self.fetched(),
    {
        self.data
    }
}

} // verus!
