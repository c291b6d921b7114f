//! The Host's file service: a read-only view of one directory.
//!
//! The service decides; the program around it touches the filesystem. For a
//! request the service says what must be looked up or read, the program does
//! that and reports what the filesystem said, and the service builds the
//! reply. A file is given a handle only when its canonical path, as the
//! program reports it, lies in the base directory.

use crate::bytes::{contains, occurs_in, starts_with};
use crate::codec::Message;
use crate::errno::{EBADF, EINVAL, EIO, EISDIR, ENFILE, ENOENT};
use crate::messages::{
    DirEntry, FileCloseReply, FileOpenReply, FileReadReply, FileReaddirReply, FileStatReply,
};
use std::collections::HashMap;
use vstd::prelude::*;
use vstd::string::*;
use vstd::utf8::encode_utf8;

verus! {

broadcast use vstd::std_specs::hash::group_hash_axioms;

/// The most bytes that one read request may ask for.
pub const MAX_READ_SIZE: u32 = 4 * 1024 * 1024;

/// How many files can be open at once.
pub const MAX_OPEN_FILES: usize = 256;

/// The port on which the file service listens.
pub const FILE_SERVER_PORT: u16 = 8889;

/// A file that is open on the Host.
pub struct OpenFile {
    /// The canonical path.
    pub path: Vec<u8>,
    /// The size in bytes when the file was opened.
    pub size: u64,
}

/// What the filesystem said of a path.
pub enum Lookup<T> {
    /// The path could not be made canonical, or nothing is there.
    NotFound,
    /// The filesystem failed in another way.
    Failed,
    /// Something is there: its canonical path and what was asked of it.
    Found { canonical: Vec<u8>, info: T },
}

/// What opening a file found.
#[derive(Copy, Clone, PartialEq, Eq, Debug, Structural)]
pub struct OpenInfo {
    pub is_dir: bool,
    pub size: u64,
}

/// What `stat` found.
#[derive(Copy, Clone, PartialEq, Eq, Debug, Structural)]
pub struct StatInfo {
    pub size: u64,
    /// Last modification, in seconds since the Unix epoch.
    pub mtime: i64,
    pub is_dir: bool,
}

/// The state of the file service: the base directory and the files open.
pub struct FileServerState {
    base_dir: Vec<u8>,
    next_handle: u32,
    open_files: HashMap<u32, OpenFile>,
}

/// The two dots that stand for the parent directory.
pub open spec fn dot_dot() -> Seq<u8> {
    seq![0x2eu8, 0x2eu8]
}

/// Whether `path` is the directory `base` or lies below it: `base` opens
/// `path`, and ends where a component of `path` ends.
pub open spec fn within(base: Seq<u8>, path: Seq<u8>) -> bool {
    ||| path == base
    ||| {
        &&& base.is_prefix_of(path)
        &&& 0 < base.len() < path.len()
        &&& (base.last() == 0x2fu8 || path[base.len() as int] == 0x2fu8)
    }
}

/// Why a path is refused, if it is: a path with two dots in a row, a path
/// that is not there, and a path outside the base directory all count as
/// not found.
pub open spec fn path_error<T>(base: Seq<u8>, rel_path: Seq<u8>, lookup: Lookup<T>) -> Option<i32> {
    if occurs_in(rel_path, dot_dot()) {
        Some(ENOENT)
    } else {
        match lookup {
            Lookup::NotFound => Some(ENOENT),
            Lookup::Failed => Some(EIO),
            Lookup::Found { canonical, info } => if within(base, canonical@) {
                None
            } else {
                Some(ENOENT)
            },
        }
    }
}

/// Why an open request is refused, if it is. The path comes first: a path
/// with two dots, one that is not there and one outside the base directory
/// are not found, whatever the table holds. A directory cannot be opened as
/// a file. A handle is allocated last, so a full table is reported only for
/// a file that could have been opened.
pub open spec fn open_error(
    open_count: nat,
    base: Seq<u8>,
    rel_path: Seq<u8>,
    lookup: Lookup<OpenInfo>,
) -> Option<i32> {
    if path_error(base, rel_path, lookup) is Some {
        path_error(base, rel_path, lookup)
    } else if lookup->info.is_dir {
        Some(EISDIR)
    } else if open_count >= MAX_OPEN_FILES {
        Some(ENFILE)
    } else {
        None
    }
}

/// The handle after `h`: handles count upwards and skip 0.
pub open spec fn next_handle_after(h: u32) -> u32 {
    if h == u32::MAX {
        1
    } else {
        (h + 1) as u32
    }
}

/// Whether the handle `x` comes before `to` when counting from `from`:
/// handles count upwards, skip 0, and start again at 1 after the largest.
pub open spec fn counted_before(from: u32, to: u32, x: u32) -> bool {
    x != 0 && if from <= to {
        from <= x < to
    } else {
        x >= from || x < to
    }
}

/// Whether `handle` is the first free handle when counting from `from`: it
/// is not 0 and not in use, and every handle counted before it is in use.
pub open spec fn first_free_from(table: Map<u32, OpenFile>, from: u32, handle: u32) -> bool {
    &&& handle != 0
    &&& !table.contains_key(handle)
    &&& forall|x: u32| counted_before(from, handle, x) ==> table.contains_key(x)
}

/// There is one first free handle at most: the handle that an open gives is
/// fixed by the table and the handle that is next.
pub proof fn lemma_first_free_is_one(table: Map<u32, OpenFile>, from: u32, a: u32, b: u32)
    requires
        first_free_from(table, from, a),
        first_free_from(table, from, b),
    ensures
        a == b,
{
    if a != b {
        assert(counted_before(from, a, b) || counted_before(from, b, a));
    }
}

/// How many bytes to read for a request, or why it is refused. A read at or
/// behind the end of the file reads nothing.
pub open spec fn read_plan(table: Map<u32, OpenFile>, handle: u32, offset: u64, size: u32) -> Result<
    u32,
    i32,
> {
    if size > MAX_READ_SIZE {
        Err(EINVAL)
    } else if !table.contains_key(handle) {
        Err(EBADF)
    } else if offset >= table[handle].size {
        Ok(0)
    } else if size <= table[handle].size - offset {
        Ok(size)
    } else {
        Ok((table[handle].size - offset) as u32)
    }
}

/// Whether a path has two dots in a row anywhere.
pub fn has_dot_dot(rel_path: &[u8]) -> (r: bool)
    ensures
        r == occurs_in(rel_path@, dot_dot()),
{
    let pattern: [u8; 2] = [0x2e, 0x2e];
    assert(pattern@ =~= dot_dot());
    contains(rel_path, pattern.as_slice())
}

/// Whether `path` is the directory `base` or lies below it.
pub fn is_within(base: &[u8], path: &[u8]) -> (r: bool)
    ensures
        r == within(base@, path@),
{
    if !starts_with(path, base) {
        assert(!(path@ == base@)) by {
            if path@ == base@ {
                assert(base@.is_prefix_of(path@));
            }
        }
        return false;
    }
    if path.len() == base.len() {
        assert(path@ =~= base@);
        return true;
    }
    if base.len() == 0 {
        return false;
    }
    base[base.len() - 1] == 0x2f || path[base.len()] == 0x2f
}

impl FileServerState {
    /// The canonical base directory.
    pub closed spec fn base(&self) -> Seq<u8> {
        self.base_dir@
    }

    /// The files open, by handle.
    pub closed spec fn table(&self) -> Map<u32, OpenFile> {
        self.open_files@
    }

    /// The handle that the next open hands out.
    pub closed spec fn next(&self) -> u32 {
        self.next_handle
    }

    /// The invariant: no handle is 0, at most `MAX_OPEN_FILES` files are
    /// open, and every open file lies in the base directory.
    pub closed spec fn wf(&self) -> bool {
        &&& self.next_handle != 0
        &&& self.open_files@.dom().finite()
        &&& self.open_files@.len() <= MAX_OPEN_FILES
        &&& forall|h: u32| #[trigger]
            self.open_files@.contains_key(h) ==> h != 0 && within(
                self.base_dir@,
                self.open_files@[h].path@,
            )
    }

    /// No handle resolves outside the base directory: every handle in the
    /// table is not 0 and names a file whose canonical path is the base
    /// directory or lies below it.
    pub proof fn lemma_handles_stay_inside(&self, handle: u32)
        requires
            self.wf(),
            self.table().contains_key(handle),
        ensures
            handle != 0,
            within(self.base(), self.table()[handle].path@),
            self.table().dom().finite(),
            self.table().len() <= MAX_OPEN_FILES,
            self.next() != 0,
    {
    }

    /// A service for a base directory, given by its canonical path.
    pub fn new(base_dir: Vec<u8>) -> (s: FileServerState)
        ensures
            s.wf(),
            s.base() == base_dir@,
            s.table() == Map::<u32, OpenFile>::empty(),
            s.next() == 1,
    {
        FileServerState { base_dir, next_handle: 1, open_files: HashMap::new() }
    }

    /// The canonical base directory.
    pub fn base_dir(&self) -> (b: &Vec<u8>)
        ensures
            b@ == self.base(),
    {
        &self.base_dir
    }

    /// How many files are open.
    pub fn open_count(&self) -> (n: usize)
        requires
            self.wf(),
        ensures
            n == self.table().len(),
    {
        self.open_files.len()
    }

    /// The file behind a handle.
    pub fn get(&self, handle: u32) -> (r: Option<&OpenFile>)
        ensures
            match r {
                Some(f) => self.table().contains_key(handle) && *f == self.table()[handle],
                None => !self.table().contains_key(handle),
            },
    {
        self.open_files.get(&handle)
    }

    /// Checks a path against the base directory: the path as asked for must
    /// not hold two dots in a row, the filesystem must have found it, and its
    /// canonical path must lie in the base directory. Gives back the
    /// canonical path and what the filesystem reported.
    pub fn validate_path<T>(&self, rel_path: &[u8], lookup: Lookup<T>) -> (r: Result<
        (Vec<u8>, T),
        i32,
    >)
        ensures
            match path_error(self.base(), rel_path@, lookup) {
                Some(e) => r == Err::<(Vec<u8>, T), i32>(e),
                None => r == Ok::<(Vec<u8>, T), i32>((lookup->canonical, lookup->info)),
            },
    {
        if has_dot_dot(rel_path) {
            return Err(ENOENT);
        }
        match lookup {
            Lookup::NotFound => Err(ENOENT),
            Lookup::Failed => Err(EIO),
            Lookup::Found { canonical, info } => {
                if is_within(self.base_dir.as_slice(), canonical.as_slice()) {
                    Ok((canonical, info))
                } else {
                    Err(ENOENT)
                }
            },
        }
    }

    /// The first handle that is free, counting upwards from the one that is
    /// next.
    fn first_free(&self) -> (c: u32)
        requires
            self.wf(),
            self.table().len() < MAX_OPEN_FILES,
        ensures
            first_free_from(self.table(), self.next(), c),
    {
        let mut c: u32 = self.next_handle;
        let ghost mut tried: Set<u32> = Set::empty();
        proof {
            assert(tried =~= Set::new(|x: u32| counted_before(self.next_handle, c, x)));
        }
        loop
            invariant
                self.wf(),
                self.open_files@.len() < MAX_OPEN_FILES,
                c != 0,
                tried.finite(),
                tried.len() < MAX_OPEN_FILES,
                tried.subset_of(self.open_files@.dom()),
                tried == Set::new(|x: u32| counted_before(self.next_handle, c, x)),
                tried.len() == if self.next_handle <= c {
                    c - self.next_handle
                } else {
                    (u32::MAX - self.next_handle + 1) + (c - 1)
                },
            ensures
                first_free_from(self.table(), self.next(), c),
            decreases MAX_OPEN_FILES - tried.len(),
        {
            if !self.open_files.contains_key(&c) {
                break ;
            }
            let ghost more = tried.insert(c);
            proof {
                assert(!tried.contains(c));
                assert(more.subset_of(self.open_files@.dom()));
                vstd::set_lib::lemma_len_subset(more, self.open_files@.dom());
            }
            let next: u32 = if c == u32::MAX {
                1
            } else {
                c + 1
            };
            proof {
                assert(more =~= Set::new(|x: u32| counted_before(self.next_handle, next, x)));
                tried = more;
            }
            c = next;
        }
        c
    }

    /// Opens a file: checks the request and what the filesystem found, and
    /// enters the file in the table under the first free handle, which is
    /// never one in use. Gives back the handle and the file's size.
    pub fn open_file(&mut self, rel_path: &[u8], lookup: Lookup<OpenInfo>) -> (r: Result<
        (u32, u64),
        i32,
    >)
        requires
            old(self).wf(),
        ensures
            final(self).wf(),
            final(self).base() == old(self).base(),
            match open_error(old(self).table().len(), old(self).base(), rel_path@, lookup) {
                Some(e) => {
                    &&& r == Err::<(u32, u64), i32>(e)
                    &&& final(self).table() == old(self).table()
                    &&& final(self).next() == old(self).next()
                },
                None => {
                    &&& r matches Ok((handle, size)) && size == lookup->info.size
                        && first_free_from(old(self).table(), old(self).next(), handle)
                        && final(self).table() == old(self).table().insert(
                        handle,
                        OpenFile { path: lookup->canonical, size: lookup->info.size },
                    ) && final(self).next() == next_handle_after(handle)
                    &&& within(old(self).base(), lookup->canonical@)
                },
            },
    {
        let (canonical, info) = match self.validate_path(rel_path, lookup) {
            Ok(found) => found,
            Err(e) => {
                return Err(e);
            },
        };
        if info.is_dir {
            return Err(EISDIR);
        }
        if self.open_files.len() >= MAX_OPEN_FILES {
            return Err(ENFILE);
        }
        let handle: u32 = self.first_free();
        if handle == u32::MAX {
            self.next_handle = 1;
        } else {
            self.next_handle = handle + 1;
        }
        self.open_files.insert(handle, OpenFile { path: canonical, size: info.size });
        Ok((handle, info.size))
    }

    /// Decides how many bytes to read for a read request: the count asked
    /// for, but no more than the file holds from the offset on.
    pub fn read_file(&self, handle: u32, offset: u64, size: u32) -> (r: Result<u32, i32>)
        ensures
            r == read_plan(self.table(), handle, offset, size),
    {
        if size > MAX_READ_SIZE {
            return Err(EINVAL);
        }
        let file = match self.open_files.get(&handle) {
            Some(f) => f,
            None => {
                return Err(EBADF);
            },
        };
        if offset >= file.size {
            return Ok(0);
        }
        let available: u64 = file.size - offset;
        if size as u64 <= available {
            Ok(size)
        } else {
            Ok(available as u32)
        }
    }

    /// Closes a file. A handle that is not open gives `EBADF`.
    pub fn close_file(&mut self, handle: u32) -> (r: Result<(), i32>)
        requires
            old(self).wf(),
        ensures
            final(self).wf(),
            final(self).base() == old(self).base(),
            final(self).next() == old(self).next(),
            final(self).table() == old(self).table().remove(handle),
            r == if old(self).table().contains_key(handle) {
                Ok::<(), i32>(())
            } else {
                Err::<(), i32>(EBADF)
            },
    {
        let removed = self.open_files.remove(&handle);
        proof {
            if old(self).open_files@.contains_key(handle) {
                old(self).open_files@.lemma_remove_key_len(handle);
            } else {
                assert(old(self).open_files@.remove(handle) =~= old(self).open_files@);
            }
        }
        match removed {
            Some(_) => Ok(()),
            None => Err(EBADF),
        }
    }

    /// File statistics: size, modification time, and whether it is a
    /// directory.
    pub fn stat_file(&self, rel_path: &[u8], lookup: Lookup<StatInfo>) -> (r: Result<
        (u64, i64, bool),
        i32,
    >)
        ensures
            match path_error(self.base(), rel_path@, lookup) {
                Some(e) => r == Err::<(u64, i64, bool), i32>(e),
                None => r == Ok::<(u64, i64, bool), i32>(
                    (lookup->info.size, lookup->info.mtime, lookup->info.is_dir),
                ),
            },
    {
        match self.validate_path(rel_path, lookup) {
            Ok((_, info)) => Ok((info.size, info.mtime, info.is_dir)),
            Err(e) => Err(e),
        }
    }

    /// The entries of a directory, in the order in which the filesystem
    /// listed them. The service passes on what it is given: whether `.` and
    /// `..` are among the entries is up to whoever lists the directory.
    pub fn read_dir(&self, rel_path: &[u8], lookup: Lookup<Vec<DirEntry>>) -> (r: Result<
        Vec<DirEntry>,
        i32,
    >)
        ensures
            match path_error(self.base(), rel_path@, lookup) {
                Some(e) => r == Err::<Vec<DirEntry>, i32>(e),
                None => r == Ok::<Vec<DirEntry>, i32>(lookup->info),
            },
    {
        match self.validate_path(rel_path, lookup) {
            Ok((_, entries)) => Ok(entries),
            Err(e) => Err(e),
        }
    }
}

// ---------------------------------------------------------------------------
// Requests and replies
// ---------------------------------------------------------------------------

/// What the service needs done for a request.
pub enum FilePlan {
    /// Look the path up and open the file; answer with `open_reply`.
    Open { path: String },
    /// Read `count` bytes at `offset` from the file behind `handle`; answer
    /// with `read_reply`.
    Read { handle: u32, offset: u64, count: u32 },
    /// Look the path up; answer with `stat_reply`.
    Stat { path: String },
    /// List the directory; answer with `readdir_reply`.
    List { path: String },
    /// Send this reply; the filesystem is not needed.
    Reply(Message),
    /// The message is no request to the file service: end the connection.
    Refuse,
}

/// The reply to an open request that failed.
pub open spec fn open_failure(error: i32) -> FileOpenReply {
    FileOpenReply { handle: 0, size: 0, error }
}

/// The reply to a stat request that failed.
pub open spec fn stat_failure(error: i32) -> FileStatReply {
    FileStatReply { size: 0, mtime: 0, is_dir: false, error }
}

impl FileServerState {
    /// Decides what a request needs.
    ///
    /// An open, stat or readdir request whose path holds two dots in a row
    /// is answered at once as not found, whatever else holds. A read request is refused at once when it asks for too much or
    /// names no open file, and is answered at once with no data when it
    /// starts at or behind the end of the file. A close request is carried
    /// out and answered. Any other message is refused.
    pub fn plan_request(&mut self, request: Message) -> (plan: FilePlan)
        requires
            old(self).wf(),
        ensures
            final(self).wf(),
            final(self).base() == old(self).base(),
            final(self).next() == old(self).next(),
            match request {
                Message::FileOpenRequest(q) => {
                    &&& final(self).table() == old(self).table()
                    &&& if occurs_in(encode_utf8(q.path@), dot_dot()) {
                        plan matches FilePlan::Reply(Message::FileOpenReply(p)) && p
                            == open_failure(ENOENT)
                    } else {
                        plan matches FilePlan::Open { path } && path == q.path
                    }
                },
                Message::FileReadRequest(q) => {
                    &&& final(self).table() == old(self).table()
                    &&& match read_plan(old(self).table(), q.handle, q.offset, q.size) {
                        Err(e) => plan matches FilePlan::Reply(Message::FileReadReply(p))
                            && p.data@.len() == 0 && p.error == e,
                        Ok(n) => if n == 0 {
                            plan matches FilePlan::Reply(Message::FileReadReply(p))
                                && p.data@.len() == 0 && p.error == 0
                        } else {
                            plan matches FilePlan::Read { handle, offset, count } && handle
                                == q.handle && offset == q.offset && count == n
                        },
                    }
                },
                Message::FileCloseRequest(q) => {
                    &&& final(self).table() == old(self).table().remove(q.handle)
                    &&& plan matches FilePlan::Reply(Message::FileCloseReply(p)) && p.error == if old(
                        self,
                    ).table().contains_key(q.handle) {
                        0
                    } else {
                        EBADF
                    }
                },
                Message::FileStatRequest(q) => {
                    &&& final(self).table() == old(self).table()
                    &&& if occurs_in(encode_utf8(q.path@), dot_dot()) {
                        plan matches FilePlan::Reply(Message::FileStatReply(p)) && p
                            == stat_failure(ENOENT)
                    } else {
                        plan matches FilePlan::Stat { path } && path == q.path
                    }
                },
                Message::FileReaddirRequest(q) => {
                    &&& final(self).table() == old(self).table()
                    &&& if occurs_in(encode_utf8(q.path@), dot_dot()) {
                        plan matches FilePlan::Reply(Message::FileReaddirReply(p))
                            && p.entries@.len() == 0 && p.error == ENOENT
                    } else {
                        plan matches FilePlan::List { path } && path == q.path
                    }
                },
                _ => final(self).table() == old(self).table() && plan is Refuse,
            },
    {
        match request {
            Message::FileOpenRequest(q) => {
                if has_dot_dot(q.path.as_str().as_bytes()) {
                    FilePlan::Reply(
                        Message::FileOpenReply(FileOpenReply { handle: 0, size: 0, error: ENOENT }),
                    )
                } else {
                    FilePlan::Open { path: q.path }
                }
            },
            Message::FileReadRequest(q) => {
                match self.read_file(q.handle, q.offset, q.size) {
                    Err(e) => FilePlan::Reply(
                        Message::FileReadReply(FileReadReply { data: Vec::new(), error: e }),
                    ),
                    Ok(n) => {
                        if n == 0 {
                            FilePlan::Reply(
                                Message::FileReadReply(FileReadReply { data: Vec::new(), error: 0 }),
                            )
                        } else {
                            FilePlan::Read { handle: q.handle, offset: q.offset, count: n }
                        }
                    },
                }
            },
            Message::FileCloseRequest(q) => {
                let error: i32 = match self.close_file(q.handle) {
                    Ok(()) => 0,
                    Err(e) => e,
                };
                FilePlan::Reply(Message::FileCloseReply(FileCloseReply { error }))
            },
            Message::FileStatRequest(q) => {
                if has_dot_dot(q.path.as_str().as_bytes()) {
                    FilePlan::Reply(
                        Message::FileStatReply(
                            FileStatReply { size: 0, mtime: 0, is_dir: false, error: ENOENT },
                        ),
                    )
                } else {
                    FilePlan::Stat { path: q.path }
                }
            },
            Message::FileReaddirRequest(q) => {
                if has_dot_dot(q.path.as_str().as_bytes()) {
                    FilePlan::Reply(
                        Message::FileReaddirReply(
                            FileReaddirReply { entries: Vec::new(), error: ENOENT },
                        ),
                    )
                } else {
                    FilePlan::List { path: q.path }
                }
            },
            _ => FilePlan::Refuse,
        }
    }

    /// The reply to an open request, once the filesystem has been asked.
    /// On success the file is in the table under the handle of the reply.
    pub fn open_reply(&mut self, rel_path: &str, lookup: Lookup<OpenInfo>) -> (reply: FileOpenReply)
        requires
            old(self).wf(),
        ensures
            final(self).wf(),
            final(self).base() == old(self).base(),
            match open_error(
                old(self).table().len(),
                old(self).base(),
                encode_utf8(rel_path@),
                lookup,
            ) {
                Some(e) => {
                    &&& reply == open_failure(e)
                    &&& final(self).table() == old(self).table()
                    &&& final(self).next() == old(self).next()
                },
                None => {
                    &&& reply.size == lookup->info.size
                    &&& reply.error == 0
                    &&& first_free_from(old(self).table(), old(self).next(), reply.handle)
                    &&& final(self).table() == old(self).table().insert(
                        reply.handle,
                        OpenFile { path: lookup->canonical, size: lookup->info.size },
                    )
                    &&& final(self).next() == next_handle_after(reply.handle)
                    &&& within(old(self).base(), lookup->canonical@)
                },
            },
    {
        match self.open_file(rel_path.as_bytes(), lookup) {
            Ok((handle, size)) => FileOpenReply { handle, size, error: 0 },
            Err(e) => FileOpenReply { handle: 0, size: 0, error: e },
        }
    }

    /// The reply to a stat request, once the filesystem has been asked.
    pub fn stat_reply(&self, rel_path: &str, lookup: Lookup<StatInfo>) -> (reply: FileStatReply)
        ensures
            reply == match path_error(self.base(), encode_utf8(rel_path@), lookup) {
                Some(e) => stat_failure(e),
                None => FileStatReply {
                    size: lookup->info.size,
                    mtime: lookup->info.mtime,
                    is_dir: lookup->info.is_dir,
                    error: 0,
                },
            },
    {
        match self.stat_file(rel_path.as_bytes(), lookup) {
            Ok((size, mtime, is_dir)) => FileStatReply { size, mtime, is_dir, error: 0 },
            Err(e) => FileStatReply { size: 0, mtime: 0, is_dir: false, error: e },
        }
    }

    /// The reply to a readdir request, once the filesystem has been asked.
    pub fn readdir_reply(&self, rel_path: &str, lookup: Lookup<Vec<DirEntry>>) -> (reply:
        FileReaddirReply)
        ensures
            match path_error(self.base(), encode_utf8(rel_path@), lookup) {
                Some(e) => reply.entries@.len() == 0 && reply.error == e,
                None => reply.entries == lookup->info && reply.error == 0,
            },
    {
        match self.read_dir(rel_path.as_bytes(), lookup) {
            Ok(entries) => FileReaddirReply { entries, error: 0 },
            Err(e) => FileReaddirReply { entries: Vec::new(), error: e },
        }
    }
}

/// The reply to a read request, once the file has been read: the data, or
/// `EIO` with no data when reading failed.
pub fn read_reply(data: Option<Vec<u8>>) -> (reply: FileReadReply)
    ensures
        match data {
            Some(d) => reply.data == d && reply.error == 0,
            None => reply.data@.len() == 0 && reply.error == EIO,
        },
{
    match data {
        Some(d) => FileReadReply { data: d, error: 0 },
        None => FileReadReply { data: Vec::new(), error: EIO },
    }
}

} // verus!
