//! The interposer's decisions: which paths go to the Host, which files are
//! shared libraries, how a local failure falls back to the Host, and what
//! calls on a virtual descriptor or a remote directory answer.
//!
//! The interposer itself stands in for functions of the C library. It asks
//! here what to do and carries it out.

use crate::bytes::{matches_at, occurs_at, starts_with, to_vec};
use crate::errno::{EBADF, EINVAL, EMFILE, ENOENT};
use crate::fd_map::{first_free_from, FdMap, FileInfo, MAX_VIRTUAL_FDS};
use crate::messages::DirEntry;
use crate::text::{concat2, concat3, decimal, decimal_string};
use crate::wire::signed64;
use vstd::prelude::*;
use vstd::slice::*;
use vstd::string::*;
use vstd::utf8::*;

verus! {

// ---------------------------------------------------------------------------
// Paths
// ---------------------------------------------------------------------------

/// The bytes of `/host/`, the prefix of the paths that always go to the
/// Host.
pub open spec fn host_prefix() -> Seq<u8> {
    seq![0x2fu8, 0x68u8, 0x6fu8, 0x73u8, 0x74u8, 0x2fu8]
}

/// Whether the UTF-8 bytes of a path open with `/host/`.
pub open spec fn remote_path(path: Seq<u8>) -> bool {
    host_prefix().is_prefix_of(path)
}

/// The path without the prefix `/host/`, or the path itself if it has no
/// such prefix.
pub open spec fn relative_path(path: Seq<u8>) -> Seq<u8> {
    if remote_path(path) {
        path.subrange(6, path.len() as int)
    } else {
        path
    }
}

/// The literal `/host/` has the bytes of `host_prefix`.
proof fn lemma_host_prefix_bytes()
    ensures
        "/host/".spec_bytes() == host_prefix(),
{
    reveal_strlit("/host/");
    let chars = "/host/"@;
    assert(is_ascii_chars(chars));
    is_ascii_chars_encode_utf8(chars);
    assert("/host/".spec_bytes() =~= host_prefix());
}

/// In valid UTF-8, the position behind a run of ASCII bytes at the front is
/// the start of a character.
proof fn lemma_boundary_after_ascii(b: Seq<u8>, n: int)
    requires
        valid_utf8(b),
        0 <= n <= b.len(),
        forall|i: int| 0 <= i < n ==> b[i] < 0x80,
    ensures
        is_char_boundary(b, n),
    decreases n,
{
    if n > 0 {
        let rest = pop_first_scalar(b);
        assert(rest =~= b.subrange(1, b.len() as int));
        assert forall|i: int| 0 <= i < n - 1 implies rest[i] < 0x80 by {
            assert(rest[i] == b[i + 1]);
        }
        lemma_boundary_after_ascii(rest, n - 1);
    }
}

/// Whether a path is one that always goes to the Host: one under `/host/`.
pub fn is_remote_path(path: &str) -> (r: bool)
    ensures
        r == remote_path(path.spec_bytes()),
{
    proof {
        lemma_host_prefix_bytes();
    }
    starts_with(path.as_bytes(), "/host/".as_bytes())
}

/// The path as the Host knows it: without the prefix `/host/`.
pub fn get_relative_path(path: &str) -> (r: &str)
    ensures
        r.spec_bytes() == relative_path(path.spec_bytes()),
{
    if is_remote_path(path) {
        proof {
            let b = path.spec_bytes();
            encode_utf8_valid_utf8(path@);
            assert forall|i: int| 0 <= i < 6 implies b[i] < 0x80 by {
                assert(b.subrange(0, 6)[i] == host_prefix()[i]);
            }
            lemma_boundary_after_ascii(b, 6);
        }
        let (_, rest) = path.split_at(6);
        rest
    } else {
        path
    }
}

// ---------------------------------------------------------------------------
// Shared libraries
// ---------------------------------------------------------------------------

/// The dot.
pub const DOT: u8 = 0x2e;

/// The bytes of `.so`.
pub open spec fn dot_so() -> Seq<u8> {
    seq![0x2eu8, 0x73u8, 0x6fu8]
}

/// A decimal digit.
pub open spec fn is_digit(b: u8) -> bool {
    0x30 <= b <= 0x39
}

/// A byte that can stand in a version: a digit or a dot.
pub open spec fn version_byte(b: u8) -> bool {
    is_digit(b) || b == DOT
}

/// One or more groups of a dot and one or more digits, such as `.1` or
/// `.1.2.3`: digits and dots only, a dot first, a digit last, and no dot
/// behind a dot.
pub open spec fn is_version_suffix(s: Seq<u8>) -> bool {
    &&& s.len() >= 2
    &&& s[0] == DOT
    &&& is_digit(s.last())
    &&& forall|i: int| 0 <= i < s.len() ==> version_byte(#[trigger] s[i])
    &&& forall|i: int| 0 <= i < s.len() - 1 ==> !(#[trigger] s[i] == DOT && s[i + 1] == DOT)
}

/// Whether `.so` stands at `at` and only a version, or nothing, follows.
pub open spec fn library_ending_at(name: Seq<u8>, at: int) -> bool {
    &&& occurs_at(name, at, dot_so())
    &&& (at + 3 == name.len() || is_version_suffix(name.subrange(at + 3, name.len() as int)))
}

/// Whether a name is that of a shared library: it ends with `.so`, or with
/// `.so` and a version.
pub open spec fn shared_library_name(name: Seq<u8>) -> bool {
    exists|at: int| library_ending_at(name, at)
}

fn is_version_byte(b: u8) -> (r: bool)
    ensures
        r == version_byte(b),
{
    (0x30 <= b && b <= 0x39) || b == DOT
}

/// Whether the bytes from `from` on are a version, given that they are all
/// digits and dots.
fn version_follows(name: &[u8], from: usize) -> (r: bool)
    requires
        from < name@.len(),
        forall|j: int| from <= j < name@.len() ==> version_byte(name@[j]),
    ensures
        r == is_version_suffix(name@.subrange(from as int, name@.len() as int)),
{
    let n: usize = name.len();
    let ghost s = name@.subrange(from as int, n as int);
    assert forall|i: int| 0 <= i < s.len() implies version_byte(#[trigger] s[i]) by {
        assert(s[i] == name@[from + i]);
    }
    if n - from < 2 || name[from] != DOT || name[n - 1] == DOT {
        assert(s[0] == name@[from as int]);
        assert(s.last() == name@[n - 1]);
        return false;
    }
    assert(s[0] == name@[from as int]);
    assert(s.last() == name@[n - 1]);
    let mut i: usize = from;
    while i < n - 1
        invariant
            from <= i <= n - 1,
            n == name@.len(),
            s == name@.subrange(from as int, n as int),
            forall|j: int| 0 <= j < i - from ==> !(#[trigger] s[j] == DOT && s[j + 1] == DOT),
        decreases n - i,
    {
        if name[i] == DOT && name[i + 1] == DOT {
            assert(s[i - from] == DOT && s[i - from + 1] == DOT);
            return false;
        }
        assert(s[i - from] == name@[i as int]);
        assert(s[i - from + 1] == name@[i + 1]);
        i = i + 1;
    }
    true
}

/// Whether a name, given as bytes, is that of a shared library.
pub fn is_shared_library_name(name: &[u8]) -> (r: bool)
    ensures
        r == shared_library_name(name@),
{
    let n: usize = name.len();
    // The version, if there is one, is the longest run of digits and dots
    // at the end; `.so` must stand right in front of that run.
    let mut k: usize = n;
    loop
        invariant
            k <= n,
            n == name@.len(),
            forall|j: int| k <= j < n ==> version_byte(name@[j]),
        ensures
            k == 0 || !version_byte(name@[k - 1]),
        decreases k,
    {
        if k == 0 {
            break ;
        }
        if !is_version_byte(name[k - 1]) {
            break ;
        }
        k = k - 1;
    }
    let pattern: [u8; 3] = [0x2e, 0x73, 0x6f];
    assert(pattern@ =~= dot_so());
    proof {
        // Wherever `.so` stands with nothing but a version behind it, it
        // stands right in front of the run.
        assert forall|at: int| library_ending_at(name@, at) implies at + 3 == k by {
            let sub = name@.subrange(at, at + 3);
            assert(sub[1] == name@[at + 1] && sub[2] == name@[at + 2]);
            assert(!version_byte(name@[at + 2]));
            if at + 3 < n {
                let v = name@.subrange(at + 3, n as int);
                assert forall|j: int| at + 3 <= j < n implies version_byte(name@[j]) by {
                    assert(v[j - (at + 3)] == name@[j]);
                }
            }
            if k > at + 3 {
                assert(version_byte(name@[k - 1]));
            }
        }
    }
    if k < 3 {
        return false;
    }
    if !matches_at(name, k - 3, pattern.as_slice()) {
        return false;
    }
    if k == n {
        assert(library_ending_at(name@, k - 3));
        return true;
    }
    let r = version_follows(name, k);
    proof {
        if r {
            assert(library_ending_at(name@, k - 3));
        }
    }
    r
}

/// Whether a path is that of a shared library. Such a file must be on the
/// local disk before it can be opened, because the dynamic linker maps it
/// into memory.
pub fn is_shared_library(path: &str) -> (r: bool)
    ensures
        r == shared_library_name(path.spec_bytes()),
{
    is_shared_library_name(path.as_bytes())
}

// ---------------------------------------------------------------------------
// Routing and fallback
// ---------------------------------------------------------------------------

/// Where a call with a path goes first.
#[derive(Copy, Clone, PartialEq, Eq, Debug, Structural)]
pub enum Route {
    /// To the Host, and nowhere else.
    Remote,
    /// To the local C library; to the Host only if the file is not there.
    LocalFirst,
}

/// How a remote open is carried out.
#[derive(Copy, Clone, PartialEq, Eq, Debug, Structural)]
pub enum OpenPlan {
    /// Download the file into the cache and open the copy.
    Cache,
    /// Open the file on the Host and hand out a virtual descriptor.
    Virtual,
}

/// Where a call with this path goes first.
pub fn route(path: &str) -> (r: Route)
    ensures
        r == if remote_path(path.spec_bytes()) {
            Route::Remote
        } else {
            Route::LocalFirst
        },
{
    if is_remote_path(path) {
        Route::Remote
    } else {
        Route::LocalFirst
    }
}

/// Whether a call that went to the local C library first is tried again on
/// the Host: only when it failed because the file is not there, and a
/// connection to the Host exists.
pub fn should_fall_back(local_failed: bool, errno: i32, connected: bool) -> (r: bool)
    ensures
        r == (local_failed && errno == ENOENT && connected),
{
    local_failed && errno == ENOENT && connected
}

/// Whether loading a library that failed locally is tried again on the
/// Host: whenever a connection exists.
pub fn should_fall_back_dlopen(local_failed: bool, connected: bool) -> (r: bool)
    ensures
        r == (local_failed && connected),
{
    local_failed && connected
}

/// What a call returns after both the local C library and the Host were
/// tried: the Host's result if the Host succeeded; else the local failure,
/// with the error number set back to `ENOENT`.
pub fn with_remote_fallback(local_result: i32, remote_result: i32) -> (r: (i32, Option<i32>))
    ensures
        r == if remote_result != -1 {
            (remote_result, None::<i32>)
        } else {
            (local_result, Some(ENOENT))
        },
{
    if remote_result != -1 {
        (remote_result, None)
    } else {
        (local_result, Some(ENOENT))
    }
}

/// How a remote open of this path is carried out.
pub fn open_plan(path: &str) -> (r: OpenPlan)
    ensures
        r == if shared_library_name(path.spec_bytes()) {
            OpenPlan::Cache
        } else {
            OpenPlan::Virtual
        },
{
    if is_shared_library(path) {
        OpenPlan::Cache
    } else {
        OpenPlan::Virtual
    }
}

/// A file was opened on the Host: hands out a virtual descriptor for it and
/// notes its size. The descriptor is the first free one, never one in use.
/// When the table is full the answer is `EMFILE`, and the caller closes the
/// handle again.
pub fn handle_remote_open(map: &mut FdMap, handle: u32, size: u64) -> (r: Result<i32, i32>)
    requires
        old(map).wf(),
    ensures
        final(map).wf(),
        old(map)@.len() >= MAX_VIRTUAL_FDS ==> r == Err::<i32, i32>(EMFILE) && final(map)@ == old(
            map,
        )@,
        old(map)@.len() < MAX_VIRTUAL_FDS ==> (r matches Ok(vfd) && first_free_from(
            old(map)@,
            old(map).next(),
            vfd,
        ) && final(map)@ == old(map)@.insert(vfd, FileInfo { handle, offset: 0, size })),
{
    match map.allocate(handle) {
        Some(vfd) => {
            map.set_size(vfd, size);
            assert(map@ =~= old(map)@.insert(vfd, FileInfo { handle, offset: 0, size }));
            Ok(vfd)
        },
        None => Err(EMFILE),
    }
}

/// The Host has answered a close with this error number: on 0 the
/// descriptor is forgotten, on anything else it stays and the error is
/// passed on.
pub fn handle_remote_close(map: &mut FdMap, fd: i32, reply_error: i32) -> (r: Result<(), i32>)
    requires
        old(map).wf(),
    ensures
        final(map).wf(),
        reply_error == 0 ==> r == Ok::<(), i32>(()) && final(map)@ == old(map)@.remove(fd),
        reply_error != 0 ==> r == Err::<(), i32>(reply_error) && final(map)@ == old(map)@,
{
    if reply_error == 0 {
        map.release(fd);
        Ok(())
    } else {
        Err(reply_error)
    }
}

// ---------------------------------------------------------------------------
// stat, fcntl
// ---------------------------------------------------------------------------

/// The mode of a directory: the directory bit and permissions 755.
pub const DIRECTORY_MODE: u32 = 0o040755;

/// The mode of a regular file: the regular-file bit and permissions 644.
pub const REGULAR_MODE: u32 = 0o100644;

/// The fields of a stat buffer that are filled in; every other field is 0.
#[derive(Copy, Clone, PartialEq, Eq, Debug, Structural)]
pub struct StatRecord {
    pub st_size: i64,
    pub st_mtime: i64,
    pub st_mode: u32,
}

/// A size as the stat buffer holds it: the same 64 bits, read as signed.
fn stat_size(size: u64) -> (r: i64)
    ensures
        r == signed64(size),
{
    if size >= 0x8000_0000_0000_0000 {
        (size as i128 - 0x1_0000_0000_0000_0000) as i64
    } else {
        size as i64
    }
}

/// The stat buffer for a path on the Host, from what the Host reported.
pub fn handle_remote_stat(size: u64, mtime: i64, is_dir: bool) -> (r: StatRecord)
    ensures
        r == (StatRecord {
            st_size: signed64(size),
            st_mtime: mtime,
            st_mode: if is_dir {
                DIRECTORY_MODE
            } else {
                REGULAR_MODE
            },
        }),
{
    StatRecord {
        st_size: stat_size(size),
        st_mtime: mtime,
        st_mode: if is_dir {
            DIRECTORY_MODE
        } else {
            REGULAR_MODE
        },
    }
}

/// The stat buffer for a virtual descriptor: the size that the table holds,
/// as a regular file. A descriptor that is not open gives `EBADF`.
pub fn handle_remote_fstat(map: &FdMap, fd: i32) -> (r: Result<StatRecord, i32>)
    ensures
        r == if map@.contains_key(fd) {
            Ok::<StatRecord, i32>(
                StatRecord {
                    st_size: signed64(map@[fd].size),
                    st_mtime: 0,
                    st_mode: REGULAR_MODE,
                },
            )
        } else {
            Err::<StatRecord, i32>(EBADF)
        },
{
    match map.get(fd) {
        Some(info) => Ok(
            StatRecord { st_size: stat_size(info.size), st_mtime: 0, st_mode: REGULAR_MODE },
        ),
        None => Err(EBADF),
    }
}

/// Whether a path can be reached on the Host: it can when `stat` succeeded.
pub fn handle_remote_access(stat_error: i32) -> (r: Result<(), i32>)
    ensures
        r == if stat_error == 0 {
            Ok::<(), i32>(())
        } else {
            Err::<(), i32>(stat_error)
        },
{
    if stat_error == 0 {
        Ok(())
    } else {
        Err(stat_error)
    }
}

/// Read the descriptor's flags.
pub const F_GETFD: i32 = 1;

/// Set the descriptor's flags.
pub const F_SETFD: i32 = 2;

/// Read the file status flags.
pub const F_GETFL: i32 = 3;

/// Set the file status flags.
pub const F_SETFL: i32 = 4;

/// The file status flags of a file open for reading only.
pub const O_RDONLY: i32 = 0;

/// `fcntl` on a virtual descriptor. The status flags read as read-only;
/// setting them, and reading or setting the descriptor's flags, is accepted
/// and changes nothing; every other command is `EINVAL`.
pub fn fcntl(cmd: i32) -> (r: Result<i32, i32>)
    ensures
        r == if cmd == F_GETFL {
            Ok::<i32, i32>(O_RDONLY)
        } else if cmd == F_SETFL || cmd == F_GETFD || cmd == F_SETFD {
            Ok::<i32, i32>(0)
        } else {
            Err::<i32, i32>(EINVAL)
        },
{
    if cmd == F_GETFL {
        Ok(O_RDONLY)
    } else if cmd == F_SETFL || cmd == F_GETFD || cmd == F_SETFD {
        Ok(0)
    } else {
        Err(EINVAL)
    }
}

// ---------------------------------------------------------------------------
// Directories
// ---------------------------------------------------------------------------

/// The type of a directory in a directory record.
pub const DT_DIR: u8 = 4;

/// The type of a regular file in a directory record.
pub const DT_REG: u8 = 8;

/// The most bytes of a name that a directory record holds.
pub const MAX_NAME_LEN: usize = 255;

/// What `readdir` hands out for one entry.
pub struct DirRecord {
    pub d_ino: u64,
    /// The position behind this entry.
    pub d_off: i64,
    pub d_type: u8,
    /// The name, cut to `MAX_NAME_LEN` bytes.
    pub d_name: Vec<u8>,
}

/// A remote directory being read: its entries and how many were handed out.
pub struct DirState {
    entries: Vec<DirEntry>,
    index: usize,
}

/// The first `limit` bytes of a name, or all of it if it is shorter.
pub open spec fn cut_name(name: Seq<u8>, limit: int) -> Seq<u8> {
    if name.len() <= limit {
        name
    } else {
        name.subrange(0, limit)
    }
}

impl DirState {
    /// The entries of the directory.
    pub closed spec fn entries(&self) -> Seq<DirEntry> {
        self.entries@
    }

    /// How many entries have been handed out.
    pub closed spec fn position(&self) -> nat {
        self.index as nat
    }

    /// The invariant: the position lies within the entries.
    pub closed spec fn wf(&self) -> bool {
        self.index <= self.entries@.len()
    }

    /// A directory whose entries the Host has listed, before the first of
    /// them is read.
    pub fn new(entries: Vec<DirEntry>) -> (d: DirState)
        ensures
            d.wf(),
            d.entries() == entries@,
            d.position() == 0,
    {
        DirState { entries, index: 0 }
    }

    /// The next entry, or `None` behind the last one.
    pub fn handle_remote_readdir(&mut self) -> (r: Option<DirRecord>)
        requires
            old(self).wf(),
        ensures
            final(self).wf(),
            final(self).entries() == old(self).entries(),
            old(self).position() >= old(self).entries().len() ==> r is None && final(self).position() == old(self).position(),
            old(self).position() < old(self).entries().len() ==> {
                let entry = old(self).entries()[old(self).position() as int];
                &&& final(self).position() == old(self).position() + 1
                &&& r matches Some(record) && record.d_ino == 1 && record.d_off == (if final(self).position() <= i64::MAX {
                    final(self).position() as i64
                } else {
                    i64::MAX
                }) && record.d_type == (if entry.is_dir {
                    DT_DIR
                } else {
                    DT_REG
                }) && record.d_name@ == cut_name(
                    encode_utf8(entry.name@),
                    MAX_NAME_LEN as int,
                )
            },
    {
        if self.index >= self.entries.len() {
            return None;
        }
        let entry = &self.entries[self.index];
        let name = entry.name.as_str().as_bytes();
        let kept: usize = if name.len() <= MAX_NAME_LEN {
            name.len()
        } else {
            MAX_NAME_LEN
        };
        let d_name = to_vec(slice_subrange(name, 0, kept));
        assert(d_name@ =~= cut_name(encode_utf8(entry.name@), MAX_NAME_LEN as int));
        let d_type: u8 = if entry.is_dir {
            DT_DIR
        } else {
            DT_REG
        };
        self.index = self.index + 1;
        let d_off: i64 = if self.index as u64 <= i64::MAX as u64 {
            self.index as i64
        } else {
            i64::MAX
        };
        Some(DirRecord { d_ino: 1, d_off, d_type, d_name })
    }
}

// ---------------------------------------------------------------------------
// The cache of shared libraries
// ---------------------------------------------------------------------------

/// The directory in which a process keeps the shared libraries it has
/// fetched.
pub fn get_cache_dir(pid: u32) -> (r: String)
    ensures
        r@ == "/tmp/remotelink-cache-"@ + decimal(pid as nat),
{
    let number = decimal_string(pid as u64);
    concat2("/tmp/remotelink-cache-", number.as_str())
}

/// Where a fetched file is kept: in the cache directory, under its path on
/// the Host.
pub fn cache_path(pid: u32, rel_path: &str) -> (r: String)
    ensures
        r@ == "/tmp/remotelink-cache-"@ + decimal(pid as nat) + "/"@ + rel_path@,
{
    let dir = get_cache_dir(pid);
    concat3(dir.as_str(), "/", rel_path)
}

/// What to do for a file that is wanted from the cache.
#[derive(Copy, Clone, PartialEq, Eq, Debug, Structural)]
pub enum CachePlan {
    /// The copy is there: use it.
    Reuse,
    /// Fetch the file, write the copy, and note it.
    Download,
}

/// Decides whether a cached copy can be used: it can when the cache has
/// noted the file and the copy is still on disk. A copy that is used is
/// never written again.
pub fn cache_remote_file(noted: bool, on_disk: bool) -> (r: CachePlan)
    ensures
        r == if noted && on_disk {
            CachePlan::Reuse
        } else {
            CachePlan::Download
        },
{
    if noted && on_disk {
        CachePlan::Reuse
    } else {
        CachePlan::Download
    }
}

} // verus!
