//! Virtual file descriptors: the table that stands between the descriptors
//! handed to the child and the handles of files open on the Host.
//!
//! Virtual descriptors start at 10000, far above what the kernel hands out.
//! Reads and seeks on them are arithmetic on the table; nothing here reaches
//! the kernel.

use crate::errno::{EBADF, EINVAL, EOVERFLOW};
use std::collections::HashMap;
use vstd::prelude::*;

verus! {

broadcast use vstd::std_specs::hash::group_hash_axioms;

/// The first virtual descriptor.
pub const VIRTUAL_FD_BASE: i32 = 10000;

/// How many virtual descriptors can be open at once.
pub const MAX_VIRTUAL_FDS: usize = 256;

/// The most bytes that one read asks of the Host.
pub const MAX_READ_SIZE: u32 = 4 * 1024 * 1024;

/// Seek from the start of the file.
pub const SEEK_SET: i32 = 0;

/// Seek from the current offset.
pub const SEEK_CUR: i32 = 1;

/// Seek from the end of the file.
pub const SEEK_END: i32 = 2;

/// What the table knows of one open remote file.
#[derive(Copy, Clone, PartialEq, Eq, Debug, Structural)]
pub struct FileInfo {
    /// The handle on the Host.
    pub handle: u32,
    /// Where the next read starts.
    pub offset: u64,
    /// The file's size as the Host reported it.
    pub size: u64,
}

/// Maps virtual file descriptors to remote file handles.
pub struct FdMap {
    next_vfd: i32,
    fd_to_info: HashMap<i32, FileInfo>,
}

/// One operation on a virtual descriptor that moves its offset.
pub enum FdOp {
    /// `lseek` with this offset and whence.
    Seek { offset: i64, whence: i32 },
    /// A read that brought this many bytes.
    Read { bytes: usize },
}

/// Where a seek lands, before any check: the base that `whence` names plus
/// the offset. `None` when `whence` names no base.
pub open spec fn seek_target(info: FileInfo, offset: i64, whence: i32) -> Option<int> {
    if whence == SEEK_SET {
        Some(offset as int)
    } else if whence == SEEK_CUR {
        Some(info.offset + offset)
    } else if whence == SEEK_END {
        Some(info.size + offset)
    } else {
        None
    }
}

/// A seek is accepted when it lands at an offset that is not negative and
/// that the result type can hold.
pub open spec fn seek_accepted(info: FileInfo, offset: i64, whence: i32) -> bool {
    seek_target(info, offset, whence) matches Some(t) && 0 <= t <= i64::MAX
}

/// An operation is accepted when the offset it leads to can be held.
pub open spec fn op_accepted(info: FileInfo, op: FdOp) -> bool {
    match op {
        FdOp::Seek { offset, whence } => seek_accepted(info, offset, whence),
        FdOp::Read { bytes } => info.offset + bytes <= u64::MAX,
    }
}

/// The offset after an operation; an operation that is refused leaves it
/// where it was.
pub open spec fn op_offset(info: FileInfo, op: FdOp) -> u64 {
    if op_accepted(info, op) {
        match op {
            FdOp::Seek { offset, whence } => seek_target(info, offset, whence).unwrap() as u64,
            FdOp::Read { bytes } => (info.offset + bytes) as u64,
        }
    } else {
        info.offset
    }
}

/// The table entry after an operation.
pub open spec fn op_info(info: FileInfo, op: FdOp) -> FileInfo {
    FileInfo { handle: info.handle, offset: op_offset(info, op), size: info.size }
}

/// The table after an operation on `fd`: only the entry of `fd` changes, and
/// only if `fd` is open.
pub open spec fn op_table(m: Map<i32, FileInfo>, fd: i32, op: FdOp) -> Map<i32, FileInfo> {
    if m.contains_key(fd) {
        m.insert(fd, op_info(m[fd], op))
    } else {
        m
    }
}

/// Where a seek on a file lands, by arithmetic on the offset and size
/// given: the new offset, or `EINVAL` for a `whence` that names no base and
/// for a target that is negative or too large for the result.
pub fn seek_position(info: &FileInfo, offset: i64, whence: i32) -> (r: Result<i64, i32>)
    ensures
        r == if seek_accepted(*info, offset, whence) {
            Ok::<i64, i32>(seek_target(*info, offset, whence).unwrap() as i64)
        } else {
            Err::<i64, i32>(EINVAL)
        },
{
    let target: i128 = if whence == SEEK_SET {
        offset as i128
    } else if whence == SEEK_CUR {
        info.offset as i128 + offset as i128
    } else if whence == SEEK_END {
        info.size as i128 + offset as i128
    } else {
        return Err(EINVAL);
    };
    if target < 0 || target > i64::MAX as i128 {
        return Err(EINVAL);
    }
    Ok(target as i64)
}

/// How many bytes a read of `wanted` bytes on a stream asks of the Host:
/// what is left of the file from the offset on, but no more than `wanted`
/// and no more than `MAX_READ_SIZE`. At or behind the end of the file it is
/// 0, and nothing is asked.
pub fn stream_read_count(info: &FileInfo, wanted: usize) -> (r: u32)
    ensures
        r == if info.offset >= info.size {
            0
        } else if wanted <= info.size - info.offset && wanted <= MAX_READ_SIZE {
            wanted as int
        } else if info.size - info.offset <= MAX_READ_SIZE {
            info.size - info.offset
        } else {
            MAX_READ_SIZE as int
        },
{
    if info.offset >= info.size {
        return 0;
    }
    let left: u64 = info.size - info.offset;
    let capped: u64 = if left <= MAX_READ_SIZE as u64 {
        left
    } else {
        MAX_READ_SIZE as u64
    };
    if wanted as u64 <= capped {
        wanted as u32
    } else {
        capped as u32
    }
}

/// How many bytes of a reply go to the caller: what was received, but no
/// more than was asked for.
pub open spec fn copied(asked: usize, received: usize) -> usize {
    if received <= asked {
        received
    } else {
        asked
    }
}

/// A read on a stream asked for `asked` bytes and received `received`: how
/// many bytes go to the caller, and the stream's entry with the offset moved
/// on by that many. An offset that no longer fits gives `EOVERFLOW`.
pub fn stream_read_done(info: &FileInfo, asked: usize, received: usize) -> (r: Result<
    (usize, FileInfo),
    i32,
>)
    ensures
        r == if op_accepted(*info, FdOp::Read { bytes: copied(asked, received) }) {
            Ok::<(usize, FileInfo), i32>(
                (copied(asked, received), op_info(*info, FdOp::Read { bytes: copied(asked, received) })),
            )
        } else {
            Err::<(usize, FileInfo), i32>(EOVERFLOW)
        },
{
    let count: usize = if received <= asked {
        received
    } else {
        asked
    };
    if count as u64 > u64::MAX - info.offset {
        return Err(EOVERFLOW);
    }
    Ok((count, FileInfo { handle: info.handle, offset: info.offset + count as u64, size: info.size }))
}

/// The descriptor after `fd`: descriptors count upwards and start again at
/// the base after the largest.
pub open spec fn next_vfd_after(fd: i32) -> i32 {
    if fd == i32::MAX {
        VIRTUAL_FD_BASE
    } else {
        (fd + 1) as i32
    }
}

/// Whether the descriptor `x` comes before `to` when counting from `from`.
pub open spec fn counted_before(from: i32, to: i32, x: i32) -> bool {
    x >= VIRTUAL_FD_BASE && if from <= to {
        from <= x < to
    } else {
        x >= from || x < to
    }
}

/// Whether `fd` is the first free descriptor when counting from `from`: it
/// is not in use, and every descriptor counted before it is.
pub open spec fn first_free_from(table: Map<i32, FileInfo>, from: i32, fd: i32) -> bool {
    &&& fd >= VIRTUAL_FD_BASE
    &&& !table.contains_key(fd)
    &&& forall|x: i32| counted_before(from, fd, x) ==> table.contains_key(x)
}

/// There is one first free descriptor at most: what `allocate` hands out is
/// fixed by the table and the descriptor that is next.
pub proof fn lemma_first_free_is_one(table: Map<i32, FileInfo>, from: i32, a: i32, b: i32)
    requires
        first_free_from(table, from, a),
        first_free_from(table, from, b),
    ensures
        a == b,
{
    if a != b {
        assert(counted_before(from, a, b) || counted_before(from, b, a));
    }
}

impl View for FdMap {
    type V = Map<i32, FileInfo>;

    closed spec fn view(&self) -> Map<i32, FileInfo> {
        self.fd_to_info@
    }
}

impl FdMap {
    /// The descriptor that the next allocation hands out.
    pub closed spec fn next(&self) -> i32 {
        self.next_vfd
    }

    /// The invariant: every descriptor in the table is a virtual one, and the
    /// table holds at most `MAX_VIRTUAL_FDS` of them.
    pub closed spec fn wf(&self) -> bool {
        &&& self.next_vfd >= VIRTUAL_FD_BASE
        &&& self.fd_to_info@.dom().finite()
        &&& self.fd_to_info@.len() <= MAX_VIRTUAL_FDS
        &&& forall|fd: i32| self.fd_to_info@.contains_key(fd) ==> fd >= VIRTUAL_FD_BASE
    }

    /// What the invariant says of the table.
    pub proof fn lemma_wf(&self)
        requires
            self.wf(),
        ensures
            self.next() >= VIRTUAL_FD_BASE,
            self@.dom().finite(),
            self@.len() <= MAX_VIRTUAL_FDS,
            forall|fd: i32| self@.contains_key(fd) ==> fd >= VIRTUAL_FD_BASE,
    {
    }

    /// An empty table; the first descriptor handed out is the base.
    pub fn new() -> (m: FdMap)
        ensures
            m.wf(),
            m@ == Map::<i32, FileInfo>::empty(),
            m.next() == VIRTUAL_FD_BASE,
    {
        FdMap { next_vfd: VIRTUAL_FD_BASE, fd_to_info: HashMap::new() }
    }

    /// The first descriptor that is free, counting upwards from the one
    /// that is next and starting again at the base after the largest.
    fn first_free(&self) -> (c: i32)
        requires
            self.wf(),
            self@.len() < MAX_VIRTUAL_FDS,
        ensures
            first_free_from(self@, self.next(), c),
    {
        let mut c: i32 = self.next_vfd;
        let ghost mut tried: Set<i32> = Set::empty();
        proof {
            assert(tried =~= Set::new(|x: i32| counted_before(self.next_vfd, c, x)));
        }
        loop
            invariant
                self.wf(),
                self@.len() < MAX_VIRTUAL_FDS,
                c >= VIRTUAL_FD_BASE,
                tried.finite(),
                tried.len() < MAX_VIRTUAL_FDS,
                tried.subset_of(self@.dom()),
                tried == Set::new(|x: i32| counted_before(self.next_vfd, c, x)),
                tried.len() == if self.next_vfd <= c {
                    c - self.next_vfd
                } else {
                    (i32::MAX - self.next_vfd + 1) + (c - VIRTUAL_FD_BASE)
                },
            ensures
                first_free_from(self@, self.next(), c),
            decreases MAX_VIRTUAL_FDS - tried.len(),
        {
            if !self.fd_to_info.contains_key(&c) {
                break ;
            }
            let ghost more = tried.insert(c);
            proof {
                assert(!tried.contains(c));
                assert(more.subset_of(self@.dom()));
                vstd::set_lib::lemma_len_subset(more, self@.dom());
            }
            let next: i32 = if c == i32::MAX {
                VIRTUAL_FD_BASE
            } else {
                c + 1
            };
            proof {
                assert(more =~= Set::new(|x: i32| counted_before(self.next_vfd, next, x)));
                tried = more;
            }
            c = next;
        }
        c
    }

    /// Hands out a virtual descriptor for a remote handle, with offset and
    /// size 0. Refused when `MAX_VIRTUAL_FDS` descriptors are open.
    /// Descriptors count upwards and start again at the base after the
    /// largest; a descriptor that is still open is passed over, so the one
    /// handed out is never one in use.
    pub fn allocate(&mut self, handle: u32) -> (r: Option<i32>)
        requires
            old(self).wf(),
        ensures
            final(self).wf(),
            r is None <==> old(self)@.len() >= MAX_VIRTUAL_FDS,
            r is None ==> final(self)@ == old(self)@ && final(self).next() == old(self).next(),
            r matches Some(vfd) ==> {
                &&& first_free_from(old(self)@, old(self).next(), vfd)
                &&& vfd >= VIRTUAL_FD_BASE
                &&& !old(self)@.contains_key(vfd)
                &&& final(self)@ == old(self)@.insert(
                    vfd,
                    FileInfo { handle, offset: 0, size: 0 },
                )
                &&& final(self).next() == next_vfd_after(vfd)
            },
    {
        if self.fd_to_info.len() >= MAX_VIRTUAL_FDS {
            return None;
        }
        let vfd: i32 = self.first_free();
        if vfd == i32::MAX {
            self.next_vfd = VIRTUAL_FD_BASE;
        } else {
            self.next_vfd = vfd + 1;
        }
        self.fd_to_info.insert(vfd, FileInfo { handle, offset: 0, size: 0 });
        Some(vfd)
    }

    /// Forgets a virtual descriptor.
    pub fn release(&mut self, vfd: i32)
        requires
            old(self).wf(),
        ensures
            final(self).wf(),
            final(self)@ == old(self)@.remove(vfd),
            final(self).next() == old(self).next(),
    {
        self.fd_to_info.remove(&vfd);
        proof {
            if old(self).fd_to_info@.contains_key(vfd) {
                old(self).fd_to_info@.lemma_remove_key_len(vfd);
            } else {
                assert(old(self).fd_to_info@.remove(vfd) =~= old(self).fd_to_info@);
            }
        }
    }

    /// The entry of a descriptor.
    pub fn get(&self, vfd: i32) -> (r: Option<FileInfo>)
        ensures
            r == if self@.contains_key(vfd) {
                Some(self@[vfd])
            } else {
                None
            },
    {
        match self.fd_to_info.get(&vfd) {
            Some(info) => Some(*info),
            None => None,
        }
    }

    /// The remote handle behind a descriptor.
    pub fn get_handle(&self, vfd: i32) -> (r: Option<u32>)
        ensures
            r == if self@.contains_key(vfd) {
                Some(self@[vfd].handle)
            } else {
                None
            },
    {
        match self.get(vfd) {
            Some(info) => Some(info.handle),
            None => None,
        }
    }

    /// Where the next read on a descriptor starts.
    pub fn get_offset(&self, vfd: i32) -> (r: Option<u64>)
        ensures
            r == if self@.contains_key(vfd) {
                Some(self@[vfd].offset)
            } else {
                None
            },
    {
        match self.get(vfd) {
            Some(info) => Some(info.offset),
            None => None,
        }
    }

    /// The size of the file behind a descriptor.
    pub fn get_size(&self, vfd: i32) -> (r: Option<u64>)
        ensures
            r == if self@.contains_key(vfd) {
                Some(self@[vfd].size)
            } else {
                None
            },
    {
        match self.get(vfd) {
            Some(info) => Some(info.size),
            None => None,
        }
    }

    /// Replaces the entry of an open descriptor.
    fn put(&mut self, vfd: i32, info: FileInfo)
        requires
            old(self).wf(),
            old(self)@.contains_key(vfd),
        ensures
            final(self).wf(),
            final(self)@ == old(self)@.insert(vfd, info),
            final(self).next() == old(self).next(),
    {
        self.fd_to_info.insert(vfd, info);
        assert(self.fd_to_info@.dom() =~= old(self).fd_to_info@.dom());
    }

    /// Sets the offset of a descriptor; a descriptor that is not open is left
    /// alone.
    pub fn update_offset(&mut self, vfd: i32, offset: u64)
        requires
            old(self).wf(),
        ensures
            final(self).wf(),
            final(self).next() == old(self).next(),
            final(self)@ == if old(self)@.contains_key(vfd) {
                old(self)@.insert(
                    vfd,
                    FileInfo {
                        handle: old(self)@[vfd].handle,
                        offset,
                        size: old(self)@[vfd].size,
                    },
                )
            } else {
                old(self)@
            },
    {
        match self.get(vfd) {
            Some(info) => {
                self.put(vfd, FileInfo { handle: info.handle, offset, size: info.size });
            },
            None => {},
        }
    }

    /// Sets the size of a descriptor; a descriptor that is not open is left
    /// alone.
    pub fn set_size(&mut self, vfd: i32, size: u64)
        requires
            old(self).wf(),
        ensures
            final(self).wf(),
            final(self).next() == old(self).next(),
            final(self)@ == if old(self)@.contains_key(vfd) {
                old(self)@.insert(
                    vfd,
                    FileInfo {
                        handle: old(self)@[vfd].handle,
                        offset: old(self)@[vfd].offset,
                        size,
                    },
                )
            } else {
                old(self)@
            },
    {
        match self.get(vfd) {
            Some(info) => {
                self.put(vfd, FileInfo { handle: info.handle, offset: info.offset, size });
            },
            None => {},
        }
    }

    /// Whether a descriptor is a virtual one that is open.
    pub fn is_virtual_fd(&self, fd: i32) -> (r: bool)
        ensures
            r == self@.contains_key(fd),
    {
        self.fd_to_info.contains_key(&fd)
    }

    /// Forgets every descriptor.
    pub fn cleanup(&mut self)
        requires
            old(self).wf(),
        ensures
            final(self).wf(),
            final(self)@ == Map::<i32, FileInfo>::empty(),
            final(self).next() == old(self).next(),
    {
        self.fd_to_info.clear();
    }

    /// `lseek` on a virtual descriptor: arithmetic on the offset and the size
    /// that the table holds.
    ///
    /// A descriptor that is not open gives `EBADF`. A `whence` other than
    /// `SEEK_SET`, `SEEK_CUR` and `SEEK_END`, and a target that is negative
    /// or too large for the result, give `EINVAL`. Otherwise the offset
    /// moves to the target, which is returned.
    pub fn seek(&mut self, fd: i32, offset: i64, whence: i32) -> (r: Result<i64, i32>)
        requires
            old(self).wf(),
        ensures
            final(self).wf(),
            final(self).next() == old(self).next(),
            final(self)@ == op_table(old(self)@, fd, FdOp::Seek { offset, whence }),
            !old(self)@.contains_key(fd) ==> r == Err::<i64, i32>(EBADF),
            old(self)@.contains_key(fd) && !seek_accepted(old(self)@[fd], offset, whence) ==> r
                == Err::<i64, i32>(EINVAL),
            old(self)@.contains_key(fd) && seek_accepted(old(self)@[fd], offset, whence) ==> r
                == Ok::<i64, i32>(seek_target(old(self)@[fd], offset, whence).unwrap() as i64),
    {
        let info = match self.get(fd) {
            Some(info) => info,
            None => {
                return Err(EBADF);
            },
        };
        let target: i64 = match seek_position(&info, offset, whence) {
            Ok(target) => target,
            Err(e) => {
                assert(old(self)@.insert(fd, info) =~= old(self)@);
                return Err(e);
            },
        };
        self.put(fd, FileInfo { handle: info.handle, offset: target as u64, size: info.size });
        Ok(target)
    }

    /// What to ask of the Host for a read of `count` bytes on a virtual
    /// descriptor: the remote handle, the current offset, and `count` capped
    /// at `MAX_READ_SIZE`. A descriptor that is not open gives `EBADF`.
    pub fn read_request(&self, fd: i32, count: usize) -> (r: Result<(u32, u64, u32), i32>)
        ensures
            !self@.contains_key(fd) ==> r == Err::<(u32, u64, u32), i32>(EBADF),
            self@.contains_key(fd) ==> r == Ok::<(u32, u64, u32), i32>(
                (
                    self@[fd].handle,
                    self@[fd].offset,
                    if count <= MAX_READ_SIZE {
                        count as u32
                    } else {
                        MAX_READ_SIZE
                    },
                ),
            ),
    {
        match self.get(fd) {
            Some(info) => {
                let size: u32 = if count <= MAX_READ_SIZE as usize {
                    count as u32
                } else {
                    MAX_READ_SIZE
                };
                Ok((info.handle, info.offset, size))
            },
            None => Err(EBADF),
        }
    }

    /// A read on a virtual descriptor asked for `asked` bytes and the Host
    /// sent `received`. Gives back how many bytes go to the caller: what was
    /// received, but no more than was asked for. The offset moves on by that
    /// many.
    ///
    /// A descriptor that is not open gives `EBADF`; an offset that no longer
    /// fits gives `EOVERFLOW` and stays where it was.
    pub fn read_done(&mut self, fd: i32, asked: usize, received: usize) -> (r: Result<usize, i32>)
        requires
            old(self).wf(),
        ensures
            final(self).wf(),
            final(self).next() == old(self).next(),
            final(self)@ == op_table(
                old(self)@,
                fd,
                FdOp::Read { bytes: copied(asked, received) },
            ),
            !old(self)@.contains_key(fd) ==> r == Err::<usize, i32>(EBADF),
            old(self)@.contains_key(fd) && old(self)@[fd].offset + copied(asked, received)
                > u64::MAX ==> r == Err::<usize, i32>(EOVERFLOW),
            old(self)@.contains_key(fd) && old(self)@[fd].offset + copied(asked, received)
                <= u64::MAX ==> r == Ok::<usize, i32>(copied(asked, received)),
    {
        let count: usize = if received <= asked {
            received
        } else {
            asked
        };
        match self.advance(fd, count) {
            Ok(_) => Ok(count),
            Err(e) => Err(e),
        }
    }

    /// A read on a virtual descriptor brought `bytes` bytes: the offset moves
    /// on by that many. The new offset is returned.
    ///
    /// A descriptor that is not open gives `EBADF`; an offset that no longer
    /// fits gives `EOVERFLOW` and stays where it was.
    pub fn advance(&mut self, fd: i32, bytes: usize) -> (r: Result<u64, i32>)
        requires
            old(self).wf(),
        ensures
            final(self).wf(),
            final(self).next() == old(self).next(),
            final(self)@ == op_table(old(self)@, fd, FdOp::Read { bytes }),
            !old(self)@.contains_key(fd) ==> r == Err::<u64, i32>(EBADF),
            old(self)@.contains_key(fd) && old(self)@[fd].offset + bytes > u64::MAX ==> r
                == Err::<u64, i32>(EOVERFLOW),
            old(self)@.contains_key(fd) && old(self)@[fd].offset + bytes <= u64::MAX ==> r
                == Ok::<u64, i32>((old(self)@[fd].offset + bytes) as u64),
    {
        let info = match self.get(fd) {
            Some(info) => info,
            None => {
                return Err(EBADF);
            },
        };
        if bytes as u64 > u64::MAX - info.offset {
            assert(old(self)@.insert(fd, info) =~= old(self)@);
            return Err(EOVERFLOW);
        }
        let offset: u64 = info.offset + bytes as u64;
        self.put(fd, FileInfo { handle: info.handle, offset, size: info.size });
        Ok(offset)
    }
}

/// The table after a run of operations, each on some descriptor.
pub open spec fn run_table(m: Map<i32, FileInfo>, steps: Seq<(i32, FdOp)>) -> Map<i32, FileInfo>
    decreases steps.len(),
{
    if steps.len() == 0 {
        m
    } else {
        op_table(run_table(m, steps.drop_last()), steps.last().0, steps.last().1)
    }
}

/// The entry of `fd` after those operations of a run that are on `fd`,
/// applied in order to the entry it had before.
pub open spec fn cumulative(info: FileInfo, fd: i32, steps: Seq<(i32, FdOp)>) -> FileInfo
    decreases steps.len(),
{
    if steps.len() == 0 {
        info
    } else {
        let before = cumulative(info, fd, steps.drop_last());
        if steps.last().0 == fd {
            op_info(before, steps.last().1)
        } else {
            before
        }
    }
}

/// Offsets are cumulative: after any run of reads and seeks on any
/// descriptors, the offset of an open descriptor is what its own reads and
/// seeks add up to, starting from the offset it had. Operations on other
/// descriptors do not touch it, and no operation opens or closes a
/// descriptor or changes a handle or a size.
pub proof fn lemma_offsets_are_cumulative(m: Map<i32, FileInfo>, fd: i32, steps: Seq<(i32, FdOp)>)
    requires
        m.contains_key(fd),
    ensures
        run_table(m, steps).dom() == m.dom(),
        run_table(m, steps)[fd] == cumulative(m[fd], fd, steps),
        run_table(m, steps)[fd].handle == m[fd].handle,
        run_table(m, steps)[fd].size == m[fd].size,
    decreases steps.len(),
{
    if steps.len() > 0 {
        lemma_offsets_are_cumulative(m, fd, steps.drop_last());
        let before = run_table(m, steps.drop_last());
        assert(op_table(before, steps.last().0, steps.last().1).dom() =~= before.dom());
    }
}

} // verus!
