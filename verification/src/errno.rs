//! Error numbers as they travel in replies and as the interposer reports
//! them. The values are those of Linux.

use vstd::prelude::*;

verus! {

/// No such file or directory.
pub const ENOENT: i32 = 2;

/// Input/output error.
pub const EIO: i32 = 5;

/// Bad file descriptor.
pub const EBADF: i32 = 9;

/// Out of memory.
pub const ENOMEM: i32 = 12;

/// Is a directory.
pub const EISDIR: i32 = 21;

/// Invalid argument.
pub const EINVAL: i32 = 22;

/// Too many open files in the system.
pub const ENFILE: i32 = 23;

/// Too many open files in this process.
pub const EMFILE: i32 = 24;

/// Value too large for the data type.
pub const EOVERFLOW: i32 = 75;

} // verus!
