use remotelink::errno::{EBADF, EINVAL, EOVERFLOW};
use remotelink::fd_map::{
    seek_position, stream_read_count, stream_read_done, FdMap, FileInfo, MAX_READ_SIZE, MAX_VIRTUAL_FDS, SEEK_CUR,
    SEEK_END, SEEK_SET, VIRTUAL_FD_BASE,
};

#[test]
fn test_allocate_and_release() {
    let mut map = FdMap::new();

    let vfd = map.allocate(42).unwrap();
    assert!(vfd >= VIRTUAL_FD_BASE);
    assert_eq!(map.get_handle(vfd), Some(42));

    map.release(vfd);
    assert_eq!(map.get_handle(vfd), None);
}

#[test]
fn test_offset_tracking() {
    let mut map = FdMap::new();

    let vfd = map.allocate(42).unwrap();
    assert_eq!(map.get_offset(vfd), Some(0));

    map.update_offset(vfd, 100);
    assert_eq!(map.get_offset(vfd), Some(100));
}

#[test]
fn test_size_tracking() {
    let mut map = FdMap::new();

    let vfd = map.allocate(42).unwrap();
    assert_eq!(map.get_size(vfd), Some(0));

    map.set_size(vfd, 1024);
    assert_eq!(map.get_size(vfd), Some(1024));
}

#[test]
fn test_is_virtual_fd() {
    let mut map = FdMap::new();

    let vfd = map.allocate(42).unwrap();
    assert!(map.is_virtual_fd(vfd));
    assert!(!map.is_virtual_fd(3)); // Regular FD
}

#[test]
fn test_max_virtual_fds() {
    let mut map = FdMap::new();

    // Allocate MAX_VIRTUAL_FDS
    for i in 0..MAX_VIRTUAL_FDS {
        assert!(map.allocate(i as u32).is_some());
    }

    // Next allocation should fail
    assert!(map.allocate(999).is_none());
}

#[test]
fn test_descriptors_count_upwards_from_the_base() {
    let mut map = FdMap::new();
    assert_eq!(map.allocate(7), Some(10000));
    assert_eq!(map.allocate(8), Some(10001));
    map.release(10000);
    assert_eq!(map.allocate(9), Some(10002));
    assert_eq!(map.get(10001), Some(FileInfo { handle: 8, offset: 0, size: 0 }));
    assert_eq!(map.get(10000), None);
    map.cleanup();
    assert!(!map.is_virtual_fd(10001));
    assert_eq!(map.allocate(1), Some(10003));
}

#[test]
fn test_updates_leave_unknown_descriptors_alone() {
    let mut map = FdMap::new();
    map.update_offset(10000, 5);
    map.set_size(10000, 5);
    assert_eq!(map.get_offset(10000), None);
    assert_eq!(map.get_size(10000), None);
}

#[test]
fn test_seek_set() {
    let mut map = FdMap::new();
    let vfd = map.allocate(1).unwrap();
    map.set_size(vfd, 36);
    assert_eq!(map.seek(vfd, 10, SEEK_SET), Ok(10));
    assert_eq!(map.get_offset(vfd), Some(10));
    assert_eq!(map.seek(vfd, 1000, SEEK_SET), Ok(1000));
    assert_eq!(map.seek(vfd, -1, SEEK_SET), Err(EINVAL));
    assert_eq!(map.get_offset(vfd), Some(1000));
    assert_eq!(map.seek(vfd, i64::MAX, SEEK_SET), Ok(i64::MAX));
    assert_eq!(map.seek(vfd, 0, SEEK_SET), Ok(0));
}

#[test]
fn test_seek_cur_and_end() {
    let mut map = FdMap::new();
    let vfd = map.allocate(1).unwrap();
    map.set_size(vfd, 36);
    assert_eq!(map.seek(vfd, 0, SEEK_END), Ok(36));
    assert_eq!(map.seek(vfd, -16, SEEK_END), Ok(20));
    assert_eq!(map.seek(vfd, -5, SEEK_CUR), Ok(15));
    assert_eq!(map.seek(vfd, 6, SEEK_CUR), Ok(21));
    assert_eq!(map.seek(vfd, -22, SEEK_CUR), Err(EINVAL));
    assert_eq!(map.seek(vfd, -37, SEEK_END), Err(EINVAL));
    assert_eq!(map.get_offset(vfd), Some(21));
    assert_eq!(map.seek(vfd, i64::MAX, SEEK_CUR), Err(EINVAL));
    assert_eq!(map.seek(vfd, i64::MAX - 36, SEEK_END), Ok(i64::MAX));
    assert_eq!(map.seek(vfd, i64::MIN, SEEK_CUR), Err(EINVAL));
    assert_eq!(map.get_size(vfd), Some(36));
}

#[test]
fn test_seek_errors() {
    let mut map = FdMap::new();
    let vfd = map.allocate(1).unwrap();
    assert_eq!(map.seek(vfd, 0, 3), Err(EINVAL));
    assert_eq!(map.seek(vfd, 0, -1), Err(EINVAL));
    assert_eq!(map.seek(vfd + 1, 0, SEEK_SET), Err(EBADF));
    assert_eq!(map.seek(3, 0, 99), Err(EBADF));
    // An offset beyond what the result can hold.
    map.update_offset(vfd, u64::MAX);
    assert_eq!(map.seek(vfd, 0, SEEK_CUR), Err(EINVAL));
    assert_eq!(map.seek(vfd, i64::MIN, SEEK_CUR), Ok(i64::MAX));
}

#[test]
fn test_offsets_add_up() {
    let mut map = FdMap::new();
    let a = map.allocate(1).unwrap();
    let b = map.allocate(2).unwrap();
    map.set_size(a, 36);
    map.set_size(b, 100);
    assert_eq!(map.get_offset(a), Some(0));
    assert_eq!(map.advance(a, 10), Ok(10));
    assert_eq!(map.advance(b, 50), Ok(50));
    assert_eq!(map.seek(a, 10, SEEK_CUR), Ok(20));
    assert_eq!(map.advance(a, 16), Ok(36));
    assert_eq!(map.seek(b, -1, SEEK_SET), Err(EINVAL));
    assert_eq!(map.advance(a, 0), Ok(36));
    assert_eq!(map.get_offset(a), Some(36));
    assert_eq!(map.get_offset(b), Some(50));
    assert_eq!(map.get_handle(a), Some(1));
    assert_eq!(map.get_size(a), Some(36));
}

#[test]
fn test_advance_errors() {
    let mut map = FdMap::new();
    let vfd = map.allocate(1).unwrap();
    assert_eq!(map.advance(3, 1), Err(EBADF));
    map.update_offset(vfd, u64::MAX - 1);
    assert_eq!(map.advance(vfd, 1), Ok(u64::MAX));
    assert_eq!(map.advance(vfd, 1), Err(EOVERFLOW));
    assert_eq!(map.get_offset(vfd), Some(u64::MAX));
}

#[test]
fn test_read_request_caps_the_count() {
    let mut map = FdMap::new();
    let vfd = map.allocate(77).unwrap();
    map.update_offset(vfd, 5);
    assert_eq!(map.read_request(vfd, 10), Ok((77, 5, 10)));
    assert_eq!(map.read_request(vfd, 4 * 1024 * 1024), Ok((77, 5, MAX_READ_SIZE)));
    assert_eq!(map.read_request(vfd, 4 * 1024 * 1024 + 1), Ok((77, 5, 4194304)));
    assert_eq!(map.read_request(vfd, usize::MAX), Ok((77, 5, 4194304)));
    assert_eq!(map.read_request(vfd, 0), Ok((77, 5, 0)));
    assert_eq!(map.read_request(4, 10), Err(EBADF));
}

#[test]
fn test_seek_constants_are_those_of_the_c_library() {
    assert_eq!(SEEK_SET, libc::SEEK_SET);
    assert_eq!(SEEK_CUR, libc::SEEK_CUR);
    assert_eq!(SEEK_END, libc::SEEK_END);
}

#[test]
fn test_seek_position() {
    let info = FileInfo { handle: 1, offset: 20, size: 36 };
    assert_eq!(seek_position(&info, 5, SEEK_SET), Ok(5));
    assert_eq!(seek_position(&info, 5, SEEK_CUR), Ok(25));
    assert_eq!(seek_position(&info, -5, SEEK_END), Ok(31));
    assert_eq!(seek_position(&info, -21, SEEK_CUR), Err(EINVAL));
    assert_eq!(seek_position(&info, -1, SEEK_SET), Err(EINVAL));
    assert_eq!(seek_position(&info, 0, 7), Err(EINVAL));
    assert_eq!(seek_position(&info, i64::MAX - 20, SEEK_CUR), Ok(i64::MAX));
    assert_eq!(seek_position(&info, i64::MAX - 19, SEEK_CUR), Err(EINVAL));
    let huge = FileInfo { handle: 1, offset: u64::MAX, size: u64::MAX };
    assert_eq!(seek_position(&huge, 0, SEEK_END), Err(EINVAL));
    assert_eq!(seek_position(&huge, i64::MIN, SEEK_END), Ok(i64::MAX));
}

#[test]
fn test_stream_read_count() {
    let info = FileInfo { handle: 1, offset: 20, size: 36 };
    assert_eq!(stream_read_count(&info, 10), 10);
    assert_eq!(stream_read_count(&info, 16), 16);
    assert_eq!(stream_read_count(&info, 17), 16);
    assert_eq!(stream_read_count(&info, 0), 0);
    assert_eq!(stream_read_count(&FileInfo { handle: 1, offset: 36, size: 36 }, 10), 0);
    assert_eq!(stream_read_count(&FileInfo { handle: 1, offset: 40, size: 36 }, 10), 0);
    let large = FileInfo { handle: 1, offset: 0, size: u64::MAX };
    assert_eq!(stream_read_count(&large, usize::MAX), MAX_READ_SIZE);
    assert_eq!(stream_read_count(&large, 4194304), 4194304);
    assert_eq!(stream_read_count(&large, 4194303), 4194303);
}

#[test]
fn test_read_done_copies_no_more_than_asked() {
    let mut map = FdMap::new();
    let vfd = map.allocate(1).unwrap();
    map.set_size(vfd, 100);
    assert_eq!(map.read_done(vfd, 10, 10), Ok(10));
    assert_eq!(map.get_offset(vfd), Some(10));
    // The Host sent less than was asked for.
    assert_eq!(map.read_done(vfd, 10, 4), Ok(4));
    assert_eq!(map.get_offset(vfd), Some(14));
    // The Host sent more than the caller has room for.
    assert_eq!(map.read_done(vfd, 10, 25), Ok(10));
    assert_eq!(map.get_offset(vfd), Some(24));
    // The end of the file.
    assert_eq!(map.read_done(vfd, 10, 0), Ok(0));
    assert_eq!(map.read_done(vfd, 0, 7), Ok(0));
    assert_eq!(map.get_offset(vfd), Some(24));
    assert_eq!(map.read_done(3, 10, 10), Err(EBADF));
    map.update_offset(vfd, u64::MAX - 5);
    assert_eq!(map.read_done(vfd, 10, 6), Err(EOVERFLOW));
    assert_eq!(map.get_offset(vfd), Some(u64::MAX - 5));
    assert_eq!(map.read_done(vfd, 5, 6), Ok(5));
    assert_eq!(map.get_offset(vfd), Some(u64::MAX));
}

#[test]
fn test_stream_read_done() {
    let info = FileInfo { handle: 8, offset: 20, size: 36 };
    assert_eq!(
        stream_read_done(&info, 16, 16),
        Ok((16, FileInfo { handle: 8, offset: 36, size: 36 }))
    );
    assert_eq!(
        stream_read_done(&info, 4, 16),
        Ok((4, FileInfo { handle: 8, offset: 24, size: 36 }))
    );
    assert_eq!(stream_read_done(&info, 16, 0), Ok((0, info)));
    let last = FileInfo { handle: 8, offset: u64::MAX, size: u64::MAX };
    assert_eq!(stream_read_done(&last, 1, 1), Err(EOVERFLOW));
    assert_eq!(stream_read_done(&last, 1, 0), Ok((0, last)));
}

#[test]
fn test_new_descriptor_is_never_one_in_use() {
    let mut map = FdMap::new();
    let mut open = Vec::new();
    let mut seed: u32 = 7;
    for round in 0..2000u32 {
        seed = seed.wrapping_mul(1103515245).wrapping_add(12345);
        if (seed >> 16) % 3 != 0 || open.is_empty() {
            match map.allocate(round) {
                Some(vfd) => {
                    assert!(vfd >= VIRTUAL_FD_BASE);
                    assert!(!open.contains(&vfd));
                    open.push(vfd);
                }
                None => assert_eq!(open.len(), MAX_VIRTUAL_FDS),
            }
        } else {
            let at = (seed >> 8) as usize % open.len();
            let vfd = open.swap_remove(at);
            map.release(vfd);
        }
        for vfd in &open {
            assert!(map.is_virtual_fd(*vfd));
        }
    }
}
