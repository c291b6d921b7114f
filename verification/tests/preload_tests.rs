use remotelink::errno::{EBADF, EINVAL, EMFILE, ENOENT};
use remotelink::fd_map::{FdMap, FileInfo};
use remotelink::messages::DirEntry;
use remotelink::preload::{
    cache_path, cache_remote_file, fcntl, get_cache_dir, get_relative_path, handle_remote_access,
    handle_remote_close, handle_remote_fstat, handle_remote_open, handle_remote_stat,
    is_remote_path, is_shared_library, is_shared_library_name, open_plan, route,
    should_fall_back, should_fall_back_dlopen, with_remote_fallback, CachePlan, DirState,
    OpenPlan, Route, StatRecord, DIRECTORY_MODE, DT_DIR, DT_REG, F_GETFD, F_GETFL, F_SETFD,
    F_SETFL, MAX_NAME_LEN, O_RDONLY, REGULAR_MODE,
};

#[test]
fn test_is_shared_library() {
    // Positive cases
    assert!(is_shared_library("/host/libs/libfoo.so"));
    assert!(is_shared_library("/host/libs/libfoo.so.1"));
    assert!(is_shared_library("/host/libs/libfoo.so.1.2"));
    assert!(is_shared_library("/host/libs/libfoo.so.1.2.3"));
    assert!(is_shared_library("libbar.so"));
    assert!(is_shared_library("libc.so.6"));

    // Negative cases
    assert!(!is_shared_library("/host/data/file.txt"));
    assert!(!is_shared_library("/host/data/file.json"));
    assert!(!is_shared_library("/host/data/file.so.txt")); // Not a version number
    assert!(!is_shared_library("/host/data/file.so.abc")); // Not digits
    assert!(!is_shared_library("/host/data/myfile"));
}

#[test]
fn test_shared_library_versions() {
    assert!(is_shared_library("libfoo.so.10.200.3000"));
    assert!(is_shared_library(".so"));
    assert!(is_shared_library(".so.0"));
    assert!(is_shared_library("a.so.1.so"));
    assert!(is_shared_library("a.so.x.so.2"));
    assert!(is_shared_library_name(b"lib\xff.so.1"));
    // A version is made of groups of a dot and digits.
    assert!(!is_shared_library("libfoo.so."));
    assert!(!is_shared_library("libfoo.so.1."));
    assert!(!is_shared_library("libfoo.so..1"));
    assert!(!is_shared_library("libfoo.so.1..2"));
    assert!(!is_shared_library("libfoo.so1"));
    assert!(!is_shared_library("libfoo.so.1a"));
    assert!(!is_shared_library("libfoo.so.1.so.x"));
    assert!(!is_shared_library("so"));
    assert!(!is_shared_library("so.1"));
    assert!(!is_shared_library(""));
    assert!(!is_shared_library("1.2.3"));
    assert!(!is_shared_library("libfoo.SO"));
    assert!(!is_shared_library("libfoo.so "));
}

#[test]
fn test_remote_paths() {
    assert!(is_remote_path("/host/data/file.txt"));
    assert!(is_remote_path("/host/"));
    assert!(!is_remote_path("/host"));
    assert!(!is_remote_path("host/data"));
    assert!(!is_remote_path("/hostile/file"));
    assert!(!is_remote_path("/usr/host/file"));
    assert!(!is_remote_path(""));
    assert_eq!(route("/host/x"), Route::Remote);
    assert_eq!(route("/etc/x"), Route::LocalFirst);
    assert_eq!(route("data/local_only.txt"), Route::LocalFirst);
}

#[test]
fn test_relative_paths() {
    assert_eq!(get_relative_path("/host/data/file.txt"), "data/file.txt");
    assert_eq!(get_relative_path("/host/"), "");
    assert_eq!(get_relative_path("/host//etc"), "/etc");
    assert_eq!(get_relative_path("/host/\u{e9}t\u{e9}"), "\u{e9}t\u{e9}");
    assert_eq!(get_relative_path("/host"), "/host");
    assert_eq!(get_relative_path("data/remote_only.txt"), "data/remote_only.txt");
    assert_eq!(get_relative_path(""), "");
}

#[test]
fn test_local_first_fallback() {
    // The file is there: the local result stands and the Host is not asked.
    assert!(!should_fall_back(false, 0, true));
    // The file is not there and a connection exists: the Host is asked.
    assert!(should_fall_back(true, ENOENT, true));
    // The Host has it.
    assert_eq!(with_remote_fallback(-1, 10000), (10000, None));
    assert_eq!(with_remote_fallback(-1, 0), (0, None));
    // The Host does not have it either.
    assert_eq!(with_remote_fallback(-1, -1), (-1, Some(ENOENT)));
    // No connection, or another failure: the local result stands.
    assert!(!should_fall_back(true, ENOENT, false));
    assert!(!should_fall_back(true, libc::EACCES, true));
    assert!(!should_fall_back(true, 0, true));
    assert!(should_fall_back_dlopen(true, true));
    assert!(!should_fall_back_dlopen(true, false));
    assert!(!should_fall_back_dlopen(false, true));
}

#[test]
fn test_open_plans() {
    assert_eq!(open_plan("/host/libs/libfoo.so.1"), OpenPlan::Cache);
    assert_eq!(open_plan("/host/data/file.txt"), OpenPlan::Virtual);
    let mut map = FdMap::new();
    assert_eq!(handle_remote_open(&mut map, 5, 36), Ok(10000));
    assert_eq!(map.get(10000), Some(FileInfo { handle: 5, offset: 0, size: 36 }));
    for i in 1..256 {
        assert_eq!(handle_remote_open(&mut map, i, 1), Ok(10000 + i as i32));
    }
    assert_eq!(handle_remote_open(&mut map, 999, 1), Err(EMFILE));
    assert_eq!(handle_remote_close(&mut map, 10000, 0), Ok(()));
    assert!(!map.is_virtual_fd(10000));
    assert_eq!(handle_remote_close(&mut map, 10001, EBADF), Err(EBADF));
    assert!(map.is_virtual_fd(10001));
    assert_eq!(handle_remote_open(&mut map, 999, 1), Ok(10256));
}

#[test]
fn test_stat_records() {
    assert_eq!(
        handle_remote_stat(36, 1234567890, false),
        StatRecord { st_size: 36, st_mtime: 1234567890, st_mode: REGULAR_MODE }
    );
    assert_eq!(
        handle_remote_stat(4096, -1, true),
        StatRecord { st_size: 4096, st_mtime: -1, st_mode: DIRECTORY_MODE }
    );
    assert_eq!(handle_remote_stat(u64::MAX, 0, false).st_size, -1);
    assert_eq!(handle_remote_stat(1 << 63, 0, false).st_size, i64::MIN);
    assert_eq!(DIRECTORY_MODE, libc::S_IFDIR | 0o755);
    assert_eq!(REGULAR_MODE, libc::S_IFREG | 0o644);
    let mut map = FdMap::new();
    let vfd = map.allocate(1).unwrap();
    map.set_size(vfd, 1024);
    assert_eq!(
        handle_remote_fstat(&map, vfd),
        Ok(StatRecord { st_size: 1024, st_mtime: 0, st_mode: REGULAR_MODE })
    );
    assert_eq!(handle_remote_fstat(&map, 3), Err(EBADF));
    assert_eq!(handle_remote_access(0), Ok(()));
    assert_eq!(handle_remote_access(ENOENT), Err(ENOENT));
}

#[test]
fn test_fcntl_on_a_virtual_descriptor() {
    assert_eq!(fcntl(F_GETFL), Ok(O_RDONLY));
    assert_eq!(fcntl(F_SETFL), Ok(0));
    assert_eq!(fcntl(F_GETFD), Ok(0));
    assert_eq!(fcntl(F_SETFD), Ok(0));
    assert_eq!(fcntl(0), Err(EINVAL));
    assert_eq!(fcntl(libc::F_SETLK), Err(EINVAL));
    assert_eq!(fcntl(-1), Err(EINVAL));
    assert_eq!(F_GETFL, libc::F_GETFL);
    assert_eq!(F_SETFL, libc::F_SETFL);
    assert_eq!(F_GETFD, libc::F_GETFD);
    assert_eq!(F_SETFD, libc::F_SETFD);
    assert_eq!(O_RDONLY, libc::O_RDONLY);
}

#[test]
fn test_directory_records() {
    let long = "n".repeat(300);
    let mut dir = DirState::new(vec![
        DirEntry { name: "file.txt".to_string(), is_dir: false },
        DirEntry { name: "sub".to_string(), is_dir: true },
        DirEntry { name: long, is_dir: false },
    ]);
    let first = dir.handle_remote_readdir().unwrap();
    assert_eq!(first.d_ino, 1);
    assert_eq!(first.d_off, 1);
    assert_eq!(first.d_type, DT_REG);
    assert_eq!(first.d_name, b"file.txt");
    let second = dir.handle_remote_readdir().unwrap();
    assert_eq!(second.d_off, 2);
    assert_eq!(second.d_type, DT_DIR);
    assert_eq!(second.d_name, b"sub");
    let third = dir.handle_remote_readdir().unwrap();
    assert_eq!(third.d_off, 3);
    assert_eq!(third.d_name.len(), MAX_NAME_LEN);
    assert_eq!(third.d_name, vec![b'n'; 255]);
    assert!(dir.handle_remote_readdir().is_none());
    assert!(dir.handle_remote_readdir().is_none());
    assert!(DirState::new(Vec::new()).handle_remote_readdir().is_none());
    assert_eq!(DT_DIR, libc::DT_DIR);
    assert_eq!(DT_REG, libc::DT_REG);
}

#[test]
fn test_cache_paths() {
    assert_eq!(get_cache_dir(4711), "/tmp/remotelink-cache-4711");
    assert_eq!(get_cache_dir(0), "/tmp/remotelink-cache-0");
    assert_eq!(get_cache_dir(u32::MAX), "/tmp/remotelink-cache-4294967295");
    assert_eq!(cache_path(12, "libs/libfoo.so"), "/tmp/remotelink-cache-12/libs/libfoo.so");
    assert_eq!(cache_remote_file(true, true), CachePlan::Reuse);
    assert_eq!(cache_remote_file(true, false), CachePlan::Download);
    assert_eq!(cache_remote_file(false, true), CachePlan::Download);
    assert_eq!(cache_remote_file(false, false), CachePlan::Download);
}
