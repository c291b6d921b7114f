use remotelink::codec::Message;
use remotelink::errno::{EBADF, EINVAL, EIO, EISDIR, ENFILE, ENOENT};
use remotelink::file_server::{
    has_dot_dot, is_within, read_reply, FilePlan, FileServerState, Lookup, OpenInfo, StatInfo,
    FILE_SERVER_PORT, MAX_OPEN_FILES, MAX_READ_SIZE,
};
use remotelink::messages::{
    DirEntry, FileCloseReply, FileCloseRequest, FileOpenReply, FileOpenRequest, FileReadReply,
    FileReadRequest, FileReaddirReply, FileReaddirRequest, FileStatReply, FileStatRequest,
    HandshakeRequest,
};

const CONTENT: &[u8] = b"0123456789ABCDEFGHIJKLMNOPQRSTUVWXYZ";

fn service() -> FileServerState {
    FileServerState::new(b"/srv/base".to_vec())
}

fn found(path: &str, size: u64) -> Lookup<OpenInfo> {
    Lookup::Found { canonical: path.as_bytes().to_vec(), info: OpenInfo { is_dir: false, size } }
}

/// What the program does for a read plan: takes the bytes out of the file.
fn read_at(plan: FilePlan) -> FileReadReply {
    match plan {
        FilePlan::Read { handle: _, offset, count } => {
            let start = offset as usize;
            read_reply(Some(CONTENT[start..start + count as usize].to_vec()))
        }
        FilePlan::Reply(Message::FileReadReply(reply)) => reply,
        _ => panic!("no read plan"),
    }
}

#[test]
fn test_limits() {
    assert_eq!(MAX_READ_SIZE, 4 * 1024 * 1024);
    assert_eq!(MAX_OPEN_FILES, 256);
    assert_eq!(FILE_SERVER_PORT, 8889);
}

#[test]
fn test_file_service_round_trip() {
    let mut state = service();
    let plan = state.plan_request(Message::FileOpenRequest(FileOpenRequest {
        path: "data/file.txt".to_string(),
    }));
    match plan {
        FilePlan::Open { path } => assert_eq!(path, "data/file.txt"),
        _ => panic!("no open plan"),
    }
    let reply = state.open_reply("data/file.txt", found("/srv/base/data/file.txt", 36));
    assert_eq!(reply, FileOpenReply { handle: 1, size: 36, error: 0 });
    let handle = reply.handle;

    let read = |state: &mut FileServerState, offset: u64, size: u32| {
        read_at(state.plan_request(Message::FileReadRequest(FileReadRequest {
            handle,
            offset,
            size,
        })))
    };
    assert_eq!(read(&mut state, 10, 10), FileReadReply { data: b"ABCDEFGHIJ".to_vec(), error: 0 });
    assert_eq!(
        read(&mut state, 20, 16),
        FileReadReply { data: b"KLMNOPQRSTUVWXYZ".to_vec(), error: 0 }
    );
    assert_eq!(read(&mut state, 36, 10), FileReadReply { data: Vec::new(), error: 0 });
    assert_eq!(read(&mut state, 0, 10), FileReadReply { data: b"0123456789".to_vec(), error: 0 });
    // A read across the end is cut at the end.
    assert_eq!(read(&mut state, 30, 100), FileReadReply { data: b"UVWXYZ".to_vec(), error: 0 });
    assert_eq!(read(&mut state, 1000, 1), FileReadReply { data: Vec::new(), error: 0 });

    let plan = state.plan_request(Message::FileCloseRequest(FileCloseRequest { handle }));
    assert!(matches!(
        plan,
        FilePlan::Reply(Message::FileCloseReply(FileCloseReply { error: 0 }))
    ));
    assert!(state.get(handle).is_none());
}

#[test]
fn test_path_traversal_is_refused() {
    let mut state = service();
    for path in ["../../../etc/passwd", "subdir/../../etc/passwd", "..", "a..b"] {
        let plan = state
            .plan_request(Message::FileOpenRequest(FileOpenRequest { path: path.to_string() }));
        match plan {
            FilePlan::Reply(Message::FileOpenReply(reply)) => {
                assert_eq!(reply, FileOpenReply { handle: 0, size: 0, error: ENOENT })
            }
            _ => panic!("{} was not refused", path),
        }
        // Whatever the filesystem says, the path stays refused.
        assert_eq!(
            state.open_reply(path, found("/srv/base/etc/passwd", 5)),
            FileOpenReply { handle: 0, size: 0, error: ENOENT }
        );
        assert_eq!(
            state.stat_reply(
                path,
                Lookup::Found {
                    canonical: b"/srv/base/x".to_vec(),
                    info: StatInfo { size: 1, mtime: 2, is_dir: false }
                }
            ),
            FileStatReply { size: 0, mtime: 0, is_dir: false, error: ENOENT }
        );
    }
    assert_eq!(state.open_count(), 0);
}

#[test]
fn test_files_outside_the_base_are_not_found() {
    let mut state = service();
    // A symbolic link inside the base that leads out of it.
    for canonical in ["/etc/passwd", "/srv/base2/file", "/srv", "/srv/bas", "/"] {
        assert_eq!(
            state.open_reply("link", found(canonical, 5)),
            FileOpenReply { handle: 0, size: 0, error: ENOENT }
        );
    }
    assert_eq!(state.open_count(), 0);
    assert_eq!(
        state.open_reply("data/file.txt", found("/srv/base/data/file.txt", 5)),
        FileOpenReply { handle: 1, size: 5, error: 0 }
    );
    assert_eq!(state.get(1).unwrap().path, b"/srv/base/data/file.txt");
    assert_eq!(state.get(1).unwrap().size, 5);
}

#[test]
fn test_is_within() {
    assert!(is_within(b"/srv/base", b"/srv/base"));
    assert!(is_within(b"/srv/base", b"/srv/base/a"));
    assert!(is_within(b"/srv/base", b"/srv/base/a/b.txt"));
    assert!(is_within(b"/", b"/etc"));
    assert!(is_within(b"/", b"/"));
    assert!(!is_within(b"/srv/base", b"/srv/base2"));
    assert!(!is_within(b"/srv/base", b"/srv/bas"));
    assert!(!is_within(b"/srv/base", b"/srv"));
    assert!(!is_within(b"/srv/base", b"/etc/srv/base/x"));
    assert!(!is_within(b"", b"/etc"));
    assert!(is_within(b"", b""));
}

#[test]
fn test_has_dot_dot() {
    assert!(has_dot_dot(b".."));
    assert!(has_dot_dot(b"a/../b"));
    assert!(has_dot_dot(b"a..b"));
    assert!(has_dot_dot(b"..."));
    assert!(!has_dot_dot(b"."));
    assert!(!has_dot_dot(b"a.b.c"));
    assert!(!has_dot_dot(b""));
    assert!(!has_dot_dot(b"./a/./b"));
}

#[test]
fn test_open_errors() {
    let mut state = service();
    assert_eq!(
        state.open_reply("missing", Lookup::NotFound),
        FileOpenReply { handle: 0, size: 0, error: ENOENT }
    );
    assert_eq!(
        state.open_reply("broken", Lookup::Failed),
        FileOpenReply { handle: 0, size: 0, error: EIO }
    );
    assert_eq!(
        state.open_reply(
            "data",
            Lookup::Found {
                canonical: b"/srv/base/data".to_vec(),
                info: OpenInfo { is_dir: true, size: 4096 }
            }
        ),
        FileOpenReply { handle: 0, size: 0, error: EISDIR }
    );
    assert_eq!(state.open_file(b"missing", Lookup::NotFound), Err(ENOENT));
    assert_eq!(state.open_count(), 0);
}

#[test]
fn test_handles_count_upwards_from_one() {
    let mut state = service();
    assert_eq!(state.open_file(b"a", found("/srv/base/a", 1)), Ok((1, 1)));
    assert_eq!(state.open_file(b"b", found("/srv/base/b", 2)), Ok((2, 2)));
    assert_eq!(state.close_file(1), Ok(()));
    assert_eq!(state.open_file(b"c", found("/srv/base/c", 3)), Ok((3, 3)));
    assert_eq!(state.open_count(), 2);
    assert_eq!(state.base_dir(), b"/srv/base");
}

#[test]
fn test_table_holds_256_files() {
    let mut state = service();
    for i in 0..256u32 {
        assert_eq!(state.open_file(b"f", found("/srv/base/f", 7)), Ok((i + 1, 7)));
    }
    assert_eq!(state.open_file(b"f", found("/srv/base/f", 7)), Err(ENFILE));
    assert_eq!(
        state.open_reply("f", found("/srv/base/f", 7)),
        FileOpenReply { handle: 0, size: 0, error: ENFILE }
    );
    // The request is still looked up: only a file that could be opened
    // finds the table full.
    let plan =
        state.plan_request(Message::FileOpenRequest(FileOpenRequest { path: "f".to_string() }));
    assert!(matches!(plan, FilePlan::Open { path } if path == "f"));
    assert_eq!(state.open_count(), 256);
    assert_eq!(state.close_file(100), Ok(()));
    assert_eq!(state.open_file(b"f", found("/srv/base/f", 7)), Ok((257, 7)));
}

#[test]
fn test_path_errors_come_before_a_full_table() {
    let mut state = service();
    for _ in 0..256u32 {
        assert!(state.open_file(b"f", found("/srv/base/f", 7)).is_ok());
    }
    for path in ["../../../etc/passwd", "subdir/../../etc/passwd"] {
        let plan = state
            .plan_request(Message::FileOpenRequest(FileOpenRequest { path: path.to_string() }));
        match plan {
            FilePlan::Reply(Message::FileOpenReply(reply)) => {
                assert_eq!(reply, FileOpenReply { handle: 0, size: 0, error: ENOENT })
            }
            _ => panic!("{} was not refused", path),
        }
        assert_eq!(state.open_file(path.as_bytes(), found("/srv/base/f", 7)), Err(ENOENT));
        assert_eq!(state.open_file(path.as_bytes(), Lookup::NotFound), Err(ENOENT));
    }
    assert_eq!(state.open_file(b"missing", Lookup::NotFound), Err(ENOENT));
    assert_eq!(state.open_file(b"broken", Lookup::Failed), Err(EIO));
    assert_eq!(state.open_file(b"link", found("/etc/passwd", 7)), Err(ENOENT));
    assert_eq!(
        state.open_file(
            b"data",
            Lookup::Found {
                canonical: b"/srv/base/data".to_vec(),
                info: OpenInfo { is_dir: true, size: 0 }
            }
        ),
        Err(EISDIR)
    );
    assert_eq!(state.open_count(), 256);
}

#[test]
fn test_read_errors() {
    let mut state = service();
    assert_eq!(state.open_file(b"a", found("/srv/base/a", 36)), Ok((1, 36)));
    assert_eq!(state.read_file(1, 0, MAX_READ_SIZE), Ok(36));
    assert_eq!(state.read_file(1, 0, MAX_READ_SIZE + 1), Err(EINVAL));
    assert_eq!(state.read_file(2, 0, 1), Err(EBADF));
    // The size is looked at before the handle.
    assert_eq!(state.read_file(2, 0, MAX_READ_SIZE + 1), Err(EINVAL));
    assert_eq!(state.read_file(1, 35, 10), Ok(1));
    assert_eq!(state.read_file(1, 36, 10), Ok(0));
    assert_eq!(state.read_file(1, u64::MAX, 10), Ok(0));
    assert_eq!(state.read_file(1, 5, 0), Ok(0));
    let plan = state.plan_request(Message::FileReadRequest(FileReadRequest {
        handle: 9,
        offset: 0,
        size: 1,
    }));
    match plan {
        FilePlan::Reply(Message::FileReadReply(reply)) => {
            assert_eq!(reply, FileReadReply { data: Vec::new(), error: EBADF })
        }
        _ => panic!("not refused"),
    }
    assert_eq!(read_reply(None), FileReadReply { data: Vec::new(), error: EIO });
    assert_eq!(read_reply(Some(vec![1, 2])), FileReadReply { data: vec![1, 2], error: 0 });
}

#[test]
fn test_close_of_unknown_handle() {
    let mut state = service();
    assert_eq!(state.close_file(1), Err(EBADF));
    let plan = state.plan_request(Message::FileCloseRequest(FileCloseRequest { handle: 0 }));
    assert!(matches!(
        plan,
        FilePlan::Reply(Message::FileCloseReply(FileCloseReply { error: EBADF }))
    ));
}

#[test]
fn test_stat() {
    let mut state = service();
    let plan = state.plan_request(Message::FileStatRequest(FileStatRequest {
        path: "stat_test.txt".to_string(),
    }));
    assert!(matches!(plan, FilePlan::Stat { path } if path == "stat_test.txt"));
    let info = StatInfo { size: 18, mtime: 1234567890, is_dir: false };
    assert_eq!(
        state.stat_reply(
            "stat_test.txt",
            Lookup::Found { canonical: b"/srv/base/stat_test.txt".to_vec(), info }
        ),
        FileStatReply { size: 18, mtime: 1234567890, is_dir: false, error: 0 }
    );
    assert_eq!(
        state.stat_file(b"data", Lookup::Found {
            canonical: b"/srv/base/data".to_vec(),
            info: StatInfo { size: 4096, mtime: -5, is_dir: true }
        }),
        Ok((4096, -5, true))
    );
    assert_eq!(
        state.stat_reply("does_not_exist.txt", Lookup::NotFound),
        FileStatReply { size: 0, mtime: 0, is_dir: false, error: ENOENT }
    );
    assert_eq!(
        state.stat_reply("x", Lookup::Failed),
        FileStatReply { size: 0, mtime: 0, is_dir: false, error: EIO }
    );
    assert_eq!(
        state.stat_reply("x", Lookup::Found { canonical: b"/etc/x".to_vec(), info }),
        FileStatReply { size: 0, mtime: 0, is_dir: false, error: ENOENT }
    );
}

#[test]
fn test_readdir() {
    let mut state = service();
    let plan = state
        .plan_request(Message::FileReaddirRequest(FileReaddirRequest { path: "d".to_string() }));
    assert!(matches!(plan, FilePlan::List { path } if path == "d"));
    let entries = vec![
        DirEntry { name: "b".to_string(), is_dir: false },
        DirEntry { name: "a".to_string(), is_dir: true },
    ];
    assert_eq!(
        state.readdir_reply(
            "d",
            Lookup::Found { canonical: b"/srv/base/d".to_vec(), info: entries.clone() }
        ),
        FileReaddirReply { entries: entries.clone(), error: 0 }
    );
    assert_eq!(
        state.readdir_reply("d", Lookup::Found { canonical: b"/tmp".to_vec(), info: entries }),
        FileReaddirReply { entries: Vec::new(), error: ENOENT }
    );
    assert_eq!(state.read_dir(b"d", Lookup::NotFound), Err(ENOENT));
    let plan = state.plan_request(Message::FileReaddirRequest(FileReaddirRequest {
        path: "../d".to_string(),
    }));
    assert!(matches!(
        plan,
        FilePlan::Reply(Message::FileReaddirReply(FileReaddirReply { error: ENOENT, .. }))
    ));
}

#[test]
fn test_other_messages_are_refused() {
    let mut state = service();
    let plan = state.plan_request(Message::HandshakeRequest(HandshakeRequest {
        version_major: 0,
        version_minor: 1,
    }));
    assert!(matches!(plan, FilePlan::Refuse));
    let plan =
        state.plan_request(Message::FileCloseReply(FileCloseReply { error: 0 }));
    assert!(matches!(plan, FilePlan::Refuse));
}

#[test]
fn test_error_numbers_are_those_of_the_c_library() {
    assert_eq!(ENOENT, libc::ENOENT);
    assert_eq!(EIO, libc::EIO);
    assert_eq!(EBADF, libc::EBADF);
    assert_eq!(EISDIR, libc::EISDIR);
    assert_eq!(EINVAL, libc::EINVAL);
    assert_eq!(ENFILE, libc::ENFILE);
    assert_eq!(remotelink::errno::EMFILE, libc::EMFILE);
    assert_eq!(remotelink::errno::ENOMEM, libc::ENOMEM);
    assert_eq!(remotelink::errno::EOVERFLOW, libc::EOVERFLOW);
}

#[test]
fn test_new_handle_is_never_one_in_use() {
    let mut state = service();
    let mut open = Vec::new();
    let mut seed: u32 = 11;
    for _ in 0..2000u32 {
        seed = seed.wrapping_mul(1103515245).wrapping_add(12345);
        if (seed >> 16) % 3 != 0 || open.is_empty() {
            match state.open_file(b"f", found("/srv/base/f", 7)) {
                Ok((handle, _)) => {
                    assert_ne!(handle, 0);
                    assert!(!open.contains(&handle));
                    open.push(handle);
                }
                Err(e) => {
                    assert_eq!(e, ENFILE);
                    assert_eq!(open.len(), MAX_OPEN_FILES);
                }
            }
        } else {
            let at = (seed >> 8) as usize % open.len();
            let handle = open.swap_remove(at);
            assert_eq!(state.close_file(handle), Ok(()));
        }
        assert_eq!(state.open_count(), open.len());
    }
}
