use remotelink::codec::{deserialize, deserialize_as, serialize, CodecError, Message};
use remotelink::messages::{
    DirEntry, FileCloseReply, FileCloseRequest, FileOpenReply, FileOpenRequest, FileReadReply,
    FileReadRequest, FileReaddirReply, FileReaddirRequest, FileStatReply, FileStatRequest,
    HandshakeReply, HandshakeRequest, LaunchExecutableReply, LaunchExecutableRequest,
    LibraryDataReply, LibraryDataRequest, Messages, StopExecutableReply, StopExecutableRequest,
    TextMessage,
};

fn samples() -> Vec<Message> {
    vec![
        Message::HandshakeRequest(HandshakeRequest { version_major: 0, version_minor: 1 }),
        Message::HandshakeReply(HandshakeReply { version_major: 7, version_minor: 255 }),
        Message::LaunchExecutableRequest(LaunchExecutableRequest {
            file_server: true,
            path: "target/debug/gr\u{fc}\u{df}e".to_string(),
            data: vec![0x7f, 0x45, 0x4c, 0x46, 0, 255],
        }),
        Message::LaunchExecutableReply(LaunchExecutableReply {
            launch_status: -1,
            error_info: Some("Failed to launch executable".to_string()),
        }),
        Message::LaunchExecutableReply(LaunchExecutableReply {
            launch_status: 42,
            error_info: None,
        }),
        Message::StopExecutableRequest(StopExecutableRequest::default()),
        Message::StopExecutableReply(StopExecutableReply { dummy: 0xdead_beef }),
        Message::StdoutOutput(TextMessage { data: b"Hello from test\n".to_vec() }),
        Message::StderrOutput(TextMessage { data: Vec::new() }),
        Message::FileOpenRequest(FileOpenRequest { path: String::new() }),
        Message::FileOpenReply(FileOpenReply { handle: u32::MAX, size: u64::MAX, error: i32::MIN }),
        Message::FileReadRequest(FileReadRequest { handle: 1, offset: 1 << 40, size: 4194304 }),
        Message::FileReadReply(FileReadReply { data: vec![1, 2, 3], error: 5 }),
        Message::FileCloseRequest(FileCloseRequest { handle: 9 }),
        Message::FileCloseReply(FileCloseReply { error: 9 }),
        Message::FileStatRequest(FileStatRequest { path: "data/file.txt".to_string() }),
        Message::FileStatReply(FileStatReply {
            size: 36,
            mtime: i64::MIN,
            is_dir: true,
            error: i32::MAX,
        }),
        Message::FileReaddirRequest(FileReaddirRequest { path: "data".to_string() }),
        Message::FileReaddirReply(FileReaddirReply {
            entries: vec![
                DirEntry { name: "a.txt".to_string(), is_dir: false },
                DirEntry { name: "sub".to_string(), is_dir: true },
                DirEntry { name: String::new(), is_dir: false },
            ],
            error: 0,
        }),
        Message::FileReaddirReply(FileReaddirReply { entries: Vec::new(), error: 2 }),
        Message::LibraryDataRequest(LibraryDataRequest {
            name: "libfoo.so.1".to_string(),
            data: vec![9; 300],
        }),
        Message::LibraryDataReply(LibraryDataReply { error: 0 }),
    ]
}

#[test]
fn test_round_trip_of_every_message() {
    for message in samples() {
        let bytes = serialize(&message);
        assert_eq!(deserialize(message.tag(), &bytes), Ok(message.clone()));
        assert_eq!(deserialize_as(message.kind(), &bytes), Ok(message));
    }
}

#[test]
fn test_round_trip_with_bytes_behind_the_payload() {
    for message in samples() {
        let mut bytes = serialize(&message);
        bytes.extend_from_slice(&[0xff, 0x00, 0x01]);
        assert_eq!(deserialize(message.tag(), &bytes), Ok(message));
    }
}

#[test]
fn test_tag_of_every_message() {
    let tags: Vec<u8> = samples().iter().map(|m| m.tag()).collect();
    assert_eq!(
        tags,
        vec![0, 1, 2, 3, 3, 4, 5, 6, 7, 9, 10, 11, 12, 13, 14, 15, 16, 17, 18, 18, 19, 20]
    );
    assert_eq!(samples()[0].kind(), Messages::HandshakeRequest);
    assert_eq!(samples()[21].kind(), Messages::LibraryDataReply);
}

#[test]
fn test_exact_bytes_of_integers() {
    let reply = Message::FileOpenReply(FileOpenReply { handle: 42, size: 1024, error: -2 });
    assert_eq!(
        serialize(&reply),
        vec![42, 0, 0, 0, 0, 4, 0, 0, 0, 0, 0, 0, 0xfe, 0xff, 0xff, 0xff]
    );
    let stat = Message::FileStatReply(FileStatReply {
        size: 0x0102_0304_0506_0708,
        mtime: -1,
        is_dir: true,
        error: 2,
    });
    assert_eq!(
        serialize(&stat),
        vec![
            8, 7, 6, 5, 4, 3, 2, 1, 0xff, 0xff, 0xff, 0xff, 0xff, 0xff, 0xff, 0xff, 1, 2, 0, 0, 0
        ]
    );
    let handshake =
        Message::HandshakeRequest(HandshakeRequest { version_major: 0, version_minor: 1 });
    assert_eq!(serialize(&handshake), vec![0, 1]);
}

#[test]
fn test_exact_bytes_of_text_and_data() {
    let open = Message::FileOpenRequest(FileOpenRequest { path: "a/\u{e9}".to_string() });
    assert_eq!(serialize(&open), vec![4, 0, 0, 0, 0, 0, 0, 0, b'a', b'/', 0xc3, 0xa9]);
    let launch = Message::LaunchExecutableRequest(LaunchExecutableRequest {
        file_server: false,
        path: "x".to_string(),
        data: vec![7, 8],
    });
    assert_eq!(
        serialize(&launch),
        vec![0, 1, 0, 0, 0, 0, 0, 0, 0, b'x', 2, 0, 0, 0, 0, 0, 0, 0, 7, 8]
    );
    let failed = Message::LaunchExecutableReply(LaunchExecutableReply {
        launch_status: -1,
        error_info: Some("no".to_string()),
    });
    assert_eq!(
        serialize(&failed),
        vec![0xff, 0xff, 0xff, 0xff, 1, 2, 0, 0, 0, 0, 0, 0, 0, b'n', b'o']
    );
    let exited = Message::LaunchExecutableReply(LaunchExecutableReply {
        launch_status: 3,
        error_info: None,
    });
    assert_eq!(serialize(&exited), vec![3, 0, 0, 0, 0]);
    let listing = Message::FileReaddirReply(FileReaddirReply {
        entries: vec![DirEntry { name: "d".to_string(), is_dir: true }],
        error: 0,
    });
    assert_eq!(
        serialize(&listing),
        vec![1, 0, 0, 0, 0, 0, 0, 0, 1, 0, 0, 0, 0, 0, 0, 0, b'd', 1, 0, 0, 0, 0]
    );
}

#[test]
fn test_same_bytes_as_bincode() {
    assert_eq!(
        serialize(&Message::HandshakeRequest(HandshakeRequest {
            version_major: 3,
            version_minor: 9
        })),
        bincode::serialize(&(3u8, 9u8)).unwrap()
    );
    assert_eq!(
        serialize(&Message::LaunchExecutableRequest(LaunchExecutableRequest {
            file_server: true,
            path: "bin/\u{4e16}\u{754c}".to_string(),
            data: vec![1, 2, 3, 4, 5],
        })),
        bincode::serialize(&(true, "bin/\u{4e16}\u{754c}", vec![1u8, 2, 3, 4, 5])).unwrap()
    );
    assert_eq!(
        serialize(&Message::LaunchExecutableReply(LaunchExecutableReply {
            launch_status: -1,
            error_info: Some("Invalid message format".to_string()),
        })),
        bincode::serialize(&(-1i32, Some("Invalid message format"))).unwrap()
    );
    assert_eq!(
        serialize(&Message::LaunchExecutableReply(LaunchExecutableReply {
            launch_status: 127,
            error_info: None,
        })),
        bincode::serialize(&(127i32, None::<&str>)).unwrap()
    );
    assert_eq!(
        serialize(&Message::StopExecutableRequest(StopExecutableRequest { dummy: 77 })),
        bincode::serialize(&77u32).unwrap()
    );
    assert_eq!(
        serialize(&Message::StdoutOutput(TextMessage { data: b"out".to_vec() })),
        bincode::serialize(&b"out".to_vec()).unwrap()
    );
    assert_eq!(
        serialize(&Message::FileOpenReply(FileOpenReply {
            handle: 0x01020304,
            size: 0x0a0b0c0d0e0f1011,
            error: -22,
        })),
        bincode::serialize(&(0x01020304u32, 0x0a0b0c0d0e0f1011u64, -22i32)).unwrap()
    );
    assert_eq!(
        serialize(&Message::FileReadRequest(FileReadRequest {
            handle: 5,
            offset: u64::MAX,
            size: u32::MAX,
        })),
        bincode::serialize(&(5u32, u64::MAX, u32::MAX)).unwrap()
    );
    assert_eq!(
        serialize(&Message::FileReadReply(FileReadReply { data: vec![0; 70000], error: 0 })),
        bincode::serialize(&(vec![0u8; 70000], 0i32)).unwrap()
    );
    assert_eq!(
        serialize(&Message::FileStatReply(FileStatReply {
            size: 36,
            mtime: -1234567890123,
            is_dir: true,
            error: 0,
        })),
        bincode::serialize(&(36u64, -1234567890123i64, true, 0i32)).unwrap()
    );
    assert_eq!(
        serialize(&Message::FileReaddirReply(FileReaddirReply {
            entries: vec![
                DirEntry { name: "one".to_string(), is_dir: false },
                DirEntry { name: "two".to_string(), is_dir: true },
            ],
            error: 0,
        })),
        bincode::serialize(&(vec![("one", false), ("two", true)], 0i32)).unwrap()
    );
    assert_eq!(
        serialize(&Message::LibraryDataRequest(LibraryDataRequest {
            name: "libbar.so".to_string(),
            data: vec![1, 1, 2, 3, 5, 8],
        })),
        bincode::serialize(&("libbar.so", vec![1u8, 1, 2, 3, 5, 8])).unwrap()
    );
}

#[test]
fn test_reads_what_bincode_wrote() {
    let bytes = bincode::serialize(&(9u64, 1700000000i64, false, 0i32)).unwrap();
    assert_eq!(
        deserialize(16, &bytes),
        Ok(Message::FileStatReply(FileStatReply {
            size: 9,
            mtime: 1700000000,
            is_dir: false,
            error: 0
        }))
    );
    let bytes = bincode::serialize(&(vec![("x", true)], 13i32)).unwrap();
    assert_eq!(
        deserialize(18, &bytes),
        Ok(Message::FileReaddirReply(FileReaddirReply {
            entries: vec![DirEntry { name: "x".to_string(), is_dir: true }],
            error: 13,
        }))
    );
}

#[test]
fn test_truncated_payloads_are_malformed() {
    for message in samples() {
        let bytes = serialize(&message);
        for cut in 0..bytes.len() {
            assert_eq!(
                deserialize(message.tag(), &bytes[..cut]),
                Err(CodecError::MalformedPayload),
                "tag {} cut at {}",
                message.tag(),
                cut
            );
        }
    }
}

#[test]
fn test_text_that_is_not_utf8_is_malformed() {
    // A length of 2 and two bytes that are no UTF-8.
    let bytes = vec![2, 0, 0, 0, 0, 0, 0, 0, 0xff, 0xfe];
    assert_eq!(deserialize(9, &bytes), Err(CodecError::MalformedPayload));
    // The same bytes are fine as data.
    assert_eq!(
        deserialize(6, &bytes),
        Ok(Message::StdoutOutput(TextMessage { data: vec![0xff, 0xfe] }))
    );
    // An overlong encoding of '/'.
    let bytes = vec![2, 0, 0, 0, 0, 0, 0, 0, 0xc0, 0xaf];
    assert_eq!(deserialize(15, &bytes), Err(CodecError::MalformedPayload));
}

#[test]
fn test_flags_other_than_zero_and_one_are_malformed() {
    let mut bytes = serialize(&Message::FileStatReply(FileStatReply {
        size: 1,
        mtime: 2,
        is_dir: true,
        error: 0,
    }));
    bytes[16] = 2;
    assert_eq!(deserialize(16, &bytes), Err(CodecError::MalformedPayload));
    // The tag of an optional text must be 0 or 1 as well.
    let bytes = vec![0, 0, 0, 0, 2];
    assert_eq!(deserialize(3, &bytes), Err(CodecError::MalformedPayload));
}

#[test]
fn test_length_beyond_the_payload_is_malformed() {
    let bytes = vec![0xff, 0xff, 0xff, 0xff, 0xff, 0xff, 0xff, 0xff, 1, 2, 3];
    assert_eq!(deserialize(6, &bytes), Err(CodecError::MalformedPayload));
    assert_eq!(deserialize(9, &bytes), Err(CodecError::MalformedPayload));
    // A listing that announces more entries than it holds.
    let bytes = vec![2, 0, 0, 0, 0, 0, 0, 0, 1, 0, 0, 0, 0, 0, 0, 0, b'a', 0, 0, 0, 0, 0];
    assert_eq!(deserialize(18, &bytes), Err(CodecError::MalformedPayload));
}

#[test]
fn test_default_stop_messages_carry_zero() {
    assert_eq!(StopExecutableRequest::default().dummy, 0);
    assert_eq!(StopExecutableReply::default().dummy, 0);
    assert_eq!(
        serialize(&Message::StopExecutableReply(StopExecutableReply::default())),
        vec![0, 0, 0, 0]
    );
}
