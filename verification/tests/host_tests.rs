use remotelink::codec::{serialize, Message};
use remotelink::host::{
    handle_file_change, handle_incoming_msg, handshake, handshake_request, launch_message,
    library_message, library_reply, process_messages, setup_file_watcher,
    stop_message, HostAction, HostError, HostNext, StopPoll, StopWait, WatchReport, WatchSetup,
    WatchStep,
};
use remotelink::messages::{
    HandshakeReply, HandshakeRequest, LaunchExecutableReply, LaunchExecutableRequest,
    LibraryDataReply, LibraryDataRequest, Messages, StopExecutableReply, StopExecutableRequest,
    TextMessage,
};

fn exit_reply(launch_status: i32, error_info: Option<&str>) -> Vec<u8> {
    serialize(&Message::LaunchExecutableReply(LaunchExecutableReply {
        launch_status,
        error_info: error_info.map(|s| s.to_string()),
    }))
}

#[test]
fn test_handshake_request() {
    assert_eq!(
        handshake_request(),
        Message::HandshakeRequest(HandshakeRequest { version_major: 0, version_minor: 1 })
    );
    assert_eq!(serialize(&handshake_request()), vec![0, 1]);
}

#[test]
fn test_handshake_reply() {
    let reply =
        serialize(&Message::HandshakeReply(HandshakeReply { version_major: 0, version_minor: 1 }));
    assert_eq!(handshake(Some(Messages::HandshakeReply), &reply), Ok(false));
    assert_eq!(handshake(Some(Messages::HandshakeReply), &[0, 2]), Ok(true));
    assert_eq!(
        handshake(Some(Messages::HandshakeReply), &[1, 1]),
        Err(HostError::VersionMismatch { host: 0, runner: 1 })
    );
    assert_eq!(handshake(Some(Messages::HandshakeReply), &[0]), Err(HostError::MalformedPayload));
    assert_eq!(
        handshake(Some(Messages::HandshakeRequest), &reply),
        Err(HostError::UnexpectedMessage(Messages::HandshakeRequest))
    );
    assert_eq!(handshake(None, &reply), Err(HostError::NoReply));
}

#[test]
fn test_output_is_shown() {
    let payload =
        serialize(&Message::StdoutOutput(TextMessage { data: b"Hello from test\n".to_vec() }));
    let step = handle_incoming_msg(Messages::StdoutOutput, &payload, false).unwrap();
    assert!(matches!(step.action, HostAction::PrintStdout(text) if text == "Hello from test\n"));
    assert_eq!(step.next, HostNext::Continue { running: true });
    let payload =
        serialize(&Message::StderrOutput(TextMessage { data: b"This is stderr\n".to_vec() }));
    let step = handle_incoming_msg(Messages::StderrOutput, &payload, true).unwrap();
    assert!(matches!(step.action, HostAction::PrintStderr(text) if text == "This is stderr\n"));
    assert_eq!(step.next, HostNext::Continue { running: true });
}

#[test]
fn test_output_must_be_text() {
    let payload = serialize(&Message::StdoutOutput(TextMessage { data: vec![0xff, 0xfe] }));
    assert!(matches!(
        handle_incoming_msg(Messages::StdoutOutput, &payload, false),
        Err(HostError::InvalidText)
    ));
    assert!(matches!(
        handle_incoming_msg(Messages::StderrOutput, &payload, false),
        Err(HostError::InvalidText)
    ));
    assert!(matches!(
        handle_incoming_msg(Messages::StdoutOutput, &[1, 2], false),
        Err(HostError::MalformedPayload)
    ));
}

#[test]
fn test_exit_ends_the_loop_unless_watching() {
    let step =
        handle_incoming_msg(Messages::LaunchExecutableReply, &exit_reply(0, None), false).unwrap();
    assert!(matches!(step.action, HostAction::ReportExit(0)));
    assert_eq!(step.next, HostNext::Exit);
    let step =
        handle_incoming_msg(Messages::LaunchExecutableReply, &exit_reply(42, None), true).unwrap();
    assert!(matches!(step.action, HostAction::ReportExit(42)));
    assert_eq!(step.next, HostNext::Continue { running: false });
    // Status -1 without a reason is an exit status like any other.
    let step =
        handle_incoming_msg(Messages::LaunchExecutableReply, &exit_reply(-1, None), false).unwrap();
    assert!(matches!(step.action, HostAction::ReportExit(-1)));
}

#[test]
fn test_launch_failure() {
    let payload = exit_reply(-1, Some("Failed to launch executable"));
    let step = handle_incoming_msg(Messages::LaunchExecutableReply, &payload, false).unwrap();
    assert!(matches!(
        step.action,
        HostAction::ReportLaunchFailure(reason) if reason == "Failed to launch executable"
    ));
    assert_eq!(step.next, HostNext::Exit);
    let step = handle_incoming_msg(Messages::LaunchExecutableReply, &payload, true).unwrap();
    assert_eq!(step.next, HostNext::Continue { running: false });
    let payload = exit_reply(3, Some("odd"));
    let step = handle_incoming_msg(Messages::LaunchExecutableReply, &payload, false).unwrap();
    assert!(matches!(step.action, HostAction::ReportExit(3)));
    assert!(matches!(
        handle_incoming_msg(Messages::LaunchExecutableReply, &[0, 0], false),
        Err(HostError::MalformedPayload)
    ));
}

#[test]
fn test_other_messages() {
    let payload = serialize(&Message::StopExecutableReply(StopExecutableReply::default()));
    let step = handle_incoming_msg(Messages::StopExecutableReply, &payload, false).unwrap();
    assert!(matches!(step.action, HostAction::StopAcknowledged));
    assert_eq!(step.next, HostNext::Continue { running: true });
    let step = handle_incoming_msg(Messages::FileOpenReply, &[], true).unwrap();
    assert!(matches!(step.action, HostAction::Nothing));
    assert_eq!(step.next, HostNext::Continue { running: true });
}

#[test]
fn test_process_messages() {
    assert!(matches!(process_messages(None, &[], false), Ok(None)));
    let step = process_messages(
        Some(Messages::LaunchExecutableReply),
        &exit_reply(7, None),
        false,
    )
    .unwrap()
    .unwrap();
    assert!(matches!(step.action, HostAction::ReportExit(7)));
    assert_eq!(step.next, HostNext::Exit);
    assert!(matches!(
        process_messages(Some(Messages::StdoutOutput), &[], false),
        Err(HostError::MalformedPayload)
    ));
}

#[test]
fn test_messages_to_send() {
    assert_eq!(
        library_message("libfoo.so".to_string(), vec![1, 2]),
        Message::LibraryDataRequest(LibraryDataRequest {
            name: "libfoo.so".to_string(),
            data: vec![1, 2]
        })
    );
    assert_eq!(
        launch_message(true, "app".to_string(), vec![3]),
        Message::LaunchExecutableRequest(LaunchExecutableRequest {
            file_server: true,
            path: "app".to_string(),
            data: vec![3]
        })
    );
    assert_eq!(
        stop_message(),
        Message::StopExecutableRequest(StopExecutableRequest { dummy: 0 })
    );
}

#[test]
fn test_library_reply() {
    let ok = serialize(&Message::LibraryDataReply(LibraryDataReply { error: 0 }));
    let failed = serialize(&Message::LibraryDataReply(LibraryDataReply { error: 5 }));
    assert_eq!(library_reply(Messages::LibraryDataReply, &ok), Ok(0));
    assert_eq!(library_reply(Messages::LibraryDataReply, &failed), Ok(5));
    assert_eq!(
        library_reply(Messages::StdoutOutput, &ok),
        Err(HostError::UnexpectedMessage(Messages::StdoutOutput))
    );
    assert_eq!(library_reply(Messages::LibraryDataReply, &[1]), Err(HostError::MalformedPayload));
}

#[test]
fn test_stop_is_waited_for_five_seconds() {
    let mut wait = StopWait::for_restart();
    let mut sleeps = 0;
    loop {
        match wait.poll(None) {
            StopPoll::Sleep(ms) => {
                assert_eq!(ms, 10);
                sleeps += 1;
            }
            StopPoll::GiveUp => break,
            StopPoll::Confirmed => panic!("nothing confirmed"),
        }
    }
    assert_eq!(sleeps, 499);
}

#[test]
fn test_stop_confirmed() {
    let mut wait = StopWait::for_restart();
    assert_eq!(wait.poll(None), StopPoll::Sleep(10));
    assert_eq!(wait.poll(Some(Messages::StdoutOutput)), StopPoll::Sleep(10));
    assert_eq!(wait.poll(Some(Messages::StopExecutableReply)), StopPoll::Confirmed);
    let mut wait = StopWait::for_shutdown();
    for _ in 0..29 {
        assert_eq!(wait.poll(None), StopPoll::Sleep(1));
    }
    assert_eq!(wait.poll(None), StopPoll::GiveUp);
    assert_eq!(wait.poll(Some(Messages::StopExecutableReply)), StopPoll::Confirmed);
}

#[test]
fn test_stop_wait_edges() {
    assert_eq!(StopWait::new(0, 10).poll(None), StopPoll::GiveUp);
    assert_eq!(StopWait::new(10, 0).poll(None), StopPoll::GiveUp);
    assert_eq!(StopWait::new(10, 10).poll(None), StopPoll::GiveUp);
    assert_eq!(StopWait::new(11, 10).poll(None), StopPoll::Sleep(10));
    let mut wait = StopWait::new(u32::MAX, u32::MAX - 1);
    assert_eq!(wait.poll(None), StopPoll::Sleep(u32::MAX - 1));
    assert_eq!(wait.poll(None), StopPoll::GiveUp);
}

#[test]
fn test_watch_reports() {
    assert_eq!(handle_file_change(WatchReport::NoChange, true), WatchStep::Nothing);
    assert_eq!(
        handle_file_change(WatchReport::ChangedAndStable, true),
        WatchStep::Restart { stop_first: true }
    );
    assert_eq!(
        handle_file_change(WatchReport::ChangedAndStable, false),
        WatchStep::Restart { stop_first: false }
    );
    assert_eq!(handle_file_change(WatchReport::Failed, true), WatchStep::DisableWatching);
}

#[test]
fn test_watch_setup() {
    assert!(matches!(setup_file_watcher(false, Some("app".to_string())), WatchSetup::Off));
    assert!(matches!(setup_file_watcher(false, None), WatchSetup::Off));
    assert!(matches!(setup_file_watcher(true, None), WatchSetup::MissingFilename));
    assert!(matches!(
        setup_file_watcher(true, Some("app".to_string())),
        WatchSetup::Watch(path) if path == "app"
    ));
}
