//! The per-connection relay machine, driven as the surrounding process
//! would drive it.

use filesync::codec::encode_request;
use filesync::errors::Error;
use filesync::event::normalize;
use filesync::event::ChangeEvent;
use filesync::event::RawKind;
use filesync::relay::Relay;
use filesync::relay::RelayAction;
use filesync::relay::RelayInput;
use filesync::relay::RelayState;

fn sent_frame(action: RelayAction) -> Vec<u8> {
    match action {
        RelayAction::Send(frame) => frame,
        other => panic!("expected a send, got {other:?}"),
    }
}

fn applied(action: RelayAction) -> (Vec<u8>, Vec<u8>) {
    match action {
        RelayAction::Apply { path, content } => (path, content),
        other => panic!("expected an apply, got {other:?}"),
    }
}

fn active_relay(base: &[u8]) -> Relay {
    let mut relay = Relay::new(base.to_vec());
    let action = relay.step(RelayInput::Connected);
    assert!(matches!(action, RelayAction::Nothing));
    assert_eq!(relay.state, RelayState::Active);
    relay
}

#[test]
fn inbound_write_is_applied_under_base() {
    let mut relay = active_relay(b"/base");
    let frame = encode_request(b"a/b.txt", b"X");
    let (path, content) = applied(relay.step(RelayInput::Inbound(frame)));
    assert_eq!(path, b"/base/a/b.txt".to_vec());
    assert_eq!(content, b"X".to_vec());
    assert_eq!(relay.state, RelayState::Active);
}

#[test]
fn inbound_traversal_rejected_without_closing() {
    let mut relay = active_relay(b"/base");
    let frame = encode_request(b"../../etc/passwd", b"oops");
    let action = relay.step(RelayInput::Inbound(frame));
    assert!(matches!(action, RelayAction::Reject(Error::InvalidPath)));
    assert_eq!(relay.state, RelayState::Active);
}

#[test]
fn inbound_frame_without_newline_rejected_without_closing() {
    let mut relay = active_relay(b"/base");
    let action = relay.step(RelayInput::Inbound(b"no-separator".to_vec()));
    assert!(matches!(action, RelayAction::Reject(Error::NoNewlineToSeparatePath)));
    assert_eq!(relay.state, RelayState::Active);
}

#[test]
fn watch_mechanism_error_is_reported_not_fatal() {
    let mut relay = active_relay(b"/base");
    let action = relay.step(RelayInput::WatchError);
    assert!(matches!(action, RelayAction::Reject(Error::WatchFailure)));
    assert_eq!(relay.state, RelayState::Active);
}

#[test]
fn watch_event_with_separator_in_path_is_fatal() {
    let mut relay = active_relay(b"/base");
    let ev = ChangeEvent::Delete { path: b"/base/bad\nname".to_vec() };
    let action = relay.step(RelayInput::Watch(ev));
    assert!(matches!(action, RelayAction::Reject(Error::InvalidPath)));
    assert_eq!(relay.state, RelayState::Closed);
}

#[test]
fn closed_is_terminal() {
    let mut relay = active_relay(b"/base");
    relay.step(RelayInput::InboundClosed);
    assert_eq!(relay.state, RelayState::Closed);
    let action = relay.step(RelayInput::Connected);
    assert!(matches!(action, RelayAction::Nothing));
    assert_eq!(relay.state, RelayState::Closed);
}

#[test]
fn send_failure_closes() {
    let mut relay = active_relay(b"/base");
    relay.step(RelayInput::SendFailed);
    assert_eq!(relay.state, RelayState::Closed);
}

#[test]
fn rapid_changes_to_distinct_files_keep_their_order() {
    let mut relay = active_relay(b"/base");
    let names: [&[u8]; 5] = [b"/base/f1", b"/base/f2", b"/base/f3", b"/base/f4", b"/base/f5"];
    let mut frames: Vec<Vec<u8>> = Vec::new();
    for (i, name) in names.iter().enumerate() {
        let ev = if i % 2 == 0 {
            ChangeEvent::Create { path: name.to_vec(), content: vec![b'0' + i as u8] }
        } else {
            ChangeEvent::Update { path: name.to_vec(), content: vec![b'0' + i as u8] }
        };
        frames.push(sent_frame(relay.step(RelayInput::Watch(ev))));
    }
    assert_eq!(frames[0], b"c/base/f1\n0".to_vec());
    assert_eq!(frames[1], b"u/base/f2\n1".to_vec());
    assert_eq!(frames[2], b"c/base/f3\n2".to_vec());
    assert_eq!(frames[3], b"u/base/f4\n3".to_vec());
    assert_eq!(frames[4], b"c/base/f5\n4".to_vec());
}

#[test]
fn interleaved_sources_both_keep_flowing() {
    let mut relay = active_relay(b"/base");
    for i in 0..10u8 {
        let frame = encode_request(b"w.txt", &[b'0' + i]);
        let (path, content) = applied(relay.step(RelayInput::Inbound(frame)));
        assert_eq!(path, b"/base/w.txt".to_vec());
        assert_eq!(content, vec![b'0' + i]);
        let ev = ChangeEvent::Update { path: b"/base/other".to_vec(), content: vec![i] };
        let sent = sent_frame(relay.step(RelayInput::Watch(ev)));
        assert_eq!(sent[0], b'u');
        assert_eq!(relay.state, RelayState::Active);
    }
}

#[test]
fn session_create_update_delete() {
    // Mirror of one whole session: the peer writes a file, then external
    // edits and a removal flow back as create, update and delete frames.
    let base = b"/work/test";
    let mut relay = active_relay(base);

    // The peer sends "test.luau\nprint(\"test\")".
    let frame = encode_request(b"test.luau", b"print(\"test\")");
    let (path, content) = applied(relay.step(RelayInput::Inbound(frame)));
    assert_eq!(path, b"/work/test/test.luau".to_vec());
    assert_eq!(content, b"print(\"test\")".to_vec());

    // The watch mechanism reports the file appearing on disk.
    let events = normalize(
        RawKind::CreateFile,
        &vec![path.clone()],
        &vec![Some(b"print(\"test\")".to_vec())],
    );
    assert_eq!(events.len(), 1);
    let mut events = events;
    let sent = sent_frame(relay.step(RelayInput::Watch(events.remove(0))));
    assert_eq!(sent, b"c/work/test/test.luau\nprint(\"test\")".to_vec());

    // An external tool rewrites the file.
    let events = normalize(
        RawKind::ModifyData,
        &vec![path.clone()],
        &vec![Some(b"print(\"test2\")".to_vec())],
    );
    let mut events = events;
    let sent = sent_frame(relay.step(RelayInput::Watch(events.remove(0))));
    assert_eq!(sent, b"u/work/test/test.luau\nprint(\"test2\")".to_vec());

    // The file is deleted externally.
    let events = normalize(RawKind::RemoveFile, &vec![path.clone()], &vec![None]);
    let mut events = events;
    let sent = sent_frame(relay.step(RelayInput::Watch(events.remove(0))));
    assert_eq!(sent, b"d/work/test/test.luau".to_vec());

    // The peer closes; the session ends cleanly.
    let action = relay.step(RelayInput::InboundClosed);
    assert!(matches!(action, RelayAction::Nothing));
    assert_eq!(relay.state, RelayState::Closed);
}
