//! Normalization of raw watch notifications.

use filesync::event::normalize;
use filesync::event::classify;
use filesync::event::ChangeEvent;
use filesync::event::EventClass;
use filesync::event::RawKind;

#[test]
fn classification_keeps_file_and_ambiguous_kinds() {
    assert_eq!(classify(RawKind::CreateFile), Some(EventClass::Create));
    assert_eq!(classify(RawKind::CreateAny), Some(EventClass::Create));
    assert_eq!(classify(RawKind::ModifyData), Some(EventClass::Update));
    assert_eq!(classify(RawKind::ModifyAny), Some(EventClass::Update));
    assert_eq!(classify(RawKind::RemoveFile), Some(EventClass::Delete));
    assert_eq!(classify(RawKind::RemoveAny), Some(EventClass::Delete));
}

#[test]
fn classification_drops_everything_else() {
    assert_eq!(classify(RawKind::CreateFolder), None);
    assert_eq!(classify(RawKind::CreateOther), None);
    assert_eq!(classify(RawKind::ModifyMetadata), None);
    assert_eq!(classify(RawKind::ModifyName), None);
    assert_eq!(classify(RawKind::ModifyOther), None);
    assert_eq!(classify(RawKind::RemoveFolder), None);
    assert_eq!(classify(RawKind::RemoveOther), None);
    assert_eq!(classify(RawKind::Access), None);
    assert_eq!(classify(RawKind::Any), None);
    assert_eq!(classify(RawKind::Other), None);
}

#[test]
fn create_carries_the_read_bytes() {
    let events = normalize(
        RawKind::CreateFile,
        &vec![b"/base/a.txt".to_vec()],
        &vec![Some(b"hello".to_vec())],
    );
    assert_eq!(events.len(), 1);
    match &events[0] {
        ChangeEvent::Create { path, content } => {
            assert_eq!(path, &b"/base/a.txt".to_vec());
            assert_eq!(content, &b"hello".to_vec());
        },
        other => panic!("unexpected event {other:?}"),
    }
}

#[test]
fn failed_read_degrades_to_empty_content() {
    let events = normalize(RawKind::ModifyAny, &vec![b"/base/gone".to_vec()], &vec![None]);
    assert_eq!(events.len(), 1);
    match &events[0] {
        ChangeEvent::Update { path, content } => {
            assert_eq!(path, &b"/base/gone".to_vec());
            assert!(content.is_empty());
        },
        other => panic!("unexpected event {other:?}"),
    }
}

#[test]
fn delete_reads_nothing() {
    let events = normalize(
        RawKind::RemoveFile,
        &vec![b"/base/x".to_vec()],
        &vec![Some(b"stale".to_vec())],
    );
    assert_eq!(events.len(), 1);
    match &events[0] {
        ChangeEvent::Delete { path } => assert_eq!(path, &b"/base/x".to_vec()),
        other => panic!("unexpected event {other:?}"),
    }
}

#[test]
fn multi_path_notification_expands_in_order() {
    let paths = vec![b"/base/1".to_vec(), b"/base/2".to_vec(), b"/base/3".to_vec()];
    let reads = vec![
        Some(b"one".to_vec()),
        Some(b"two".to_vec()),
        Some(b"three".to_vec()),
    ];
    let events = normalize(RawKind::CreateAny, &paths, &reads);
    assert_eq!(events.len(), 3);
    for (i, ev) in events.iter().enumerate() {
        match ev {
            ChangeEvent::Create { path, .. } => assert_eq!(path, &paths[i]),
            other => panic!("unexpected event {other:?}"),
        }
    }
}

#[test]
fn dropped_kind_produces_no_events() {
    let events = normalize(
        RawKind::ModifyMetadata,
        &vec![b"/base/a".to_vec()],
        &vec![Some(b"ignored".to_vec())],
    );
    assert!(events.is_empty());
}
