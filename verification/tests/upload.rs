use dimsp::hash::{keccack256, Hash32};
use dimsp::upload::fragment_hashes;
use dimsp::{
    split_fragments, CloseWriteStreamAck, DimspHubSession, DimspHubStorage, FragmentAckType,
    IdGenerator, Inbox, MNSAccount, MessageType, MockBlob, MockTimeline, OpenWriteStreamAck,
    OpenWriteStreamAckType, Payload, SyncError, SyncMessage, Upload, UploadError, UploadPhase,
    UploadStep, WriteFragmentAck,
};

fn account() -> MNSAccount {
    let mut account = MNSAccount::default();
    account.uns.id = 100;
    account.quota = 1024 * 1024 * 4;
    account.lease = 10;
    account
}

/// Runs the upload against the session until the upload ends, and returns
/// how many requests were sent.
fn run(
    storage: &mut DimspHubStorage,
    session: &mut DimspHubSession,
    who: &MNSAccount,
    upload: &mut Upload,
    first: SyncMessage,
) -> usize {
    let mut request = first;
    let mut sent = 0;
    loop {
        sent += 1;
        let answer = session.handle_message(storage, who, request).unwrap();
        match upload.on_ack(&answer) {
            UploadStep::Send(next) => request = next,
            UploadStep::Done => return sent,
            UploadStep::Failed(error) => panic!("upload failed: {:?}", error),
        }
    }
}

#[test]
fn test_write() {
    let mut storage = DimspHubStorage::new(0, MockTimeline::new(), MockBlob::new());
    let mut session = DimspHubSession::new();
    let who = account();
    let (mut upload, first) = Upload::begin(IdGenerator::new(), 100, b"Hello world", 4);
    let sent = run(&mut storage, &mut session, &who, &mut upload, first);
    assert_eq!(sent, 5);
    assert_eq!(upload.phase(), UploadPhase::Done);
    let inbox = storage.open_inbox(&who).unwrap();
    assert_eq!(inbox, Inbox { unread: 1, total_length: 11 });
}

#[test]
fn a_body_is_cut_into_fragments_of_the_given_size() {
    let fragments = split_fragments(b"Hello world", 4);
    assert_eq!(fragments, vec![b"Hell".to_vec(), b"o wo".to_vec(), b"rld".to_vec()]);
    assert_eq!(split_fragments(b"Hello world", 11), vec![b"Hello world".to_vec()]);
    assert_eq!(split_fragments(b"Hello world", 100), vec![b"Hello world".to_vec()]);
    assert_eq!(
        split_fragments(b"abcdef", 2),
        vec![b"ab".to_vec(), b"cd".to_vec(), b"ef".to_vec()]
    );
    assert_eq!(split_fragments(b"abc", 1).len(), 3);
    assert!(split_fragments(b"", 4).is_empty());
}

#[test]
fn the_fragments_of_a_body_make_up_the_body() {
    let body: Vec<u8> = (0..1000u32).map(|i| (i * 7 % 251) as u8).collect();
    for size in [1usize, 2, 3, 7, 64, 999, 1000, 1001] {
        let fragments = split_fragments(&body, size);
        assert_eq!(fragments.len(), (body.len() + size - 1) / size);
        assert_eq!(fragments.concat(), body);
        for fragment in &fragments[..fragments.len() - 1] {
            assert_eq!(fragment.len(), size);
        }
    }
}

#[test]
fn the_declared_digests_are_those_of_the_fragments() {
    let fragments = split_fragments(b"Hello world", 4);
    let hashes = fragment_hashes(&fragments);
    assert_eq!(
        hashes,
        vec![
            Hash32::from_bytes(&keccack256(b"Hell")),
            Hash32::from_bytes(&keccack256(b"o wo")),
            Hash32::from_bytes(&keccack256(b"rld")),
        ]
    );
}

#[test]
fn the_opening_request_declares_the_body() {
    let (upload, first) = Upload::begin(IdGenerator::new(), 9, b"Hello world", 4);
    assert_eq!(upload.phase(), UploadPhase::Opening);
    assert_eq!(first.id, 0);
    assert_eq!(first.type_, MessageType::OpenWriteStream.value());
    match first.payload {
        Payload::OpenWriteStream(request) => {
            assert_eq!(request.length, 11);
            assert_eq!(request.to, 9);
            assert_eq!(request.offset, 0);
            assert_eq!(request.fragment_hashes.len(), 3);
            assert!(request.inline_stream.is_none());
        }
        other => panic!("unexpected {:?}", other),
    }
    let (_, single) = Upload::begin(IdGenerator::new(), 9, b"Hello world", 11);
    match single.payload {
        Payload::OpenWriteStream(request) => {
            assert_eq!(request.fragment_hashes.len(), 1);
            let inline = request.inline_stream.unwrap();
            assert_eq!(inline.offset, 0);
            assert_eq!(inline.content, b"Hello world");
        }
        other => panic!("unexpected {:?}", other),
    }
}

#[test]
fn a_body_of_one_fragment_is_uploaded_with_one_request() {
    let mut storage = DimspHubStorage::new(0, MockTimeline::new(), MockBlob::new());
    let mut session = DimspHubSession::new();
    let who = account();
    let (mut upload, first) = Upload::begin(IdGenerator::new(), 100, b"Hello world", 64);
    assert_eq!(run(&mut storage, &mut session, &who, &mut upload, first), 1);
    let (mut again, first) = Upload::begin(IdGenerator::new(), 100, b"Hello world", 64);
    assert_eq!(run(&mut storage, &mut session, &who, &mut again, first), 1);
    let (mut empty, first) = Upload::begin(IdGenerator::new(), 100, b"", 64);
    assert_eq!(run(&mut storage, &mut session, &who, &mut empty, first), 1);
    assert_eq!(
        storage.open_inbox(&who).unwrap(),
        Inbox { unread: 3, total_length: 22 }
    );
}

#[test]
fn a_repeated_upload_sends_no_fragment() {
    let mut storage = DimspHubStorage::new(0, MockTimeline::new(), MockBlob::new());
    let mut session = DimspHubSession::new();
    let who = account();
    let (mut upload, first) = Upload::begin(IdGenerator::new(), 100, b"Hello world", 4);
    assert_eq!(run(&mut storage, &mut session, &who, &mut upload, first), 5);
    let (mut again, first) = Upload::begin(IdGenerator::new(), 100, b"Hello world", 4);
    assert_eq!(run(&mut storage, &mut session, &who, &mut again, first), 1);
    assert_eq!(
        storage.open_inbox(&who).unwrap(),
        Inbox { unread: 2, total_length: 22 }
    );
}

#[test]
fn an_upload_resumes_where_the_hub_says() {
    let mut storage = DimspHubStorage::new(0, MockTimeline::new(), MockBlob::new());
    let who = account();
    let mut dropped = DimspHubSession::new();
    let (mut upload, first) = Upload::begin(IdGenerator::new(), 100, b"Hello world", 4);
    let answer = dropped.handle_message(&mut storage, &who, first).unwrap();
    let request = match upload.on_ack(&answer) {
        UploadStep::Send(request) => request,
        other => panic!("unexpected {:?}", other),
    };
    dropped.handle_message(&mut storage, &who, request).unwrap();
    // The connection is lost after the first fragment; a new one takes over.
    let mut session = DimspHubSession::new();
    let (mut resumed, first) = Upload::begin(IdGenerator::new(), 100, b"Hello world", 4);
    let answer = session.handle_message(&mut storage, &who, first).unwrap();
    match &answer.payload {
        Payload::OpenWriteStreamAck(ack) => {
            assert_eq!(ack.ack_type, OpenWriteStreamAckType::Accept);
            assert_eq!(ack.next_fragment, 1);
        }
        other => panic!("unexpected {:?}", other),
    }
    let request = match resumed.on_ack(&answer) {
        UploadStep::Send(request) => request,
        other => panic!("unexpected {:?}", other),
    };
    match &request.payload {
        Payload::WriteFragment(fragment) => {
            assert_eq!(fragment.offset, 1);
            assert_eq!(fragment.content, b"o wo");
        }
        other => panic!("unexpected {:?}", other),
    }
    assert_eq!(resumed.phase(), UploadPhase::Writing(1));
    assert_eq!(run(&mut storage, &mut session, &who, &mut resumed, request), 3);
    assert_eq!(
        storage.open_inbox(&who).unwrap(),
        Inbox { unread: 1, total_length: 11 }
    );
}

fn open_ack(id: u64, ack_type: OpenWriteStreamAckType, code: SyncError, next: u64) -> SyncMessage {
    SyncMessage::new(
        id,
        MessageType::OpenWriteStreamAck,
        Payload::OpenWriteStreamAck(OpenWriteStreamAck {
            ack_type,
            sync_error: code,
            stream_handle: 5,
            next_fragment: next,
        }),
    )
}

fn write_ack(id: u64, ack_type: FragmentAckType, code: SyncError) -> SyncMessage {
    SyncMessage::new(
        id,
        MessageType::WriteFragmentAck,
        Payload::WriteFragmentAck(WriteFragmentAck {
            ack_type,
            sync_error: code,
            stream_handle: 5,
            offset: 0,
        }),
    )
}

#[test]
fn an_upload_gives_up_on_what_it_does_not_expect() {
    let begin = || Upload::begin(IdGenerator::new(), 100, b"Hello world", 4).0;

    let mut upload = begin();
    let wrong_id = open_ack(3, OpenWriteStreamAckType::Accept, SyncError::Success, 0);
    assert!(matches!(
        upload.on_ack(&wrong_id),
        UploadStep::Failed(UploadError::AckIdMismatch)
    ));
    assert_eq!(upload.phase(), UploadPhase::Failed);
    assert!(matches!(
        upload.on_ack(&wrong_id),
        UploadStep::Failed(UploadError::Finished)
    ));

    let mut upload = begin();
    let rejected = open_ack(0, OpenWriteStreamAckType::Reject, SyncError::Quota, 0);
    assert!(matches!(
        upload.on_ack(&rejected),
        UploadStep::Failed(UploadError::Refused(SyncError::Quota))
    ));

    let mut upload = begin();
    assert!(matches!(
        upload.on_ack(&write_ack(0, FragmentAckType::Continue, SyncError::Success)),
        UploadStep::Failed(UploadError::UnexpectedAck)
    ));

    let mut upload = begin();
    let accepted = open_ack(0, OpenWriteStreamAckType::Accept, SyncError::Success, 0);
    match upload.on_ack(&accepted) {
        UploadStep::Send(request) => {
            assert_eq!(request.id, 1);
            match request.payload {
                Payload::WriteFragment(fragment) => {
                    assert_eq!(fragment.stream_handle, 5);
                    assert_eq!(fragment.offset, 0);
                    assert_eq!(fragment.content, b"Hell");
                }
                other => panic!("unexpected {:?}", other),
            }
        }
        other => panic!("unexpected {:?}", other),
    }
    assert!(matches!(
        upload.on_ack(&write_ack(1, FragmentAckType::Nomore, SyncError::Success)),
        UploadStep::Failed(UploadError::UnexpectedAck)
    ));

    let mut upload = begin();
    upload.on_ack(&accepted);
    assert!(matches!(
        upload.on_ack(&write_ack(1, FragmentAckType::Break, SyncError::FragmentHash)),
        UploadStep::Failed(UploadError::Refused(SyncError::FragmentHash))
    ));

    let mut upload = begin();
    let all_there = open_ack(0, OpenWriteStreamAckType::Accept, SyncError::Success, 3);
    match upload.on_ack(&all_there) {
        UploadStep::Send(request) => {
            assert_eq!(request.type_, MessageType::CloseWriteStream.value())
        }
        other => panic!("unexpected {:?}", other),
    }
    assert_eq!(upload.phase(), UploadPhase::Closing);
    let failed = SyncMessage::new(
        1,
        MessageType::CloseWriteStreamAck,
        Payload::CloseWriteStreamAck(CloseWriteStreamAck { sync_error: SyncError::Resource }),
    );
    assert!(matches!(
        upload.on_ack(&failed),
        UploadStep::Failed(UploadError::Refused(SyncError::Resource))
    ));
}

#[test]
fn ids_count_up_from_zero() {
    let mut ids = IdGenerator::new();
    assert_eq!(ids.next_id(), 0);
    assert_eq!(ids.next_id(), 1);
    assert_eq!(ids.next_id(), 2);
    let mut fresh = IdGenerator::default();
    assert_eq!(fresh.next_id(), 0);
}

#[test]
fn kinds_of_message_and_their_numbers() {
    for value in 0..14 {
        let kind = MessageType::from_i32(value).unwrap();
        assert_eq!(kind.value(), value);
    }
    assert!(MessageType::from_i32(14).is_none());
    assert!(MessageType::from_i32(-1).is_none());
    assert_eq!(MessageType::OpenWriteStream.value(), 0);
    assert_eq!(MessageType::CloseInboxStreamAck.value(), 13);
    assert_eq!(MessageType::ReadFragment.name(), "ReadFragment");
    assert_eq!(MessageType::OpenInboxAck.name(), "OpenInboxAck");
}
