use dimsp::hash::{keccack256, Hash32};
use dimsp::{
    CloseInboxStream, CloseWriteStream, DimspHubSession, DimspHubStorage, DismpError,
    FragmentAckType, Inbox, MNSAccount, MessageType, MockBlob, MockTimeline,
    OpenNextInboxStreamAckType, OpenWriteStream, OpenWriteStreamAckType, Payload, ReadFragment,
    SyncError, SyncMessage, WriteFragment,
};

fn storage() -> DimspHubStorage {
    DimspHubStorage::new(0, MockTimeline::new(), MockBlob::new())
}

fn account(uns_id: u64, quota: u64, client: u8) -> MNSAccount {
    let mut account = MNSAccount::default();
    account.uns.id = uns_id;
    account.quota = quota;
    account.lease = 10;
    account.client_id = vec![client];
    account
}

fn digest(content: &[u8]) -> Hash32 {
    Hash32::from_bytes(&keccack256(content))
}

fn hello_hashes() -> Vec<Hash32> {
    vec![digest(b"Hell"), digest(b"o wo"), digest(b"rld")]
}

fn open_write(id: u64, length: u64, hashes: Vec<Hash32>, inline: Option<&[u8]>) -> SyncMessage {
    SyncMessage::new(
        id,
        MessageType::OpenWriteStream,
        Payload::OpenWriteStream(OpenWriteStream {
            length,
            to: 100,
            offset: 0,
            fragment_hashes: hashes,
            inline_stream: inline.map(|content| WriteFragment {
                stream_handle: 0,
                offset: 0,
                content: content.to_vec(),
            }),
        }),
    )
}

fn write(id: u64, handle: u64, offset: u64, content: &[u8]) -> SyncMessage {
    SyncMessage::new(
        id,
        MessageType::WriteFragment,
        Payload::WriteFragment(WriteFragment {
            stream_handle: handle,
            offset,
            content: content.to_vec(),
        }),
    )
}

fn close_write(id: u64, handle: u64) -> SyncMessage {
    SyncMessage::new(
        id,
        MessageType::CloseWriteStream,
        Payload::CloseWriteStream(CloseWriteStream {
            stream_handle: handle,
        }),
    )
}

fn open_inbox(id: u64) -> SyncMessage {
    SyncMessage::new(id, MessageType::OpenInbox, Payload::Empty)
}

fn open_next(id: u64) -> SyncMessage {
    SyncMessage::new(id, MessageType::OpenNextInboxStream, Payload::Empty)
}

fn read(id: u64, handle: u64, offset: u64) -> SyncMessage {
    SyncMessage::new(
        id,
        MessageType::ReadFragment,
        Payload::ReadFragment(ReadFragment {
            stream_handle: handle,
            offset,
        }),
    )
}

fn close_inbox(id: u64, handle: u64, mark_as_read: bool) -> SyncMessage {
    SyncMessage::new(
        id,
        MessageType::CloseInboxStream,
        Payload::CloseInboxStream(CloseInboxStream {
            stream_handle: handle,
            mark_as_read,
        }),
    )
}

fn inbox_of(storage: &mut DimspHubStorage, who: &MNSAccount) -> Inbox {
    let mut session = DimspHubSession::new();
    let answer = session.handle_message(storage, who, open_inbox(77)).unwrap();
    assert_eq!(answer.id, 77);
    assert_eq!(answer.type_, MessageType::OpenInboxAck.value());
    match answer.payload {
        Payload::Inbox(inbox) => inbox,
        other => panic!("unexpected {:?}", other),
    }
}

/// Uploads "Hello world" in three fragments and returns the stream handle.
fn upload_hello(storage: &mut DimspHubStorage, session: &mut DimspHubSession, who: &MNSAccount) -> u64 {
    let answer = session
        .handle_message(storage, who, open_write(1, 11, hello_hashes(), None))
        .unwrap();
    assert_eq!(answer.id, 1);
    assert_eq!(answer.type_, MessageType::OpenWriteStreamAck.value());
    let handle = match answer.payload {
        Payload::OpenWriteStreamAck(ack) => {
            assert_eq!(ack.ack_type, OpenWriteStreamAckType::Accept);
            assert_eq!(ack.sync_error, SyncError::Success);
            assert_eq!(ack.next_fragment, 0);
            ack.stream_handle
        }
        other => panic!("unexpected {:?}", other),
    };
    let fragments: [&[u8]; 3] = [b"Hell", b"o wo", b"rld"];
    for (offset, content) in fragments.iter().enumerate() {
        let id = 2 + offset as u64;
        let answer = session
            .handle_message(storage, who, write(id, handle, offset as u64, content))
            .unwrap();
        assert_eq!(answer.id, id);
        assert_eq!(answer.type_, MessageType::WriteFragmentAck.value());
        match answer.payload {
            Payload::WriteFragmentAck(ack) => {
                assert_eq!(ack.sync_error, SyncError::Success);
                assert_eq!(ack.stream_handle, handle);
                assert_eq!(ack.offset, offset as u64);
                if offset == 2 {
                    assert_eq!(ack.ack_type, FragmentAckType::Nomore);
                } else {
                    assert_eq!(ack.ack_type, FragmentAckType::Continue);
                }
            }
            other => panic!("unexpected {:?}", other),
        }
    }
    let answer = session
        .handle_message(storage, who, close_write(5, handle))
        .unwrap();
    assert_eq!(answer.id, 5);
    assert_eq!(answer.type_, MessageType::CloseWriteStreamAck.value());
    match answer.payload {
        Payload::CloseWriteStreamAck(ack) => assert_eq!(ack.sync_error, SyncError::Success),
        other => panic!("unexpected {:?}", other),
    }
    handle
}

/// Uploads "Hello world" from wherever the hub says, and closes.
fn upload_hello_from(storage: &mut DimspHubStorage, session: &mut DimspHubSession, who: &MNSAccount) {
    let answer = session
        .handle_message(storage, who, open_write(1, 11, hello_hashes(), None))
        .unwrap();
    let (handle, next) = match answer.payload {
        Payload::OpenWriteStreamAck(ack) => {
            assert_eq!(ack.ack_type, OpenWriteStreamAckType::Accept);
            (ack.stream_handle, ack.next_fragment as usize)
        }
        other => panic!("unexpected {:?}", other),
    };
    let fragments: [&[u8]; 3] = [b"Hell", b"o wo", b"rld"];
    for offset in next..3 {
        session
            .handle_message(storage, who, write(2, handle, offset as u64, fragments[offset]))
            .unwrap();
    }
    let answer = session.handle_message(storage, who, close_write(5, handle)).unwrap();
    match answer.payload {
        Payload::CloseWriteStreamAck(ack) => assert_eq!(ack.sync_error, SyncError::Success),
        other => panic!("unexpected {:?}", other),
    }
}

/// Opens the next unread message and returns the handle, the length and the
/// digests, or `None` on `Nomore`.
fn open_next_message(
    storage: &mut DimspHubStorage,
    session: &mut DimspHubSession,
    who: &MNSAccount,
) -> Option<(u64, u64, Vec<Hash32>)> {
    let answer = session.handle_message(storage, who, open_next(20)).unwrap();
    assert_eq!(answer.id, 20);
    assert_eq!(answer.type_, MessageType::OpenNextInboxStreamAck.value());
    match answer.payload {
        Payload::OpenNextInboxStreamAck(ack) => match ack.type_ {
            OpenNextInboxStreamAckType::Accept => {
                let stream = ack.read_stream.unwrap();
                Some((stream.stream_handle, stream.length, stream.fragment_hashes))
            }
            OpenNextInboxStreamAckType::Nomore => {
                assert!(ack.read_stream.is_none());
                None
            }
        },
        other => panic!("unexpected {:?}", other),
    }
}

fn read_all(
    storage: &mut DimspHubStorage,
    session: &mut DimspHubSession,
    who: &MNSAccount,
    handle: u64,
    count: usize,
) -> Vec<u8> {
    let mut body = Vec::new();
    for offset in 0..count {
        let answer = session
            .handle_message(storage, who, read(30 + offset as u64, handle, offset as u64))
            .unwrap();
        assert_eq!(answer.type_, MessageType::ReadFragmentAck.value());
        match answer.payload {
            Payload::ReadFragmentAck(ack) => {
                assert_eq!(ack.sync_error, SyncError::Success);
                assert_eq!(ack.offset, offset as u64);
                if offset + 1 == count {
                    assert_eq!(ack.ack_type, FragmentAckType::Nomore);
                } else {
                    assert_eq!(ack.ack_type, FragmentAckType::Continue);
                }
                body.extend_from_slice(&ack.content);
            }
            other => panic!("unexpected {:?}", other),
        }
    }
    body
}

fn close_read(
    storage: &mut DimspHubStorage,
    session: &mut DimspHubSession,
    who: &MNSAccount,
    handle: u64,
    mark_as_read: bool,
) -> SyncError {
    let answer = session
        .handle_message(storage, who, close_inbox(40, handle, mark_as_read))
        .unwrap();
    assert_eq!(answer.type_, MessageType::CloseInboxStreamAck.value());
    match answer.payload {
        Payload::CloseInboxStreamAck(ack) => {
            assert_eq!(ack.stream_handle, handle);
            ack.sync_error
        }
        other => panic!("unexpected {:?}", other),
    }
}

#[test]
fn small_message_upload() {
    let mut storage = storage();
    let mut session = DimspHubSession::new();
    let writer = account(100, 4 * 1024 * 1024, 1);
    upload_hello(&mut storage, &mut session, &writer);
    assert_eq!(
        inbox_of(&mut storage, &writer),
        Inbox { unread: 1, total_length: 11 }
    );
    let other_client = account(100, 4 * 1024 * 1024, 2);
    assert_eq!(
        inbox_of(&mut storage, &other_client),
        Inbox { unread: 1, total_length: 11 }
    );
    let stranger = account(101, 4 * 1024 * 1024, 1);
    assert_eq!(
        inbox_of(&mut storage, &stranger),
        Inbox { unread: 0, total_length: 0 }
    );
}

#[test]
fn quota_reject() {
    let mut storage = storage();
    let mut session = DimspHubSession::new();
    let writer = account(100, 10, 1);
    let answer = session
        .handle_message(&mut storage, &writer, open_write(1, 11, hello_hashes(), None))
        .unwrap();
    match answer.payload {
        Payload::OpenWriteStreamAck(ack) => {
            assert_eq!(ack.ack_type, OpenWriteStreamAckType::Reject);
            assert_eq!(ack.sync_error, SyncError::Quota);
        }
        other => panic!("unexpected {:?}", other),
    }
    assert_eq!(
        inbox_of(&mut storage, &writer),
        Inbox { unread: 0, total_length: 0 }
    );
    assert_eq!(storage.blob().len(), 0);
    assert!(session.table().write_handle().is_none());
}

#[test]
fn quota_counts_the_bodies_an_account_owns() {
    let mut storage = storage();
    let mut session = DimspHubSession::new();
    let writer = account(100, 20, 1);
    upload_hello(&mut storage, &mut session, &writer);
    assert_eq!(storage.blob().used(100), 11);
    assert_eq!(storage.blob().used(101), 0);
    let answer = session
        .handle_message(&mut storage, &writer, open_write(9, 10, vec![digest(b"0123456789")], None))
        .unwrap();
    match answer.payload {
        Payload::OpenWriteStreamAck(ack) => {
            assert_eq!(ack.ack_type, OpenWriteStreamAckType::Reject);
            assert_eq!(ack.sync_error, SyncError::Quota);
        }
        other => panic!("unexpected {:?}", other),
    }
    assert_eq!(storage.blob().used(100), 11);
    let answer = session
        .handle_message(&mut storage, &writer, open_write(10, 9, vec![digest(b"012345678")], None))
        .unwrap();
    match answer.payload {
        Payload::OpenWriteStreamAck(ack) => assert_eq!(ack.ack_type, OpenWriteStreamAckType::Accept),
        other => panic!("unexpected {:?}", other),
    }
    assert_eq!(storage.blob().used(100), 20);
}

#[test]
fn dedup_fast_path() {
    let mut storage = storage();
    let mut session = DimspHubSession::new();
    let writer = account(100, 4 * 1024 * 1024, 1);
    upload_hello(&mut storage, &mut session, &writer);
    let answer = session
        .handle_message(&mut storage, &writer, open_write(6, 11, hello_hashes(), None))
        .unwrap();
    assert_eq!(answer.id, 6);
    match answer.payload {
        Payload::OpenWriteStreamAck(ack) => {
            assert_eq!(ack.ack_type, OpenWriteStreamAckType::Noneed);
            assert_eq!(ack.sync_error, SyncError::Success);
            assert_eq!(ack.next_fragment, 3);
            assert_eq!(ack.stream_handle, 0);
        }
        other => panic!("unexpected {:?}", other),
    }
    assert_eq!(
        inbox_of(&mut storage, &writer),
        Inbox { unread: 2, total_length: 22 }
    );
    assert_eq!(storage.blob().len(), 1);
    assert_eq!(storage.blob().used(100), 11);
}

#[test]
fn fragment_hash_mismatch() {
    let mut storage = storage();
    let mut session = DimspHubSession::new();
    let writer = account(100, 4 * 1024 * 1024, 1);
    let answer = session
        .handle_message(&mut storage, &writer, open_write(1, 11, hello_hashes(), None))
        .unwrap();
    let handle = match answer.payload {
        Payload::OpenWriteStreamAck(ack) => ack.stream_handle,
        other => panic!("unexpected {:?}", other),
    };
    let answer = session
        .handle_message(&mut storage, &writer, write(2, handle, 0, b"XXXX"))
        .unwrap();
    match answer.payload {
        Payload::WriteFragmentAck(ack) => {
            assert_eq!(ack.ack_type, FragmentAckType::Break);
            assert_eq!(ack.sync_error, SyncError::FragmentHash);
        }
        other => panic!("unexpected {:?}", other),
    }
    let answer = session
        .handle_message(&mut storage, &writer, write(3, handle, 0, b"Hell"))
        .unwrap();
    match answer.payload {
        Payload::WriteFragmentAck(ack) => {
            assert_eq!(ack.ack_type, FragmentAckType::Continue);
            assert_eq!(ack.sync_error, SyncError::Success);
        }
        other => panic!("unexpected {:?}", other),
    }
}

#[test]
fn fragments_out_of_sequence_or_range_break() {
    let mut storage = storage();
    let mut session = DimspHubSession::new();
    let writer = account(100, 4 * 1024 * 1024, 1);
    let answer = session
        .handle_message(&mut storage, &writer, open_write(1, 11, hello_hashes(), None))
        .unwrap();
    let handle = match answer.payload {
        Payload::OpenWriteStreamAck(ack) => ack.stream_handle,
        other => panic!("unexpected {:?}", other),
    };
    let code = |answer: SyncMessage| match answer.payload {
        Payload::WriteFragmentAck(ack) => (ack.ack_type, ack.sync_error),
        other => panic!("unexpected {:?}", other),
    };
    let answer = session
        .handle_message(&mut storage, &writer, write(2, handle, 1, b"o wo"))
        .unwrap();
    assert_eq!(code(answer), (FragmentAckType::Break, SyncError::FragmentOffset));
    let answer = session
        .handle_message(&mut storage, &writer, write(3, handle.wrapping_add(1), 0, b"Hell"))
        .unwrap();
    assert_eq!(code(answer), (FragmentAckType::Break, SyncError::Resource));
    for (offset, content) in [&b"Hell"[..], &b"o wo"[..], &b"rld"[..]].iter().enumerate() {
        session
            .handle_message(&mut storage, &writer, write(4, handle, offset as u64, content))
            .unwrap();
    }
    let answer = session
        .handle_message(&mut storage, &writer, write(8, handle, 3, b"more"))
        .unwrap();
    assert_eq!(code(answer), (FragmentAckType::Break, SyncError::FragmentOutOfRange));
}

#[test]
fn read_without_mark_as_read() {
    let mut storage = storage();
    let mut session = DimspHubSession::new();
    let writer = account(100, 4 * 1024 * 1024, 1);
    upload_hello(&mut storage, &mut session, &writer);
    let (handle, length, hashes) = open_next_message(&mut storage, &mut session, &writer).unwrap();
    assert_eq!(length, 11);
    assert_eq!(hashes, hello_hashes());
    let body = read_all(&mut storage, &mut session, &writer, handle, 3);
    assert_eq!(body, b"Hello world");
    assert_eq!(
        close_read(&mut storage, &mut session, &writer, handle, false),
        SyncError::Success
    );
    let (again, length, hashes) = open_next_message(&mut storage, &mut session, &writer).unwrap();
    assert_eq!(length, 11);
    assert_eq!(hashes, hello_hashes());
    assert_eq!(
        read_all(&mut storage, &mut session, &writer, again, 3),
        b"Hello world"
    );
    assert_eq!(
        inbox_of(&mut storage, &writer),
        Inbox { unread: 1, total_length: 11 }
    );
}

#[test]
fn two_client_independence() {
    let mut storage = storage();
    let mut session = DimspHubSession::new();
    let first = account(100, 4 * 1024 * 1024, 1);
    let second = account(100, 4 * 1024 * 1024, 2);
    upload_hello(&mut storage, &mut session, &first);
    let (handle, _, _) = open_next_message(&mut storage, &mut session, &first).unwrap();
    assert_eq!(
        read_all(&mut storage, &mut session, &first, handle, 3),
        b"Hello world"
    );
    assert_eq!(
        close_read(&mut storage, &mut session, &first, handle, true),
        SyncError::Success
    );
    assert_eq!(
        inbox_of(&mut storage, &first),
        Inbox { unread: 0, total_length: 0 }
    );
    assert_eq!(
        inbox_of(&mut storage, &second),
        Inbox { unread: 1, total_length: 11 }
    );
    assert!(open_next_message(&mut storage, &mut session, &first).is_none());
    let mut other_session = DimspHubSession::new();
    let (handle, length, _) =
        open_next_message(&mut storage, &mut other_session, &second).unwrap();
    assert_eq!(length, 11);
    assert_eq!(
        read_all(&mut storage, &mut other_session, &second, handle, 3),
        b"Hello world"
    );
}

#[test]
fn messages_are_read_in_the_order_of_their_arrival() {
    let mut storage = storage();
    let mut session = DimspHubSession::new();
    let who = account(7, 1000, 1);
    let bodies: [&[u8]; 3] = [b"first", b"second body", b"3"];
    for body in bodies.iter() {
        let answer = session
            .handle_message(
                &mut storage,
                &who,
                open_write(1, body.len() as u64, vec![digest(body)], Some(body)),
            )
            .unwrap();
        match answer.payload {
            Payload::OpenWriteStreamAck(ack) => {
                assert_eq!(ack.ack_type, OpenWriteStreamAckType::Noneed);
                assert_eq!(ack.next_fragment, 1);
            }
            other => panic!("unexpected {:?}", other),
        }
    }
    assert_eq!(
        inbox_of(&mut storage, &who),
        Inbox { unread: 3, total_length: 17 }
    );
    for body in bodies.iter() {
        let (handle, length, hashes) = open_next_message(&mut storage, &mut session, &who).unwrap();
        assert_eq!(length, body.len() as u64);
        assert_eq!(hashes, vec![digest(body)]);
        assert_eq!(&read_all(&mut storage, &mut session, &who, handle, 1), body);
        assert_eq!(
            close_read(&mut storage, &mut session, &who, handle, true),
            SyncError::Success
        );
    }
    assert!(open_next_message(&mut storage, &mut session, &who).is_none());
    assert_eq!(
        inbox_of(&mut storage, &who),
        Inbox { unread: 0, total_length: 0 }
    );
}

#[test]
fn one_fragment_inline_needs_no_stream_the_first_and_the_second_time() {
    let mut storage = storage();
    let mut session = DimspHubSession::new();
    let who = account(100, 100, 1);
    for round in 0..2u64 {
        let answer = session
            .handle_message(
                &mut storage,
                &who,
                open_write(round, 11, vec![digest(b"Hello world")], Some(b"Hello world")),
            )
            .unwrap();
        match answer.payload {
            Payload::OpenWriteStreamAck(ack) => {
                assert_eq!(ack.ack_type, OpenWriteStreamAckType::Noneed);
                assert_eq!(ack.next_fragment, 1);
                assert_eq!(ack.stream_handle, 0);
            }
            other => panic!("unexpected {:?}", other),
        }
    }
    assert_eq!(
        inbox_of(&mut storage, &who),
        Inbox { unread: 2, total_length: 22 }
    );
    let (handle, _, _) = open_next_message(&mut storage, &mut session, &who).unwrap();
    assert_eq!(
        read_all(&mut storage, &mut session, &who, handle, 1),
        b"Hello world"
    );
}

#[test]
fn inline_fragment_with_a_wrong_digest_is_rejected() {
    let mut storage = storage();
    let mut session = DimspHubSession::new();
    let who = account(100, 100, 1);
    let answer = session
        .handle_message(
            &mut storage,
            &who,
            open_write(1, 11, vec![digest(b"Hello world")], Some(b"Hello w0rld")),
        )
        .unwrap();
    match answer.payload {
        Payload::OpenWriteStreamAck(ack) => {
            assert_eq!(ack.ack_type, OpenWriteStreamAckType::Reject);
            assert_eq!(ack.sync_error, SyncError::FragmentHash);
        }
        other => panic!("unexpected {:?}", other),
    }
    assert_eq!(storage.blob().len(), 0);
    assert_eq!(
        inbox_of(&mut storage, &who),
        Inbox { unread: 0, total_length: 0 }
    );
}

#[test]
fn empty_body_needs_no_stream() {
    let mut storage = storage();
    let mut session = DimspHubSession::new();
    let who = account(100, 0, 1);
    let answer = session
        .handle_message(&mut storage, &who, open_write(1, 0, vec![], None))
        .unwrap();
    match answer.payload {
        Payload::OpenWriteStreamAck(ack) => {
            assert_eq!(ack.ack_type, OpenWriteStreamAckType::Noneed);
            assert_eq!(ack.next_fragment, 0);
        }
        other => panic!("unexpected {:?}", other),
    }
    assert_eq!(
        inbox_of(&mut storage, &who),
        Inbox { unread: 1, total_length: 0 }
    );
    let (_, length, hashes) = open_next_message(&mut storage, &mut session, &who).unwrap();
    assert_eq!(length, 0);
    assert!(hashes.is_empty());
}

#[test]
fn a_second_stream_of_the_same_direction_is_refused() {
    let mut storage = storage();
    let mut session = DimspHubSession::new();
    let who = account(100, 1000, 1);
    upload_hello(&mut storage, &mut session, &who);
    let answer = session
        .handle_message(&mut storage, &who, open_write(1, 4, vec![digest(b"abcd")], None))
        .unwrap();
    let handle = match answer.payload {
        Payload::OpenWriteStreamAck(ack) => {
            assert_eq!(ack.ack_type, OpenWriteStreamAckType::Accept);
            ack.stream_handle
        }
        other => panic!("unexpected {:?}", other),
    };
    assert_eq!(session.table().write_handle(), Some(handle));
    let answer = session
        .handle_message(&mut storage, &who, open_write(2, 4, vec![digest(b"efgh")], None))
        .unwrap();
    match answer.payload {
        Payload::OpenWriteStreamAck(ack) => {
            assert_eq!(ack.ack_type, OpenWriteStreamAckType::Reject);
            assert_eq!(ack.sync_error, SyncError::Resource);
        }
        other => panic!("unexpected {:?}", other),
    }
    let (reading, _, _) = open_next_message(&mut storage, &mut session, &who).unwrap();
    assert_eq!(session.table().read_handle(), Some(reading));
    let answer = session.handle_message(&mut storage, &who, open_next(3)).unwrap();
    match answer.payload {
        Payload::OpenNextInboxStreamAck(ack) => {
            assert_eq!(ack.type_, OpenNextInboxStreamAckType::Nomore);
            assert_eq!(ack.sync_error, SyncError::Resource);
            assert!(ack.read_stream.is_none());
        }
        other => panic!("unexpected {:?}", other),
    }
}

#[test]
fn closing_an_unknown_stream_is_a_resource_error_every_time() {
    let mut storage = storage();
    let mut session = DimspHubSession::new();
    let who = account(100, 1000, 1);
    let handle = upload_hello(&mut storage, &mut session, &who);
    for _ in 0..2 {
        let answer = session
            .handle_message(&mut storage, &who, close_write(9, handle))
            .unwrap();
        match answer.payload {
            Payload::CloseWriteStreamAck(ack) => assert_eq!(ack.sync_error, SyncError::Resource),
            other => panic!("unexpected {:?}", other),
        }
    }
    assert_eq!(
        inbox_of(&mut storage, &who),
        Inbox { unread: 1, total_length: 11 }
    );
    assert_eq!(
        close_read(&mut storage, &mut session, &who, 12345, true),
        SyncError::Resource
    );
    let answer = session.handle_message(&mut storage, &who, read(1, 12345, 0)).unwrap();
    match answer.payload {
        Payload::ReadFragmentAck(ack) => {
            assert_eq!(ack.ack_type, FragmentAckType::Break);
            assert_eq!(ack.sync_error, SyncError::Resource);
            assert!(ack.content.is_empty());
        }
        other => panic!("unexpected {:?}", other),
    }
}

#[test]
fn reading_past_the_last_fragment_breaks() {
    let mut storage = storage();
    let mut session = DimspHubSession::new();
    let who = account(100, 1000, 1);
    upload_hello(&mut storage, &mut session, &who);
    let (handle, _, _) = open_next_message(&mut storage, &mut session, &who).unwrap();
    let answer = session.handle_message(&mut storage, &who, read(1, handle, 3)).unwrap();
    match answer.payload {
        Payload::ReadFragmentAck(ack) => {
            assert_eq!(ack.ack_type, FragmentAckType::Break);
            assert_eq!(ack.sync_error, SyncError::FragmentOutOfRange);
        }
        other => panic!("unexpected {:?}", other),
    }
}

#[test]
fn an_unknown_kind_of_message_ends_the_session() {
    let mut storage = storage();
    let mut session = DimspHubSession::new();
    let who = account(100, 1000, 1);
    let message = SyncMessage { id: 1, type_: 99, payload: Payload::Empty };
    assert_eq!(
        session.handle_message(&mut storage, &who, message).unwrap_err(),
        DismpError::SyncMessageType(99)
    );
    let ack = SyncMessage::new(2, MessageType::OpenInboxAck, Payload::Empty);
    assert_eq!(
        session.handle_message(&mut storage, &who, ack).unwrap_err(),
        DismpError::SyncMessageType(7)
    );
}

#[test]
fn a_request_without_its_payload_ends_the_session() {
    let mut storage = storage();
    let mut session = DimspHubSession::new();
    let who = account(100, 1000, 1);
    for kind in [
        MessageType::OpenWriteStream,
        MessageType::WriteFragment,
        MessageType::CloseWriteStream,
        MessageType::ReadFragment,
        MessageType::CloseInboxStream,
    ] {
        let message = SyncMessage::new(1, kind, Payload::Empty);
        assert_eq!(
            session.handle_message(&mut storage, &who, message).unwrap_err(),
            DismpError::SyncMessageContent(kind)
        );
    }
    let wrong = SyncMessage::new(
        1,
        MessageType::WriteFragment,
        Payload::CloseWriteStream(CloseWriteStream { stream_handle: 1 }),
    );
    assert_eq!(
        session.handle_message(&mut storage, &who, wrong).unwrap_err(),
        DismpError::SyncMessageContent(MessageType::WriteFragment)
    );
}

#[test]
fn handles_and_ids_can_be_given_from_outside() {
    let mut storage = storage();
    let mut session = DimspHubSession::new();
    let who = account(100, 1000, 1);
    let fresh = Hash32 { h1: 1, h2: 2, h3: 3, h4: 4 };
    let answer = session
        .handle_message_with(
            &mut storage,
            &who,
            open_write(1, 11, hello_hashes(), None),
            fresh,
            4242,
        )
        .unwrap();
    match answer.payload {
        Payload::OpenWriteStreamAck(ack) => {
            assert_eq!(ack.ack_type, OpenWriteStreamAckType::Accept);
            assert_eq!(ack.stream_handle, 4242);
        }
        other => panic!("unexpected {:?}", other),
    }
    assert!(storage.blob().contains(&fresh));
    let blob = storage.blob().blob(&fresh).unwrap();
    assert_eq!(blob.owner, 100);
    assert_eq!(blob.length, 11);
    assert_eq!(blob.next_fragment, 0);
    assert_eq!(blob.fragment_hashes, hello_hashes());
}

#[test]
fn a_body_is_queued_only_when_it_is_stored_in_full() {
    let mut storage = storage();
    let mut session = DimspHubSession::new();
    let who = account(100, 1000, 1);
    let answer = session
        .handle_message(&mut storage, &who, open_write(1, 11, hello_hashes(), None))
        .unwrap();
    let handle = match answer.payload {
        Payload::OpenWriteStreamAck(ack) => ack.stream_handle,
        other => panic!("unexpected {:?}", other),
    };
    session
        .handle_message(&mut storage, &who, write(2, handle, 0, b"Hell"))
        .unwrap();
    let close = |storage: &mut DimspHubStorage, session: &mut DimspHubSession| {
        let answer = session.handle_message(storage, &who, close_write(3, handle)).unwrap();
        match answer.payload {
            Payload::CloseWriteStreamAck(ack) => ack.sync_error,
            other => panic!("unexpected {:?}", other),
        }
    };
    assert_eq!(close(&mut storage, &mut session), SyncError::FragmentOffset);
    assert_eq!(
        inbox_of(&mut storage, &who),
        Inbox { unread: 0, total_length: 0 }
    );
    assert_eq!(session.table().write_handle(), Some(handle));
    assert!(open_next_message(&mut storage, &mut session, &who).is_none());
    session
        .handle_message(&mut storage, &who, write(4, handle, 1, b"o wo"))
        .unwrap();
    session
        .handle_message(&mut storage, &who, write(5, handle, 2, b"rld"))
        .unwrap();
    assert_eq!(close(&mut storage, &mut session), SyncError::Success);
    assert_eq!(
        inbox_of(&mut storage, &who),
        Inbox { unread: 1, total_length: 11 }
    );
    assert_eq!(close(&mut storage, &mut session), SyncError::Resource);
}

#[test]
fn a_body_is_held_to_the_length_it_declares() {
    let mut storage = storage();
    let mut session = DimspHubSession::new();
    let who = account(100, 1000, 1);
    let rejected = |answer: SyncMessage| match answer.payload {
        Payload::OpenWriteStreamAck(ack) => {
            assert_eq!(ack.ack_type, OpenWriteStreamAckType::Reject);
            ack.sync_error
        }
        other => panic!("unexpected {:?}", other),
    };
    let answer = session
        .handle_message(&mut storage, &who, open_write(1, 5, vec![], None))
        .unwrap();
    assert_eq!(rejected(answer), SyncError::FragmentOutOfRange);
    let answer = session
        .handle_message(
            &mut storage,
            &who,
            open_write(2, 12, vec![digest(b"Hello world")], Some(b"Hello world")),
        )
        .unwrap();
    assert_eq!(rejected(answer), SyncError::FragmentOutOfRange);
    assert_eq!(storage.blob().len(), 0);
    let answer = session
        .handle_message(&mut storage, &who, open_write(3, 10, hello_hashes(), None))
        .unwrap();
    let handle = match answer.payload {
        Payload::OpenWriteStreamAck(ack) => ack.stream_handle,
        other => panic!("unexpected {:?}", other),
    };
    for (offset, content) in [&b"Hell"[..], &b"o wo"[..]].iter().enumerate() {
        session
            .handle_message(&mut storage, &who, write(4, handle, offset as u64, content))
            .unwrap();
    }
    let answer = session
        .handle_message(&mut storage, &who, write(6, handle, 2, b"rld"))
        .unwrap();
    match answer.payload {
        Payload::WriteFragmentAck(ack) => {
            assert_eq!(ack.ack_type, FragmentAckType::Break);
            assert_eq!(ack.sync_error, SyncError::FragmentOutOfRange);
        }
        other => panic!("unexpected {:?}", other),
    }
    let answer = session.handle_message(&mut storage, &who, close_write(7, handle)).unwrap();
    match answer.payload {
        Payload::CloseWriteStreamAck(ack) => assert_eq!(ack.sync_error, SyncError::FragmentOffset),
        other => panic!("unexpected {:?}", other),
    }
    assert_eq!(
        inbox_of(&mut storage, &who),
        Inbox { unread: 0, total_length: 0 }
    );
}

#[test]
fn a_body_that_expired_is_not_found() {
    let mut storage = storage();
    let mut session = DimspHubSession::new();
    let who = account(100, 1000, 1);
    let writing = upload_hello(&mut storage, &mut session, &who);
    let (reading, _, _) = open_next_message(&mut storage, &mut session, &who).unwrap();
    let _ = writing;
    storage.expire(100, 1);
    assert_eq!(storage.blob().len(), 0);
    assert_eq!(storage.blob().used(100), 0);
    let answer = session.handle_message(&mut storage, &who, read(5, reading, 0)).unwrap();
    match answer.payload {
        Payload::ReadFragmentAck(ack) => {
            assert_eq!(ack.ack_type, FragmentAckType::Break);
            assert_eq!(ack.sync_error, SyncError::BlobNotFound);
            assert!(ack.content.is_empty());
        }
        other => panic!("unexpected {:?}", other),
    }
}

#[test]
fn an_upload_that_was_never_closed_leaves_no_reference() {
    let mut storage = storage();
    let who = account(100, 1000, 1);
    let mut dropped = DimspHubSession::new();
    dropped
        .handle_message(&mut storage, &who, open_write(1, 11, hello_hashes(), None))
        .unwrap();
    let mut session = DimspHubSession::new();
    upload_hello_from(&mut storage, &mut session, &who);
    assert_eq!(storage.blob().len(), 1);
    assert_eq!(storage.blob().used(100), 11);
    storage.expire(100, 1);
    assert_eq!(storage.blob().len(), 0);
    assert_eq!(storage.blob().used(100), 0);
}

#[test]
fn a_body_that_was_never_queued_can_be_given_up() {
    let mut storage = storage();
    let who = account(100, 11, 1);
    let mut dropped = DimspHubSession::new();
    let pending = Hash32 { h1: 5, h2: 5, h3: 5, h4: 5 };
    dropped
        .handle_message_with(&mut storage, &who, open_write(1, 11, hello_hashes(), None), pending, 1)
        .unwrap();
    assert_eq!(storage.blob().used(100), 11);
    let queued = Hash32 { h1: 6, h2: 6, h3: 6, h4: 6 };
    let roomy = account(100, 100, 1);
    let mut session = DimspHubSession::new();
    session
        .handle_message_with(
            &mut storage,
            &roomy,
            open_write(2, 1, vec![digest(b"x")], Some(b"x")),
            queued,
            2,
        )
        .unwrap();
    assert!(!storage.discard(&queued));
    assert!(storage.blob().contains(&queued));
    assert!(storage.discard(&pending));
    assert!(!storage.blob().contains(&pending));
    assert_eq!(storage.blob().used(100), 1);
    assert!(!storage.discard(&pending));
}

#[test]
fn a_refused_request_is_answered_whatever_the_random_source_does() {
    let mut storage = storage();
    let mut session = DimspHubSession::new();
    let who = account(100, 10, 1);
    let mut table = dimsp::StreamTable::new();
    let request = OpenWriteStream {
        length: 11,
        to: 100,
        offset: 0,
        fragment_hashes: hello_hashes(),
        inline_stream: None,
    };
    let ack = storage.open_write_stream(&mut table, &who, request).unwrap();
    assert_eq!(ack.ack_type, OpenWriteStreamAckType::Reject);
    assert_eq!(ack.sync_error, SyncError::Quota);
    assert_eq!(ack.stream_handle, 0);
    assert_eq!(
        inbox_of(&mut storage, &who),
        Inbox { unread: 0, total_length: 0 }
    );
    let _ = &mut session;
}

#[test]
fn an_id_that_is_taken_ends_the_session() {
    let mut storage = storage();
    let mut session = DimspHubSession::new();
    let who = account(100, 1000, 1);
    let taken = Hash32 { h1: 9, h2: 9, h3: 9, h4: 9 };
    session
        .handle_message_with(&mut storage, &who, open_write(1, 0, vec![], None), taken, 1)
        .unwrap();
    let error = session
        .handle_message_with(
            &mut storage,
            &who,
            open_write(2, 11, hello_hashes(), None),
            taken,
            2,
        )
        .unwrap_err();
    assert_eq!(
        error,
        DismpError::Storage(dimsp::StorageError::Internal)
    );
    assert_eq!(storage.blob().len(), 1);
    assert!(session.table().write_handle().is_none());
}
