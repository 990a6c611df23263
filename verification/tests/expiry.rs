use dimsp::hash::{keccack256, Hash32};
use dimsp::{
    Blob, DimspHubStorage, Inbox, MNSAccount, MockTimeline, OpenWriteStream,
    OpenWriteStreamAckType, StreamTable, WriteFragment,
};

fn mns(uns_id: u64, quota: u64, client: &[u8]) -> MNSAccount {
    let mut account = MNSAccount::default();
    account.uns.id = uns_id;
    account.quota = quota;
    account.client_id = client.to_vec();
    account
}

fn id(tag: u64) -> Hash32 {
    Hash32 { h1: tag, h2: 0, h3: 0, h4: tag }
}

fn blob(tag: u64, owner: u64, length: u64) -> Blob {
    Blob {
        id: id(tag),
        owner,
        length,
        fragment_hashes: vec![],
        next_fragment: 0,
    }
}

fn inline(body: &[u8]) -> OpenWriteStream {
    OpenWriteStream {
        length: body.len() as u64,
        to: 0,
        offset: 0,
        fragment_hashes: vec![Hash32::from_bytes(&keccack256(body))],
        inline_stream: Some(WriteFragment {
            stream_handle: 0,
            offset: 0,
            content: body.to_vec(),
        }),
    }
}

#[test]
fn expired_entries_leave_the_inbox_of_every_client() {
    let mut timeline = MockTimeline::new();
    let fast = mns(3, 0, b"fast");
    let slow = mns(3, 0, b"slow");
    for tag in 1..=4 {
        timeline.append(blob(tag, 3, tag));
    }
    timeline.pop(&fast, &id(1));
    timeline.pop(&fast, &id(2));
    timeline.pop(&fast, &id(3));
    assert_eq!(timeline.status(&fast), Inbox { unread: 1, total_length: 4 });
    assert_eq!(timeline.status(&slow), Inbox { unread: 4, total_length: 10 });
    assert_eq!(timeline.expire(3, 2), vec![id(1), id(2)]);
    assert_eq!(timeline.status(&fast), Inbox { unread: 1, total_length: 4 });
    assert_eq!(timeline.status(&slow), Inbox { unread: 2, total_length: 7 });
    assert_eq!(timeline.get(&slow).unwrap().id, id(3));
    // The start never moves back, and never past the end.
    assert!(timeline.expire(3, 1).is_empty());
    assert_eq!(timeline.status(&slow), Inbox { unread: 2, total_length: 7 });
    assert_eq!(timeline.expire(3, 100), vec![id(3), id(4)]);
    assert_eq!(timeline.status(&slow), Inbox { unread: 0, total_length: 0 });
    assert_eq!(timeline.status(&fast), Inbox { unread: 0, total_length: 0 });
    assert!(timeline.get(&slow).is_none());
    assert!(timeline.expire(4, 100).is_empty());
    assert_eq!(timeline.append(blob(5, 3, 9)), 5);
    assert_eq!(timeline.status(&slow), Inbox { unread: 1, total_length: 9 });
}

#[test]
fn a_repeated_upload_is_held_to_the_quota_like_any_other() {
    let mut storage = DimspHubStorage::default();
    let mut table = StreamTable::default();
    let who = mns(8, 11, b"c");
    let fresh = Hash32 { h1: 1, h2: 1, h3: 1, h4: 1 };
    let ack = storage
        .open_write_stream_with(&mut table, &who, inline(b"Hello world"), fresh, 1)
        .unwrap();
    assert_eq!(ack.ack_type, OpenWriteStreamAckType::Noneed);
    let ack = storage
        .open_write_stream_with(&mut table, &who, inline(b"Hello world"), fresh, 2)
        .unwrap();
    assert_eq!(ack.ack_type, OpenWriteStreamAckType::Reject);
    assert_eq!(ack.sync_error, dimsp::SyncError::Quota);
    assert_eq!(storage.open_inbox(&who).unwrap().unread, 1);
}

#[test]
fn expiry_gives_the_quota_back_with_the_last_reference() {
    let mut storage = DimspHubStorage::default();
    let mut table = StreamTable::default();
    let who = mns(8, 20, b"c");
    let first = Hash32 { h1: 1, h2: 1, h3: 1, h4: 1 };
    for round in 0..2 {
        let ack = storage
            .open_write_stream_with(&mut table, &who, inline(b"0123456789"), first, round)
            .unwrap();
        assert_eq!(ack.ack_type, OpenWriteStreamAckType::Noneed);
    }
    assert_eq!(storage.blob().used(8), 10);
    assert_eq!(storage.open_inbox(&who).unwrap().unread, 2);
    let ack = storage
        .open_write_stream_with(&mut table, &who, inline(b"eleven bytes"), id(2), 7)
        .unwrap();
    assert_eq!(ack.ack_type, OpenWriteStreamAckType::Reject);
    storage.expire(8, 1);
    assert_eq!(storage.blob().used(8), 10);
    assert!(storage.blob().contains(&first));
    assert_eq!(storage.open_inbox(&who).unwrap().unread, 1);
    storage.expire(8, 2);
    assert_eq!(storage.blob().used(8), 0);
    assert!(!storage.blob().contains(&first));
    assert_eq!(storage.open_inbox(&who).unwrap().unread, 0);
    let ack = storage
        .open_write_stream_with(&mut table, &who, inline(b"eleven bytes"), id(2), 7)
        .unwrap();
    assert_eq!(ack.ack_type, OpenWriteStreamAckType::Noneed);
    assert_eq!(storage.blob().used(8), 12);
}
