use dimsp::hash::{keccack256, Hash32};
use dimsp::{
    account_key, entry_key, Account, Blob, ClientCursor, Inbox, MNSAccount, MockBlob,
    MockTimeline, StorageError, SyncError,
};

fn mns(uns_id: u64, quota: u64, client: &[u8]) -> MNSAccount {
    let mut account = MNSAccount::default();
    account.uns.id = uns_id;
    account.quota = quota;
    account.client_id = client.to_vec();
    account
}

fn digest(content: &[u8]) -> Hash32 {
    Hash32::from_bytes(&keccack256(content))
}

fn id(tag: u64) -> Hash32 {
    Hash32 { h1: tag, h2: 0, h3: 0, h4: tag }
}

fn blob(tag: u64, owner: u64, length: u64) -> Blob {
    Blob {
        id: id(tag),
        owner,
        length,
        fragment_hashes: vec![digest(&[tag as u8])],
        next_fragment: 1,
    }
}

#[test]
fn the_timeline_store_queues_and_pops() {
    let mut timeline = MockTimeline::new();
    let who = MNSAccount::default();
    assert_eq!(timeline.append(blob(1, 0, 5)), 1);
    assert_eq!(timeline.append(blob(2, 0, 6)), 2);
    assert_eq!(timeline.status(&who).unread, 2);
    assert_eq!(timeline.get(&who).unwrap().id, id(1));
    timeline.pop(&who, &id(1));
    assert_eq!(timeline.get(&who).unwrap().id, id(2));
    assert_eq!(timeline.status(&who).unread, 1);
    timeline.pop(&who, &id(2));
    assert!(timeline.get(&who).is_none());
    assert_eq!(timeline.status(&who).unread, 0);
    for _ in 0..10 {
        timeline.pop(&who, &id(2));
    }
    assert!(timeline.get(&who).is_none());
}

#[test]
fn test_timeline() {
    let mns = MNSAccount::default();
    let mut timeline = Account::new();
    timeline.append().unwrap();
    timeline.append().unwrap();
    assert_eq!(timeline.length_of(&mns), 2);
    assert_eq!(timeline.first_n(&mns, 4), 0..2);
    timeline.advance(&mns, 1);
    assert_eq!(timeline.first_n(&mns, 4), 1..2);
    timeline.advance(&mns, 10);
    assert_eq!(timeline.first_n(&mns, 4), 2..2);
}

#[test]
fn account_positions_follow_the_cursor() {
    let who = MNSAccount::default();
    let mut account = Account::new();
    assert_eq!(account.append(), Some(0));
    assert_eq!(account.append(), Some(1));
    assert_eq!(account.length_of(&who), 2);
    assert_eq!(account.first_n(&who, 4), 0..2);
    assert_eq!(account.first_n(&who, 1), 0..1);
    assert_eq!(account.advance(&who, 1), 1);
    assert_eq!(account.first_n(&who, 4), 1..2);
    assert_eq!(account.advance(&who, 10), 0);
    assert_eq!(account.first_n(&who, 4), 2..2);
    assert_eq!(account.length_of(&who), 0);
    assert_eq!(account.first_n(&who, u64::MAX), 2..2);
    let other = mns(0, 0, b"other");
    assert_eq!(account.first_n(&other, u64::MAX), 0..2);
}

#[test]
fn a_lagging_cursor_starts_where_the_timeline_starts() {
    let who = mns(1, 0, b"a");
    let cursors = vec![ClientCursor::new(b"a".to_vec(), 2), ClientCursor::new(b"b".to_vec(), 9)];
    let mut account = Account::restore(5, 9, cursors).unwrap();
    assert_eq!(account.start(), 5);
    assert_eq!(account.end(), 9);
    assert_eq!(account.cursor(&b"a".to_vec()), 5);
    assert_eq!(account.cursor(&b"b".to_vec()), 9);
    assert_eq!(account.cursor(&b"c".to_vec()), 5);
    assert_eq!(account.length_of(&who), 4);
    assert_eq!(account.first_n(&who, 3), 5..8);
    assert_eq!(account.advance(&who, 1), 3);
    assert_eq!(account.cursor(&b"a".to_vec()), 6);
    let kept = account.cursors();
    assert_eq!(kept.len(), 2);
    assert_eq!(kept[0].client(), &b"a".to_vec());
    assert_eq!(kept[0].offset(), 6);
    assert_eq!(kept[1].offset(), 9);
}

#[test]
fn an_account_is_restored_only_from_what_is_well_formed() {
    assert!(Account::restore(3, 2, vec![]).is_none());
    assert!(Account::restore(0, 2, vec![ClientCursor::new(vec![1], 3)]).is_none());
    assert!(Account::restore(
        0,
        2,
        vec![ClientCursor::new(vec![1], 1), ClientCursor::new(vec![1], 2)]
    )
    .is_none());
    assert!(Account::restore(
        0,
        2,
        vec![ClientCursor::new(vec![1], 1), ClientCursor::new(vec![2], 2)]
    )
    .is_some());
    let mut full = Account::restore(0, u64::MAX, vec![]).unwrap();
    assert_eq!(full.append(), None);
    assert_eq!(full.end(), u64::MAX);
}

#[test]
fn keys_of_the_persisted_timeline() {
    assert_eq!(account_key(0x0102030405060708), [1, 2, 3, 4, 5, 6, 7, 8]);
    assert_eq!(account_key(100), 100u64.to_be_bytes());
    assert_eq!(entry_key(100, 0), b"100_0".to_vec());
    assert_eq!(entry_key(0, 7), b"0_7".to_vec());
    assert_eq!(
        entry_key(u64::MAX, 1234567890),
        format!("{}_{}", u64::MAX, 1234567890u64).into_bytes()
    );
}

#[test]
fn the_inbox_sums_what_is_unread() {
    let mut timeline = MockTimeline::new();
    let first = mns(9, 0, b"one");
    let second = mns(9, 0, b"two");
    let elsewhere = mns(10, 0, b"one");
    assert_eq!(timeline.status(&first), Inbox { unread: 0, total_length: 0 });
    timeline.append(blob(1, 9, 5));
    timeline.append(blob(2, 9, 6));
    timeline.append(blob(3, 9, 7));
    timeline.append(blob(4, 10, 100));
    assert_eq!(timeline.status(&first), Inbox { unread: 3, total_length: 18 });
    timeline.pop(&first, &id(1));
    assert_eq!(timeline.status(&first), Inbox { unread: 2, total_length: 13 });
    assert_eq!(timeline.status(&second), Inbox { unread: 3, total_length: 18 });
    assert_eq!(timeline.status(&elsewhere), Inbox { unread: 1, total_length: 100 });
    // Marking an entry on which the cursor does not stand changes nothing.
    timeline.pop(&first, &id(3));
    timeline.pop(&first, &id(1));
    assert_eq!(timeline.status(&first), Inbox { unread: 2, total_length: 13 });
    assert_eq!(timeline.get(&first).unwrap().id, id(2));
}

#[test]
fn the_total_length_of_an_inbox_is_capped() {
    let mut timeline = MockTimeline::new();
    let who = mns(9, 0, b"one");
    timeline.append(blob(1, 9, u64::MAX - 1));
    timeline.append(blob(2, 9, 5));
    assert_eq!(
        timeline.status(&who),
        Inbox { unread: 2, total_length: u64::MAX }
    );
}

#[test]
fn the_blob_store_checks_every_fragment() {
    let mut store = MockBlob::new();
    let who = mns(1, 100, b"c");
    let hashes = vec![digest(b"ab"), digest(b"cd")];
    let blob = store.start_write_blob_with(id(1), &who, 4, hashes.clone()).unwrap();
    assert_eq!(blob.id, id(1));
    assert_eq!(blob.owner, 1);
    assert_eq!(blob.length, 4);
    assert_eq!(blob.next_fragment, 0);
    assert_eq!(blob.fragment_hashes, hashes);
    assert_eq!(
        store.write_blob_fragment(&id(2), 0, b"ab".to_vec()),
        Err(StorageError::BlobNotFound(id(2)))
    );
    assert_eq!(
        store.write_blob_fragment(&id(1), 1, b"cd".to_vec()),
        Err(StorageError::FragmentOffset(0, 1))
    );
    assert_eq!(
        store.write_blob_fragment(&id(1), 0, b"xx".to_vec()),
        Err(StorageError::FragmentHash(digest(b"ab"), digest(b"xx")))
    );
    assert_eq!(StorageError::FragmentLength(4, 0).sync_error(), SyncError::FragmentOutOfRange);
    assert_eq!(store.write_blob_fragment(&id(1), 0, b"ab".to_vec()), Ok(()));
    assert_eq!(store.blob(&id(1)).unwrap().next_fragment, 1);
    assert_eq!(
        store.read_blob_fragment(&id(1), 1),
        Err(StorageError::BlobNotFound(id(1)))
    );
    assert_eq!(store.write_blob_fragment(&id(1), 1, b"cd".to_vec()), Ok(()));
    assert_eq!(
        store.write_blob_fragment(&id(1), 2, b"ef".to_vec()),
        Err(StorageError::FragmentOutOfRange(2, 2))
    );
    assert_eq!(store.read_blob_fragment(&id(1), 0), Ok(b"ab".to_vec()));
    assert_eq!(store.read_blob_fragment(&id(1), 1), Ok(b"cd".to_vec()));
    assert_eq!(
        store.read_blob_fragment(&id(1), 2),
        Err(StorageError::FragmentOutOfRange(2, 2))
    );
    assert_eq!(
        store.read_blob_fragment(&id(3), 0),
        Err(StorageError::BlobNotFound(id(3)))
    );
    assert_eq!(store.start_read_blob(&id(1)), Ok(()));
    assert_eq!(
        store.start_read_blob(&id(3)),
        Err(StorageError::BlobNotFound(id(3)))
    );
    assert_eq!(store.end_write_blob(&id(1)), Ok(()));
}

#[test]
fn the_blob_store_keeps_accounts_within_their_quota() {
    let mut store = MockBlob::new();
    let who = mns(1, 10, b"c");
    let other = mns(2, 10, b"c");
    assert!(store.start_write_blob_with(id(1), &who, 6, vec![digest(b"a")]).is_ok());
    assert_eq!(store.used(1), 6);
    assert_eq!(
        store.start_write_blob_with(id(2), &who, 5, vec![digest(b"b")]).unwrap_err(),
        StorageError::Quotas(1)
    );
    assert_eq!(store.len(), 1);
    assert_eq!(store.used(1), 6);
    assert!(store.start_write_blob_with(id(2), &who, 4, vec![digest(b"b")]).is_ok());
    assert_eq!(store.used(1), 10);
    assert!(store.start_write_blob_with(id(3), &other, 10, vec![digest(b"b")]).is_ok());
    assert_eq!(store.used(2), 10);
    assert_eq!(
        store.start_write_blob_with(id(4), &other, u64::MAX, vec![]).unwrap_err(),
        StorageError::Quotas(u64::MAX)
    );
    assert_eq!(StorageError::Quotas(1).sync_error(), SyncError::Quota);
    assert_eq!(StorageError::Internal.sync_error(), SyncError::Internal);
    assert_eq!(
        StorageError::BlobNotFound(id(1)).sync_error(),
        SyncError::BlobNotFound
    );
}

#[test]
fn the_blob_store_shares_a_body_and_counts_its_references() {
    let mut store = MockBlob::new();
    let who = mns(1, 100, b"c");
    let hashes = vec![digest(b"ab")];
    let first = store.start_write_blob_with(id(1), &who, 2, hashes.clone()).unwrap();
    assert_eq!(store.write_blob_fragment(&first.id, 0, b"ab".to_vec()), Ok(()));
    let second = store.start_write_blob_with(id(2), &who, 2, hashes.clone()).unwrap();
    assert_eq!(second.id, id(1));
    assert_eq!(second.next_fragment, 1);
    assert_eq!(store.len(), 1);
    assert_eq!(store.used(1), 2);
    // The same digests under another length or another owner are another body.
    let longer = store.start_write_blob_with(id(3), &who, 3, hashes.clone()).unwrap();
    assert_eq!(longer.id, id(3));
    let other = mns(2, 100, b"c");
    let foreign = store.start_write_blob_with(id(4), &other, 2, hashes.clone()).unwrap();
    assert_eq!(foreign.id, id(4));
    assert_eq!(foreign.next_fragment, 0);
    assert_eq!(store.len(), 3);
    // An id that is taken cannot name a new body.
    assert_eq!(
        store.start_write_blob_with(id(3), &other, 9, vec![digest(b"z")]).unwrap_err(),
        StorageError::Internal
    );
    // Two entries of timelines refer to the first body.
    assert!(store.retain_blob(&id(1)));
    assert!(store.retain_blob(&id(1)));
    assert!(!store.retain_blob(&id(9)));
    assert!(store.remove_blob(&id(1)));
    assert!(store.contains(&id(1)));
    assert_eq!(store.read_blob_fragment(&id(1), 0), Ok(b"ab".to_vec()));
    assert!(store.remove_blob(&id(1)));
    assert!(!store.contains(&id(1)));
    assert_eq!(store.used(1), 3);
    assert!(!store.remove_blob(&id(1)));
    // A body that nothing refers to goes when it is removed.
    assert!(store.remove_blob(&id(3)));
    assert_eq!(store.used(1), 0);
    assert_eq!(store.len(), 1);
}

#[test]
fn the_blob_store_holds_a_body_to_the_length_it_declares() {
    let mut store = MockBlob::new();
    let who = mns(1, 100, b"c");
    assert_eq!(
        store.start_write_blob_with(id(1), &who, 5, vec![]).unwrap_err(),
        StorageError::FragmentLength(5, 0)
    );
    assert_eq!(store.len(), 0);
    let hashes = vec![digest(b"abc"), digest(b"de")];
    store.start_write_blob_with(id(1), &who, 4, hashes.clone()).unwrap();
    assert_eq!(store.write_blob_fragment(&id(1), 0, b"abc".to_vec()), Ok(()));
    // The last fragment would bring the body to five bytes, not four.
    assert_eq!(
        store.write_blob_fragment(&id(1), 1, b"de".to_vec()),
        Err(StorageError::FragmentLength(4, 3))
    );
    assert_eq!(store.blob(&id(1)).unwrap().next_fragment, 1);
    store.start_write_blob_with(id(2), &who, 6, hashes.clone()).unwrap();
    assert_eq!(store.write_blob_fragment(&id(2), 0, b"abc".to_vec()), Ok(()));
    // The last fragment would leave the body at five bytes, not six.
    assert_eq!(
        store.write_blob_fragment(&id(2), 1, b"de".to_vec()),
        Err(StorageError::FragmentLength(6, 3))
    );
    store.start_write_blob_with(id(3), &who, 2, hashes.clone()).unwrap();
    assert_eq!(
        store.write_blob_fragment(&id(3), 0, b"abc".to_vec()),
        Err(StorageError::FragmentLength(2, 0))
    );
    store.start_write_blob_with(id(4), &who, 5, hashes).unwrap();
    assert_eq!(store.write_blob_fragment(&id(4), 0, b"abc".to_vec()), Ok(()));
    assert_eq!(store.write_blob_fragment(&id(4), 1, b"de".to_vec()), Ok(()));
}

#[test]
fn the_blob_store_tests_the_quota_before_it_draws() {
    let mut store = MockBlob::new();
    let who = mns(1, 10, b"c");
    assert_eq!(
        store.start_write_blob(&who, 11, vec![digest(b"a")]).unwrap_err(),
        StorageError::Quotas(1)
    );
    assert_eq!(store.len(), 0);
    assert!(store.needs_id(&who, 10, &vec![digest(b"a")]));
    let blob = store.start_write_blob(&who, 10, vec![digest(b"a")]).unwrap();
    assert!(!store.needs_id(&who, 10, &vec![digest(b"a")]));
    let again = store.start_write_blob(&who, 10, vec![digest(b"a")]).unwrap_err();
    assert_eq!(again, StorageError::Quotas(10));
    let roomy = mns(1, 20, b"c");
    assert_eq!(
        store.start_write_blob(&roomy, 10, vec![digest(b"a")]).unwrap().id,
        blob.id
    );
}

#[test]
fn the_blob_store_draws_distinct_ids() {
    let mut store = MockBlob::new();
    let who = mns(1, 100, b"c");
    let first = store.start_write_blob(&who, 1, vec![digest(b"a")]).unwrap();
    let second = store.start_write_blob(&who, 1, vec![digest(b"b")]).unwrap();
    assert_ne!(first.id, second.id);
    assert_ne!(first.id, Hash32 { h1: 0, h2: 0, h3: 0, h4: 0 });
    assert_eq!(store.len(), 2);
}
