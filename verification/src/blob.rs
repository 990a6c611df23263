//! The blob store: content-addressed fragment storage with hash
//! verification, quota accounting and reference-counted removal.

use crate::account::MNSAccount;
use crate::error::StorageError;
use crate::hash::{fragment_digest, keccack256, Hash32};
use rand::RngCore;
use vstd::prelude::*;

verus! {

/// A message body as its writer and its readers see it.
#[derive(Debug)]
pub struct Blob {
    /// Identifier of the stored body.
    pub id: Hash32,
    /// The account whose inbox receives the body.
    pub owner: u64,
    /// Total byte length declared by the writer.
    pub length: u64,
    /// One digest per fragment, in order.
    pub fragment_hashes: Vec<Hash32>,
    /// Index of the first fragment that the store still lacks.
    pub next_fragment: u64,
}

/// The mathematical value of a [`Blob`].
pub struct BlobView {
    pub id: Hash32,
    pub owner: u64,
    pub length: u64,
    pub fragment_hashes: Seq<Hash32>,
    pub next_fragment: u64,
}

impl View for Blob {
    type V = BlobView;

    open spec fn view(&self) -> BlobView {
        BlobView {
            id: self.id,
            owner: self.owner,
            length: self.length,
            fragment_hashes: self.fragment_hashes@,
            next_fragment: self.next_fragment,
        }
    }
}

impl Clone for Blob {
    fn clone(&self) -> (copy: Self)
        ensures
            copy@ == self@,
    {
        Blob {
            id: self.id,
            owner: self.owner,
            length: self.length,
            fragment_hashes: self.fragment_hashes.clone(),
            next_fragment: self.next_fragment,
        }
    }
}

/// What the store keeps of one body.
pub struct BlobRecord {
    id: Hash32,
    owner: u64,
    length: u64,
    fragment_hashes: Vec<Hash32>,
    fragments: Vec<Vec<u8>>,
    stored: u64,
    refcount: u64,
}

/// The mathematical value of a [`BlobRecord`].
pub struct BlobRecordView {
    pub id: Hash32,
    pub owner: u64,
    pub length: u64,
    pub fragment_hashes: Seq<Hash32>,
    /// The fragments stored so far, in order.
    pub fragments: Seq<Seq<u8>>,
    /// How many bytes the stored fragments have in all.
    pub stored: u64,
    /// How many entries of timelines refer to the body.
    pub refcount: u64,
}

impl View for BlobRecord {
    type V = BlobRecordView;

    closed spec fn view(&self) -> BlobRecordView {
        BlobRecordView {
            id: self.id,
            owner: self.owner,
            length: self.length,
            fragment_hashes: self.fragment_hashes@,
            fragments: Seq::new(self.fragments@.len(), |i: int| self.fragments@[i]@),
            stored: self.stored,
            refcount: self.refcount,
        }
    }
}

impl BlobRecordView {
    /// Every stored fragment has the digest that was declared for its
    /// position, no more fragments are stored than declared, the stored
    /// fragments have no more bytes than the body declares, and a body
    /// that is stored in full has exactly the bytes it declares.
    pub open spec fn wf(self) -> bool {
        &&& self.fragments.len() <= self.fragment_hashes.len()
        &&& self.fragment_hashes.len() <= u64::MAX
        &&& self.stored == stored_bytes(self.fragments)
        &&& self.stored <= self.length
        &&& self.complete() ==> self.stored == self.length
        &&& forall|i: int|
            0 <= i < self.fragments.len() ==> fragment_digest(#[trigger] self.fragments[i])
                == self.fragment_hashes[i]
    }

    /// All declared fragments are stored.
    pub open spec fn complete(self) -> bool {
        self.fragments.len() == self.fragment_hashes.len()
    }

    /// The body is the one that `owner` declared with `length` and
    /// `fragment_hashes`.
    pub open spec fn holds(self, owner: u64, length: u64, fragment_hashes: Seq<Hash32>) -> bool {
        self.owner == owner && self.length == length && self.fragment_hashes == fragment_hashes
    }

    /// The descriptor that callers get for this body.
    pub open spec fn blob(self) -> BlobView {
        BlobView {
            id: self.id,
            owner: self.owner,
            length: self.length,
            fragment_hashes: self.fragment_hashes,
            next_fragment: self.fragments.len() as u64,
        }
    }

    /// The record with one more reference.
    pub open spec fn retained(self) -> BlobRecordView {
        BlobRecordView {
            refcount: if self.refcount < u64::MAX {
                (self.refcount + 1) as u64
            } else {
                self.refcount
            },
            ..self
        }
    }

    /// The record with one reference less.
    pub open spec fn released(self) -> BlobRecordView {
        BlobRecordView { refcount: (self.refcount - 1) as u64, ..self }
    }

    /// The record with `content` stored as its next fragment.
    pub open spec fn extended(self, content: Seq<u8>) -> BlobRecordView {
        BlobRecordView {
            fragments: self.fragments.push(content),
            stored: (self.stored + content.len()) as u64,
            ..self
        }
    }

    /// `content` fits as the next fragment: with it the body has no more
    /// bytes than it declares, and exactly as many if the fragment is the
    /// last.
    pub open spec fn fits(self, content: Seq<u8>) -> bool {
        &&& self.stored + content.len() <= self.length
        &&& self.fragments.len() + 1 == self.fragment_hashes.len() ==> self.stored
            + content.len() == self.length
    }
}

/// How many bytes `fragments` have in all.
pub open spec fn stored_bytes(fragments: Seq<Seq<u8>>) -> nat
    decreases fragments.len(),
{
    if fragments.len() == 0 {
        0
    } else {
        stored_bytes(fragments.drop_last()) + fragments.last().len()
    }
}

/// Total declared length of the bodies in `records` that `owner` owns.
pub open spec fn owned_bytes(records: Seq<BlobRecordView>, owner: u64) -> nat
    decreases records.len(),
{
    if records.len() == 0 {
        0
    } else {
        owned_bytes(records.drop_last(), owner) + if records.last().owner == owner {
            records.last().length as nat
        } else {
            0
        }
    }
}

/// The first `k` fragments have no more bytes than all of them, and one
/// fragment more has the bytes of that fragment more.
pub proof fn lemma_stored_bytes_prefix(fragments: Seq<Seq<u8>>, k: int)
    requires
        0 <= k <= fragments.len(),
    ensures
        stored_bytes(fragments.take(k)) <= stored_bytes(fragments),
        k == fragments.len() ==> stored_bytes(fragments.take(k)) == stored_bytes(fragments),
        k < fragments.len() ==> stored_bytes(fragments.take(k + 1)) == stored_bytes(
            fragments.take(k),
        ) + fragments[k].len(),
    decreases fragments.len() - k,
{
    if k == fragments.len() {
        assert(fragments.take(k) =~= fragments);
    } else {
        assert(fragments.take(k + 1).drop_last() =~= fragments.take(k));
        lemma_stored_bytes_prefix(fragments, k + 1);
    }
}

/// The mathematical value of a blob store: its records in the order in
/// which the bodies were first opened.
pub struct BlobStoreView {
    pub records: Seq<BlobRecordView>,
}

impl BlobStoreView {
    /// Some record has the id `id`.
    pub open spec fn contains(self, id: Hash32) -> bool {
        exists|i: int| 0 <= i < self.records.len() && (#[trigger] self.records[i]).id == id
    }

    /// Where the record with the id `id` stands.
    pub open spec fn position(self, id: Hash32) -> int {
        choose|i: int| 0 <= i < self.records.len() && (#[trigger] self.records[i]).id == id
    }

    /// The record with the id `id`.
    pub open spec fn record(self, id: Hash32) -> BlobRecordView {
        self.records[self.position(id)]
    }

    /// Some record holds the body that `owner` declared with `length` and
    /// `fragment_hashes`.
    pub open spec fn has_content(
        self,
        owner: u64,
        length: u64,
        fragment_hashes: Seq<Hash32>,
    ) -> bool {
        exists|i: int|
            0 <= i < self.records.len() && (#[trigger] self.records[i]).holds(
                owner,
                length,
                fragment_hashes,
            )
    }

    /// Where the record of that body stands.
    pub open spec fn content_position(
        self,
        owner: u64,
        length: u64,
        fragment_hashes: Seq<Hash32>,
    ) -> int {
        choose|i: int|
            0 <= i < self.records.len() && (#[trigger] self.records[i]).holds(
                owner,
                length,
                fragment_hashes,
            )
    }

    /// Bytes of quota that `owner` has in use: the total declared length of
    /// the bodies it owns.
    pub open spec fn used(self, owner: u64) -> nat {
        owned_bytes(self.records, owner)
    }

    /// Every record is well formed, no two records share an id or a body,
    /// and every account's usage fits 64 bits.
    pub open spec fn wf(self) -> bool {
        &&& forall|i: int| 0 <= i < self.records.len() ==> (#[trigger] self.records[i]).wf()
        &&& forall|i: int, j: int|
            0 <= i < self.records.len() && 0 <= j < self.records.len() && i != j ==> (
            #[trigger] self.records[i]).id != (#[trigger] self.records[j]).id
        &&& forall|i: int, j: int|
            0 <= i < self.records.len() && 0 <= j < self.records.len() && i != j ==> !(
            #[trigger] self.records[i]).holds(
                (#[trigger] self.records[j]).owner,
                self.records[j].length,
                self.records[j].fragment_hashes,
            )
        &&& forall|owner: u64| #[trigger] owned_bytes(self.records, owner) <= u64::MAX
    }

    /// Why `owner`, whose quota is `quota`, cannot open a body of `length`
    /// bytes with the digests `fragment_hashes`, if it cannot: the body
    /// is over quota, or it declares bytes but no fragment, in this order.
    pub open spec fn start_refusal(
        self,
        owner: u64,
        quota: u64,
        length: u64,
        fragment_hashes: Seq<Hash32>,
    ) -> Option<StorageError> {
        if self.used(owner) + length > quota {
            Some(StorageError::Quotas(quota_excess(self.used(owner), length, quota)))
        } else if fragment_hashes.len() == 0 && length != 0 {
            Some(StorageError::FragmentLength(length, 0))
        } else {
            None
        }
    }

    /// Opening that body takes an id for a new body: nothing refuses the
    /// request, and the store does not hold the body yet.
    pub open spec fn needs_id(
        self,
        owner: u64,
        quota: u64,
        length: u64,
        fragment_hashes: Seq<Hash32>,
    ) -> bool {
        &&& self.start_refusal(owner, quota, length, fragment_hashes) is None
        &&& !self.has_content(owner, length, fragment_hashes)
    }

    /// The store and the answer after `owner`, whose quota is `quota`,
    /// opens a body of `length` bytes with the digests `fragment_hashes`,
    /// where `fresh` is the id kept ready for a body that is new.
    ///
    /// A request that [`BlobStoreView::start_refusal`] refuses changes
    /// nothing. A body that the store already holds for `owner` is
    /// answered with the number of fragments already stored, and changes
    /// nothing either. A new body starts empty under `fresh`, unless
    /// `fresh` is taken.
    pub open spec fn start_write(
        self,
        owner: u64,
        quota: u64,
        length: u64,
        fragment_hashes: Seq<Hash32>,
        fresh: Hash32,
    ) -> (BlobStoreView, Result<BlobView, StorageError>) {
        if self.start_refusal(owner, quota, length, fragment_hashes) is Some {
            (self, Err(self.start_refusal(owner, quota, length, fragment_hashes)->0))
        } else if self.has_content(owner, length, fragment_hashes) {
            (
                self,
                Ok(self.records[self.content_position(owner, length, fragment_hashes)].blob()),
            )
        } else if self.contains(fresh) {
            (self, Err(StorageError::Internal))
        } else {
            let record = BlobRecordView {
                id: fresh,
                owner,
                length,
                fragment_hashes,
                fragments: Seq::empty(),
                stored: 0,
                refcount: 0,
            };
            (BlobStoreView { records: self.records.push(record) }, Ok(record.blob()))
        }
    }

    /// Why `content` cannot be stored as fragment `offset` of the body
    /// `id`, if it cannot: the body is unknown, `offset` is not the next
    /// fragment, `offset` is past the declared fragments, the digest of
    /// `content` is not the declared one, or `content` does not fit the
    /// length that the body declares, in this order.
    pub open spec fn write_refusal(self, id: Hash32, offset: u64, content: Seq<u8>) -> Option<
        StorageError,
    > {
        if !self.contains(id) {
            Some(StorageError::BlobNotFound(id))
        } else if offset != self.record(id).fragments.len() {
            Some(StorageError::FragmentOffset(self.record(id).fragments.len() as u64, offset))
        } else if offset >= self.record(id).fragment_hashes.len() {
            Some(
                StorageError::FragmentOutOfRange(
                    offset,
                    self.record(id).fragment_hashes.len() as u64,
                ),
            )
        } else if fragment_digest(content) != self.record(id).fragment_hashes[offset as int] {
            Some(
                StorageError::FragmentHash(
                    self.record(id).fragment_hashes[offset as int],
                    fragment_digest(content),
                ),
            )
        } else if !self.record(id).fits(content) {
            Some(StorageError::FragmentLength(self.record(id).length, self.record(id).stored))
        } else {
            None
        }
    }

    /// The store after an attempt to store `content` as fragment `offset`
    /// of the body `id`: extended by the fragment where nothing refuses it,
    /// unchanged otherwise.
    pub open spec fn write_fragment(self, id: Hash32, offset: u64, content: Seq<u8>) -> BlobStoreView {
        if self.write_refusal(id, offset, content) is None {
            BlobStoreView {
                records: self.records.update(self.position(id), self.record(id).extended(content)),
            }
        } else {
            self
        }
    }

    /// Fragment `offset` of the body `id`, or why it cannot be had: the
    /// body is unknown, `offset` is past the declared fragments, or the
    /// fragment is not stored yet.
    pub open spec fn read_fragment(self, id: Hash32, offset: u64) -> Result<Seq<u8>, StorageError> {
        if !self.contains(id) {
            Err(StorageError::BlobNotFound(id))
        } else if offset >= self.record(id).fragment_hashes.len() {
            Err(
                StorageError::FragmentOutOfRange(
                    offset,
                    self.record(id).fragment_hashes.len() as u64,
                ),
            )
        } else if offset >= self.record(id).fragments.len() {
            Err(StorageError::BlobNotFound(id))
        } else {
            Ok(self.record(id).fragments[offset as int])
        }
    }

    /// The store after an entry of a timeline has come to refer to the
    /// body `id`.
    pub open spec fn retain(self, id: Hash32) -> BlobStoreView {
        if self.contains(id) {
            BlobStoreView {
                records: self.records.update(self.position(id), self.record(id).retained()),
            }
        } else {
            self
        }
    }

    /// The store after the body `id` is given up as one that was never
    /// queued: the record goes if no entry of a timeline refers to it, and
    /// stays otherwise.
    pub open spec fn discard(self, id: Hash32) -> BlobStoreView {
        if self.contains(id) && self.record(id).refcount == 0 {
            self.remove(id)
        } else {
            self
        }
    }

    /// The store after one reference to the body `id` is given back: the
    /// record goes with its last reference, and so does a record that
    /// nothing refers to.
    pub open spec fn remove(self, id: Hash32) -> BlobStoreView {
        if !self.contains(id) {
            self
        } else if self.record(id).refcount > 1 {
            BlobStoreView {
                records: self.records.update(self.position(id), self.record(id).released()),
            }
        } else {
            BlobStoreView { records: self.records.remove(self.position(id)) }
        }
    }
}

/// By how many bytes a request of `length` bytes exceeds `quota` when
/// `used` bytes are taken, capped at `u64::MAX`.
pub open spec fn quota_excess(used: nat, length: u64, quota: u64) -> u64 {
    if used + length - quota > u64::MAX {
        u64::MAX
    } else {
        (used + length - quota) as u64
    }
}

/// In a well-formed store a record is found under its own id.
pub proof fn lemma_position(store: BlobStoreView, i: int)
    requires
        store.wf(),
        0 <= i < store.records.len(),
    ensures
        store.contains(store.records[i].id),
        store.position(store.records[i].id) == i,
        store.record(store.records[i].id) == store.records[i],
{
}

/// In a well-formed store a record is found under its own body.
pub proof fn lemma_content_position(store: BlobStoreView, i: int)
    requires
        store.wf(),
        0 <= i < store.records.len(),
    ensures
        store.has_content(
            store.records[i].owner,
            store.records[i].length,
            store.records[i].fragment_hashes,
        ),
        store.content_position(
            store.records[i].owner,
            store.records[i].length,
            store.records[i].fragment_hashes,
        ) == i,
{
    assert(store.records[i].holds(
        store.records[i].owner,
        store.records[i].length,
        store.records[i].fragment_hashes,
    ));
    let j = store.content_position(
        store.records[i].owner,
        store.records[i].length,
        store.records[i].fragment_hashes,
    );
    assert(store.records[j].holds(
        store.records[i].owner,
        store.records[i].length,
        store.records[i].fragment_hashes,
    ));
}

/// Replacing a record by one of the same owner and length leaves every
/// account's usage as it was.
pub proof fn lemma_owned_bytes_update(
    records: Seq<BlobRecordView>,
    i: int,
    record: BlobRecordView,
    owner: u64,
)
    requires
        0 <= i < records.len(),
        record.owner == records[i].owner,
        record.length == records[i].length,
    ensures
        owned_bytes(records.update(i, record), owner) == owned_bytes(records, owner),
    decreases records.len(),
{
    let updated = records.update(i, record);
    if i == records.len() - 1 {
        assert(updated.drop_last() =~= records.drop_last());
    } else {
        assert(updated.drop_last() =~= records.drop_last().update(i, record));
        lemma_owned_bytes_update(records.drop_last(), i, record, owner);
    }
}

/// Taking a record out lowers its owner's usage by its length and leaves
/// every other account's usage as it was.
pub proof fn lemma_owned_bytes_remove(records: Seq<BlobRecordView>, i: int, owner: u64)
    requires
        0 <= i < records.len(),
    ensures
        owned_bytes(records.remove(i), owner) + (if records[i].owner == owner {
            records[i].length as nat
        } else {
            0
        }) == owned_bytes(records, owner),
    decreases records.len(),
{
    let removed = records.remove(i);
    if i == records.len() - 1 {
        assert(removed =~= records.drop_last());
    } else {
        assert(removed.drop_last() =~= records.drop_last().remove(i));
        assert(removed.last() == records.last());
        lemma_owned_bytes_remove(records.drop_last(), i, owner);
    }
}

/// The usage counted over the first `k` records is at most the usage
/// counted over all of them.
pub proof fn lemma_owned_bytes_prefix(records: Seq<BlobRecordView>, k: int, owner: u64)
    requires
        0 <= k <= records.len(),
    ensures
        owned_bytes(records.take(k), owner) <= owned_bytes(records, owner),
    decreases records.len() - k,
{
    if k == records.len() {
        assert(records.take(k) =~= records);
    } else {
        assert(records.take(k + 1).drop_last() =~= records.take(k));
        lemma_owned_bytes_prefix(records, k + 1, owner);
    }
}

/// Opening a body keeps a store well formed.
pub proof fn lemma_start_write_wf(
    store: BlobStoreView,
    owner: u64,
    quota: u64,
    length: u64,
    fragment_hashes: Seq<Hash32>,
    fresh: Hash32,
)
    requires
        store.wf(),
        fragment_hashes.len() <= u64::MAX,
    ensures
        store.start_write(owner, quota, length, fragment_hashes, fresh).0.wf(),
{
    let after = store.start_write(owner, quota, length, fragment_hashes, fresh).0;
    if store.needs_id(owner, quota, length, fragment_hashes) && !store.contains(fresh) {
        assert(after.records.drop_last() =~= store.records);
        assert forall|k: int| 0 <= k < after.records.len() implies (#[trigger] after.records[k]).wf() by {
            if k < store.records.len() {
                assert(store.records[k].wf());
            }
        }
        assert forall|a: u64| #[trigger] owned_bytes(after.records, a) <= u64::MAX by {
            assert(owned_bytes(store.records, a) <= u64::MAX);
        }
        assert forall|k: int, j: int|
            0 <= k < after.records.len() && 0 <= j < after.records.len() && k != j implies (
        #[trigger] after.records[k]).id != (#[trigger] after.records[j]).id by {
            if k < store.records.len() && j < store.records.len() {
                assert(store.records[k].id != store.records[j].id);
            } else if k < store.records.len() {
                assert(store.records[k].id != fresh);
            } else {
                assert(store.records[j].id != fresh);
            }
        }
        assert forall|k: int, j: int|
            0 <= k < after.records.len() && 0 <= j < after.records.len() && k != j implies !(
        #[trigger] after.records[k]).holds(
            (#[trigger] after.records[j]).owner,
            after.records[j].length,
            after.records[j].fragment_hashes,
        ) by {
            if k < store.records.len() && j < store.records.len() {
                assert(!store.records[k].holds(
                    store.records[j].owner,
                    store.records[j].length,
                    store.records[j].fragment_hashes,
                ));
            } else if k < store.records.len() {
                assert(!store.records[k].holds(owner, length, fragment_hashes));
            } else {
                assert(!store.records[j].holds(owner, length, fragment_hashes));
            }
        }
    }
}

/// Replacing a record by one that differs in its fragments or in its
/// references only keeps a store well formed, if the new record is well
/// formed.
pub proof fn lemma_update_wf(store: BlobStoreView, i: int, record: BlobRecordView)
    requires
        store.wf(),
        0 <= i < store.records.len(),
        record.wf(),
        record.id == store.records[i].id,
        record.owner == store.records[i].owner,
        record.length == store.records[i].length,
        record.fragment_hashes == store.records[i].fragment_hashes,
    ensures
        (BlobStoreView { records: store.records.update(i, record) }).wf(),
{
    let after = BlobStoreView { records: store.records.update(i, record) };
    assert forall|k: int| 0 <= k < after.records.len() implies (#[trigger] after.records[k]).wf() by {
        if k != i {
            assert(store.records[k].wf());
        }
    }
    assert forall|a: u64| #[trigger] owned_bytes(after.records, a) <= u64::MAX by {
        lemma_owned_bytes_update(store.records, i, record, a);
        assert(owned_bytes(store.records, a) <= u64::MAX);
    }
    assert forall|k: int, j: int|
        0 <= k < after.records.len() && 0 <= j < after.records.len() && k != j implies (
    #[trigger] after.records[k]).id != (#[trigger] after.records[j]).id by {
        assert(store.records[k].id != store.records[j].id);
    }
    assert forall|k: int, j: int|
        0 <= k < after.records.len() && 0 <= j < after.records.len() && k != j implies !(
    #[trigger] after.records[k]).holds(
        (#[trigger] after.records[j]).owner,
        after.records[j].length,
        after.records[j].fragment_hashes,
    ) by {
        assert(!store.records[k].holds(
            store.records[j].owner,
            store.records[j].length,
            store.records[j].fragment_hashes,
        ));
    }
}

/// A reference more keeps a store well formed and changes nothing but the
/// number of references of that body.
pub proof fn lemma_retain(store: BlobStoreView, id: Hash32, other: Hash32, owner: u64)
    requires
        store.wf(),
    ensures
        store.retain(id).wf(),
        store.retain(id).contains(other) == store.contains(other),
        store.retain(id).used(owner) == store.used(owner),
        store.contains(other) ==> {
            &&& store.retain(id).record(other).fragments == store.record(other).fragments
            &&& store.retain(id).record(other).fragment_hashes == store.record(
                other,
            ).fragment_hashes
            &&& store.retain(id).record(other).length == store.record(other).length
            &&& store.retain(id).record(other).owner == store.record(other).owner
            &&& store.retain(id).record(other).stored == store.record(other).stored
            &&& other != id ==> store.retain(id).record(other) == store.record(other)
        },
{
    if store.contains(id) {
        let i = store.position(id);
        let record = store.record(id).retained();
        assert(store.records[i].wf());
        lemma_update_wf(store, i, record);
        lemma_update_lookup(store, i, record, other);
        lemma_owned_bytes_update(store.records, i, record, owner);
    }
}

/// Storing a fragment keeps a store well formed.
pub proof fn lemma_write_fragment_wf(store: BlobStoreView, id: Hash32, offset: u64, content: Seq<u8>)
    requires
        store.wf(),
    ensures
        store.write_fragment(id, offset, content).wf(),
{
    if store.write_refusal(id, offset, content) is None {
        let i = store.position(id);
        let record = store.record(id).extended(content);
        assert(store.records[i].wf());
        assert(record.wf()) by {
            assert(record.fragments.drop_last() =~= store.records[i].fragments);
            assert forall|k: int| 0 <= k < record.fragments.len() implies fragment_digest(
                #[trigger] record.fragments[k],
            ) == record.fragment_hashes[k] by {
                if k < store.records[i].fragments.len() {
                    assert(record.fragments[k] == store.records[i].fragments[k]);
                }
            }
        }
        lemma_update_wf(store, i, record);
    }
}

/// Giving a reference back keeps a store well formed.
pub proof fn lemma_remove_wf(store: BlobStoreView, id: Hash32)
    requires
        store.wf(),
    ensures
        store.remove(id).wf(),
{
    let after = store.remove(id);
    if !store.contains(id) {
    } else if store.record(id).refcount > 1 {
        let i = store.position(id);
        assert(store.records[i].wf());
        lemma_update_wf(store, i, store.record(id).released());
    } else {
        let i = store.position(id);
        let shift = |k: int| if k < i { k } else { k + 1 };
        assert forall|k: int| 0 <= k < after.records.len() implies (#[trigger] after.records[k]).wf() by {
            assert(after.records[k] == store.records[shift(k)]);
            assert(store.records[shift(k)].wf());
        }
        assert forall|a: u64| #[trigger] owned_bytes(after.records, a) <= u64::MAX by {
            lemma_owned_bytes_remove(store.records, i, a);
            assert(owned_bytes(store.records, a) <= u64::MAX);
        }
        assert forall|k: int, j: int|
            0 <= k < after.records.len() && 0 <= j < after.records.len() && k != j implies (
        #[trigger] after.records[k]).id != (#[trigger] after.records[j]).id by {
            assert(after.records[k] == store.records[shift(k)]);
            assert(after.records[j] == store.records[shift(j)]);
            assert(store.records[shift(k)].id != store.records[shift(j)].id);
        }
        assert forall|k: int, j: int|
            0 <= k < after.records.len() && 0 <= j < after.records.len() && k != j implies !(
        #[trigger] after.records[k]).holds(
            (#[trigger] after.records[j]).owner,
            after.records[j].length,
            after.records[j].fragment_hashes,
        ) by {
            assert(after.records[k] == store.records[shift(k)]);
            assert(after.records[j] == store.records[shift(j)]);
            assert(!store.records[shift(k)].holds(
                store.records[shift(j)].owner,
                store.records[shift(j)].length,
                store.records[shift(j)].fragment_hashes,
            ));
        }
    }
}

/// Giving a reference back never raises an account's usage.
pub proof fn lemma_remove_usage(store: BlobStoreView, id: Hash32, owner: u64)
    requires
        store.wf(),
    ensures
        store.remove(id).used(owner) <= store.used(owner),
        store.contains(id) && store.record(id).refcount <= 1 && store.record(id).owner == owner
            ==> store.remove(id).used(owner) + store.record(id).length == store.used(owner),
{
    if store.contains(id) {
        let i = store.position(id);
        if store.record(id).refcount > 1 {
            lemma_owned_bytes_update(store.records, i, store.record(id).released(), owner);
        } else {
            assert(store.records[i].wf());
            lemma_owned_bytes_remove(store.records, i, owner);
        }
    }
}

/// The store after one reference to each body of `ids` is given back, in
/// order.
pub open spec fn released(store: BlobStoreView, ids: Seq<Hash32>) -> BlobStoreView
    decreases ids.len(),
{
    if ids.len() == 0 {
        store
    } else {
        released(store, ids.drop_last()).remove(ids.last())
    }
}

/// Giving references back keeps a store well formed and raises no
/// account's usage.
pub proof fn lemma_released(store: BlobStoreView, ids: Seq<Hash32>, owner: u64)
    requires
        store.wf(),
    ensures
        released(store, ids).wf(),
        released(store, ids).used(owner) <= store.used(owner),
    decreases ids.len(),
{
    if ids.len() > 0 {
        lemma_released(store, ids.drop_last(), owner);
        lemma_remove_wf(released(store, ids.drop_last()), ids.last());
        lemma_remove_usage(released(store, ids.drop_last()), ids.last(), owner);
    }
}

/// Replacing a record by one with the same id changes what is found under
/// that id, and nothing else.
pub proof fn lemma_update_lookup(store: BlobStoreView, i: int, record: BlobRecordView, id: Hash32)
    requires
        store.wf(),
        0 <= i < store.records.len(),
        record.id == store.records[i].id,
    ensures
        ({
            let after = BlobStoreView { records: store.records.update(i, record) };
            &&& after.contains(id) == store.contains(id)
            &&& after.contains(id) ==> after.record(id) == if id == record.id {
                record
            } else {
                store.record(id)
            }
        }),
{
    let after = BlobStoreView { records: store.records.update(i, record) };
    if store.contains(id) {
        let k = store.position(id);
        assert(after.records[k].id == id);
    }
    if after.contains(id) {
        let k = after.position(id);
        assert(after.records[k].id == id);
        assert(store.records[k].id == id);
        lemma_position(store, k);
    }
}

/// Adding a record under an id that the store does not hold changes what
/// is found under that id, and nothing else.
pub proof fn lemma_push_lookup(store: BlobStoreView, record: BlobRecordView, id: Hash32)
    requires
        store.wf(),
        !store.contains(record.id),
    ensures
        ({
            let after = BlobStoreView { records: store.records.push(record) };
            &&& after.contains(id) == (store.contains(id) || id == record.id)
            &&& after.contains(id) ==> after.record(id) == if id == record.id {
                record
            } else {
                store.record(id)
            }
        }),
{
    let after = BlobStoreView { records: store.records.push(record) };
    let n = store.records.len() as int;
    assert(after.records[n] == record);
    if store.contains(id) {
        let k = store.position(id);
        assert(after.records[k].id == id);
    }
    if after.contains(id) {
        let k = after.position(id);
        assert(after.records[k].id == id);
        if k < n {
            assert(store.records[k].id == id);
            lemma_position(store, k);
        }
    }
}

/// What opening a body does: a request over quota is refused with the
/// store unchanged, and after any other request that is not refused the
/// owner is within its quota, the body is found under the returned id, and
/// every body holds the fragments it held before.
pub proof fn lemma_start_write(
    store: BlobStoreView,
    owner: u64,
    quota: u64,
    length: u64,
    fragment_hashes: Seq<Hash32>,
    fresh: Hash32,
    id: Hash32,
)
    requires
        store.wf(),
        fragment_hashes.len() <= u64::MAX,
    ensures
        ({
            let (after, result) = store.start_write(owner, quota, length, fragment_hashes, fresh);
            &&& store.used(owner) + length > quota ==> after == store && result is Err
            &&& result is Err ==> after == store
            &&& !store.needs_id(owner, quota, length, fragment_hashes) ==> after == store
            &&& result matches Ok(blob) ==> {
                &&& after.used(owner) <= quota
                &&& after.contains(blob.id)
                &&& after.record(blob.id).blob() == blob
                &&& after.record(blob.id).holds(owner, length, fragment_hashes)
                &&& blob.owner == owner
                &&& blob.length == length
                &&& blob.fragment_hashes == fragment_hashes
                &&& blob.next_fragment <= fragment_hashes.len()
                &&& store.contains(id) ==> after.contains(id) && after.record(id).fragments
                    == store.record(id).fragments && after.record(id).fragment_hashes
                    == store.record(id).fragment_hashes
                &&& after.contains(id) && !store.contains(id) ==> id == blob.id
                    && after.record(id).fragments.len() == 0
            }
        }),
{
    let (after, result) = store.start_write(owner, quota, length, fragment_hashes, fresh);
    lemma_start_write_wf(store, owner, quota, length, fragment_hashes, fresh);
    if store.start_refusal(owner, quota, length, fragment_hashes) is Some {
    } else if store.has_content(owner, length, fragment_hashes) {
        let i = store.content_position(owner, length, fragment_hashes);
        assert(store.records[i].wf());
        lemma_position(store, i);
    } else if store.contains(fresh) {
    } else {
        let record = BlobRecordView {
            id: fresh,
            owner,
            length,
            fragment_hashes,
            fragments: Seq::empty(),
            stored: 0,
            refcount: 0,
        };
        assert(after.records.drop_last() =~= store.records);
        lemma_push_lookup(store, record, id);
        lemma_push_lookup(store, record, fresh);
    }
}

/// Opening a body never lowers its owner's usage and leaves every other
/// account's usage as it was.
pub proof fn lemma_start_write_usage(
    store: BlobStoreView,
    owner: u64,
    quota: u64,
    length: u64,
    fragment_hashes: Seq<Hash32>,
    fresh: Hash32,
    account: u64,
)
    requires
        store.wf(),
    ensures
        ({
            let after = store.start_write(owner, quota, length, fragment_hashes, fresh).0;
            &&& after.used(owner) >= store.used(owner)
            &&& account != owner ==> after.used(account) == store.used(account)
        }),
{
    let after = store.start_write(owner, quota, length, fragment_hashes, fresh).0;
    if store.needs_id(owner, quota, length, fragment_hashes) && !store.contains(fresh) {
        assert(after.records.drop_last() =~= store.records);
    }
}

/// What storing a fragment does. A fragment is stored only at the body's
/// next offset, below the declared count, and only with the digest declared
/// for that offset. It is then the body's last stored fragment; the
/// fragments stored before, and every other body, stay as they were. A
/// refused fragment changes nothing.
pub proof fn lemma_write_fragment(
    store: BlobStoreView,
    id: Hash32,
    offset: u64,
    content: Seq<u8>,
    other: Hash32,
    owner: u64,
)
    requires
        store.wf(),
    ensures
        store.write_refusal(id, offset, content) is Some ==> store.write_fragment(
            id,
            offset,
            content,
        ) == store,
        store.write_refusal(id, offset, content) is None ==> {
            let after = store.write_fragment(id, offset, content);
            &&& store.contains(id)
            &&& offset == store.record(id).fragments.len()
            &&& offset < store.record(id).fragment_hashes.len()
            &&& fragment_digest(content) == store.record(id).fragment_hashes[offset as int]
            &&& store.record(id).fits(content)
            &&& after.contains(other) == store.contains(other)
            &&& after.record(id) == store.record(id).extended(content)
            &&& after.used(owner) == store.used(owner)
            &&& other != id && store.contains(other) ==> after.record(other) == store.record(other)
        },
{
    if store.write_refusal(id, offset, content) is None {
        let i = store.position(id);
        let record = store.record(id).extended(content);
        lemma_update_lookup(store, i, record, other);
        lemma_update_lookup(store, i, record, id);
        lemma_owned_bytes_update(store.records, i, record, owner);
    }
}

/// Every stored fragment is read back as it was stored, and has the digest
/// declared for its offset.
pub proof fn lemma_read_fragment(store: BlobStoreView, id: Hash32, offset: u64)
    requires
        store.wf(),
        store.contains(id),
        offset < store.record(id).fragments.len(),
    ensures
        store.read_fragment(id, offset) == Ok::<Seq<u8>, StorageError>(
            store.record(id).fragments[offset as int],
        ),
        fragment_digest(store.record(id).fragments[offset as int]) == store.record(
            id,
        ).fragment_hashes[offset as int],
{
    let i = store.position(id);
    assert(store.records[i].wf());
}

/// What a call that returns a blob descriptor says in terms of views.
pub open spec fn blob_result_view(result: Result<Blob, StorageError>) -> Result<
    BlobView,
    StorageError,
> {
    match result {
        Ok(blob) => Ok(blob@),
        Err(error) => Err(error),
    }
}

/// What a call that returns fragment bytes says in terms of views.
pub open spec fn bytes_result_view(result: Result<Vec<u8>, StorageError>) -> Result<
    Seq<u8>,
    StorageError,
> {
    match result {
        Ok(bytes) => Ok(bytes@),
        Err(error) => Err(error),
    }
}

/// The error of `rand`'s random sources, carried through unread.
#[verifier::external_type_specification]
#[verifier::external_body]
pub struct ExRandError(rand::Error);

/// Thirty-two bytes from the operating system's random source.
///
/// Trusted: the body asks `rand::rngs::OsRng` to fill a buffer through
/// `try_fill_bytes` and hands back the buffer, or the error of the source.
/// Nothing is claimed of the bytes.
#[verifier::external_body]
pub(crate) fn random_bytes32() -> (bytes: Result<[u8; 32], rand::Error>) {
    let mut bytes = [0u8; 32];
    match rand::rngs::OsRng.try_fill_bytes(&mut bytes) {
        Ok(()) => Ok(bytes),
        Err(error) => Err(error),
    }
}

/// Whether two digest lists are the same list.
pub fn same_hashes(left: &Vec<Hash32>, right: &Vec<Hash32>) -> (same: bool)
    ensures
        same == (left@ == right@),
{
    if left.len() != right.len() {
        return false;
    }
    let mut i: usize = 0;
    while i < left.len()
        invariant
            i <= left.len(),
            left.len() == right.len(),
            forall|k: int| 0 <= k < i ==> left@[k] == right@[k],
        decreases left.len() - i,
    {
        if left[i] != right[i] {
            return false;
        }
        i += 1;
    }
    assert(left@ =~= right@);
    true
}

/// The in-memory blob store.
///
/// The records stand in a vector that is searched from the front. What a
/// map from ids to records would give, the store's invariant states: no
/// two records share an id, and none shares its body with another.
pub struct MockBlob {
    records: Vec<BlobRecord>,
}

impl View for MockBlob {
    type V = BlobStoreView;

    closed spec fn view(&self) -> BlobStoreView {
        BlobStoreView { records: Seq::new(self.records@.len(), |i: int| self.records@[i]@) }
    }
}

impl Default for MockBlob {
    fn default() -> (store: Self)
        ensures
            store@.records == Seq::<BlobRecordView>::empty(),
            store.wf(),
    {
        MockBlob::new()
    }
}

impl MockBlob {
    /// The store's invariant: that of its value.
    pub open spec fn wf(&self) -> bool {
        self@.wf()
    }

    /// An empty store.
    pub fn new() -> (store: Self)
        ensures
            store@.records == Seq::<BlobRecordView>::empty(),
            store.wf(),
    {
        let store = MockBlob { records: Vec::new() };
        assert(store@.records =~= Seq::<BlobRecordView>::empty());
        store
    }

    /// How many bodies the store holds.
    pub fn len(&self) -> (count: usize)
        ensures
            count == self@.records.len(),
    {
        self.records.len()
    }

    fn find(&self, id: &Hash32) -> (at: Option<usize>)
        ensures
            match at {
                Some(i) => i < self@.records.len() && self@.records[i as int].id == *id,
                None => !self@.contains(*id),
            },
    {
        let mut i: usize = 0;
        while i < self.records.len()
            invariant
                i <= self.records.len(),
                forall|k: int| 0 <= k < i ==> (#[trigger] self@.records[k]).id != *id,
            decreases self.records.len() - i,
        {
            if self.records[i].id == *id {
                return Some(i);
            }
            i += 1;
        }
        None
    }

    fn find_content(&self, owner: u64, length: u64, fragment_hashes: &Vec<Hash32>) -> (at: Option<
        usize,
    >)
        ensures
            match at {
                Some(i) => i < self@.records.len() && self@.records[i as int].holds(
                    owner,
                    length,
                    fragment_hashes@,
                ),
                None => !self@.has_content(owner, length, fragment_hashes@),
            },
    {
        let mut i: usize = 0;
        while i < self.records.len()
            invariant
                i <= self.records.len(),
                forall|k: int|
                    0 <= k < i ==> !(#[trigger] self@.records[k]).holds(
                        owner,
                        length,
                        fragment_hashes@,
                    ),
            decreases self.records.len() - i,
        {
            if self.records[i].owner == owner && self.records[i].length == length && same_hashes(
                &self.records[i].fragment_hashes,
                fragment_hashes,
            ) {
                return Some(i);
            }
            i += 1;
        }
        None
    }

    fn descriptor(&self, i: usize) -> (blob: Blob)
        requires
            i < self@.records.len(),
        ensures
            blob@ == self@.records[i as int].blob(),
    {
        Blob {
            id: self.records[i].id,
            owner: self.records[i].owner,
            length: self.records[i].length,
            fragment_hashes: self.records[i].fragment_hashes.clone(),
            next_fragment: self.records[i].fragments.len() as u64,
        }
    }

    /// Whether the store holds a body with the id `id`.
    pub fn contains(&self, id: &Hash32) -> (held: bool)
        ensures
            held == self@.contains(*id),
    {
        self.find(id).is_some()
    }

    /// The descriptor of the body `id` as it stands now.
    pub fn blob(&self, id: &Hash32) -> (blob: Option<Blob>)
        requires
            self.wf(),
        ensures
            match blob {
                Some(blob) => self@.contains(*id) && blob@ == self@.record(*id).blob(),
                None => !self@.contains(*id),
            },
    {
        match self.find(id) {
            Some(i) => {
                proof {
                    lemma_position(self@, i as int);
                }
                Some(self.descriptor(i))
            },
            None => None,
        }
    }

    /// Bytes of quota that `owner` has in use.
    pub fn used(&self, owner: u64) -> (bytes: u64)
        requires
            self.wf(),
        ensures
            bytes == self@.used(owner),
    {
        let mut total: u64 = 0;
        let mut i: usize = 0;
        while i < self.records.len()
            invariant
                i <= self.records.len(),
                self.wf(),
                total == owned_bytes(self@.records.take(i as int), owner),
            decreases self.records.len() - i,
        {
            proof {
                lemma_owned_bytes_prefix(self@.records, i + 1, owner);
                assert(self@.records.take(i + 1).drop_last() =~= self@.records.take(i as int));
                assert(owned_bytes(self@.records, owner) <= u64::MAX);
            }
            if self.records[i].owner == owner {
                total = total + self.records[i].length;
            }
            i += 1;
        }
        assert(self@.records.take(i as int) =~= self@.records);
        total
    }

    fn start_refusal(&self, mns: &MNSAccount, length: u64, fragment_hashes: &Vec<Hash32>) -> (refusal:
        Option<StorageError>)
        requires
            self.wf(),
        ensures
            refusal == self@.start_refusal(mns.uns.id, mns.quota, length, fragment_hashes@),
    {
        let used = self.used(mns.uns.id);
        if used as u128 + length as u128 > mns.quota as u128 {
            let excess = used as u128 + length as u128 - mns.quota as u128;
            let excess: u64 = if excess > u64::MAX as u128 {
                u64::MAX
            } else {
                excess as u64
            };
            Some(StorageError::Quotas(excess))
        } else if fragment_hashes.len() == 0 && length != 0 {
            Some(StorageError::FragmentLength(length, 0))
        } else {
            None
        }
    }

    /// Whether opening the body that `mns` declares with `length` and
    /// `fragment_hashes` takes an id for a new body.
    pub fn needs_id(&self, mns: &MNSAccount, length: u64, fragment_hashes: &Vec<Hash32>) -> (needed:
        bool)
        requires
            self.wf(),
        ensures
            needed == self@.needs_id(mns.uns.id, mns.quota, length, fragment_hashes@),
    {
        self.start_refusal(mns, length, fragment_hashes).is_none() && self.find_content(
            mns.uns.id,
            length,
            fragment_hashes,
        ).is_none()
    }

    /// Opens the body that `mns` declares with `length` and
    /// `fragment_hashes`, with `fresh` as the id for a body that is new.
    ///
    /// The store and the answer are exactly those of
    /// [`BlobStoreView::start_write`].
    pub fn start_write_blob_with(
        &mut self,
        fresh: Hash32,
        mns: &MNSAccount,
        length: u64,
        fragment_hashes: Vec<Hash32>,
    ) -> (result: Result<Blob, StorageError>)
        requires
            old(self).wf(),
        ensures
            final(self).wf(),
            (final(self)@, blob_result_view(result)) == old(self)@.start_write(
                mns.uns.id,
                mns.quota,
                length,
                fragment_hashes@,
                fresh,
            ),
    {
        let owner = mns.uns.id;
        let declared = fragment_hashes.len();
        proof {
            assert(declared <= u64::MAX);
            lemma_start_write_wf(self@, owner, mns.quota, length, fragment_hashes@, fresh);
        }
        match self.start_refusal(mns, length, &fragment_hashes) {
            Some(error) => {
                return Err(error);
            },
            None => {},
        }
        match self.find_content(owner, length, &fragment_hashes) {
            Some(i) => {
                proof {
                    lemma_content_position(self@, i as int);
                }
                Ok(self.descriptor(i))
            },
            None => {
                match self.find(&fresh) {
                    Some(_) => Err(StorageError::Internal),
                    None => {
                        let blob = Blob {
                            id: fresh,
                            owner,
                            length,
                            fragment_hashes: fragment_hashes.clone(),
                            next_fragment: 0,
                        };
                        let record = BlobRecord {
                            id: fresh,
                            owner,
                            length,
                            fragment_hashes,
                            fragments: Vec::new(),
                            stored: 0,
                            refcount: 0,
                        };
                        assert(record@.fragments =~= Seq::<Seq<u8>>::empty());
                        self.records.push(record);
                        assert(self@.records =~= old(self)@.records.push(record@));
                        Ok(blob)
                    },
                }
            },
        }
    }

    /// Opens the body that `mns` declares with `length` and
    /// `fragment_hashes`.
    ///
    /// Where the request is refused, or the store holds the body already,
    /// the store and the answer are those of
    /// [`BlobStoreView::start_write`], whatever the id. Only for a body
    /// that is new an id is drawn at random: when the random source fails
    /// the store is unchanged and the answer is `StorageError::Internal`;
    /// otherwise the store and the answer are those of
    /// [`BlobStoreView::start_write`] for some id.
    pub fn start_write_blob(&mut self, mns: &MNSAccount, length: u64, fragment_hashes: Vec<Hash32>) -> (result:
        Result<Blob, StorageError>)
        requires
            old(self).wf(),
        ensures
            final(self).wf(),
            !old(self)@.needs_id(mns.uns.id, mns.quota, length, fragment_hashes@) ==> forall|
                fresh: Hash32,
            |
                (final(self)@, blob_result_view(result)) == #[trigger] old(self)@.start_write(
                    mns.uns.id,
                    mns.quota,
                    length,
                    fragment_hashes@,
                    fresh,
                ),
            old(self)@.used(mns.uns.id) + length > mns.quota ==> final(self)@ == old(self)@
                && result == Err::<Blob, StorageError>(
                StorageError::Quotas(quota_excess(old(self)@.used(mns.uns.id), length, mns.quota)),
            ),
            (final(self)@ == old(self)@ && result == Err::<Blob, StorageError>(
                StorageError::Internal,
            )) || exists|fresh: Hash32|
                (final(self)@, blob_result_view(result)) == #[trigger] old(self)@.start_write(
                    mns.uns.id,
                    mns.quota,
                    length,
                    fragment_hashes@,
                    fresh,
                ),
    {
        let fresh = if self.needs_id(mns, length, &fragment_hashes) {
            match random_bytes32() {
                Ok(bytes) => Hash32::from_bytes(&bytes),
                Err(_) => {
                    return Err(StorageError::Internal);
                },
            }
        } else {
            Hash32 { h1: 0, h2: 0, h3: 0, h4: 0 }
        };
        self.start_write_blob_with(fresh, mns, length, fragment_hashes)
    }

    /// Stores `data` as fragment `offset` of the body `id`.
    ///
    /// The fragment is stored exactly when nothing refuses it (see
    /// [`BlobStoreView::write_refusal`]); a refusal leaves the store
    /// unchanged and is returned as the error.
    pub fn write_blob_fragment(&mut self, id: &Hash32, offset: u64, data: Vec<u8>) -> (result:
        Result<(), StorageError>)
        requires
            old(self).wf(),
        ensures
            final(self).wf(),
            final(self)@ == old(self)@.write_fragment(*id, offset, data@),
            result == match old(self)@.write_refusal(*id, offset, data@) {
                Some(error) => Err::<(), StorageError>(error),
                None => Ok(()),
            },
    {
        proof {
            lemma_write_fragment_wf(self@, *id, offset, data@);
        }
        let i = match self.find(id) {
            Some(i) => i,
            None => {
                return Err(StorageError::BlobNotFound(*id));
            },
        };
        proof {
            lemma_position(self@, i as int);
            assert(self@.records[i as int].wf());
        }
        let held = self.records[i].fragments.len() as u64;
        let declared = self.records[i].fragment_hashes.len() as u64;
        if offset != held {
            return Err(StorageError::FragmentOffset(held, offset));
        }
        if offset >= declared {
            return Err(StorageError::FragmentOutOfRange(offset, declared));
        }
        let expected = self.records[i].fragment_hashes[offset as usize];
        let computed = Hash32::from_bytes(&keccack256(data.as_slice()));
        if computed != expected {
            return Err(StorageError::FragmentHash(expected, computed));
        }
        let length = self.records[i].length;
        let stored = self.records[i].stored;
        let room = length - stored;
        let size = data.len();
        if size as u128 > room as u128 || (offset + 1 == declared && size as u128 != room as u128) {
            return Err(StorageError::FragmentLength(length, stored));
        }
        self.records[i].stored = stored + size as u64;
        self.records[i].fragments.push(data);
        assert(self@.records[i as int].fragments =~= old(self)@.records[i as int].fragments.push(
            data@,
        ));
        assert(self@.records =~= old(self)@.records.update(
            i as int,
            old(self)@.records[i as int].extended(data@),
        ));
        Ok(())
    }

    /// Counts one more entry of a timeline that refers to the body `id`.
    /// Returns whether the store holds the body.
    pub fn retain_blob(&mut self, id: &Hash32) -> (held: bool)
        requires
            old(self).wf(),
        ensures
            final(self).wf(),
            final(self)@ == old(self)@.retain(*id),
            held == old(self)@.contains(*id),
    {
        proof {
            lemma_retain(self@, *id, *id, 0);
        }
        match self.find(id) {
            Some(i) => {
                proof {
                    lemma_position(self@, i as int);
                }
                if self.records[i].refcount < u64::MAX {
                    self.records[i].refcount = self.records[i].refcount + 1;
                }
                assert(self@.records =~= old(self)@.records.update(
                    i as int,
                    old(self)@.records[i as int].retained(),
                ));
                true
            },
            None => false,
        }
    }

    /// Ends the writing of the body `id`. This store keeps nothing open, so
    /// nothing changes.
    pub fn end_write_blob(&mut self, id: &Hash32) -> (result: Result<(), StorageError>)
        ensures
            *final(self) == *old(self),
            result is Ok,
    {
        Ok(())
    }

    /// Gives one reference to the body `id` back; the body goes with its
    /// last reference, and so does a body that nothing refers to. Returns
    /// whether the store held the body.
    pub fn remove_blob(&mut self, id: &Hash32) -> (held: bool)
        requires
            old(self).wf(),
        ensures
            final(self).wf(),
            final(self)@ == old(self)@.remove(*id),
            held == old(self)@.contains(*id),
    {
        proof {
            lemma_remove_wf(self@, *id);
        }
        match self.find(id) {
            Some(i) => {
                proof {
                    lemma_position(self@, i as int);
                }
                if self.records[i].refcount > 1 {
                    self.records[i].refcount = self.records[i].refcount - 1;
                    assert(self@.records =~= old(self)@.records.update(
                        i as int,
                        old(self)@.records[i as int].released(),
                    ));
                } else {
                    self.records.remove(i);
                    assert(self@.records =~= old(self)@.records.remove(i as int));
                }
                true
            },
            None => false,
        }
    }

    /// Gives up the body `id` as one that was opened and never queued: the
    /// body goes, and its owner's quota comes back, if no entry of a
    /// timeline refers to it. Returns whether the body went.
    pub fn discard_blob(&mut self, id: &Hash32) -> (gone: bool)
        requires
            old(self).wf(),
        ensures
            final(self).wf(),
            final(self)@ == old(self)@.discard(*id),
            gone == (old(self)@.contains(*id) && old(self)@.record(*id).refcount == 0),
    {
        let unreferenced = match self.find(id) {
            Some(i) => {
                proof {
                    lemma_position(self@, i as int);
                }
                self.records[i].refcount == 0
            },
            None => false,
        };
        if unreferenced {
            self.remove_blob(id);
        }
        unreferenced
    }

    /// Checks that the body `id` can be read.
    pub fn start_read_blob(&self, id: &Hash32) -> (result: Result<(), StorageError>)
        ensures
            result == if self@.contains(*id) {
                Ok::<(), StorageError>(())
            } else {
                Err(StorageError::BlobNotFound(*id))
            },
    {
        match self.find(id) {
            Some(_) => Ok(()),
            None => Err(StorageError::BlobNotFound(*id)),
        }
    }

    /// Fragment `offset` of the body `id`, exactly as
    /// [`BlobStoreView::read_fragment`] gives it.
    pub fn read_blob_fragment(&self, id: &Hash32, offset: u64) -> (result: Result<
        Vec<u8>,
        StorageError,
    >)
        requires
            self.wf(),
        ensures
            bytes_result_view(result) == self@.read_fragment(*id, offset),
    {
        let i = match self.find(id) {
            Some(i) => i,
            None => {
                return Err(StorageError::BlobNotFound(*id));
            },
        };
        proof {
            lemma_position(self@, i as int);
        }
        let declared = self.records[i].fragment_hashes.len() as u64;
        if offset >= declared {
            return Err(StorageError::FragmentOutOfRange(offset, declared));
        }
        if offset >= self.records[i].fragments.len() as u64 {
            return Err(StorageError::BlobNotFound(*id));
        }
        Ok(self.records[i].fragments[offset as usize].clone())
    }
}

} // verus!
