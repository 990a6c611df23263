//! The storage facade: the seven operations of the sync protocol, each
//! stitched from the blob store, the timeline store and the table of the
//! streams that a connection has open.

use crate::account::MNSAccount;
use crate::blob::{random_bytes32, released, Blob, BlobStoreView, BlobView, MockBlob};
use crate::error::{StorageError, SyncError};
use crate::hash::{fragment_digest, keccack256, Hash32};
use crate::timeline::{entry_ids, MockTimeline, TimelineView};
use crate::wire::{
    CloseInboxStream, CloseInboxStreamAck, CloseWriteStream, CloseWriteStreamAck, FragmentAckType,
    Inbox, OpenNextInboxStreamAck, OpenNextInboxStreamAckType, OpenNextInboxStreamAckView,
    OpenReadStream, OpenReadStreamView, OpenWriteStream, OpenWriteStreamAck,
    OpenWriteStreamAckType, OpenWriteStreamView, ReadFragment, ReadFragmentAck,
    ReadFragmentAckView, WriteFragment, WriteFragmentAck, WriteFragmentView,
};
use vstd::prelude::*;

verus! {

/// A stream that a connection has open: its handle and the body it is on.
pub struct OpenStream {
    handle: u64,
    blob: Blob,
}

/// The streams that one connection has open: at most one for writing and at
/// most one for reading.
pub struct StreamTable {
    write: Option<OpenStream>,
    read: Option<OpenStream>,
}

/// The mathematical value of an [`OpenStream`].
pub struct OpenStreamView {
    pub handle: u64,
    pub blob: BlobView,
}

impl View for OpenStream {
    type V = OpenStreamView;

    closed spec fn view(&self) -> OpenStreamView {
        OpenStreamView { handle: self.handle, blob: self.blob@ }
    }
}

/// The mathematical value of a [`StreamTable`]: the open stream of each
/// direction.
pub struct StreamTableView {
    pub write: Option<OpenStreamView>,
    pub read: Option<OpenStreamView>,
}

impl View for StreamTable {
    type V = StreamTableView;

    closed spec fn view(&self) -> StreamTableView {
        StreamTableView {
            write: match self.write {
                Some(stream) => Some(stream@),
                None => None,
            },
            read: match self.read {
                Some(stream) => Some(stream@),
                None => None,
            },
        }
    }
}

impl StreamTableView {
    /// The table of a connection that has nothing open.
    pub open spec fn empty() -> StreamTableView {
        StreamTableView { write: None, read: None }
    }

    /// `handle` names the open write stream.
    pub open spec fn writes(self, handle: u64) -> bool {
        self.write matches Some(stream) && stream.handle == handle
    }

    /// `handle` names the open read stream.
    pub open spec fn reads(self, handle: u64) -> bool {
        self.read matches Some(stream) && stream.handle == handle
    }
}

impl StreamTable {
    /// The table of a connection that has nothing open.
    pub fn new() -> (table: Self)
        ensures
            table@ == StreamTableView::empty(),
    {
        StreamTable { write: None, read: None }
    }

    /// The handle of the open write stream, if there is one.
    pub fn write_handle(&self) -> (handle: Option<u64>)
        ensures
            handle == match self@.write {
                Some(stream) => Some(stream.handle),
                None => None,
            },
    {
        match &self.write {
            Some(stream) => Some(stream.handle),
            None => None,
        }
    }

    /// The handle of the open read stream, if there is one.
    pub fn read_handle(&self) -> (handle: Option<u64>)
        ensures
            handle == match self@.read {
                Some(stream) => Some(stream.handle),
                None => None,
            },
    {
        match &self.read {
            Some(stream) => Some(stream.handle),
            None => None,
        }
    }
}

/// The mathematical value of the storage: that of its two stores.
pub struct StorageView {
    pub blob: BlobStoreView,
    pub timeline: TimelineView,
}

/// The fragment that an upload request carries inline: the one it holds,
/// where the body has exactly one fragment.
pub open spec fn inline_fragment(request: OpenWriteStreamView) -> Option<WriteFragmentView> {
    if request.fragment_hashes.len() == 1 {
        request.inline_stream
    } else {
        None
    }
}

/// Why the inline fragment of an upload request is refused, if it is: it
/// does not stand at offset 0, its digest is not the declared one, or it
/// has not the length that the body declares, in this order.
pub open spec fn inline_refusal(request: OpenWriteStreamView) -> Option<SyncError> {
    match inline_fragment(request) {
        Some(fragment) => if fragment.offset != 0 {
            Some(SyncError::FragmentOffset)
        } else if fragment_digest(fragment.content) != request.fragment_hashes[0] {
            Some(SyncError::FragmentHash)
        } else if fragment.content.len() != request.length {
            Some(SyncError::FragmentOutOfRange)
        } else {
            None
        },
        None => None,
    }
}

/// The answer that refuses an upload with `code`.
pub open spec fn open_write_rejected(code: SyncError) -> OpenWriteStreamAck {
    OpenWriteStreamAck {
        ack_type: OpenWriteStreamAckType::Reject,
        sync_error: code,
        stream_handle: 0,
        next_fragment: 0,
    }
}

/// The answer to a fragment request on `handle` at `offset` that failed
/// with `code`.
pub open spec fn write_broken(handle: u64, offset: u64, code: SyncError) -> WriteFragmentAck {
    WriteFragmentAck {
        ack_type: FragmentAckType::Break,
        sync_error: code,
        stream_handle: handle,
        offset,
    }
}

/// The answer to a read request on `handle` at `offset` that failed with
/// `code`.
pub open spec fn read_broken(handle: u64, offset: u64, code: SyncError) -> ReadFragmentAckView {
    ReadFragmentAckView {
        ack_type: FragmentAckType::Break,
        sync_error: code,
        stream_handle: handle,
        offset,
        content: Seq::empty(),
    }
}

/// `Nomore` for the last of `count` fragments, `Continue` for the others.
pub open spec fn fragment_progress(offset: u64, count: nat) -> FragmentAckType {
    if offset + 1 == count {
        FragmentAckType::Nomore
    } else {
        FragmentAckType::Continue
    }
}

impl StorageView {
    /// Both stores are well formed.
    pub open spec fn wf(self) -> bool {
        self.blob.wf() && self.timeline.wf()
    }

    /// Why the account `owner` with the quota `quota` cannot upload the
    /// body of `request` on the connection with the table `table`, if it
    /// cannot: the connection has a write stream open (`Resource`), the
    /// body is over quota (`Quota`), it declares bytes but no fragment
    /// (`FragmentOutOfRange`), or its inline fragment is refused, in this
    /// order.
    pub open spec fn open_refusal(
        self,
        table: StreamTableView,
        owner: u64,
        quota: u64,
        request: OpenWriteStreamView,
    ) -> Option<SyncError> {
        if table.write is Some {
            Some(SyncError::Resource)
        } else if self.blob.used(owner) + request.length > quota {
            Some(SyncError::Quota)
        } else if request.fragment_hashes.len() == 0 && request.length != 0 {
            Some(SyncError::FragmentOutOfRange)
        } else {
            inline_refusal(request)
        }
    }

    /// Answering that request takes an id for a new body: nothing refuses
    /// the request, and the blob store does not hold the body yet.
    pub open spec fn needs_id(
        self,
        table: StreamTableView,
        owner: u64,
        quota: u64,
        request: OpenWriteStreamView,
    ) -> bool {
        &&& self.open_refusal(table, owner, quota, request) is None
        &&& !self.blob.has_content(owner, request.length, request.fragment_hashes)
    }

    /// The storage, the connection's table and the answer after the
    /// account `owner` with the quota `quota` asks to upload the body of
    /// `request`, where `fresh` is the id kept ready for a new body and
    /// `handle` the handle kept ready for a new stream.
    ///
    /// A request that [`StorageView::open_refusal`] refuses is answered
    /// with `Reject` and the reason, and changes nothing. Otherwise the
    /// body is opened in the blob store and an inline fragment that the
    /// store lacks is stored. A body that is then complete is appended to
    /// the owner's timeline, which the blob store counts as a reference,
    /// and answered with `Noneed` and no handle. Any other body is
    /// answered with `Accept`, and `handle` is registered for it.
    pub open spec fn open_write_stream(
        self,
        table: StreamTableView,
        owner: u64,
        quota: u64,
        request: OpenWriteStreamView,
        fresh: Hash32,
        handle: u64,
    ) -> (StorageView, StreamTableView, Result<OpenWriteStreamAck, StorageError>) {
        if self.open_refusal(table, owner, quota, request) is Some {
            (
                self,
                table,
                Ok(open_write_rejected(self.open_refusal(table, owner, quota, request)->0)),
            )
        } else {
            let (opened, result) = self.blob.start_write(
                owner,
                quota,
                request.length,
                request.fragment_hashes,
                fresh,
            );
            match result {
                Err(error) => (self, table, Err(error)),
                Ok(blob) => {
                    let (stored, blob) = if inline_fragment(request) is Some
                        && blob.next_fragment == 0 {
                        (
                            opened.write_fragment(blob.id, 0, inline_fragment(request)->0.content),
                            BlobView { next_fragment: 1, ..blob },
                        )
                    } else {
                        (opened, blob)
                    };
                    if blob.next_fragment == request.fragment_hashes.len() {
                        (
                            StorageView {
                                blob: stored.retain(blob.id),
                                timeline: self.timeline.append(blob),
                            },
                            table,
                            Ok(
                                OpenWriteStreamAck {
                                    ack_type: OpenWriteStreamAckType::Noneed,
                                    sync_error: SyncError::Success,
                                    stream_handle: 0,
                                    next_fragment: blob.next_fragment,
                                },
                            ),
                        )
                    } else {
                        (
                            StorageView { blob: stored, timeline: self.timeline },
                            StreamTableView { write: Some(OpenStreamView { handle, blob }), ..table },
                            Ok(
                                OpenWriteStreamAck {
                                    ack_type: OpenWriteStreamAckType::Accept,
                                    sync_error: SyncError::Success,
                                    stream_handle: handle,
                                    next_fragment: blob.next_fragment,
                                },
                            ),
                        )
                    }
                },
            }
        }
    }

    /// With the handle `handle`, that request has the outcome `outcome`
    /// whatever id is kept ready for a new body.
    pub open spec fn opens_whatever_id(
        self,
        table: StreamTableView,
        owner: u64,
        quota: u64,
        request: OpenWriteStreamView,
        handle: u64,
        outcome: (StorageView, StreamTableView, Result<OpenWriteStreamAck, StorageError>),
    ) -> bool {
        forall|fresh: Hash32| #[trigger]
            self.open_write_stream(table, owner, quota, request, fresh, handle) == outcome
    }

    /// The storage, the connection's table and the answer after a writer
    /// sends `request`.
    ///
    /// A handle that is not the open write stream's is answered with
    /// `Break` and `Resource`; a fragment that the blob store refuses, with
    /// `Break` and the store's reason; both change nothing. Any other
    /// fragment is stored, and answered with `Nomore` if it is the body's
    /// last and with `Continue` if not.
    pub open spec fn write_fragment(self, table: StreamTableView, request: WriteFragmentView) -> (
        StorageView,
        StreamTableView,
        WriteFragmentAck,
    ) {
        if !table.writes(request.stream_handle) {
            (
                self,
                table,
                write_broken(request.stream_handle, request.offset, SyncError::Resource),
            )
        } else {
            let blob = table.write->0.blob;
            match self.blob.write_refusal(blob.id, request.offset, request.content) {
                Some(error) => (
                    self,
                    table,
                    write_broken(request.stream_handle, request.offset, error.spec_sync_error()),
                ),
                None => (
                    StorageView {
                        blob: self.blob.write_fragment(blob.id, request.offset, request.content),
                        ..self
                    },
                    StreamTableView {
                        write: Some(
                            OpenStreamView {
                                handle: request.stream_handle,
                                blob: BlobView {
                                    next_fragment: (request.offset + 1) as u64,
                                    ..blob
                                },
                            },
                        ),
                        ..table
                    },
                    WriteFragmentAck {
                        ack_type: fragment_progress(
                            request.offset,
                            self.blob.record(blob.id).fragment_hashes.len(),
                        ),
                        sync_error: SyncError::Success,
                        stream_handle: request.stream_handle,
                        offset: request.offset,
                    },
                ),
            }
        }
    }

    /// The storage, the connection's table and the answer after a writer
    /// closes the stream `handle`.
    ///
    /// A handle that is not the open write stream's is answered with
    /// `Resource` and changes nothing. A body that the blob store no
    /// longer holds is answered with `BlobNotFound`, and the stream is
    /// released. A body of which fragments are missing is answered with
    /// `FragmentOffset`; nothing changes, and the stream stays open for
    /// the missing fragments. Any other body is stored in full and has
    /// the bytes it declares: the stream is released, the body is
    /// appended to its owner's timeline, which the blob store counts as a
    /// reference, and the answer is `Success`.
    pub open spec fn close_write_stream(self, table: StreamTableView, handle: u64) -> (
        StorageView,
        StreamTableView,
        CloseWriteStreamAck,
    ) {
        if !table.writes(handle) {
            (self, table, CloseWriteStreamAck { sync_error: SyncError::Resource })
        } else if !self.blob.contains(table.write->0.blob.id) {
            (
                self,
                StreamTableView { write: None, ..table },
                CloseWriteStreamAck { sync_error: SyncError::BlobNotFound },
            )
        } else if !self.blob.record(table.write->0.blob.id).complete() {
            (self, table, CloseWriteStreamAck { sync_error: SyncError::FragmentOffset })
        } else {
            (
                StorageView {
                    blob: self.blob.retain(table.write->0.blob.id),
                    timeline: self.timeline.append(
                        self.blob.record(table.write->0.blob.id).blob(),
                    ),
                },
                StreamTableView { write: None, ..table },
                CloseWriteStreamAck { sync_error: SyncError::Success },
            )
        }
    }

    /// The summary of `owner`'s inbox for `client`.
    pub open spec fn open_inbox(self, owner: u64, client: Seq<u8>) -> Inbox {
        self.timeline.status(owner, client)
    }

    /// The connection's table and the answer after `client` of `owner`
    /// asks for its next unread message, where `handle` is the handle kept
    /// ready for a new stream.
    ///
    /// With a read stream already open the answer is `Nomore` with
    /// `Resource`; with nothing unread, `Nomore`. Otherwise `handle` is
    /// registered for the entry at the client's cursor, and the answer is
    /// `Accept` with the handle and the entry's length and digests.
    pub open spec fn open_next_inbox_stream(
        self,
        table: StreamTableView,
        owner: u64,
        client: Seq<u8>,
        handle: u64,
    ) -> (StreamTableView, OpenNextInboxStreamAckView) {
        if table.read is Some {
            (
                table,
                OpenNextInboxStreamAckView {
                    type_: OpenNextInboxStreamAckType::Nomore,
                    sync_error: SyncError::Resource,
                    read_stream: None,
                },
            )
        } else {
            match self.timeline.get(owner, client) {
                None => (
                    table,
                    OpenNextInboxStreamAckView {
                        type_: OpenNextInboxStreamAckType::Nomore,
                        sync_error: SyncError::Success,
                        read_stream: None,
                    },
                ),
                Some(blob) => (
                    StreamTableView { read: Some(OpenStreamView { handle, blob }), ..table },
                    OpenNextInboxStreamAckView {
                        type_: OpenNextInboxStreamAckType::Accept,
                        sync_error: SyncError::Success,
                        read_stream: Some(
                            OpenReadStreamView {
                                stream_handle: handle,
                                length: blob.length,
                                fragment_hashes: blob.fragment_hashes,
                            },
                        ),
                    },
                ),
            }
        }
    }

    /// The answer to a reader that asks for fragment `offset` on the
    /// stream `handle`.
    ///
    /// A handle that is not the open read stream's is answered with
    /// `Break` and `Resource`; a fragment that the blob store cannot give,
    /// with `Break` and the store's reason. Any other request is answered
    /// with the fragment's bytes, and with `Nomore` if the fragment is the
    /// body's last and `Continue` if not.
    pub open spec fn read_fragment(self, table: StreamTableView, handle: u64, offset: u64) -> ReadFragmentAckView {
        if !table.reads(handle) {
            read_broken(handle, offset, SyncError::Resource)
        } else {
            let blob = table.read->0.blob;
            match self.blob.read_fragment(blob.id, offset) {
                Err(error) => read_broken(handle, offset, error.spec_sync_error()),
                Ok(content) => ReadFragmentAckView {
                    ack_type: fragment_progress(
                        offset,
                        self.blob.record(blob.id).fragment_hashes.len(),
                    ),
                    sync_error: SyncError::Success,
                    stream_handle: handle,
                    offset,
                    content,
                },
            }
        }
    }

    /// The storage after the entries of `owner`'s timeline before the
    /// position `to` have expired: the entries leave the timeline, and the
    /// blob store gets back the reference that each of them held.
    pub open spec fn expire(self, owner: u64, to: u64) -> StorageView {
        StorageView {
            blob: released(
                self.blob,
                entry_ids(self.timeline.account(owner).expiring(to)),
            ),
            timeline: self.timeline.expire(owner, to),
        }
    }

    /// The storage, the connection's table and the answer after `client`
    /// of `owner` closes the read stream `handle`: the stream is released,
    /// and with `mark_as_read` the client's cursor moves past the message.
    /// A handle that is not the open read stream's is answered with
    /// `Resource` and changes nothing.
    pub open spec fn close_inbox_stream(
        self,
        table: StreamTableView,
        owner: u64,
        client: Seq<u8>,
        handle: u64,
        mark_as_read: bool,
    ) -> (StorageView, StreamTableView, CloseInboxStreamAck) {
        if !table.reads(handle) {
            (
                self,
                table,
                CloseInboxStreamAck { stream_handle: handle, sync_error: SyncError::Resource },
            )
        } else {
            (
                StorageView {
                    timeline: if mark_as_read {
                        self.timeline.pop(owner, client, table.read->0.blob.id)
                    } else {
                        self.timeline
                    },
                    ..self
                },
                StreamTableView { read: None, ..table },
                CloseInboxStreamAck { stream_handle: handle, sync_error: SyncError::Success },
            )
        }
    }
}

/// A request that takes no id for a new body has the same outcome
/// whatever id is kept ready.
pub proof fn lemma_open_ignores_id(
    storage: StorageView,
    table: StreamTableView,
    owner: u64,
    quota: u64,
    request: OpenWriteStreamView,
    first: Hash32,
    second: Hash32,
    handle: u64,
)
    requires
        !storage.needs_id(table, owner, quota, request),
    ensures
        storage.open_write_stream(table, owner, quota, request, first, handle)
            == storage.open_write_stream(table, owner, quota, request, second, handle),
{
}

/// The generator of stream handles, carried through unread.
#[verifier::external_type_specification]
#[verifier::external_body]
pub struct ExSnowflakeIdGenerator(snowflake::SnowflakeIdGenerator);

/// A generator of stream handles for the machine `machine_id`.
///
/// Trusted: the body calls `snowflake::SnowflakeIdGenerator::new` with
/// `machine_id` as machine and as node. Nothing is claimed of the result.
/// The outside constructor reads the system clock and panics if the clock
/// stands before 1970.
#[verifier::external_body]
fn new_handle_sequence(machine_id: i32) -> (sequence: snowflake::SnowflakeIdGenerator) {
    snowflake::SnowflakeIdGenerator::new(machine_id, machine_id)
}

/// The next stream handle of `sequence`.
///
/// Trusted: the body calls
/// `snowflake::SnowflakeIdGenerator::real_time_generate`. The result
/// depends on the clock, so nothing is claimed of it. The outside function
/// panics if the clock stands before 1970.
#[verifier::external_body]
fn next_stream_handle(sequence: &mut snowflake::SnowflakeIdGenerator) -> (handle: i64) {
    sequence.real_time_generate()
}

/// The storage behind the sync protocol: a blob store, a timeline store
/// and the generator of stream handles.
pub struct DimspHubStorage {
    seq: snowflake::SnowflakeIdGenerator,
    timeline: MockTimeline,
    blob: MockBlob,
}

impl View for DimspHubStorage {
    type V = StorageView;

    closed spec fn view(&self) -> StorageView {
        StorageView { blob: self.blob@, timeline: self.timeline@ }
    }
}

impl DimspHubStorage {
    /// The storage's invariant: that of its value.
    pub open spec fn wf(&self) -> bool {
        self@.wf()
    }

    /// A storage over the given stores whose handles are generated for the
    /// machine `machine_id`.
    pub fn new(machine_id: i32, timeline: MockTimeline, blob: MockBlob) -> (storage: Self)
        requires
            timeline.wf(),
            blob.wf(),
        ensures
            storage@ == (StorageView { blob: blob@, timeline: timeline@ }),
            storage.wf(),
    {
        DimspHubStorage { seq: new_handle_sequence(machine_id), timeline, blob }
    }

    /// The blob store.
    pub fn blob(&self) -> (blob: &MockBlob)
        ensures
            blob@ == self@.blob,
    {
        &self.blob
    }

    /// The timeline store.
    pub fn timeline(&self) -> (timeline: &MockTimeline)
        ensures
            timeline@ == self@.timeline,
    {
        &self.timeline
    }

    /// Lets the entries of `owner`'s timeline before the position `to`
    /// expire, as the lease of the messages runs out, exactly as
    /// [`StorageView::expire`] says.
    pub fn expire(&mut self, owner: u64, to: u64)
        requires
            old(self).wf(),
        ensures
            final(self).wf(),
            final(self)@ == old(self)@.expire(owner, to),
    {
        let ids = self.timeline.expire(owner, to);
        let ghost before = self.blob@;
        let mut i: usize = 0;
        assert(ids@.take(0) =~= Seq::<Hash32>::empty());
        while i < ids.len()
            invariant
                i <= ids.len(),
                before.wf(),
                self.blob.wf(),
                self.timeline.wf(),
                self.timeline@ == old(self)@.timeline.expire(owner, to),
                self.blob@ == released(before, ids@.take(i as int)),
            decreases ids.len() - i,
        {
            proof {
                assert(ids@.take(i + 1).drop_last() =~= ids@.take(i as int));
            }
            self.blob.remove_blob(&ids[i]);
            i += 1;
        }
        assert(ids@.take(i as int) =~= ids@);
    }

    /// Gives up the body `id` as one that was opened and never queued, as
    /// its lease runs out: the body goes from the blob store, and its
    /// owner's quota comes back, if no entry of a timeline refers to it.
    /// Returns whether the body went.
    pub fn discard(&mut self, id: &Hash32) -> (gone: bool)
        requires
            old(self).wf(),
        ensures
            final(self).wf(),
            final(self)@ == (StorageView {
                blob: old(self)@.blob.discard(*id),
                timeline: old(self)@.timeline,
            }),
            gone == (old(self)@.blob.contains(*id) && old(self)@.blob.record(*id).refcount == 0),
    {
        self.blob.discard_blob(id)
    }

    /// A handle for a new stream, generated from the clock. The stores do
    /// not change.
    pub fn next_handle(&mut self) -> (handle: u64)
        ensures
            final(self)@ == old(self)@,
    {
        handle_of(next_stream_handle(&mut self.seq))
    }

    fn open_refusal(&self, table: &StreamTable, mns: &MNSAccount, request: &OpenWriteStream) -> (refusal:
        Option<SyncError>)
        requires
            self.wf(),
        ensures
            refusal == self@.open_refusal(table@, mns.uns.id, mns.quota, request@),
    {
        if table.write.is_some() {
            return Some(SyncError::Resource);
        }
        let used = self.blob.used(mns.uns.id);
        if used as u128 + request.length as u128 > mns.quota as u128 {
            return Some(SyncError::Quota);
        }
        let count = request.fragment_hashes.len();
        if count == 0 && request.length != 0 {
            return Some(SyncError::FragmentOutOfRange);
        }
        if count == 1 {
            match &request.inline_stream {
                Some(fragment) => {
                    if fragment.offset != 0 {
                        return Some(SyncError::FragmentOffset);
                    }
                    let computed = Hash32::from_bytes(&keccack256(fragment.content.as_slice()));
                    if computed != request.fragment_hashes[0] {
                        return Some(SyncError::FragmentHash);
                    }
                    if fragment.content.len() as u128 != request.length as u128 {
                        return Some(SyncError::FragmentOutOfRange);
                    }
                },
                None => {},
            }
        }
        None
    }

    fn open_admitted(
        &mut self,
        table: &mut StreamTable,
        mns: &MNSAccount,
        request: OpenWriteStream,
        fresh: Hash32,
        handle: u64,
    ) -> (result: Result<OpenWriteStreamAck, StorageError>)
        requires
            old(self).wf(),
            old(self)@.open_refusal(old(table)@, mns.uns.id, mns.quota, request@) is None,
        ensures
            final(self).wf(),
            (final(self)@, final(table)@, result) == old(self)@.open_write_stream(
                old(table)@,
                mns.uns.id,
                mns.quota,
                request@,
                fresh,
                handle,
            ),
    {
        let OpenWriteStream { length, to: _, offset: _, fragment_hashes, inline_stream } = request;
        let count = fragment_hashes.len();
        let inline = if count == 1 {
            inline_stream
        } else {
            None
        };
        assert(match inline {
            Some(fragment) => Some(fragment@),
            None => None,
        } == inline_fragment(request@));
        let mut blob = match self.blob.start_write_blob_with(fresh, mns, length, fragment_hashes) {
            Ok(blob) => blob,
            Err(error) => {
                return Err(error);
            },
        };
        match inline {
            Some(fragment) => {
                if blob.next_fragment == 0 {
                    let _ = self.blob.write_blob_fragment(&blob.id, 0, fragment.content);
                    blob.next_fragment = 1;
                }
            },
            None => {},
        }
        if blob.next_fragment == count as u64 {
            let next_fragment = blob.next_fragment;
            self.blob.retain_blob(&blob.id);
            self.timeline.append(blob);
            Ok(
                OpenWriteStreamAck {
                    ack_type: OpenWriteStreamAckType::Noneed,
                    sync_error: SyncError::Success,
                    stream_handle: 0,
                    next_fragment,
                },
            )
        } else {
            let next_fragment = blob.next_fragment;
            table.write = Some(OpenStream { handle, blob });
            Ok(
                OpenWriteStreamAck {
                    ack_type: OpenWriteStreamAckType::Accept,
                    sync_error: SyncError::Success,
                    stream_handle: handle,
                    next_fragment,
                },
            )
        }
    }

    /// Answers a request to upload a body, with `fresh` as the id for a
    /// new body and `handle` as the handle for a new stream, exactly as
    /// [`StorageView::open_write_stream`] says.
    pub fn open_write_stream_with(
        &mut self,
        table: &mut StreamTable,
        mns: &MNSAccount,
        request: OpenWriteStream,
        fresh: Hash32,
        handle: u64,
    ) -> (result: Result<OpenWriteStreamAck, StorageError>)
        requires
            old(self).wf(),
        ensures
            final(self).wf(),
            (final(self)@, final(table)@, result) == old(self)@.open_write_stream(
                old(table)@,
                mns.uns.id,
                mns.quota,
                request@,
                fresh,
                handle,
            ),
    {
        match self.open_refusal(table, mns, &request) {
            Some(code) => Ok(rejected(code)),
            None => self.open_admitted(table, mns, request, fresh, handle),
        }
    }

    /// Answers a request to upload a body.
    ///
    /// A request that [`StorageView::open_refusal`] refuses is answered
    /// at once, and nothing is drawn. Otherwise a handle is generated from
    /// the clock, and only where the body is new to the store an id is
    /// drawn at random: when the random source fails, nothing changes and
    /// the answer is `StorageError::Internal`. In every other case the
    /// outcome is that of [`StorageView::open_write_stream`] for the
    /// handle that was generated and the id that was drawn.
    pub fn open_write_stream(
        &mut self,
        table: &mut StreamTable,
        mns: &MNSAccount,
        request: OpenWriteStream,
    ) -> (result: Result<OpenWriteStreamAck, StorageError>)
        requires
            old(self).wf(),
        ensures
            final(self).wf(),
            old(self)@.open_refusal(old(table)@, mns.uns.id, mns.quota, request@) is Some
                ==> forall|fresh: Hash32, handle: u64|
                (final(self)@, final(table)@, result) == #[trigger] old(self)@.open_write_stream(
                    old(table)@,
                    mns.uns.id,
                    mns.quota,
                    request@,
                    fresh,
                    handle,
                ),
            !old(self)@.needs_id(old(table)@, mns.uns.id, mns.quota, request@) ==> exists|
                handle: u64,
            | #[trigger]
                old(self)@.opens_whatever_id(
                    old(table)@,
                    mns.uns.id,
                    mns.quota,
                    request@,
                    handle,
                    (final(self)@, final(table)@, result),
                ),
            (final(self)@ == old(self)@ && final(table)@ == old(table)@ && result == Err::<
                OpenWriteStreamAck,
                StorageError,
            >(StorageError::Internal)) || exists|fresh: Hash32, handle: u64|
                (final(self)@, final(table)@, result) == #[trigger] old(self)@.open_write_stream(
                    old(table)@,
                    mns.uns.id,
                    mns.quota,
                    request@,
                    fresh,
                    handle,
                ),
    {
        let ghost zero = Hash32 { h1: 0, h2: 0, h3: 0, h4: 0 };
        match self.open_refusal(table, mns, &request) {
            Some(code) => {
                let result = Ok(rejected(code));
                proof {
                    let outcome = (self@, table@, result);
                    assert(self@.open_write_stream(
                        table@,
                        mns.uns.id,
                        mns.quota,
                        request@,
                        zero,
                        0,
                    ) == outcome);
                    assert(self@.opens_whatever_id(
                        table@,
                        mns.uns.id,
                        mns.quota,
                        request@,
                        0,
                        outcome,
                    ));
                }
                return result;
            },
            None => {},
        }
        let handle = self.next_handle();
        let mut fresh = Hash32 { h1: 0, h2: 0, h3: 0, h4: 0 };
        if self.blob.needs_id(mns, request.length, &request.fragment_hashes) {
            match random_bytes32() {
                Ok(bytes) => {
                    fresh = Hash32::from_bytes(&bytes);
                },
                Err(_) => {
                    return Err(StorageError::Internal);
                },
            }
        } else {
            proof {
                assert forall|other: Hash32| #[trigger]
                    self@.open_write_stream(
                        table@,
                        mns.uns.id,
                        mns.quota,
                        request@,
                        other,
                        handle,
                    ) == self@.open_write_stream(
                        table@,
                        mns.uns.id,
                        mns.quota,
                        request@,
                        fresh,
                        handle,
                    ) by {
                    lemma_open_ignores_id(
                        self@,
                        table@,
                        mns.uns.id,
                        mns.quota,
                        request@,
                        other,
                        fresh,
                        handle,
                    );
                }
            }
        }
        let ghost needed = self@.needs_id(table@, mns.uns.id, mns.quota, request@);
        let result = self.open_admitted(table, mns, request, fresh, handle);
        proof {
            if !needed {
                assert(old(self)@.opens_whatever_id(
                    old(table)@,
                    mns.uns.id,
                    mns.quota,
                    request@,
                    handle,
                    (self@, table@, result),
                ));
            }
        }
        result
    }

    /// Answers a fragment sent by a writer, exactly as
    /// [`StorageView::write_fragment`] says.
    pub fn write_fragment(&mut self, table: &mut StreamTable, request: WriteFragment) -> (result:
        Result<WriteFragmentAck, StorageError>)
        requires
            old(self).wf(),
        ensures
            final(self).wf(),
            result is Ok,
            (final(self)@, final(table)@, result->Ok_0) == old(self)@.write_fragment(
                old(table)@,
                request@,
            ),
    {
        let handle = request.stream_handle;
        let offset = request.offset;
        let id = match &table.write {
            Some(stream) => {
                if stream.handle != handle {
                    return Ok(broken(handle, offset, SyncError::Resource));
                }
                stream.blob.id
            },
            None => {
                return Ok(broken(handle, offset, SyncError::Resource));
            },
        };
        let count = match self.blob.blob(&id) {
            Some(blob) => blob.fragment_hashes.len(),
            None => 0,
        };
        match self.blob.write_blob_fragment(&id, offset, request.content) {
            Err(error) => Ok(broken(handle, offset, error.sync_error())),
            Ok(()) => {
                match &mut table.write {
                    Some(stream) => {
                        stream.blob.next_fragment = offset + 1;
                    },
                    None => {},
                }
                Ok(
                    WriteFragmentAck {
                        ack_type: progress(offset, count),
                        sync_error: SyncError::Success,
                        stream_handle: handle,
                        offset,
                    },
                )
            },
        }
    }

    /// Answers a writer that closes its stream, exactly as
    /// [`StorageView::close_write_stream`] says.
    pub fn close_write_stream(&mut self, table: &mut StreamTable, request: CloseWriteStream) -> (result:
        Result<CloseWriteStreamAck, StorageError>)
        requires
            old(self).wf(),
        ensures
            final(self).wf(),
            result is Ok,
            (final(self)@, final(table)@, result->Ok_0) == old(self)@.close_write_stream(
                old(table)@,
                request.stream_handle,
            ),
    {
        let id = match &table.write {
            Some(stream) => {
                if stream.handle != request.stream_handle {
                    return Ok(CloseWriteStreamAck { sync_error: SyncError::Resource });
                }
                stream.blob.id
            },
            None => {
                return Ok(CloseWriteStreamAck { sync_error: SyncError::Resource });
            },
        };
        match self.blob.blob(&id) {
            None => {
                table.write = None;
                Ok(CloseWriteStreamAck { sync_error: SyncError::BlobNotFound })
            },
            Some(blob) => {
                if blob.next_fragment != blob.fragment_hashes.len() as u64 {
                    return Ok(CloseWriteStreamAck { sync_error: SyncError::FragmentOffset });
                }
                table.write = None;
                let _ = self.blob.end_write_blob(&id);
                self.blob.retain_blob(&id);
                self.timeline.append(blob);
                Ok(CloseWriteStreamAck { sync_error: SyncError::Success })
            },
        }
    }

    /// The summary of the caller's inbox as the caller's client sees it.
    /// Nothing changes.
    pub fn open_inbox(&self, mns: &MNSAccount) -> (result: Result<Inbox, StorageError>)
        requires
            self.wf(),
        ensures
            result == Ok::<Inbox, StorageError>(self@.open_inbox(mns.uns.id, mns.client_id@)),
    {
        Ok(self.timeline.status(mns))
    }

    /// Answers a reader that asks for its next unread message, with
    /// `handle` as the handle for a new stream, exactly as
    /// [`StorageView::open_next_inbox_stream`] says. The storage itself
    /// does not change.
    pub fn open_next_inbox_stream_with(
        &self,
        table: &mut StreamTable,
        mns: &MNSAccount,
        handle: u64,
    ) -> (result: Result<OpenNextInboxStreamAck, StorageError>)
        requires
            self.wf(),
        ensures
            result is Ok,
            (final(table)@, result->Ok_0@) == self@.open_next_inbox_stream(
                old(table)@,
                mns.uns.id,
                mns.client_id@,
                handle,
            ),
    {
        if table.read.is_some() {
            return Ok(
                OpenNextInboxStreamAck {
                    type_: OpenNextInboxStreamAckType::Nomore,
                    sync_error: SyncError::Resource,
                    read_stream: None,
                },
            );
        }
        match self.timeline.get(mns) {
            None => Ok(
                OpenNextInboxStreamAck {
                    type_: OpenNextInboxStreamAckType::Nomore,
                    sync_error: SyncError::Success,
                    read_stream: None,
                },
            ),
            Some(blob) => {
                let stream = OpenReadStream {
                    stream_handle: handle,
                    length: blob.length,
                    fragment_hashes: blob.fragment_hashes.clone(),
                };
                table.read = Some(OpenStream { handle, blob });
                Ok(
                    OpenNextInboxStreamAck {
                        type_: OpenNextInboxStreamAckType::Accept,
                        sync_error: SyncError::Success,
                        read_stream: Some(stream),
                    },
                )
            },
        }
    }

    /// Answers a reader that asks for its next unread message. The handle
    /// for a new stream is generated from the clock; the outcome is that
    /// of [`StorageView::open_next_inbox_stream`] for some handle.
    pub fn open_next_inbox_stream(&mut self, table: &mut StreamTable, mns: &MNSAccount) -> (result:
        Result<OpenNextInboxStreamAck, StorageError>)
        requires
            old(self).wf(),
        ensures
            final(self).wf(),
            final(self)@ == old(self)@,
            result is Ok,
            exists|handle: u64|
                (final(table)@, result->Ok_0@) == #[trigger] old(self)@.open_next_inbox_stream(
                    old(table)@,
                    mns.uns.id,
                    mns.client_id@,
                    handle,
                ),
    {
        let handle = self.next_handle();
        self.open_next_inbox_stream_with(table, mns, handle)
    }

    /// Answers a reader that asks for a fragment, exactly as
    /// [`StorageView::read_fragment`] says. Nothing changes.
    pub fn read_fragment(&self, table: &StreamTable, request: ReadFragment) -> (result: Result<
        ReadFragmentAck,
        StorageError,
    >)
        requires
            self.wf(),
        ensures
            result is Ok,
            result->Ok_0@ == self@.read_fragment(table@, request.stream_handle, request.offset),
    {
        let handle = request.stream_handle;
        let offset = request.offset;
        let id = match &table.read {
            Some(stream) => {
                if stream.handle != handle {
                    return Ok(unread(handle, offset, SyncError::Resource));
                }
                stream.blob.id
            },
            None => {
                return Ok(unread(handle, offset, SyncError::Resource));
            },
        };
        let count = match self.blob.blob(&id) {
            Some(blob) => blob.fragment_hashes.len(),
            None => 0,
        };
        match self.blob.read_blob_fragment(&id, offset) {
            Err(error) => Ok(unread(handle, offset, error.sync_error())),
            Ok(content) => Ok(
                ReadFragmentAck {
                    ack_type: progress(offset, count),
                    sync_error: SyncError::Success,
                    stream_handle: handle,
                    offset,
                    content,
                },
            ),
        }
    }

    /// Answers a reader that closes its stream, exactly as
    /// [`StorageView::close_inbox_stream`] says.
    pub fn close_inbox_stream(
        &mut self,
        table: &mut StreamTable,
        mns: &MNSAccount,
        request: CloseInboxStream,
    ) -> (result: Result<CloseInboxStreamAck, StorageError>)
        requires
            old(self).wf(),
        ensures
            final(self).wf(),
            result is Ok,
            (final(self)@, final(table)@, result->Ok_0) == old(self)@.close_inbox_stream(
                old(table)@,
                mns.uns.id,
                mns.client_id@,
                request.stream_handle,
                request.mark_as_read,
            ),
    {
        let handle = request.stream_handle;
        let open = match &table.read {
            Some(stream) => stream.handle == handle,
            None => false,
        };
        if !open {
            return Ok(CloseInboxStreamAck { stream_handle: handle, sync_error: SyncError::Resource });
        }
        let mut released: Option<OpenStream> = None;
        std::mem::swap(&mut table.read, &mut released);
        match released {
            Some(stream) => {
                if request.mark_as_read {
                    self.timeline.pop(mns, &stream.blob.id);
                }
            },
            None => {},
        }
        Ok(CloseInboxStreamAck { stream_handle: handle, sync_error: SyncError::Success })
    }
}

/// The storage over in-memory stores.
pub type MockStorage = DimspHubStorage;

impl Default for DimspHubStorage {
    /// An empty storage whose handles are generated for the machine 0.
    fn default() -> (storage: Self)
        ensures
            storage@ == (StorageView {
                blob: BlobStoreView { records: Seq::empty() },
                timeline: TimelineView { accounts: Map::empty() },
            }),
            storage.wf(),
    {
        DimspHubStorage::new(0, MockTimeline::new(), MockBlob::new())
    }
}

impl Default for StreamTable {
    fn default() -> (table: Self)
        ensures
            table@ == StreamTableView::empty(),
    {
        StreamTable::new()
    }
}

/// The stream handle that a generated number stands for: the number in
/// two's complement.
fn handle_of(generated: i64) -> (handle: u64)
    ensures
        handle == unsigned_form(generated),
{
    let handle = #[verifier::truncate]
    (generated as u64);
    assert(handle == unsigned_form(generated)) by (bit_vector)
        requires
            handle == generated as u64,
    ;
    handle
}

/// The 64-bit number in two's complement as an unsigned number: itself
/// where it is not negative, and 2^64 more where it is.
pub open spec fn unsigned_form(generated: i64) -> u64 {
    if generated >= 0 {
        generated as u64
    } else {
        (generated + 0x1_0000_0000_0000_0000) as u64
    }
}

fn broken(handle: u64, offset: u64, code: SyncError) -> (ack: WriteFragmentAck)
    ensures
        ack == write_broken(handle, offset, code),
{
    WriteFragmentAck { ack_type: FragmentAckType::Break, sync_error: code, stream_handle: handle, offset }
}

fn unread(handle: u64, offset: u64, code: SyncError) -> (ack: ReadFragmentAck)
    ensures
        ack@ == read_broken(handle, offset, code),
{
    ReadFragmentAck {
        ack_type: FragmentAckType::Break,
        sync_error: code,
        stream_handle: handle,
        offset,
        content: Vec::new(),
    }
}

fn progress(offset: u64, count: usize) -> (kind: FragmentAckType)
    ensures
        kind == fragment_progress(offset, count as nat),
{
    if offset as u128 + 1 == count as u128 {
        FragmentAckType::Nomore
    } else {
        FragmentAckType::Continue
    }
}

fn rejected(code: SyncError) -> (ack: OpenWriteStreamAck)
    ensures
        ack == open_write_rejected(code),
{
    OpenWriteStreamAck {
        ack_type: OpenWriteStreamAckType::Reject,
        sync_error: code,
        stream_handle: 0,
        next_fragment: 0,
    }
}

} // verus!
