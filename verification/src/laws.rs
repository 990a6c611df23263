//! What holds of the storage whatever sequence of requests it answers.

use crate::blob::{
    lemma_content_position, lemma_position, lemma_read_fragment, lemma_released, lemma_retain,
    lemma_start_write, lemma_start_write_usage, lemma_start_write_wf, lemma_stored_bytes_prefix,
    lemma_write_fragment, lemma_write_fragment_wf, stored_bytes, BlobView,
};
use crate::error::{StorageError, SyncError};
use crate::hash::{fragment_digest, Hash32};
use crate::session::session_step;
use crate::storage::{
    inline_fragment, inline_refusal, OpenStreamView, StorageView, StreamTableView,
};
use crate::timeline::{
    entry_ids, lemma_append, lemma_expire, lemma_pop, lemma_record, lemma_unread,
};
use crate::upload::{concat, digests, fragments_of, lemma_concat_fragments};
use crate::wire::{
    FragmentAckType, MessageType, OpenNextInboxStreamAckType, OpenReadStreamView,
    OpenWriteStreamAck, OpenWriteStreamAckType, OpenWriteStreamView, PayloadView,
    ReadFragmentAckView, SyncMessageView, WriteFragmentAck, WriteFragmentView,
};
use vstd::prelude::*;

verus! {

/// A fragment is acknowledged as written only if its digest is the one
/// that the body declares for its offset; it is then stored at that
/// offset.
pub proof fn lemma_written_fragment_has_declared_digest(
    storage: StorageView,
    table: StreamTableView,
    request: WriteFragmentView,
)
    requires
        storage.wf(),
        storage.write_fragment(table, request).2.sync_error == SyncError::Success,
    ensures
        table.writes(request.stream_handle),
        ({
            let id = table.write->0.blob.id;
            let after = storage.write_fragment(table, request).0;
            &&& storage.blob.contains(id)
            &&& request.offset < storage.blob.record(id).fragment_hashes.len()
            &&& fragment_digest(request.content) == storage.blob.record(
                id,
            ).fragment_hashes[request.offset as int]
            &&& after.blob.record(id).fragments.len() == request.offset + 1
            &&& after.blob.record(id).fragments[request.offset as int] == request.content
            &&& after.wf()
        }),
{
    let id = table.write->0.blob.id;
    lemma_write_fragment(storage.blob, id, request.offset, request.content, id, 0);
    lemma_write_fragment_wf(storage.blob, id, request.offset, request.content);
}

/// The owner's timeline can take one more entry.
pub open spec fn has_room(storage: StorageView, owner: u64) -> bool {
    storage.timeline.entries(owner).len() < u64::MAX
}

/// What answering a request to upload a body does.
///
/// The storage stays well formed. The answer is `Reject` exactly where
/// something refuses the request, and a refusal changes nothing. With the
/// write stream free, a body over quota is refused with `Quota`. After any
/// other answer the owner is within its quota. `Noneed` comes with no
/// handle and with `next_fragment` at the number of declared fragments,
/// and puts the body at the end of what every client of the owner has
/// unread. `Accept` registers the handle for the body, leaves the timeline
/// as it was, and names a fragment that is still to come.
pub proof fn lemma_open_write_stream(
    storage: StorageView,
    table: StreamTableView,
    owner: u64,
    quota: u64,
    request: OpenWriteStreamView,
    fresh: Hash32,
    handle: u64,
    client: Seq<u8>,
)
    requires
        storage.wf(),
        request.fragment_hashes.len() <= u64::MAX,
        has_room(storage, owner),
    ensures
        ({
            let (after, opened, result) = storage.open_write_stream(
                table,
                owner,
                quota,
                request,
                fresh,
                handle,
            );
            &&& after.wf()
            &&& result is Err ==> after == storage && opened == table
            &&& storage.open_refusal(table, owner, quota, request) matches Some(code) ==> result
                == Ok::<OpenWriteStreamAck, StorageError>(
                OpenWriteStreamAck {
                    ack_type: OpenWriteStreamAckType::Reject,
                    sync_error: code,
                    stream_handle: 0,
                    next_fragment: 0,
                },
            )
            &&& table.write is None && storage.blob.used(owner) + request.length > quota ==> result
                == Ok::<OpenWriteStreamAck, StorageError>(
                OpenWriteStreamAck {
                    ack_type: OpenWriteStreamAckType::Reject,
                    sync_error: SyncError::Quota,
                    stream_handle: 0,
                    next_fragment: 0,
                },
            )
            &&& result matches Ok(ack) ==> {
                &&& ack.ack_type == OpenWriteStreamAckType::Reject ==> after == storage && opened
                    == table && ack.sync_error != SyncError::Success && storage.open_refusal(
                    table,
                    owner,
                    quota,
                    request,
                ) == Some(ack.sync_error)
                &&& ack.ack_type != OpenWriteStreamAckType::Reject ==> ack.sync_error
                    == SyncError::Success && after.blob.used(owner) <= quota
                &&& ack.ack_type == OpenWriteStreamAckType::Noneed ==> {
                    &&& ack.stream_handle == 0
                    &&& ack.next_fragment == request.fragment_hashes.len()
                    &&& opened == table
                    &&& after.timeline.unread(owner, client).len() == storage.timeline.unread(
                        owner,
                        client,
                    ).len() + 1
                    &&& after.timeline.unread(owner, client).last().owner == owner
                    &&& after.timeline.unread(owner, client).last().length == request.length
                    &&& after.timeline.unread(owner, client).last().fragment_hashes
                        == request.fragment_hashes
                    &&& after.timeline.unread(owner, client).drop_last()
                        == storage.timeline.unread(owner, client)
                    &&& after.blob.contains(after.timeline.unread(owner, client).last().id)
                    &&& after.blob.record(
                        after.timeline.unread(owner, client).last().id,
                    ).complete()
                }
                &&& ack.ack_type == OpenWriteStreamAckType::Accept ==> {
                    &&& ack.stream_handle == handle
                    &&& ack.next_fragment < request.fragment_hashes.len()
                    &&& after.timeline == storage.timeline
                    &&& opened.writes(handle)
                    &&& opened.read == table.read
                    &&& opened.write->0.blob.owner == owner
                    &&& opened.write->0.blob.length == request.length
                    &&& opened.write->0.blob.fragment_hashes == request.fragment_hashes
                    &&& opened.write->0.blob.next_fragment == ack.next_fragment
                    &&& after.blob.contains(opened.write->0.blob.id)
                    &&& after.blob.record(opened.write->0.blob.id).blob() == opened.write->0.blob
                }
            }
        }),
{
    let (after, opened, result) = storage.open_write_stream(
        table,
        owner,
        quota,
        request,
        fresh,
        handle,
    );
    if storage.open_refusal(table, owner, quota, request) is None {
        let (started, begun) = storage.blob.start_write(
            owner,
            quota,
            request.length,
            request.fragment_hashes,
            fresh,
        );
        lemma_start_write_wf(
            storage.blob,
            owner,
            quota,
            request.length,
            request.fragment_hashes,
            fresh,
        );
        if begun is Ok {
            let blob = begun->Ok_0;
            lemma_start_write(
                storage.blob,
                owner,
                quota,
                request.length,
                request.fragment_hashes,
                fresh,
                blob.id,
            );
            let inline = inline_fragment(request) is Some && blob.next_fragment == 0;
            let stored = if inline {
                started.write_fragment(blob.id, 0, inline_fragment(request)->0.content)
            } else {
                started
            };
            if inline {
                let content = inline_fragment(request)->0.content;
                assert(started.record(blob.id).stored == 0) by {
                    assert(started.records[started.position(blob.id)].wf());
                    assert(started.record(blob.id).fragments =~= Seq::<Seq<u8>>::empty());
                }
                assert(started.write_refusal(blob.id, 0, content) is None);
                lemma_write_fragment(started, blob.id, 0, content, blob.id, owner);
                lemma_write_fragment_wf(started, blob.id, 0, content);
            }
            let entry = if inline {
                BlobView { next_fragment: 1, ..blob }
            } else {
                blob
            };
            if entry.next_fragment == request.fragment_hashes.len() {
                lemma_retain(stored, blob.id, blob.id, owner);
                lemma_append(storage.timeline, entry, owner, client);
                assert(after.timeline.unread(owner, client).drop_last()
                    =~= storage.timeline.unread(owner, client));
            }
        }
    }
}

/// What closing a write stream does.
///
/// The answer is `Success` only for the open write stream of a body that
/// is stored in full, and whose stored fragments have in all the bytes
/// that the body declares. Every client of the body's owner then has
/// exactly one more message unread: the body, behind those it had unread
/// before; the stream is released, so that closing it again is answered
/// with `Resource`. A body of which fragments are missing is answered with
/// `FragmentOffset`, and nothing changes. Closing a handle that is not the
/// open write stream's changes nothing, however often it is done.
pub proof fn lemma_close_write_stream(
    storage: StorageView,
    table: StreamTableView,
    handle: u64,
    client: Seq<u8>,
)
    requires
        storage.wf(),
        table.write is Some && storage.blob.contains(table.write->0.blob.id) ==> has_room(
            storage,
            storage.blob.record(table.write->0.blob.id).owner,
        ),
    ensures
        ({
            let (after, closed, ack) = storage.close_write_stream(table, handle);
            let id = table.write->0.blob.id;
            &&& after.wf()
            &&& (ack.sync_error == SyncError::Success) == (table.writes(handle)
                && storage.blob.contains(id) && storage.blob.record(id).complete())
            &&& !table.writes(handle) ==> ack.sync_error == SyncError::Resource && after == storage
                && closed == table
            &&& table.writes(handle) && storage.blob.contains(id) && !storage.blob.record(
                id,
            ).complete() ==> ack.sync_error == SyncError::FragmentOffset && after == storage
                && closed == table
            &&& table.writes(handle) && !storage.blob.contains(id) ==> ack.sync_error
                == SyncError::BlobNotFound && after == storage && closed.write is None
            &&& ack.sync_error == SyncError::Success ==> {
                let record = storage.blob.record(id);
                &&& record.fragments.len() == record.fragment_hashes.len()
                &&& stored_bytes(record.fragments) == record.length
                &&& closed.write is None
                &&& closed.read == table.read
                &&& after.blob == storage.blob.retain(id)
                &&& after.blob.contains(id)
                &&& after.blob.record(id).fragments == record.fragments
                &&& after.blob.used(record.owner) == storage.blob.used(record.owner)
                &&& after.open_inbox(record.owner, client).unread == storage.open_inbox(
                    record.owner,
                    client,
                ).unread + 1
                &&& after.timeline.unread(record.owner, client) == storage.timeline.unread(
                    record.owner,
                    client,
                ).push(record.blob())
                &&& !closed.writes(handle)
                &&& after.close_write_stream(closed, handle).2.sync_error == SyncError::Resource
            }
        }),
{
    let id = table.write->0.blob.id;
    if table.writes(handle) && storage.blob.contains(id) && storage.blob.record(id).complete() {
        let record = storage.blob.record(id);
        let after = storage.close_write_stream(table, handle).0;
        assert(storage.blob.records[storage.blob.position(id)].wf());
        lemma_retain(storage.blob, id, id, record.owner);
        lemma_append(storage.timeline, record.blob(), record.owner, client);
        lemma_unread(storage.timeline, record.owner, client);
        lemma_unread(after.timeline, record.owner, client);
    }
}

/// Uploading again what an account has uploaded in full is answered with
/// `Noneed` and `next_fragment` at the number of declared fragments. No
/// body gains or loses a fragment, the owner's usage stays as it was, and
/// the body counts one reference more.
pub proof fn lemma_repeated_upload(
    storage: StorageView,
    table: StreamTableView,
    owner: u64,
    quota: u64,
    request: OpenWriteStreamView,
    fresh: Hash32,
    handle: u64,
    id: Hash32,
)
    requires
        storage.wf(),
        has_room(storage, owner),
        table.write is None,
        storage.blob.used(owner) + request.length <= quota,
        inline_refusal(request) is None,
        storage.blob.has_content(owner, request.length, request.fragment_hashes),
        storage.blob.records[storage.blob.content_position(
            owner,
            request.length,
            request.fragment_hashes,
        )].complete(),
    ensures
        ({
            let (after, opened, result) = storage.open_write_stream(
                table,
                owner,
                quota,
                request,
                fresh,
                handle,
            );
            &&& result == Ok::<OpenWriteStreamAck, StorageError>(
                OpenWriteStreamAck {
                    ack_type: OpenWriteStreamAckType::Noneed,
                    sync_error: SyncError::Success,
                    stream_handle: 0,
                    next_fragment: request.fragment_hashes.len() as u64,
                },
            )
            &&& opened == table
            &&& after.blob == storage.blob.retain(
                storage.blob.records[storage.blob.content_position(
                    owner,
                    request.length,
                    request.fragment_hashes,
                )].id,
            )
            &&& after.blob.used(owner) == storage.blob.used(owner)
            &&& after.blob.contains(id) == storage.blob.contains(id)
            &&& storage.blob.contains(id) ==> after.blob.record(id).fragments
                == storage.blob.record(id).fragments
        }),
{
    let i = storage.blob.content_position(owner, request.length, request.fragment_hashes);
    assert(storage.blob.records[i].wf());
    lemma_position(storage.blob, i);
    lemma_retain(storage.blob, storage.blob.records[i].id, id, owner);
}

/// A body of one fragment that comes with its fragment inline is answered
/// with `Noneed`, the first time as every later time, and the store then
/// holds the body in full.
pub proof fn lemma_inline_upload(
    storage: StorageView,
    table: StreamTableView,
    owner: u64,
    quota: u64,
    request: OpenWriteStreamView,
    fresh: Hash32,
    handle: u64,
)
    requires
        storage.wf(),
        has_room(storage, owner),
        table.write is None,
        storage.blob.used(owner) + request.length <= quota,
        request.fragment_hashes.len() == 1,
        request.inline_stream is Some,
        inline_refusal(request) is None,
        storage.blob.has_content(owner, request.length, request.fragment_hashes)
            || !storage.blob.contains(fresh),
    ensures
        ({
            let (after, opened, result) = storage.open_write_stream(
                table,
                owner,
                quota,
                request,
                fresh,
                handle,
            );
            &&& result == Ok::<OpenWriteStreamAck, StorageError>(
                OpenWriteStreamAck {
                    ack_type: OpenWriteStreamAckType::Noneed,
                    sync_error: SyncError::Success,
                    stream_handle: 0,
                    next_fragment: 1,
                },
            )
            &&& opened == table
            &&& after.blob.has_content(owner, request.length, request.fragment_hashes)
            &&& after.blob.records[after.blob.content_position(
                owner,
                request.length,
                request.fragment_hashes,
            )].complete()
        }),
{
    let (started, begun) = storage.blob.start_write(
        owner,
        quota,
        request.length,
        request.fragment_hashes,
        fresh,
    );
    lemma_start_write_wf(storage.blob, owner, quota, request.length, request.fragment_hashes, fresh);
    let blob = begun->Ok_0;
    lemma_start_write(
        storage.blob,
        owner,
        quota,
        request.length,
        request.fragment_hashes,
        fresh,
        blob.id,
    );
    let content = request.inline_stream->0.content;
    let stored = if blob.next_fragment == 0 {
        started.write_fragment(blob.id, 0, content)
    } else {
        started
    };
    assert(started.records[started.position(blob.id)].wf());
    if blob.next_fragment == 0 {
        assert(started.record(blob.id).fragments =~= Seq::<Seq<u8>>::empty());
        assert(started.write_refusal(blob.id, 0, content) is None);
        lemma_write_fragment(started, blob.id, 0, content, blob.id, owner);
        lemma_write_fragment_wf(started, blob.id, 0, content);
    }
    assert(stored.wf());
    lemma_retain(stored, blob.id, blob.id, owner);
    let after = stored.retain(blob.id);
    let k = after.position(blob.id);
    assert(after.records[k].holds(owner, request.length, request.fragment_hashes));
    lemma_content_position(after, k);
}

/// An empty body, declared with no fragment and length 0, is answered with
/// `Noneed`, and a blob of length 0 is appended to the owner's timeline.
pub proof fn lemma_empty_upload(
    storage: StorageView,
    table: StreamTableView,
    owner: u64,
    quota: u64,
    request: OpenWriteStreamView,
    fresh: Hash32,
    handle: u64,
    client: Seq<u8>,
)
    requires
        storage.wf(),
        has_room(storage, owner),
        table.write is None,
        storage.blob.used(owner) <= quota,
        request.fragment_hashes.len() == 0,
        request.length == 0,
        storage.blob.has_content(owner, request.length, request.fragment_hashes)
            || !storage.blob.contains(fresh),
    ensures
        ({
            let (after, opened, result) = storage.open_write_stream(
                table,
                owner,
                quota,
                request,
                fresh,
                handle,
            );
            &&& result == Ok::<OpenWriteStreamAck, StorageError>(
                OpenWriteStreamAck {
                    ack_type: OpenWriteStreamAckType::Noneed,
                    sync_error: SyncError::Success,
                    stream_handle: 0,
                    next_fragment: 0,
                },
            )
            &&& opened == table
            &&& after.timeline.entries(owner).len() == storage.timeline.entries(owner).len() + 1
            &&& after.timeline.entries(owner).last().length == 0
            &&& after.timeline.entries(owner).last().fragment_hashes == Seq::<Hash32>::empty()
            &&& after.timeline.unread(owner, client) == storage.timeline.unread(owner, client).push(
                after.timeline.entries(owner).last(),
            )
        }),
{
    let (started, begun) = storage.blob.start_write(
        owner,
        quota,
        request.length,
        request.fragment_hashes,
        fresh,
    );
    let blob = begun->Ok_0;
    lemma_start_write(
        storage.blob,
        owner,
        quota,
        request.length,
        request.fragment_hashes,
        fresh,
        blob.id,
    );
    lemma_start_write_wf(storage.blob, owner, quota, request.length, request.fragment_hashes, fresh);
    lemma_append(storage.timeline, blob, owner, client);
    assert(blob.fragment_hashes =~= Seq::<Hash32>::empty());
}

/// One reading of the next unread message: the client of `owner` opens a
/// read stream on it and closes the stream with the message marked as
/// read.
pub open spec fn read_cycle(
    storage: StorageView,
    table: StreamTableView,
    owner: u64,
    client: Seq<u8>,
    handle: u64,
) -> (StorageView, StreamTableView) {
    let opened = storage.open_next_inbox_stream(table, owner, client, handle).0;
    let closed = storage.close_inbox_stream(opened, owner, client, handle, true);
    (closed.0, closed.1)
}

/// `count` readings, one after the other.
pub open spec fn read_cycles(
    storage: StorageView,
    table: StreamTableView,
    owner: u64,
    client: Seq<u8>,
    handle: u64,
    count: nat,
) -> (StorageView, StreamTableView)
    decreases count,
{
    if count == 0 {
        (storage, table)
    } else {
        let before = read_cycles(storage, table, owner, client, handle, (count - 1) as nat);
        read_cycle(before.0, before.1, owner, client, handle)
    }
}

/// A client that reads its inbox message by message, marking each as read,
/// is given the messages in the order in which they were appended: after
/// `count` readings the next read stream opens on the entry that stood
/// `count` places behind the client's cursor, and when every entry is read
/// the answer is `Nomore`. The readings change neither the blob store nor
/// the entries of the timeline.
pub proof fn lemma_read_cycles(
    storage: StorageView,
    table: StreamTableView,
    owner: u64,
    client: Seq<u8>,
    handle: u64,
    count: nat,
)
    requires
        storage.wf(),
        table.read is None,
        count <= storage.timeline.unread(owner, client).len(),
    ensures
        ({
            let unread = storage.timeline.unread(owner, client);
            let (now, free) = read_cycles(storage, table, owner, client, handle, count);
            let (opened, ack) = now.open_next_inbox_stream(free, owner, client, handle);
            &&& now.wf()
            &&& free == table
            &&& now.blob == storage.blob
            &&& now.timeline.entries(owner) == storage.timeline.entries(owner)
            &&& now.timeline.unread(owner, client) == unread.skip(count as int)
            &&& count < unread.len() ==> {
                &&& ack.type_ == OpenNextInboxStreamAckType::Accept
                &&& ack.sync_error == SyncError::Success
                &&& ack.read_stream == Some(
                    OpenReadStreamView {
                        stream_handle: handle,
                        length: unread[count as int].length,
                        fragment_hashes: unread[count as int].fragment_hashes,
                    },
                )
                &&& opened.read == Some(OpenStreamView { handle, blob: unread[count as int] })
            }
            &&& count == unread.len() ==> {
                &&& ack.type_ == OpenNextInboxStreamAckType::Nomore
                &&& ack.sync_error == SyncError::Success
                &&& ack.read_stream is None
                &&& opened == free
            }
        }),
    decreases count,
{
    let unread = storage.timeline.unread(owner, client);
    if count == 0 {
        assert(unread.skip(0) =~= unread);
        lemma_unread(storage.timeline, owner, client);
    } else {
        let earlier = (count - 1) as nat;
        lemma_read_cycles(storage, table, owner, client, handle, earlier);
        let (before, free) = read_cycles(storage, table, owner, client, handle, earlier);
        lemma_unread(before.timeline, owner, client);
        lemma_pop(before.timeline, owner, client, owner, client);
        let (now, released) = read_cycle(before, free, owner, client, handle);
        assert(now.timeline.unread(owner, client) =~= unread.skip(count as int));
        lemma_unread(now.timeline, owner, client);
    }
}

/// Closing a read stream without marking the message as read changes
/// nothing but the stream: the next read stream opens on the same message.
pub proof fn lemma_unmarked_close(
    storage: StorageView,
    table: StreamTableView,
    owner: u64,
    client: Seq<u8>,
    handle: u64,
    later: u64,
)
    requires
        table.read is None,
    ensures
        ({
            let (opened, ack) = storage.open_next_inbox_stream(table, owner, client, handle);
            let (after, closed, closing) = storage.close_inbox_stream(
                opened,
                owner,
                client,
                handle,
                false,
            );
            let (again, answer) = after.open_next_inbox_stream(closed, owner, client, later);
            &&& after == storage
            &&& closed == table
            &&& opened.read is Some ==> closing.sync_error == SyncError::Success
            &&& again.read is Some == opened.read is Some
            &&& opened.read is Some ==> again.read->0.blob == opened.read->0.blob
            &&& answer.type_ == ack.type_
        }),
{
}

/// What one client reads does not touch what another client has unread,
/// be it of the same account or of another.
pub proof fn lemma_clients_read_independently(
    storage: StorageView,
    table: StreamTableView,
    owner: u64,
    client: Seq<u8>,
    handle: u64,
    other_owner: u64,
    other_client: Seq<u8>,
)
    requires
        storage.wf(),
        table.read is None,
        other_owner != owner || other_client != client,
    ensures
        ({
            let (after, closed) = read_cycle(storage, table, owner, client, handle);
            &&& after.wf()
            &&& after.timeline.unread(other_owner, other_client) == storage.timeline.unread(
                other_owner,
                other_client,
            )
            &&& after.open_inbox(other_owner, other_client) == storage.open_inbox(
                other_owner,
                other_client,
            )
            &&& after.timeline.entries(other_owner) == storage.timeline.entries(other_owner)
        }),
{
    if storage.timeline.get(owner, client) is Some {
        lemma_pop(storage.timeline, owner, client, other_owner, other_client);
        let after = read_cycle(storage, table, owner, client, handle).0;
        assert(after.timeline.account(other_owner).account.length_of(other_client)
            == storage.timeline.account(other_owner).account.length_of(other_client)) by {
            if other_owner == owner {
                let before = storage.timeline.account(owner);
                assert(storage.timeline.accounts.contains_key(owner));
                assert(before.wf());
                lemma_record(
                    before.account,
                    client,
                    before.account.first_n(client, 1).1,
                    other_client,
                );
            } else {
                assert(after.timeline.account(other_owner) == storage.timeline.account(
                    other_owner,
                ));
            }
        }
    }
}

/// The request that sends fragment `offset` of `fragments` on the stream
/// `handle`.
pub open spec fn fragment_request(handle: u64, fragments: Seq<Seq<u8>>, offset: int) -> WriteFragmentView {
    WriteFragmentView { stream_handle: handle, offset: offset as u64, content: fragments[offset] }
}

/// The storage and the writer's table after the writer has sent, in order
/// and on the stream `handle`, the fragments of `fragments` from offset
/// `from` up to, not including, offset `upto`.
pub open spec fn written(
    storage: StorageView,
    table: StreamTableView,
    handle: u64,
    fragments: Seq<Seq<u8>>,
    from: nat,
    upto: nat,
) -> (StorageView, StreamTableView)
    decreases upto,
{
    if upto <= from {
        (storage, table)
    } else {
        let before = written(storage, table, handle, fragments, from, (upto - 1) as nat);
        let after = before.0.write_fragment(
            before.1,
            fragment_request(handle, fragments, upto - 1),
        );
        (after.0, after.1)
    }
}

/// The fragments have in all the bytes that they make up one after the
/// other; the fragments of a body, the bytes of the body.
pub proof fn lemma_stored_bytes(fragments: Seq<Seq<u8>>)
    ensures
        stored_bytes(fragments) == concat(fragments).len(),
    decreases fragments.len(),
{
    if fragments.len() > 0 {
        lemma_stored_bytes(fragments.drop_last());
    }
}

/// A writer that declared its fragments with the length they have in all,
/// and sends them in order from the offset that the hub named, has each of
/// them acknowledged: the last with `Nomore`, the others with `Continue`.
/// The store then holds exactly the fragments sent; the timeline is
/// untouched until the stream is closed.
pub proof fn lemma_upload(
    storage: StorageView,
    table: StreamTableView,
    handle: u64,
    fragments: Seq<Seq<u8>>,
    from: nat,
    upto: nat,
)
    requires
        storage.wf(),
        table.writes(handle),
        storage.blob.contains(table.write->0.blob.id),
        storage.blob.record(table.write->0.blob.id).fragment_hashes == digests(fragments),
        storage.blob.record(table.write->0.blob.id).fragments == fragments.take(from as int),
        storage.blob.record(table.write->0.blob.id).length == stored_bytes(fragments),
        from <= upto <= fragments.len() <= u64::MAX,
    ensures
        ({
            let id = table.write->0.blob.id;
            let (after, now) = written(storage, table, handle, fragments, from, upto);
            &&& after.wf()
            &&& after.blob.record(id).length == storage.blob.record(id).length
            &&& after.blob.record(id).owner == storage.blob.record(id).owner
            &&& after.blob.used(storage.blob.record(id).owner) == storage.blob.used(
                storage.blob.record(id).owner,
            )
            &&& now.writes(handle)
            &&& now.read == table.read
            &&& now.write->0.blob.id == id
            &&& now.write->0.blob.owner == table.write->0.blob.owner
            &&& after.timeline == storage.timeline
            &&& after.blob.contains(id)
            &&& after.blob.record(id).fragment_hashes == digests(fragments)
            &&& after.blob.record(id).fragments == fragments.take(upto as int)
            &&& upto > from ==> {
                let before = written(storage, table, handle, fragments, from, (upto - 1) as nat);
                before.0.write_fragment(before.1, fragment_request(handle, fragments, upto - 1)).2
                    == WriteFragmentAck {
                    ack_type: if upto == fragments.len() {
                        FragmentAckType::Nomore
                    } else {
                        FragmentAckType::Continue
                    },
                    sync_error: SyncError::Success,
                    stream_handle: handle,
                    offset: (upto - 1) as u64,
                }
            }
        }),
    decreases upto,
{
    if upto > from {
        let earlier = (upto - 1) as nat;
        lemma_upload(storage, table, handle, fragments, from, earlier);
        let id = table.write->0.blob.id;
        let (before, then) = written(storage, table, handle, fragments, from, earlier);
        let request = fragment_request(handle, fragments, upto - 1);
        assert(before.blob.record(id).fragments.len() == earlier);
        assert(before.blob.records[before.blob.position(id)].wf());
        lemma_stored_bytes_prefix(fragments, earlier as int);
        lemma_stored_bytes_prefix(fragments, upto as int);
        assert(before.blob.record(id).fits(request.content));
        assert(before.blob.write_refusal(id, request.offset, request.content) is None);
        lemma_write_fragment(
            before.blob,
            id,
            request.offset,
            request.content,
            id,
            storage.blob.record(id).owner,
        );
        lemma_write_fragment_wf(before.blob, id, request.offset, request.content);
        let after = before.write_fragment(then, request).0;
        assert(after.blob.record(id).fragments =~= fragments.take(upto as int));
    }
}

/// A reader whose stream is on a body is given each stored fragment as it
/// was stored: the last declared one with `Nomore`, the others with
/// `Continue`.
pub proof fn lemma_download(storage: StorageView, table: StreamTableView, handle: u64, offset: u64)
    requires
        storage.wf(),
        table.reads(handle),
        storage.blob.contains(table.read->0.blob.id),
        offset < storage.blob.record(table.read->0.blob.id).fragments.len(),
    ensures
        ({
            let record = storage.blob.record(table.read->0.blob.id);
            storage.read_fragment(table, handle, offset) == ReadFragmentAckView {
                ack_type: if offset + 1 == record.fragment_hashes.len() {
                    FragmentAckType::Nomore
                } else {
                    FragmentAckType::Continue
                },
                sync_error: SyncError::Success,
                stream_handle: handle,
                offset,
                content: record.fragments[offset as int],
            }
        }),
{
    lemma_read_fragment(storage.blob, table.read->0.blob.id, offset);
}

/// What a reader is given for the offsets below `count` on the stream
/// `handle`, one after the other.
pub open spec fn downloaded(storage: StorageView, table: StreamTableView, handle: u64, count: nat) -> Seq<
    Seq<u8>,
> {
    Seq::new(count, |i: int| storage.read_fragment(table, handle, i as u64).content)
}

/// A body that a writer uploads in fragments of `size` bytes and closes is
/// read back byte for byte: the writer's body becomes the last entry of
/// its owner's timeline, and the contents that a reader of that body is
/// given, one after the other, are the body.
pub proof fn lemma_round_trip(
    storage: StorageView,
    table: StreamTableView,
    handle: u64,
    body: Seq<u8>,
    size: nat,
    reader: StreamTableView,
    reading: u64,
)
    requires
        storage.wf(),
        size > 0,
        fragments_of(body, size).len() <= u64::MAX,
        table.writes(handle),
        storage.blob.contains(table.write->0.blob.id),
        has_room(storage, storage.blob.record(table.write->0.blob.id).owner),
        storage.blob.record(table.write->0.blob.id).fragment_hashes == digests(
            fragments_of(body, size),
        ),
        storage.blob.record(table.write->0.blob.id).length == body.len(),
        storage.blob.record(table.write->0.blob.id).fragments.len() == 0,
        reader.reads(reading),
        reader.read->0.blob.id == table.write->0.blob.id,
    ensures
        ({
            let fragments = fragments_of(body, size);
            let (uploaded, open) = written(storage, table, handle, fragments, 0, fragments.len());
            let (closed, released, ack) = uploaded.close_write_stream(open, handle);
            &&& ack.sync_error == SyncError::Success
            &&& closed.wf()
            &&& closed.timeline.entries(
                storage.blob.record(table.write->0.blob.id).owner,
            ).last().id == table.write->0.blob.id
            &&& forall|offset: u64|
                offset < fragments.len() ==> (#[trigger] closed.read_fragment(
                    reader,
                    reading,
                    offset,
                )).sync_error == SyncError::Success
            &&& concat(downloaded(closed, reader, reading, fragments.len())) == body
        }),
{
    let fragments = fragments_of(body, size);
    let id = table.write->0.blob.id;
    let owner = storage.blob.record(id).owner;
    assert(storage.blob.record(id).fragments =~= fragments.take(0));
    lemma_concat_fragments(body, size);
    lemma_stored_bytes(fragments);
    lemma_upload(storage, table, handle, fragments, 0, fragments.len());
    let (uploaded, open) = written(storage, table, handle, fragments, 0, fragments.len());
    assert(uploaded.blob.record(id).fragments =~= fragments);
    lemma_close_write_stream(uploaded, open, handle, Seq::empty());
    lemma_append(uploaded.timeline, uploaded.blob.record(id).blob(), owner, Seq::empty());
    let closed = uploaded.close_write_stream(open, handle).0;
    assert(closed.blob.record(id).fragments =~= fragments);
    assert forall|offset: u64| offset < fragments.len() implies (#[trigger] closed.read_fragment(
        reader,
        reading,
        offset,
    )).sync_error == SyncError::Success && closed.read_fragment(reader, reading, offset).content
        == fragments[offset as int] by {
        lemma_download(closed, reader, reading, offset);
    }
    assert(downloaded(closed, reader, reading, fragments.len()) =~= fragments);
    lemma_concat_fragments(body, size);
}

/// The digests that `message` declares, where it asks to upload a body.
pub open spec fn declared_digests(message: SyncMessageView) -> Seq<Hash32> {
    match message.payload {
        PayloadView::OpenWriteStream(request) => request.fragment_hashes,
        _ => Seq::empty(),
    }
}

/// Whatever a session is sent, the storage stays well formed, and every
/// answer carries the id of its request and the kind that acknowledges the
/// request's kind.
#[verifier::rlimit(60)]
pub proof fn lemma_session_step(
    storage: StorageView,
    table: StreamTableView,
    owner: u64,
    quota: u64,
    client: Seq<u8>,
    message: SyncMessageView,
    fresh: Hash32,
    handle: u64,
)
    requires
        storage.wf(),
        has_room(storage, owner),
        table.write is Some && storage.blob.contains(table.write->0.blob.id) ==> has_room(
            storage,
            storage.blob.record(table.write->0.blob.id).owner,
        ),
        declared_digests(message).len() <= u64::MAX,
    ensures
        ({
            let (after, now, step) = session_step(
                storage,
                table,
                owner,
                quota,
                client,
                message,
                fresh,
                handle,
            );
            &&& after.wf()
            &&& step is Err ==> after == storage && now == table
            &&& step matches Ok(answer) ==> {
                &&& answer.id == message.id
                &&& MessageType::spec_from_i32(message.type_) is Some
                &&& MessageType::spec_from_i32(message.type_)->0.spec_ack() == Some(
                    MessageType::spec_from_i32(answer.type_)->0,
                )
            }
        }),
{
    match MessageType::spec_from_i32(message.type_) {
        Some(MessageType::OpenWriteStream) => {
            if message.payload is OpenWriteStream {
                lemma_open_write_stream(
                    storage,
                    table,
                    owner,
                    quota,
                    message.payload->OpenWriteStream_0,
                    fresh,
                    handle,
                    client,
                );
            }
        },
        Some(MessageType::WriteFragment) => {
            if message.payload is WriteFragment {
                let request = message.payload->WriteFragment_0;
                if table.writes(request.stream_handle) {
                    lemma_write_fragment_wf(
                        storage.blob,
                        table.write->0.blob.id,
                        request.offset,
                        request.content,
                    );
                }
            }
        },
        Some(MessageType::CloseWriteStream) => {
            if message.payload is CloseWriteStream {
                lemma_close_write_stream(
                    storage,
                    table,
                    message.payload->CloseWriteStream_0.stream_handle,
                    client,
                );
            }
        },
        Some(MessageType::CloseInboxStream) => {
            if message.payload is CloseInboxStream {
                let request = message.payload->CloseInboxStream_0;
                if table.reads(request.stream_handle) && request.mark_as_read {
                    let id = table.read->0.blob.id;
                    if storage.timeline.get(owner, client) matches Some(blob) && blob.id == id {
                        lemma_pop(storage.timeline, owner, client, owner, client);
                    }
                }
            }
        },
        _ => {},
    }
}

/// Whatever a session is sent, an account that is within its quota stays
/// within it, and the usage of every account but the session's own stays
/// as it was.
#[verifier::rlimit(60)]
pub proof fn lemma_usage_stays_within_quota(
    storage: StorageView,
    table: StreamTableView,
    owner: u64,
    quota: u64,
    client: Seq<u8>,
    message: SyncMessageView,
    fresh: Hash32,
    handle: u64,
    account: u64,
)
    requires
        storage.wf(),
        declared_digests(message).len() <= u64::MAX,
    ensures
        ({
            let after = session_step(
                storage,
                table,
                owner,
                quota,
                client,
                message,
                fresh,
                handle,
            ).0;
            &&& account != owner ==> after.blob.used(account) == storage.blob.used(account)
            &&& storage.blob.used(owner) <= quota ==> after.blob.used(owner) <= quota
        }),
{
    match MessageType::spec_from_i32(message.type_) {
        Some(MessageType::OpenWriteStream) => {
            if message.payload is OpenWriteStream {
                let request = message.payload->OpenWriteStream_0;
                if storage.open_refusal(table, owner, quota, request) is None {
                    let started = storage.blob.start_write(
                        owner,
                        quota,
                        request.length,
                        request.fragment_hashes,
                        fresh,
                    );
                    lemma_start_write_wf(
                        storage.blob,
                        owner,
                        quota,
                        request.length,
                        request.fragment_hashes,
                        fresh,
                    );
                    lemma_start_write_usage(
                        storage.blob,
                        owner,
                        quota,
                        request.length,
                        request.fragment_hashes,
                        fresh,
                        account,
                    );
                    if started.1 is Ok {
                        let blob = started.1->Ok_0;
                        lemma_start_write(
                            storage.blob,
                            owner,
                            quota,
                            request.length,
                            request.fragment_hashes,
                            fresh,
                            blob.id,
                        );
                        let inline = inline_fragment(request) is Some && blob.next_fragment == 0;
                        let stored = if inline {
                            started.0.write_fragment(
                                blob.id,
                                0,
                                inline_fragment(request)->0.content,
                            )
                        } else {
                            started.0
                        };
                        if inline {
                            let content = inline_fragment(request)->0.content;
                            lemma_write_fragment(started.0, blob.id, 0, content, blob.id, account);
                            lemma_write_fragment(started.0, blob.id, 0, content, blob.id, owner);
                            lemma_write_fragment_wf(started.0, blob.id, 0, content);
                        }
                        lemma_retain(stored, blob.id, blob.id, account);
                        lemma_retain(stored, blob.id, blob.id, owner);
                    }
                }
            }
        },
        Some(MessageType::WriteFragment) => {
            if message.payload is WriteFragment {
                let request = message.payload->WriteFragment_0;
                if table.writes(request.stream_handle) {
                    let id = table.write->0.blob.id;
                    lemma_write_fragment(
                        storage.blob,
                        id,
                        request.offset,
                        request.content,
                        id,
                        account,
                    );
                    lemma_write_fragment(
                        storage.blob,
                        id,
                        request.offset,
                        request.content,
                        id,
                        owner,
                    );
                }
            }
        },
        Some(MessageType::CloseWriteStream) => {
            if message.payload is CloseWriteStream {
                if table.write is Some {
                    let id = table.write->0.blob.id;
                    lemma_retain(storage.blob, id, id, account);
                    lemma_retain(storage.blob, id, id, owner);
                }
            }
        },
        _ => {},
    }
}

/// When entries of a timeline expire, the storage stays well formed, no
/// account's usage grows, and every client has unread what it had unread
/// before and has not expired.
pub proof fn lemma_expire_storage(
    storage: StorageView,
    owner: u64,
    to: u64,
    other: u64,
    client: Seq<u8>,
)
    requires
        storage.wf(),
    ensures
        storage.expire(owner, to).wf(),
        storage.expire(owner, to).blob.used(other) <= storage.blob.used(other),
        storage.expire(owner, to).timeline.entries(other) == storage.timeline.entries(other),
        other != owner ==> storage.expire(owner, to).timeline.unread(other, client)
            == storage.timeline.unread(other, client),
        storage.expire(owner, to).timeline.unread(owner, client)
            == storage.timeline.unread(owner, client).skip(
            storage.timeline.unread(owner, client).len() - storage.expire(
                owner,
                to,
            ).timeline.unread(owner, client).len(),
        ),
{
    lemma_expire(storage.timeline, owner, to, other, client);
    lemma_released(
        storage.blob,
        entry_ids(storage.timeline.account(owner).expiring(to)),
        other,
    );
}

} // verus!
