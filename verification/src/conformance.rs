//! The writer and the hub together: an upload that is run against a
//! session of the hub ends with the body queued for its owner.

use crate::blob::{
    lemma_retain, lemma_start_write, lemma_start_write_wf, lemma_stored_bytes_prefix,
    lemma_write_fragment, lemma_write_fragment_wf, stored_bytes, BlobView,
};
use crate::hash::Hash32;
use crate::laws::{fragment_request, has_room, lemma_close_write_stream, lemma_stored_bytes};
use crate::session::session_step;
use crate::storage::{inline_fragment, inline_refusal, StorageView, StreamTableView};
use crate::timeline::lemma_append;
use crate::upload::{
    digests, fragments_of, id_after, lemma_concat_fragments,
    lemma_fragment_bounds, opening_request,
    UploadPhase, UploadStepView, UploadView,
};
use crate::wire::{
    CloseWriteStream, MessageType, PayloadView, SyncMessageView,
};
use vstd::prelude::*;

verus! {

/// A hub and a writer between two exchanges: the storage, the table of the
/// writer's session, the writer's upload, and what the writer does next.
pub struct Exchange {
    pub storage: StorageView,
    pub table: StreamTableView,
    pub upload: UploadView,
    pub step: UploadStepView,
}

/// The hub and the writer after one exchange: the session answers the
/// request that the writer sends, and the writer takes the answer. Where
/// the writer sends nothing, or the session ends, nothing changes.
#[verifier::opaque]
pub open spec fn exchange(
    before: Exchange,
    owner: u64,
    quota: u64,
    client: Seq<u8>,
    fresh: Hash32,
    handle: u64,
) -> Exchange {
    match before.step {
        UploadStepView::Send(request) => {
            let answered = session_step(
                before.storage,
                before.table,
                owner,
                quota,
                client,
                request,
                fresh,
                handle,
            );
            match answered.2 {
                Ok(answer) => Exchange {
                    storage: answered.0,
                    table: answered.1,
                    upload: before.upload.on_ack(answer).0,
                    step: before.upload.on_ack(answer).1,
                },
                Err(_) => before,
            }
        },
        _ => before,
    }
}

/// The hub and the writer after `count` exchanges.
pub open spec fn exchanges(
    start: Exchange,
    owner: u64,
    quota: u64,
    client: Seq<u8>,
    fresh: Hash32,
    handle: u64,
    count: nat,
) -> Exchange
    decreases count,
{
    if count == 0 {
        start
    } else {
        exchange(
            exchanges(start, owner, quota, client, fresh, handle, (count - 1) as nat),
            owner,
            quota,
            client,
            fresh,
            handle,
        )
    }
}

/// The hub and a writer that begins to upload `body` to `to` in fragments
/// of `size` bytes, with `first` as the id of its first request.
pub open spec fn beginning(
    storage: StorageView,
    table: StreamTableView,
    first: u64,
    to: u64,
    body: Seq<u8>,
    size: nat,
) -> Exchange {
    Exchange {
        storage,
        table,
        upload: UploadView {
            next_id: id_after(first),
            fragments: fragments_of(body, size),
            stream_handle: 0,
            awaiting: first,
            phase: UploadPhase::Opening,
        },
        step: UploadStepView::Send(
            SyncMessageView::new(
                first,
                MessageType::OpenWriteStream,
                PayloadView::OpenWriteStream(
                    opening_request(to, body.len() as u64, fragments_of(body, size)),
                ),
            ),
        ),
    }
}

/// `body` is new to the account `owner`, fits its quota, and can be
/// stored under `fresh` and queued.
pub open spec fn uploadable(
    storage: StorageView,
    table: StreamTableView,
    owner: u64,
    quota: u64,
    body: Seq<u8>,
    size: nat,
    fresh: Hash32,
) -> bool {
    &&& storage.wf()
    &&& table.write is None
    &&& size > 0
    &&& body.len() <= u64::MAX
    &&& storage.blob.used(owner) + body.len() <= quota
    &&& !storage.blob.has_content(owner, body.len() as u64, digests(fragments_of(body, size)))
    &&& !storage.blob.contains(fresh)
    &&& has_room(storage, owner)
}

/// The writer has the stream `handle` open for `fragments`, has had the
/// first `sent` of them acknowledged, and sends the next one, or the
/// request to close the stream after the last.
pub open spec fn sending(state: Exchange, handle: u64, fragments: Seq<Seq<u8>>, sent: nat) -> bool {
    &&& state.upload.fragments == fragments
    &&& state.upload.stream_handle == handle
    &&& state.upload.phase == if sent < fragments.len() {
        UploadPhase::Writing(sent as u64)
    } else {
        UploadPhase::Closing
    }
    &&& state.step == UploadStepView::Send(
        if sent < fragments.len() {
            SyncMessageView::new(
                state.upload.awaiting,
                MessageType::WriteFragment,
                PayloadView::WriteFragment(fragment_request(handle, fragments, sent as int)),
            )
        } else {
            SyncMessageView::new(
                state.upload.awaiting,
                MessageType::CloseWriteStream,
                PayloadView::CloseWriteStream(CloseWriteStream { stream_handle: handle }),
            )
        },
    )
}

/// The hub has the stream `handle` open on the body `id`, declared with
/// the digests of `fragments`, and holds the first `sent` of them.
pub open spec fn receiving(
    state: Exchange,
    handle: u64,
    id: Hash32,
    fragments: Seq<Seq<u8>>,
    sent: nat,
) -> bool {
    &&& state.storage.wf()
    &&& state.table.writes(handle)
    &&& state.table.write->0.blob.id == id
    &&& state.storage.blob.contains(id)
    &&& state.storage.blob.record(id).fragment_hashes == digests(fragments)
    &&& state.storage.blob.record(id).fragments == fragments.take(sent as int)
    &&& state.storage.blob.record(id).length == stored_bytes(fragments)
    &&& sent <= fragments.len() <= u64::MAX
}

/// The opening exchange of a body of two fragments or more that is new to
/// its account: the hub opens a stream on the new body, the timeline stays
/// as it was, and the writer sends the first fragment.
#[verifier::rlimit(60)]
pub proof fn lemma_opening_exchange(
    storage: StorageView,
    table: StreamTableView,
    owner: u64,
    quota: u64,
    client: Seq<u8>,
    first: u64,
    to: u64,
    body: Seq<u8>,
    size: nat,
    fresh: Hash32,
    handle: u64,
)
    requires
        uploadable(storage, table, owner, quota, body, size, fresh),
        fragments_of(body, size).len() >= 2,
    ensures
        ({
            let fragments = fragments_of(body, size);
            let opened = exchange(
                beginning(storage, table, first, to, body, size),
                owner,
                quota,
                client,
                fresh,
                handle,
            );
            &&& sending(opened, handle, fragments, 0)
            &&& receiving(opened, handle, fresh, fragments, 0)
            &&& opened.table.read == table.read
            &&& opened.table.write->0.blob.owner == owner
            &&& opened.table.write->0.blob.length == body.len()
            &&& opened.table.write->0.blob.fragment_hashes == digests(fragments)
            &&& opened.storage.timeline == storage.timeline
            &&& opened.storage.blob.record(fresh).owner == owner
        }),
{
    reveal(exchange);
    lemma_concat_fragments(body, size);
    lemma_stored_bytes(fragments_of(body, size));
    let fragments = fragments_of(body, size);
    let length = body.len() as u64;
    let request = opening_request(to, length, fragments);
    assert(fragments.len() <= u64::MAX) by {
        lemma_fragment_bounds(body.len(), size, fragments.len() - 1);
        assert((fragments.len() - 1) * size >= fragments.len() - 1) by (nonlinear_arith)
            requires
                size >= 1,
                fragments.len() - 1 >= 0,
        ;
    }
    assert(inline_fragment(request) is None);
    assert(inline_refusal(request) is None);
    lemma_start_write_wf(storage.blob, owner, quota, length, digests(fragments), fresh);
    lemma_start_write(storage.blob, owner, quota, length, digests(fragments), fresh, fresh);
    let started = storage.blob.start_write(owner, quota, length, digests(fragments), fresh);
    assert(started.1 is Ok);
    assert(started.1->Ok_0.id == fresh);
    assert(started.0.record(fresh).fragments =~= fragments.take(0));
}

/// One exchange of a fragment: the hub stores the fragment that the writer
/// sends, and the writer sends the next one, or the request to close the
/// stream after the last.
#[verifier::rlimit(60)]
pub proof fn lemma_fragment_exchange(
    before: Exchange,
    owner: u64,
    quota: u64,
    client: Seq<u8>,
    fresh: Hash32,
    handle: u64,
    id: Hash32,
    fragments: Seq<Seq<u8>>,
    sent: nat,
)
    requires
        sending(before, handle, fragments, sent),
        receiving(before, handle, id, fragments, sent),
        sent < fragments.len(),
    ensures
        ({
            let after = exchange(before, owner, quota, client, fresh, handle);
            let stored = before.storage.write_fragment(
                before.table,
                fragment_request(handle, fragments, sent as int),
            );
            &&& after.storage == stored.0
            &&& after.table == stored.1
            &&& sending(after, handle, fragments, sent + 1)
            &&& receiving(after, handle, id, fragments, sent + 1)
            &&& after.storage.timeline == before.storage.timeline
            &&& after.table.read == before.table.read
            &&& after.table.write->0.blob.owner == before.table.write->0.blob.owner
            &&& after.table.write->0.blob.length == before.table.write->0.blob.length
            &&& after.table.write->0.blob.fragment_hashes
                == before.table.write->0.blob.fragment_hashes
            &&& after.storage.blob.record(id).owner == before.storage.blob.record(id).owner
        }),
{
    reveal(exchange);
    let request = fragment_request(handle, fragments, sent as int);
    assert(before.storage.blob.records[before.storage.blob.position(id)].wf());
    lemma_stored_bytes_prefix(fragments, sent as int);
    lemma_stored_bytes_prefix(fragments, sent as int + 1);
    assert(before.storage.blob.record(id).fits(request.content));
    assert(before.storage.blob.write_refusal(id, request.offset, request.content) is None);
    lemma_write_fragment(before.storage.blob, id, request.offset, request.content, id, 0);
    lemma_write_fragment_wf(before.storage.blob, id, request.offset, request.content);
    let stored = before.storage.write_fragment(before.table, request);
    assert(stored.0.blob.record(id).fragments =~= fragments.take(sent as int + 1));
}

/// While a writer sends the fragments of a body of two fragments or more
/// that is new to its account, the hub stores them in order: after the
/// opening exchange and `sent` more, the store holds the first `sent`
/// fragments, and the writer sends the next one, or the request to close
/// the stream after the last.
pub proof fn lemma_upload_proceeds(
    storage: StorageView,
    table: StreamTableView,
    owner: u64,
    quota: u64,
    client: Seq<u8>,
    first: u64,
    to: u64,
    body: Seq<u8>,
    size: nat,
    fresh: Hash32,
    handle: u64,
    sent: nat,
)
    requires
        uploadable(storage, table, owner, quota, body, size, fresh),
        fragments_of(body, size).len() >= 2,
        sent <= fragments_of(body, size).len(),
    ensures
        ({
            let fragments = fragments_of(body, size);
            let start = beginning(storage, table, first, to, body, size);
            let now = exchanges(start, owner, quota, client, fresh, handle, 1 + sent);
            &&& sending(now, handle, fragments, sent)
            &&& receiving(now, handle, fresh, fragments, sent)
            &&& now.storage.timeline == storage.timeline
            &&& now.table.read == table.read
            &&& now.table.write->0.blob.owner == owner
            &&& now.table.write->0.blob.length == body.len()
            &&& now.table.write->0.blob.fragment_hashes == digests(fragments)
            &&& now.storage.blob.record(fresh).owner == owner
        }),
    decreases sent,
{
    let fragments = fragments_of(body, size);
    let start = beginning(storage, table, first, to, body, size);
    if sent == 0 {
        assert(exchanges(start, owner, quota, client, fresh, handle, 0) == start);
        assert(exchanges(start, owner, quota, client, fresh, handle, 1) == exchange(
            start,
            owner,
            quota,
            client,
            fresh,
            handle,
        ));
        lemma_opening_exchange(
            storage,
            table,
            owner,
            quota,
            client,
            first,
            to,
            body,
            size,
            fresh,
            handle,
        );
    } else {
        let earlier = (sent - 1) as nat;
        lemma_upload_proceeds(
            storage,
            table,
            owner,
            quota,
            client,
            first,
            to,
            body,
            size,
            fresh,
            handle,
            earlier,
        );
        let before = exchanges(start, owner, quota, client, fresh, handle, 1 + earlier);
        assert(exchanges(start, owner, quota, client, fresh, handle, 1 + sent) == exchange(
            before,
            owner,
            quota,
            client,
            fresh,
            handle,
        ));
        lemma_fragment_exchange(
            before,
            owner,
            quota,
            client,
            fresh,
            handle,
            fresh,
            fragments,
            earlier,
        );
    }
}

/// The closing exchange: the hub releases the stream and queues the body,
/// and the writer ends well.
#[verifier::rlimit(60)]
pub proof fn lemma_closing_exchange(
    before: Exchange,
    owner: u64,
    quota: u64,
    client: Seq<u8>,
    fresh: Hash32,
    handle: u64,
    id: Hash32,
    fragments: Seq<Seq<u8>>,
)
    requires
        sending(before, handle, fragments, fragments.len()),
        receiving(before, handle, id, fragments, fragments.len()),
        has_room(before.storage, before.storage.blob.record(id).owner),
    ensures
        ({
            let after = exchange(before, owner, quota, client, fresh, handle);
            let entry = before.storage.blob.record(id).blob();
            &&& after.step == UploadStepView::Done
            &&& after.upload.phase == UploadPhase::Done
            &&& after.storage.wf()
            &&& after.storage.blob == before.storage.blob.retain(id)
            &&& after.storage.blob.contains(id)
            &&& after.storage.blob.record(id).fragments == before.storage.blob.record(
                id,
            ).fragments
            &&& after.table.write is None
            &&& after.table.read == before.table.read
            &&& after.storage.timeline.unread(entry.owner, client)
                == before.storage.timeline.unread(entry.owner, client).push(entry)
        }),
{
    reveal(exchange);
    assert(before.storage.blob.record(id).fragments =~= fragments);
    lemma_close_write_stream(before.storage, before.table, handle, client);
}

/// What the end of an upload that went well looks like: the writer is
/// done, its stream is closed again, the body is the last message that
/// every client of the account has unread, and the store holds the
/// fragments of the body as the writer cut them.
pub open spec fn ended_well(
    end: Exchange,
    storage: StorageView,
    table: StreamTableView,
    owner: u64,
    client: Seq<u8>,
    body: Seq<u8>,
    size: nat,
    fresh: Hash32,
) -> bool {
    &&& end.step == UploadStepView::Done
    &&& end.upload.phase == UploadPhase::Done
    &&& end.storage.wf()
    &&& end.table == table
    &&& end.storage.timeline.unread(owner, client).len() == storage.timeline.unread(
        owner,
        client,
    ).len() + 1
    &&& end.storage.timeline.unread(owner, client).drop_last() == storage.timeline.unread(
        owner,
        client,
    )
    &&& end.storage.timeline.unread(owner, client).last().id == fresh
    &&& end.storage.timeline.unread(owner, client).last().owner == owner
    &&& end.storage.timeline.unread(owner, client).last().length == body.len()
    &&& end.storage.timeline.unread(owner, client).last().fragment_hashes == digests(
        fragments_of(body, size),
    )
    &&& end.storage.blob.contains(fresh)
    &&& end.storage.blob.record(fresh).fragments == fragments_of(body, size)
}

/// The upload of a body of at most one fragment that is new to its account
/// ends well with the opening exchange.
#[verifier::rlimit(100)]
pub proof fn lemma_short_upload(
    storage: StorageView,
    table: StreamTableView,
    owner: u64,
    quota: u64,
    client: Seq<u8>,
    first: u64,
    to: u64,
    body: Seq<u8>,
    size: nat,
    fresh: Hash32,
    handle: u64,
)
    requires
        uploadable(storage, table, owner, quota, body, size, fresh),
        fragments_of(body, size).len() <= 1,
    ensures
        ended_well(
            exchange(
                beginning(storage, table, first, to, body, size),
                owner,
                quota,
                client,
                fresh,
                handle,
            ),
            storage,
            table,
            owner,
            client,
            body,
            size,
            fresh,
        ),
{
    reveal(exchange);
    let fragments = fragments_of(body, size);
    let length = body.len() as u64;
    let request = opening_request(to, length, fragments);
    let start = beginning(storage, table, first, to, body, size);
    let end = exchange(start, owner, quota, client, fresh, handle);
    lemma_concat_fragments(body, size);
    lemma_stored_bytes(fragments);
    assert(fragments.len() == 1 ==> stored_bytes(fragments) == fragments[0].len()) by {
        if fragments.len() == 1 {
            assert(stored_bytes(fragments.drop_last()) == 0);
        }
    }
    lemma_start_write_wf(storage.blob, owner, quota, length, digests(fragments), fresh);
    lemma_start_write(storage.blob, owner, quota, length, digests(fragments), fresh, fresh);
    let started = storage.blob.start_write(owner, quota, length, digests(fragments), fresh).0;
    assert(started.records[started.position(fresh)].wf());
    if fragments.len() == 1 {
        assert(inline_refusal(request) is None);
        let content = fragments[0];
        assert(started.record(fresh).fragments =~= Seq::<Seq<u8>>::empty());
        assert(started.write_refusal(fresh, 0, content) is None);
        lemma_write_fragment(started, fresh, 0, content, fresh, owner);
        lemma_write_fragment_wf(started, fresh, 0, content);
        let stored = started.write_fragment(fresh, 0, content);
        lemma_retain(stored, fresh, fresh, owner);
        let entry = BlobView { next_fragment: 1, ..started.record(fresh).blob() };
        lemma_append(storage.timeline, entry, owner, client);
        assert(end.storage.blob.record(fresh).fragments =~= fragments);
        assert(end.storage.timeline.unread(owner, client).drop_last()
            =~= storage.timeline.unread(owner, client));
    } else {
        assert(inline_fragment(request) is None);
        lemma_retain(started, fresh, fresh, owner);
        let entry = started.record(fresh).blob();
        lemma_append(storage.timeline, entry, owner, client);
        assert(end.storage.blob.record(fresh).fragments =~= fragments);
        assert(end.storage.timeline.unread(owner, client).drop_last()
            =~= storage.timeline.unread(owner, client));
    }
}

/// A writer that uploads a body which is new to its account, and which
/// fits the account's quota, ends well: after one exchange for a body of
/// at most one fragment, and after one exchange for each fragment and two
/// more for any other body.
pub proof fn lemma_upload_ends_well(
    storage: StorageView,
    table: StreamTableView,
    owner: u64,
    quota: u64,
    client: Seq<u8>,
    first: u64,
    to: u64,
    body: Seq<u8>,
    size: nat,
    fresh: Hash32,
    handle: u64,
)
    requires
        uploadable(storage, table, owner, quota, body, size, fresh),
    ensures
        ended_well(
            exchanges(
                beginning(storage, table, first, to, body, size),
                owner,
                quota,
                client,
                fresh,
                handle,
                if fragments_of(body, size).len() <= 1 {
                    1
                } else {
                    fragments_of(body, size).len() + 2
                },
            ),
            storage,
            table,
            owner,
            client,
            body,
            size,
            fresh,
        ),
{
    let fragments = fragments_of(body, size);
    let start = beginning(storage, table, first, to, body, size);
    assert(exchanges(start, owner, quota, client, fresh, handle, 0) == start);
    if fragments.len() <= 1 {
        assert(exchanges(start, owner, quota, client, fresh, handle, 1) == exchange(
            start,
            owner,
            quota,
            client,
            fresh,
            handle,
        ));
        lemma_short_upload(storage, table, owner, quota, client, first, to, body, size, fresh, handle);
    } else {
        let count = fragments.len();
        lemma_upload_proceeds(
            storage,
            table,
            owner,
            quota,
            client,
            first,
            to,
            body,
            size,
            fresh,
            handle,
            count,
        );
        let closing = exchanges(start, owner, quota, client, fresh, handle, 1 + count);
        let end = exchanges(start, owner, quota, client, fresh, handle, (count + 2) as nat);
        assert(end == exchange(closing, owner, quota, client, fresh, handle));
        lemma_concat_fragments(body, size);
        lemma_stored_bytes(fragments);
        assert(closing.storage.blob.record(fresh).fragments =~= fragments);
        lemma_closing_exchange(closing, owner, quota, client, fresh, handle, fresh, fragments);
        let entry = closing.storage.blob.record(fresh).blob();
        assert(entry.id == fresh);
        assert(entry.owner == owner);
        assert(entry.length == body.len());
        assert(end.step == UploadStepView::Done);
        assert(end.table == table);
        assert(end.storage.timeline.unread(owner, client) == storage.timeline.unread(
            owner,
            client,
        ).push(entry));
        assert(end.storage.timeline.unread(owner, client).drop_last()
            =~= storage.timeline.unread(owner, client));
        assert(end.storage.blob.record(fresh).fragments == fragments);
    }
}

} // verus!
