//! The session state machine: what a connection's session does with each
//! message it reads.
//!
//! A session reads a request, hands it to the storage operation it names,
//! and answers with the matching acknowledgement under the request's id.
//! Reading and sending are the caller's part: it feeds each message it
//! read to [`DimspHubSession::handle_message`], sends the answer, and drops
//! the connection when the session ends.

use crate::account::MNSAccount;
use crate::error::StorageError;
use crate::hash::Hash32;
use crate::storage::{DimspHubStorage, StorageView, StreamTable, StreamTableView};
use crate::wire::{MessageType, Payload, PayloadView, SyncMessage, SyncMessageView};
use vstd::prelude::*;

verus! {

/// Why a session ends.
#[derive(Clone, Copy, Debug, PartialEq, Eq, Structural)]
pub enum DismpError {
    /// The number is not that of a request.
    SyncMessageType(i32),
    /// The message lacks the payload of its kind.
    SyncMessageContent(MessageType),
    /// The storage failed.
    Storage(StorageError),
}

/// The answer of a session to a message, or why it ends, in terms of
/// views.
pub open spec fn step_view(step: Result<SyncMessage, DismpError>) -> Result<
    SyncMessageView,
    DismpError,
> {
    match step {
        Ok(message) => Ok(message@),
        Err(error) => Err(error),
    }
}

/// The storage, the session's table, and the answer or the end of the
/// session after the account `owner` (quota `quota`, client `client`)
/// sends `message`, where `fresh` is the id kept ready for a new body and
/// `handle` the handle kept ready for a new stream.
///
/// A message whose number is not that of a request, or that lacks the
/// payload of its kind, ends the session and changes nothing; so does a
/// failure of the storage. Any other message is handed to the storage
/// operation of its kind, and the answer is that operation's
/// acknowledgement, under the acknowledgement's kind and the request's id.
pub open spec fn session_step(
    storage: StorageView,
    table: StreamTableView,
    owner: u64,
    quota: u64,
    client: Seq<u8>,
    message: SyncMessageView,
    fresh: Hash32,
    handle: u64,
) -> (StorageView, StreamTableView, Result<SyncMessageView, DismpError>) {
    match MessageType::spec_from_i32(message.type_) {
        Some(MessageType::OpenWriteStream) => match message.payload {
            PayloadView::OpenWriteStream(request) => {
                let (after, opened, result) = storage.open_write_stream(
                    table,
                    owner,
                    quota,
                    request,
                    fresh,
                    handle,
                );
                match result {
                    Ok(ack) => (
                        after,
                        opened,
                        Ok(
                            SyncMessageView::new(
                                message.id,
                                MessageType::OpenWriteStreamAck,
                                PayloadView::OpenWriteStreamAck(ack),
                            ),
                        ),
                    ),
                    Err(error) => (after, opened, Err(DismpError::Storage(error))),
                }
            },
            _ => (
                storage,
                table,
                Err(DismpError::SyncMessageContent(MessageType::OpenWriteStream)),
            ),
        },
        Some(MessageType::WriteFragment) => match message.payload {
            PayloadView::WriteFragment(request) => {
                let (after, written, ack) = storage.write_fragment(table, request);
                (
                    after,
                    written,
                    Ok(
                        SyncMessageView::new(
                            message.id,
                            MessageType::WriteFragmentAck,
                            PayloadView::WriteFragmentAck(ack),
                        ),
                    ),
                )
            },
            _ => (storage, table, Err(DismpError::SyncMessageContent(MessageType::WriteFragment))),
        },
        Some(MessageType::CloseWriteStream) => match message.payload {
            PayloadView::CloseWriteStream(request) => {
                let (after, closed, ack) = storage.close_write_stream(
                    table,
                    request.stream_handle,
                );
                (
                    after,
                    closed,
                    Ok(
                        SyncMessageView::new(
                            message.id,
                            MessageType::CloseWriteStreamAck,
                            PayloadView::CloseWriteStreamAck(ack),
                        ),
                    ),
                )
            },
            _ => (
                storage,
                table,
                Err(DismpError::SyncMessageContent(MessageType::CloseWriteStream)),
            ),
        },
        Some(MessageType::OpenInbox) => (
            storage,
            table,
            Ok(
                SyncMessageView::new(
                    message.id,
                    MessageType::OpenInboxAck,
                    PayloadView::Inbox(storage.open_inbox(owner, client)),
                ),
            ),
        ),
        Some(MessageType::OpenNextInboxStream) => {
            let (opened, ack) = storage.open_next_inbox_stream(table, owner, client, handle);
            (
                storage,
                opened,
                Ok(
                    SyncMessageView::new(
                        message.id,
                        MessageType::OpenNextInboxStreamAck,
                        PayloadView::OpenNextInboxStreamAck(ack),
                    ),
                ),
            )
        },
        Some(MessageType::ReadFragment) => match message.payload {
            PayloadView::ReadFragment(request) => (
                storage,
                table,
                Ok(
                    SyncMessageView::new(
                        message.id,
                        MessageType::ReadFragmentAck,
                        PayloadView::ReadFragmentAck(
                            storage.read_fragment(table, request.stream_handle, request.offset),
                        ),
                    ),
                ),
            ),
            _ => (storage, table, Err(DismpError::SyncMessageContent(MessageType::ReadFragment))),
        },
        Some(MessageType::CloseInboxStream) => match message.payload {
            PayloadView::CloseInboxStream(request) => {
                let (after, closed, ack) = storage.close_inbox_stream(
                    table,
                    owner,
                    client,
                    request.stream_handle,
                    request.mark_as_read,
                );
                (
                    after,
                    closed,
                    Ok(
                        SyncMessageView::new(
                            message.id,
                            MessageType::CloseInboxStreamAck,
                            PayloadView::CloseInboxStreamAck(ack),
                        ),
                    ),
                )
            },
            _ => (
                storage,
                table,
                Err(DismpError::SyncMessageContent(MessageType::CloseInboxStream)),
            ),
        },
        _ => (storage, table, Err(DismpError::SyncMessageType(message.type_))),
    }
}

/// Handling `message` takes an id for a new body: the message asks to
/// upload a body that nothing refuses and that the blob store does not
/// hold yet.
pub open spec fn needs_id(
    storage: StorageView,
    table: StreamTableView,
    owner: u64,
    quota: u64,
    message: SyncMessageView,
) -> bool {
    &&& MessageType::spec_from_i32(message.type_) == Some(MessageType::OpenWriteStream)
    &&& message.payload is OpenWriteStream
    &&& storage.needs_id(table, owner, quota, message.payload->OpenWriteStream_0)
}

/// With the handle `handle`, `message` has the outcome `outcome` whatever
/// id is kept ready for a new body.
pub open spec fn steps_whatever_id(
    storage: StorageView,
    table: StreamTableView,
    owner: u64,
    quota: u64,
    client: Seq<u8>,
    message: SyncMessageView,
    handle: u64,
    outcome: (StorageView, StreamTableView, Result<SyncMessageView, DismpError>),
) -> bool {
    forall|fresh: Hash32| #[trigger]
        session_step(storage, table, owner, quota, client, message, fresh, handle) == outcome
}

/// A message that takes no id for a new body has the same outcome
/// whatever id is kept ready.
pub proof fn lemma_step_ignores_id(
    storage: StorageView,
    table: StreamTableView,
    owner: u64,
    quota: u64,
    client: Seq<u8>,
    message: SyncMessageView,
    first: Hash32,
    second: Hash32,
    handle: u64,
)
    requires
        !needs_id(storage, table, owner, quota, message),
    ensures
        session_step(storage, table, owner, quota, client, message, first, handle)
            == session_step(storage, table, owner, quota, client, message, second, handle),
{
    if MessageType::spec_from_i32(message.type_) == Some(MessageType::OpenWriteStream)
        && message.payload is OpenWriteStream {
        crate::storage::lemma_open_ignores_id(
            storage,
            table,
            owner,
            quota,
            message.payload->OpenWriteStream_0,
            first,
            second,
            handle,
        );
    }
}

/// The session of one connection: the streams it has open.
pub struct DimspHubSession {
    table: StreamTable,
}

impl View for DimspHubSession {
    type V = StreamTableView;

    closed spec fn view(&self) -> StreamTableView {
        self.table@
    }
}

impl Default for DimspHubSession {
    fn default() -> (session: Self)
        ensures
            session@ == StreamTableView::empty(),
    {
        DimspHubSession::new()
    }
}

impl DimspHubSession {
    /// The session of a connection that has nothing open.
    pub fn new() -> (session: Self)
        ensures
            session@ == StreamTableView::empty(),
    {
        DimspHubSession { table: StreamTable::new() }
    }

    /// The streams that the session has open.
    pub fn table(&self) -> (table: &StreamTable)
        ensures
            table@ == self@,
    {
        &self.table
    }

    fn open_write_stream(
        &mut self,
        storage: &mut DimspHubStorage,
        mns: &MNSAccount,
        id: u64,
        payload: Payload,
        fresh: Hash32,
        handle: u64,
    ) -> (step: Result<SyncMessage, DismpError>)
        requires
            old(storage).wf(),
        ensures
            final(storage).wf(),
            (final(storage)@, final(self)@, step_view(step)) == session_step(
                old(storage)@,
                old(self)@,
                mns.uns.id,
                mns.quota,
                mns.client_id@,
                SyncMessageView::new(id, MessageType::OpenWriteStream, payload@),
                fresh,
                handle,
            ),
    {
        let request = match payload {
            Payload::OpenWriteStream(request) => request,
            _ => {
                return Err(DismpError::SyncMessageContent(MessageType::OpenWriteStream));
            },
        };
        match storage.open_write_stream_with(&mut self.table, mns, request, fresh, handle) {
            Ok(ack) => Ok(
                SyncMessage::new(id, MessageType::OpenWriteStreamAck, Payload::OpenWriteStreamAck(ack)),
            ),
            Err(error) => Err(DismpError::Storage(error)),
        }
    }

    fn write_fragment(&mut self, storage: &mut DimspHubStorage, id: u64, payload: Payload) -> (step:
        Result<SyncMessage, DismpError>)
        requires
            old(storage).wf(),
        ensures
            final(storage).wf(),
            forall|owner: u64, quota: u64, client: Seq<u8>, fresh: Hash32, handle: u64|
                (final(storage)@, final(self)@, step_view(step)) == #[trigger] session_step(
                    old(storage)@,
                    old(self)@,
                    owner,
                    quota,
                    client,
                    SyncMessageView::new(id, MessageType::WriteFragment, payload@),
                    fresh,
                    handle,
                ),
    {
        let request = match payload {
            Payload::WriteFragment(request) => request,
            _ => {
                return Err(DismpError::SyncMessageContent(MessageType::WriteFragment));
            },
        };
        match storage.write_fragment(&mut self.table, request) {
            Ok(ack) => Ok(
                SyncMessage::new(id, MessageType::WriteFragmentAck, Payload::WriteFragmentAck(ack)),
            ),
            Err(error) => Err(DismpError::Storage(error)),
        }
    }

    fn close_write_stream(&mut self, storage: &mut DimspHubStorage, id: u64, payload: Payload) -> (step:
        Result<SyncMessage, DismpError>)
        requires
            old(storage).wf(),
        ensures
            final(storage).wf(),
            forall|owner: u64, quota: u64, client: Seq<u8>, fresh: Hash32, handle: u64|
                (final(storage)@, final(self)@, step_view(step)) == #[trigger] session_step(
                    old(storage)@,
                    old(self)@,
                    owner,
                    quota,
                    client,
                    SyncMessageView::new(id, MessageType::CloseWriteStream, payload@),
                    fresh,
                    handle,
                ),
    {
        let request = match payload {
            Payload::CloseWriteStream(request) => request,
            _ => {
                return Err(DismpError::SyncMessageContent(MessageType::CloseWriteStream));
            },
        };
        match storage.close_write_stream(&mut self.table, request) {
            Ok(ack) => Ok(
                SyncMessage::new(
                    id,
                    MessageType::CloseWriteStreamAck,
                    Payload::CloseWriteStreamAck(ack),
                ),
            ),
            Err(error) => Err(DismpError::Storage(error)),
        }
    }

    fn open_inbox(&self, storage: &DimspHubStorage, mns: &MNSAccount, id: u64, payload: Payload) -> (step:
        Result<SyncMessage, DismpError>)
        requires
            storage.wf(),
        ensures
            forall|quota: u64, fresh: Hash32, handle: u64|
                (storage@, self@, step_view(step)) == #[trigger] session_step(
                    storage@,
                    self@,
                    mns.uns.id,
                    quota,
                    mns.client_id@,
                    SyncMessageView::new(id, MessageType::OpenInbox, payload@),
                    fresh,
                    handle,
                ),
    {
        match storage.open_inbox(mns) {
            Ok(inbox) => Ok(SyncMessage::new(id, MessageType::OpenInboxAck, Payload::Inbox(inbox))),
            Err(error) => Err(DismpError::Storage(error)),
        }
    }

    fn open_next_inbox_stream(
        &mut self,
        storage: &DimspHubStorage,
        mns: &MNSAccount,
        id: u64,
        payload: Payload,
        handle: u64,
    ) -> (step: Result<SyncMessage, DismpError>)
        requires
            storage.wf(),
        ensures
            forall|quota: u64, fresh: Hash32|
                (storage@, final(self)@, step_view(step)) == #[trigger] session_step(
                    storage@,
                    old(self)@,
                    mns.uns.id,
                    quota,
                    mns.client_id@,
                    SyncMessageView::new(id, MessageType::OpenNextInboxStream, payload@),
                    fresh,
                    handle,
                ),
    {
        match storage.open_next_inbox_stream_with(&mut self.table, mns, handle) {
            Ok(ack) => Ok(
                SyncMessage::new(
                    id,
                    MessageType::OpenNextInboxStreamAck,
                    Payload::OpenNextInboxStreamAck(ack),
                ),
            ),
            Err(error) => Err(DismpError::Storage(error)),
        }
    }

    fn read_fragment(&self, storage: &DimspHubStorage, id: u64, payload: Payload) -> (step: Result<
        SyncMessage,
        DismpError,
    >)
        requires
            storage.wf(),
        ensures
            forall|owner: u64, quota: u64, client: Seq<u8>, fresh: Hash32, handle: u64|
                (storage@, self@, step_view(step)) == #[trigger] session_step(
                    storage@,
                    self@,
                    owner,
                    quota,
                    client,
                    SyncMessageView::new(id, MessageType::ReadFragment, payload@),
                    fresh,
                    handle,
                ),
    {
        let request = match payload {
            Payload::ReadFragment(request) => request,
            _ => {
                return Err(DismpError::SyncMessageContent(MessageType::ReadFragment));
            },
        };
        match storage.read_fragment(&self.table, request) {
            Ok(ack) => Ok(
                SyncMessage::new(id, MessageType::ReadFragmentAck, Payload::ReadFragmentAck(ack)),
            ),
            Err(error) => Err(DismpError::Storage(error)),
        }
    }

    fn close_inbox_stream(
        &mut self,
        storage: &mut DimspHubStorage,
        mns: &MNSAccount,
        id: u64,
        payload: Payload,
    ) -> (step: Result<SyncMessage, DismpError>)
        requires
            old(storage).wf(),
        ensures
            final(storage).wf(),
            forall|quota: u64, fresh: Hash32, handle: u64|
                (final(storage)@, final(self)@, step_view(step)) == #[trigger] session_step(
                    old(storage)@,
                    old(self)@,
                    mns.uns.id,
                    quota,
                    mns.client_id@,
                    SyncMessageView::new(id, MessageType::CloseInboxStream, payload@),
                    fresh,
                    handle,
                ),
    {
        let request = match payload {
            Payload::CloseInboxStream(request) => request,
            _ => {
                return Err(DismpError::SyncMessageContent(MessageType::CloseInboxStream));
            },
        };
        match storage.close_inbox_stream(&mut self.table, mns, request) {
            Ok(ack) => Ok(
                SyncMessage::new(
                    id,
                    MessageType::CloseInboxStreamAck,
                    Payload::CloseInboxStreamAck(ack),
                ),
            ),
            Err(error) => Err(DismpError::Storage(error)),
        }
    }

    /// Handles one message of the connection of `mns`. `Ok` holds the
    /// answer to send; `Err` ends the session without an answer.
    ///
    /// Only for a request to upload a body that is new to the store, and
    /// that nothing refuses, an id is drawn at random: when the random
    /// source fails, nothing changes and the session ends with
    /// `StorageError::Internal`. Every other message has the outcome that
    /// [`session_step`] gives it, whatever the id; the handle, where the
    /// message opens a stream, is generated from the clock.
    pub fn handle_message(
        &mut self,
        storage: &mut DimspHubStorage,
        mns: &MNSAccount,
        message: SyncMessage,
    ) -> (step: Result<SyncMessage, DismpError>)
        requires
            old(storage).wf(),
        ensures
            final(storage).wf(),
            !needs_id(old(storage)@, old(self)@, mns.uns.id, mns.quota, message@) ==> exists|
                handle: u64,
            | #[trigger]
                steps_whatever_id(
                    old(storage)@,
                    old(self)@,
                    mns.uns.id,
                    mns.quota,
                    mns.client_id@,
                    message@,
                    handle,
                    (final(storage)@, final(self)@, step_view(step)),
                ),
            (final(storage)@ == old(storage)@ && final(self)@ == old(self)@ && step == Err::<
                SyncMessage,
                DismpError,
            >(DismpError::Storage(StorageError::Internal))) || exists|fresh: Hash32, handle: u64|
                (final(storage)@, final(self)@, step_view(step)) == #[trigger] session_step(
                    old(storage)@,
                    old(self)@,
                    mns.uns.id,
                    mns.quota,
                    mns.client_id@,
                    message@,
                    fresh,
                    handle,
                ),
    {
        let ghost before = storage@;
        let ghost table = self@;
        let ghost sent = message@;
        let ghost zero = Hash32 { h1: 0, h2: 0, h3: 0, h4: 0 };
        let SyncMessage { id, type_, payload } = message;
        let kind = MessageType::from_i32(type_);
        match (kind, payload) {
            (Some(MessageType::OpenWriteStream), Payload::OpenWriteStream(request)) => {
                let ghost asked = request@;
                let result = storage.open_write_stream(&mut self.table, mns, request);
                let step = match result {
                    Ok(ack) => Ok(
                        SyncMessage::new(
                            id,
                            MessageType::OpenWriteStreamAck,
                            Payload::OpenWriteStreamAck(ack),
                        ),
                    ),
                    Err(error) => Err(DismpError::Storage(error)),
                };
                proof {
                    let outcome = (storage@, self@, step_view(step));
                    if !needs_id(before, table, mns.uns.id, mns.quota, sent) {
                        let handle = choose|handle: u64| #[trigger]
                            before.opens_whatever_id(
                                table,
                                mns.uns.id,
                                mns.quota,
                                asked,
                                handle,
                                (storage@, self@, result),
                            );
                        assert forall|fresh: Hash32| #[trigger]
                            session_step(
                                before,
                                table,
                                mns.uns.id,
                                mns.quota,
                                mns.client_id@,
                                sent,
                                fresh,
                                handle,
                            ) == outcome by {
                            assert(before.open_write_stream(
                                table,
                                mns.uns.id,
                                mns.quota,
                                asked,
                                fresh,
                                handle,
                            ) == (storage@, self@, result));
                        }
                        assert(steps_whatever_id(
                            before,
                            table,
                            mns.uns.id,
                            mns.quota,
                            mns.client_id@,
                            sent,
                            handle,
                            outcome,
                        ));
                    }
                    if !(storage@ == before && self@ == table && result == Err::<
                        crate::wire::OpenWriteStreamAck,
                        StorageError,
                    >(StorageError::Internal)) {
                        let (fresh, handle) = choose|fresh: Hash32, handle: u64|
                            (storage@, self@, result) == #[trigger] before.open_write_stream(
                                table,
                                mns.uns.id,
                                mns.quota,
                                asked,
                                fresh,
                                handle,
                            );
                        assert(session_step(
                            before,
                            table,
                            mns.uns.id,
                            mns.quota,
                            mns.client_id@,
                            sent,
                            fresh,
                            handle,
                        ) == outcome);
                    }
                }
                step
            },
            (kind, payload) => {
                let handle = match kind {
                    Some(MessageType::OpenNextInboxStream) => storage.next_handle(),
                    _ => 0,
                };
                let step = self.handle_message_with(
                    storage,
                    mns,
                    SyncMessage { id, type_, payload },
                    Hash32 { h1: 0, h2: 0, h3: 0, h4: 0 },
                    handle,
                );
                proof {
                    let outcome = (storage@, self@, step_view(step));
                    assert forall|fresh: Hash32| #[trigger]
                        session_step(
                            before,
                            table,
                            mns.uns.id,
                            mns.quota,
                            mns.client_id@,
                            sent,
                            fresh,
                            handle,
                        ) == outcome by {
                        lemma_step_ignores_id(
                            before,
                            table,
                            mns.uns.id,
                            mns.quota,
                            mns.client_id@,
                            sent,
                            fresh,
                            zero,
                            handle,
                        );
                    }
                    assert(steps_whatever_id(
                        before,
                        table,
                        mns.uns.id,
                        mns.quota,
                        mns.client_id@,
                        sent,
                        handle,
                        outcome,
                    ));
                }
                step
            },
        }
    }

    /// Handles one message of the connection of `mns`, with `fresh` as the
    /// id for a new body and `handle` as the handle for a new stream,
    /// exactly as [`session_step`] says. `Ok` holds the answer to send;
    /// `Err` ends the session without an answer.
    pub fn handle_message_with(
        &mut self,
        storage: &mut DimspHubStorage,
        mns: &MNSAccount,
        message: SyncMessage,
        fresh: Hash32,
        handle: u64,
    ) -> (step: Result<SyncMessage, DismpError>)
        requires
            old(storage).wf(),
        ensures
            final(storage).wf(),
            (final(storage)@, final(self)@, step_view(step)) == session_step(
                old(storage)@,
                old(self)@,
                mns.uns.id,
                mns.quota,
                mns.client_id@,
                message@,
                fresh,
                handle,
            ),
    {
        let SyncMessage { id, type_, payload } = message;
        let kind = match MessageType::from_i32(type_) {
            Some(kind) => kind,
            None => {
                return Err(DismpError::SyncMessageType(type_));
            },
        };
        match kind {
            MessageType::OpenWriteStream => self.open_write_stream(
                storage,
                mns,
                id,
                payload,
                fresh,
                handle,
            ),
            MessageType::WriteFragment => self.write_fragment(storage, id, payload),
            MessageType::CloseWriteStream => self.close_write_stream(storage, id, payload),
            MessageType::OpenInbox => self.open_inbox(storage, mns, id, payload),
            MessageType::OpenNextInboxStream => self.open_next_inbox_stream(
                storage,
                mns,
                id,
                payload,
                handle,
            ),
            MessageType::ReadFragment => self.read_fragment(storage, id, payload),
            MessageType::CloseInboxStream => self.close_inbox_stream(storage, mns, id, payload),
            _ => Err(DismpError::SyncMessageType(type_)),
        }
    }
}

} // verus!
