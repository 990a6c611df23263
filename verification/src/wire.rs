//! The wire schema: every request, every acknowledgement and the envelope
//! that carries them.

use crate::error::SyncError;
use crate::hash::Hash32;
use vstd::prelude::*;

verus! {

/// Summary of an inbox as one client sees it.
#[derive(Clone, Copy, Debug, PartialEq, Eq, Structural)]
pub struct Inbox {
    /// Messages from the client's cursor to the end of the timeline.
    pub unread: u64,
    /// Their total declared length in bytes, capped at `u64::MAX`.
    pub total_length: u64,
}

/// One fragment of a body, sent by a writer.
#[derive(Debug)]
pub struct WriteFragment {
    pub stream_handle: u64,
    pub offset: u64,
    pub content: Vec<u8>,
}

/// The mathematical value of a [`WriteFragment`].
pub struct WriteFragmentView {
    pub stream_handle: u64,
    pub offset: u64,
    pub content: Seq<u8>,
}

impl View for WriteFragment {
    type V = WriteFragmentView;

    open spec fn view(&self) -> WriteFragmentView {
        WriteFragmentView {
            stream_handle: self.stream_handle,
            offset: self.offset,
            content: self.content@,
        }
    }
}

impl Clone for WriteFragment {
    fn clone(&self) -> (copy: Self)
        ensures
            copy@ == self@,
    {
        WriteFragment {
            stream_handle: self.stream_handle,
            offset: self.offset,
            content: self.content.clone(),
        }
    }
}

/// A writer's request to upload a body.
#[derive(Debug)]
pub struct OpenWriteStream {
    /// Total byte length of the body.
    pub length: u64,
    /// The account that the writer addresses.
    pub to: u64,
    pub offset: u64,
    /// One digest per fragment, in order.
    pub fragment_hashes: Vec<Hash32>,
    /// The only fragment of a one-fragment body, sent along to save a
    /// round trip.
    pub inline_stream: Option<WriteFragment>,
}

/// The mathematical value of an [`OpenWriteStream`].
pub struct OpenWriteStreamView {
    pub length: u64,
    pub to: u64,
    pub offset: u64,
    pub fragment_hashes: Seq<Hash32>,
    pub inline_stream: Option<WriteFragmentView>,
}

impl View for OpenWriteStream {
    type V = OpenWriteStreamView;

    open spec fn view(&self) -> OpenWriteStreamView {
        OpenWriteStreamView {
            length: self.length,
            to: self.to,
            offset: self.offset,
            fragment_hashes: self.fragment_hashes@,
            inline_stream: match self.inline_stream {
                Some(fragment) => Some(fragment@),
                None => None,
            },
        }
    }
}

impl Clone for OpenWriteStream {
    fn clone(&self) -> (copy: Self)
        ensures
            copy@ == self@,
    {
        OpenWriteStream {
            length: self.length,
            to: self.to,
            offset: self.offset,
            fragment_hashes: self.fragment_hashes.clone(),
            inline_stream: match &self.inline_stream {
                Some(fragment) => Some(fragment.clone()),
                None => None,
            },
        }
    }
}

/// How the hub answers a request to upload a body.
#[derive(Clone, Copy, Debug, PartialEq, Eq, Structural)]
pub enum OpenWriteStreamAckType {
    /// Send the fragments from `next_fragment` on.
    Accept,
    /// The hub has the whole body; nothing is to be sent.
    Noneed,
    /// The upload is refused.
    Reject,
}

/// The hub's answer to a request to upload a body.
#[derive(Clone, Copy, Debug, PartialEq, Eq, Structural)]
pub struct OpenWriteStreamAck {
    pub ack_type: OpenWriteStreamAckType,
    pub sync_error: SyncError,
    /// The handle of the opened stream; 0 where none was opened.
    pub stream_handle: u64,
    /// Index of the first fragment that the hub still lacks.
    pub next_fragment: u64,
}

/// How the hub answers a fragment that was written or asked for.
#[derive(Clone, Copy, Debug, PartialEq, Eq, Structural)]
pub enum FragmentAckType {
    /// More fragments follow.
    Continue,
    /// This was the last fragment.
    Nomore,
    /// The request failed; the stream is to be opened again.
    Break,
}

/// The hub's answer to a fragment that a writer sent.
#[derive(Clone, Copy, Debug, PartialEq, Eq, Structural)]
pub struct WriteFragmentAck {
    pub ack_type: FragmentAckType,
    pub sync_error: SyncError,
    pub stream_handle: u64,
    pub offset: u64,
}

/// A writer's request to close its stream and queue the body.
#[derive(Clone, Copy, Debug, PartialEq, Eq, Structural)]
pub struct CloseWriteStream {
    pub stream_handle: u64,
}

/// The hub's answer to a request to close a write stream.
#[derive(Clone, Copy, Debug, PartialEq, Eq, Structural)]
pub struct CloseWriteStreamAck {
    pub sync_error: SyncError,
}

/// What a reader learns of the body it is about to read.
#[derive(Debug)]
pub struct OpenReadStream {
    pub stream_handle: u64,
    pub length: u64,
    pub fragment_hashes: Vec<Hash32>,
}

/// The mathematical value of an [`OpenReadStream`].
pub struct OpenReadStreamView {
    pub stream_handle: u64,
    pub length: u64,
    pub fragment_hashes: Seq<Hash32>,
}

impl View for OpenReadStream {
    type V = OpenReadStreamView;

    open spec fn view(&self) -> OpenReadStreamView {
        OpenReadStreamView {
            stream_handle: self.stream_handle,
            length: self.length,
            fragment_hashes: self.fragment_hashes@,
        }
    }
}

impl Clone for OpenReadStream {
    fn clone(&self) -> (copy: Self)
        ensures
            copy@ == self@,
    {
        OpenReadStream {
            stream_handle: self.stream_handle,
            length: self.length,
            fragment_hashes: self.fragment_hashes.clone(),
        }
    }
}

/// How the hub answers a request for the next unread message.
#[derive(Clone, Copy, Debug, PartialEq, Eq, Structural)]
pub enum OpenNextInboxStreamAckType {
    /// A read stream was opened on the next unread message.
    Accept,
    /// No read stream was opened.
    Nomore,
}

/// The hub's answer to a request for the next unread message.
#[derive(Debug)]
pub struct OpenNextInboxStreamAck {
    pub type_: OpenNextInboxStreamAckType,
    /// `Resource` where the connection already has a read stream open.
    pub sync_error: SyncError,
    /// The opened stream, with `Accept`.
    pub read_stream: Option<OpenReadStream>,
}

/// The mathematical value of an [`OpenNextInboxStreamAck`].
pub struct OpenNextInboxStreamAckView {
    pub type_: OpenNextInboxStreamAckType,
    pub sync_error: SyncError,
    pub read_stream: Option<OpenReadStreamView>,
}

impl View for OpenNextInboxStreamAck {
    type V = OpenNextInboxStreamAckView;

    open spec fn view(&self) -> OpenNextInboxStreamAckView {
        OpenNextInboxStreamAckView {
            type_: self.type_,
            sync_error: self.sync_error,
            read_stream: match self.read_stream {
                Some(stream) => Some(stream@),
                None => None,
            },
        }
    }
}

impl Clone for OpenNextInboxStreamAck {
    fn clone(&self) -> (copy: Self)
        ensures
            copy@ == self@,
    {
        OpenNextInboxStreamAck {
            type_: self.type_,
            sync_error: self.sync_error,
            read_stream: match &self.read_stream {
                Some(stream) => Some(stream.clone()),
                None => None,
            },
        }
    }
}

/// A reader's request for one fragment of the message it has open.
#[derive(Clone, Copy, Debug, PartialEq, Eq, Structural)]
pub struct ReadFragment {
    pub stream_handle: u64,
    pub offset: u64,
}

/// The hub's answer to a request for a fragment.
#[derive(Debug)]
pub struct ReadFragmentAck {
    pub ack_type: FragmentAckType,
    pub sync_error: SyncError,
    pub stream_handle: u64,
    pub offset: u64,
    /// The fragment's bytes; empty with `Break`.
    pub content: Vec<u8>,
}

/// The mathematical value of a [`ReadFragmentAck`].
pub struct ReadFragmentAckView {
    pub ack_type: FragmentAckType,
    pub sync_error: SyncError,
    pub stream_handle: u64,
    pub offset: u64,
    pub content: Seq<u8>,
}

impl View for ReadFragmentAck {
    type V = ReadFragmentAckView;

    open spec fn view(&self) -> ReadFragmentAckView {
        ReadFragmentAckView {
            ack_type: self.ack_type,
            sync_error: self.sync_error,
            stream_handle: self.stream_handle,
            offset: self.offset,
            content: self.content@,
        }
    }
}

impl Clone for ReadFragmentAck {
    fn clone(&self) -> (copy: Self)
        ensures
            copy@ == self@,
    {
        ReadFragmentAck {
            ack_type: self.ack_type,
            sync_error: self.sync_error,
            stream_handle: self.stream_handle,
            offset: self.offset,
            content: self.content.clone(),
        }
    }
}

/// A reader's request to close its stream.
#[derive(Clone, Copy, Debug, PartialEq, Eq, Structural)]
pub struct CloseInboxStream {
    pub stream_handle: u64,
    /// Whether the reader's cursor moves past the message.
    pub mark_as_read: bool,
}

/// The hub's answer to a request to close a read stream.
#[derive(Clone, Copy, Debug, PartialEq, Eq, Structural)]
pub struct CloseInboxStreamAck {
    pub stream_handle: u64,
    pub sync_error: SyncError,
}

/// The kinds of message: each request and, after it, its acknowledgement.
#[derive(Clone, Copy, Debug, PartialEq, Eq, Structural)]
pub enum MessageType {
    OpenWriteStream,
    OpenWriteStreamAck,
    WriteFragment,
    WriteFragmentAck,
    CloseWriteStream,
    CloseWriteStreamAck,
    OpenInbox,
    OpenInboxAck,
    OpenNextInboxStream,
    OpenNextInboxStreamAck,
    ReadFragment,
    ReadFragmentAck,
    CloseInboxStream,
    CloseInboxStreamAck,
}

impl MessageType {
    /// The number that stands for this kind in an envelope.
    pub open spec fn spec_value(self) -> i32 {
        match self {
            MessageType::OpenWriteStream => 0,
            MessageType::OpenWriteStreamAck => 1,
            MessageType::WriteFragment => 2,
            MessageType::WriteFragmentAck => 3,
            MessageType::CloseWriteStream => 4,
            MessageType::CloseWriteStreamAck => 5,
            MessageType::OpenInbox => 6,
            MessageType::OpenInboxAck => 7,
            MessageType::OpenNextInboxStream => 8,
            MessageType::OpenNextInboxStreamAck => 9,
            MessageType::ReadFragment => 10,
            MessageType::ReadFragmentAck => 11,
            MessageType::CloseInboxStream => 12,
            MessageType::CloseInboxStreamAck => 13,
        }
    }

    /// The kind that `value` stands for, if it stands for one.
    pub open spec fn spec_from_i32(value: i32) -> Option<MessageType> {
        if value == 0 {
            Some(MessageType::OpenWriteStream)
        } else if value == 1 {
            Some(MessageType::OpenWriteStreamAck)
        } else if value == 2 {
            Some(MessageType::WriteFragment)
        } else if value == 3 {
            Some(MessageType::WriteFragmentAck)
        } else if value == 4 {
            Some(MessageType::CloseWriteStream)
        } else if value == 5 {
            Some(MessageType::CloseWriteStreamAck)
        } else if value == 6 {
            Some(MessageType::OpenInbox)
        } else if value == 7 {
            Some(MessageType::OpenInboxAck)
        } else if value == 8 {
            Some(MessageType::OpenNextInboxStream)
        } else if value == 9 {
            Some(MessageType::OpenNextInboxStreamAck)
        } else if value == 10 {
            Some(MessageType::ReadFragment)
        } else if value == 11 {
            Some(MessageType::ReadFragmentAck)
        } else if value == 12 {
            Some(MessageType::CloseInboxStream)
        } else if value == 13 {
            Some(MessageType::CloseInboxStreamAck)
        } else {
            None
        }
    }

    /// The acknowledgement that answers this kind, where it is a request.
    pub open spec fn spec_ack(self) -> Option<MessageType> {
        match self {
            MessageType::OpenWriteStream => Some(MessageType::OpenWriteStreamAck),
            MessageType::WriteFragment => Some(MessageType::WriteFragmentAck),
            MessageType::CloseWriteStream => Some(MessageType::CloseWriteStreamAck),
            MessageType::OpenInbox => Some(MessageType::OpenInboxAck),
            MessageType::OpenNextInboxStream => Some(MessageType::OpenNextInboxStreamAck),
            MessageType::ReadFragment => Some(MessageType::ReadFragmentAck),
            MessageType::CloseInboxStream => Some(MessageType::CloseInboxStreamAck),
            _ => None,
        }
    }

    /// The number that stands for this kind in an envelope.
    pub fn value(&self) -> (value: i32)
        ensures
            value == self.spec_value(),
    {
        match self {
            MessageType::OpenWriteStream => 0,
            MessageType::OpenWriteStreamAck => 1,
            MessageType::WriteFragment => 2,
            MessageType::WriteFragmentAck => 3,
            MessageType::CloseWriteStream => 4,
            MessageType::CloseWriteStreamAck => 5,
            MessageType::OpenInbox => 6,
            MessageType::OpenInboxAck => 7,
            MessageType::OpenNextInboxStream => 8,
            MessageType::OpenNextInboxStreamAck => 9,
            MessageType::ReadFragment => 10,
            MessageType::ReadFragmentAck => 11,
            MessageType::CloseInboxStream => 12,
            MessageType::CloseInboxStreamAck => 13,
        }
    }

    /// The kind that `value` stands for, if it stands for one.
    pub fn from_i32(value: i32) -> (kind: Option<MessageType>)
        ensures
            kind == MessageType::spec_from_i32(value),
    {
        if value == 0 {
            Some(MessageType::OpenWriteStream)
        } else if value == 1 {
            Some(MessageType::OpenWriteStreamAck)
        } else if value == 2 {
            Some(MessageType::WriteFragment)
        } else if value == 3 {
            Some(MessageType::WriteFragmentAck)
        } else if value == 4 {
            Some(MessageType::CloseWriteStream)
        } else if value == 5 {
            Some(MessageType::CloseWriteStreamAck)
        } else if value == 6 {
            Some(MessageType::OpenInbox)
        } else if value == 7 {
            Some(MessageType::OpenInboxAck)
        } else if value == 8 {
            Some(MessageType::OpenNextInboxStream)
        } else if value == 9 {
            Some(MessageType::OpenNextInboxStreamAck)
        } else if value == 10 {
            Some(MessageType::ReadFragment)
        } else if value == 11 {
            Some(MessageType::ReadFragmentAck)
        } else if value == 12 {
            Some(MessageType::CloseInboxStream)
        } else if value == 13 {
            Some(MessageType::CloseInboxStreamAck)
        } else {
            None
        }
    }

    /// The name of this kind.
    pub fn name(&self) -> (name: &'static str)
        ensures
            name@ == self.spec_name(),
    {
        match self {
            MessageType::OpenWriteStream => "OpenWriteStream",
            MessageType::OpenWriteStreamAck => "OpenWriteStreamAck",
            MessageType::WriteFragment => "WriteFragment",
            MessageType::WriteFragmentAck => "WriteFragmentAck",
            MessageType::CloseWriteStream => "CloseWriteStream",
            MessageType::CloseWriteStreamAck => "CloseWriteStreamAck",
            MessageType::OpenInbox => "OpenInbox",
            MessageType::OpenInboxAck => "OpenInboxAck",
            MessageType::OpenNextInboxStream => "OpenNextInboxStream",
            MessageType::OpenNextInboxStreamAck => "OpenNextInboxStreamAck",
            MessageType::ReadFragment => "ReadFragment",
            MessageType::ReadFragmentAck => "ReadFragmentAck",
            MessageType::CloseInboxStream => "CloseInboxStream",
            MessageType::CloseInboxStreamAck => "CloseInboxStreamAck",
        }
    }

    /// The name of this kind.
    pub open spec fn spec_name(self) -> Seq<char> {
        match self {
            MessageType::OpenWriteStream => "OpenWriteStream"@,
            MessageType::OpenWriteStreamAck => "OpenWriteStreamAck"@,
            MessageType::WriteFragment => "WriteFragment"@,
            MessageType::WriteFragmentAck => "WriteFragmentAck"@,
            MessageType::CloseWriteStream => "CloseWriteStream"@,
            MessageType::CloseWriteStreamAck => "CloseWriteStreamAck"@,
            MessageType::OpenInbox => "OpenInbox"@,
            MessageType::OpenInboxAck => "OpenInboxAck"@,
            MessageType::OpenNextInboxStream => "OpenNextInboxStream"@,
            MessageType::OpenNextInboxStreamAck => "OpenNextInboxStreamAck"@,
            MessageType::ReadFragment => "ReadFragment"@,
            MessageType::ReadFragmentAck => "ReadFragmentAck"@,
            MessageType::CloseInboxStream => "CloseInboxStream"@,
            MessageType::CloseInboxStreamAck => "CloseInboxStreamAck"@,
        }
    }
}

/// Every kind of message is found again from its number.
pub proof fn lemma_message_type_round_trip(kind: MessageType)
    ensures
        MessageType::spec_from_i32(kind.spec_value()) == Some(kind),
{
}

/// What an envelope carries: at most one request or acknowledgement.
#[derive(Debug)]
pub enum Payload {
    /// Nothing: the requests `OpenInbox` and `OpenNextInboxStream` need no
    /// more than their kind.
    Empty,
    OpenWriteStream(OpenWriteStream),
    OpenWriteStreamAck(OpenWriteStreamAck),
    WriteFragment(WriteFragment),
    WriteFragmentAck(WriteFragmentAck),
    CloseWriteStream(CloseWriteStream),
    CloseWriteStreamAck(CloseWriteStreamAck),
    Inbox(Inbox),
    OpenNextInboxStreamAck(OpenNextInboxStreamAck),
    ReadFragment(ReadFragment),
    ReadFragmentAck(ReadFragmentAck),
    CloseInboxStream(CloseInboxStream),
    CloseInboxStreamAck(CloseInboxStreamAck),
}

/// The mathematical value of a [`Payload`].
pub enum PayloadView {
    Empty,
    OpenWriteStream(OpenWriteStreamView),
    OpenWriteStreamAck(OpenWriteStreamAck),
    WriteFragment(WriteFragmentView),
    WriteFragmentAck(WriteFragmentAck),
    CloseWriteStream(CloseWriteStream),
    CloseWriteStreamAck(CloseWriteStreamAck),
    Inbox(Inbox),
    OpenNextInboxStreamAck(OpenNextInboxStreamAckView),
    ReadFragment(ReadFragment),
    ReadFragmentAck(ReadFragmentAckView),
    CloseInboxStream(CloseInboxStream),
    CloseInboxStreamAck(CloseInboxStreamAck),
}

impl View for Payload {
    type V = PayloadView;

    open spec fn view(&self) -> PayloadView {
        match self {
            Payload::Empty => PayloadView::Empty,
            Payload::OpenWriteStream(request) => PayloadView::OpenWriteStream(request@),
            Payload::OpenWriteStreamAck(ack) => PayloadView::OpenWriteStreamAck(*ack),
            Payload::WriteFragment(request) => PayloadView::WriteFragment(request@),
            Payload::WriteFragmentAck(ack) => PayloadView::WriteFragmentAck(*ack),
            Payload::CloseWriteStream(request) => PayloadView::CloseWriteStream(*request),
            Payload::CloseWriteStreamAck(ack) => PayloadView::CloseWriteStreamAck(*ack),
            Payload::Inbox(inbox) => PayloadView::Inbox(*inbox),
            Payload::OpenNextInboxStreamAck(ack) => PayloadView::OpenNextInboxStreamAck(ack@),
            Payload::ReadFragment(request) => PayloadView::ReadFragment(*request),
            Payload::ReadFragmentAck(ack) => PayloadView::ReadFragmentAck(ack@),
            Payload::CloseInboxStream(request) => PayloadView::CloseInboxStream(*request),
            Payload::CloseInboxStreamAck(ack) => PayloadView::CloseInboxStreamAck(*ack),
        }
    }
}

/// The envelope of every message.
#[derive(Debug)]
pub struct SyncMessage {
    /// Correlation id, set by the originator and echoed in the answer.
    pub id: u64,
    /// The number of the message's kind; see [`MessageType::value`].
    pub type_: i32,
    /// The request or acknowledgement.
    pub payload: Payload,
}

/// The mathematical value of a [`SyncMessage`].
pub struct SyncMessageView {
    pub id: u64,
    pub type_: i32,
    pub payload: PayloadView,
}

impl View for SyncMessage {
    type V = SyncMessageView;

    open spec fn view(&self) -> SyncMessageView {
        SyncMessageView { id: self.id, type_: self.type_, payload: self.payload@ }
    }
}

impl SyncMessageView {
    /// The envelope with the id `id` that carries `payload` as a message
    /// of the kind `kind`.
    pub open spec fn new(id: u64, kind: MessageType, payload: PayloadView) -> SyncMessageView {
        SyncMessageView { id, type_: kind.spec_value(), payload }
    }
}

impl SyncMessage {
    /// The envelope with the id `id` that carries `payload` as a message
    /// of the kind `kind`.
    pub fn new(id: u64, kind: MessageType, payload: Payload) -> (message: SyncMessage)
        ensures
            message@ == SyncMessageView::new(id, kind, payload@),
    {
        SyncMessage { id, type_: kind.value(), payload }
    }
}

/// A source of correlation ids: 0, 1, 2 and so on, starting again at 0
/// after the last 64-bit number.
#[derive(Debug)]
pub struct IdGenerator {
    next: u64,
}

impl IdGenerator {
    /// The id that the next call of [`IdGenerator::next_id`] returns.
    pub closed spec fn upcoming(&self) -> u64 {
        self.next
    }

    /// A source that starts at 0.
    pub fn new() -> (ids: Self)
        ensures
            ids.upcoming() == 0,
    {
        IdGenerator { next: 0 }
    }

    /// Returns the upcoming id and moves on to the one after it.
    pub fn next_id(&mut self) -> (id: u64)
        ensures
            id == old(self).upcoming(),
            final(self).upcoming() == if id == u64::MAX {
                0
            } else {
                (id + 1) as u64
            },
    {
        let id = self.next;
        self.next = if id == u64::MAX {
            0
        } else {
            id + 1
        };
        id
    }
}

impl Default for IdGenerator {
    fn default() -> (ids: Self)
        ensures
            ids.upcoming() == 0,
    {
        IdGenerator::new()
    }
}

} // verus!
