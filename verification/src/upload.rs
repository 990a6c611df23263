//! The writer's side of an upload: how a body is cut into fragments, and
//! what a writer sends in answer to each acknowledgement.

use crate::error::SyncError;
use crate::hash::{fragment_digest, keccack256, Hash32};
use crate::wire::{
    CloseWriteStream, FragmentAckType, IdGenerator, MessageType, OpenWriteStream,
    OpenWriteStreamAckType, OpenWriteStreamView, Payload, PayloadView, SyncMessage,
    SyncMessageView, WriteFragment, WriteFragmentView,
};
use vstd::prelude::*;
use vstd::slice::{slice_subrange, slice_to_vec};

verus! {

/// Into how many fragments of `size` bytes a body of `length` bytes is cut.
pub open spec fn fragment_count(length: nat, size: nat) -> nat {
    if length % size == 0 {
        length / size
    } else {
        length / size + 1
    }
}

/// Where fragment `index` of a body of `length` bytes ends when the
/// fragments have `size` bytes.
pub open spec fn fragment_end(length: nat, size: nat, index: int) -> int {
    if index * size + size > length {
        length as int
    } else {
        index * size + size
    }
}

/// The fragments of `size` bytes that `body` is cut into, the last one
/// shorter where `size` does not divide the length of `body`.
pub open spec fn fragments_of(body: Seq<u8>, size: nat) -> Seq<Seq<u8>> {
    Seq::new(
        fragment_count(body.len(), size),
        |i: int| body.subrange(i * size, fragment_end(body.len(), size, i)),
    )
}

/// The fragments, one after the other.
pub open spec fn concat(fragments: Seq<Seq<u8>>) -> Seq<u8>
    decreases fragments.len(),
{
    if fragments.len() == 0 {
        Seq::empty()
    } else {
        concat(fragments.drop_last()) + fragments.last()
    }
}

/// The digests that a writer declares for `fragments`.
pub open spec fn digests(fragments: Seq<Seq<u8>>) -> Seq<Hash32> {
    Seq::new(fragments.len(), |i: int| fragment_digest(fragments[i]))
}

/// The byte strings that `fragments` hold.
pub open spec fn fragment_views(fragments: Seq<Vec<u8>>) -> Seq<Seq<u8>> {
    Seq::new(fragments.len(), |i: int| fragments[i]@)
}

/// The fragments start one after the other, and together they cover the
/// body.
pub proof fn lemma_fragment_bounds(length: nat, size: nat, index: int)
    requires
        size > 0,
        0 <= index < fragment_count(length, size),
    ensures
        0 <= index * size < length,
        index * size < fragment_end(length, size, index) <= length,
        index + 1 < fragment_count(length, size) ==> fragment_end(length, size, index) == (index
            + 1) * size,
        index + 1 == fragment_count(length, size) ==> fragment_end(length, size, index) == length,
{
    let count = fragment_count(length, size) as int;
    let q = (length / size) as int;
    let r = (length % size) as int;
    vstd::arithmetic::div_mod::lemma_fundamental_div_mod(length as int, size as int);
    vstd::arithmetic::div_mod::lemma_mod_bound(length as int, size as int);
    assert(length == size * q + r);
    assert(0 <= r < size);
    assert(index * size >= 0) by (nonlinear_arith)
        requires
            index >= 0,
            size > 0,
    ;
    assert((index + 1) * size == index * size + size) by (nonlinear_arith);
    if index < q {
        assert((index + 1) * size <= q * size) by (nonlinear_arith)
            requires
                index + 1 <= q,
                size > 0,
        ;
        assert(q * size == size * q) by (nonlinear_arith);
        if index + 1 == count {
            assert(r == 0);
        }
    } else {
        assert(index == q);
        assert(r > 0);
        assert(index * size == size * q) by (nonlinear_arith)
            requires
                index == q,
        ;
    }
}

/// Fragment by fragment, the fragments of a body make up the body again.
pub proof fn lemma_concat_prefix(body: Seq<u8>, size: nat, count: int)
    requires
        size > 0,
        0 <= count <= fragment_count(body.len(), size),
    ensures
        count == 0 ==> concat(fragments_of(body, size).take(count)) == Seq::<u8>::empty(),
        count > 0 ==> concat(fragments_of(body, size).take(count)) == body.take(
            fragment_end(body.len(), size, count - 1),
        ),
    decreases count,
{
    let fragments = fragments_of(body, size);
    if count == 0 {
        assert(fragments.take(0) =~= Seq::<Seq<u8>>::empty());
    } else {
        lemma_concat_prefix(body, size, count - 1);
        lemma_fragment_bounds(body.len(), size, count - 1);
        assert(fragments.take(count).drop_last() =~= fragments.take(count - 1));
        assert(fragments.take(count).last() == fragments[count - 1]);
        if count > 1 {
            lemma_fragment_bounds(body.len(), size, count - 2);
            assert(concat(fragments.take(count)) =~= body.take(
                fragment_end(body.len(), size, count - 1),
            ));
        } else {
            assert(concat(fragments.take(count)) =~= body.take(
                fragment_end(body.len(), size, count - 1),
            ));
        }
    }
}

/// The fragments of a body, one after the other, are the body.
pub proof fn lemma_concat_fragments(body: Seq<u8>, size: nat)
    requires
        size > 0,
    ensures
        concat(fragments_of(body, size)) == body,
{
    let fragments = fragments_of(body, size);
    let count = fragment_count(body.len(), size) as int;
    lemma_concat_prefix(body, size, count);
    assert(fragments.take(count) =~= fragments);
    if count == 0 {
        vstd::arithmetic::div_mod::lemma_fundamental_div_mod(body.len() as int, size as int);
        vstd::arithmetic::div_mod::lemma_mod_bound(body.len() as int, size as int);
        assert(body.len() / size == 0);
        assert(body.len() == 0) by (nonlinear_arith)
            requires
                body.len() == size * (body.len() / size) + body.len() % size,
                body.len() % size == 0,
                body.len() / size == 0,
        ;
        assert(body =~= Seq::<u8>::empty());
    } else {
        lemma_fragment_bounds(body.len(), size, count - 1);
        assert(body.take(body.len() as int) =~= body);
    }
}

/// Cuts `body` into fragments of `fragment_len` bytes, the last one shorter
/// where `fragment_len` does not divide the length of `body`.
pub fn split_fragments(body: &[u8], fragment_len: usize) -> (fragments: Vec<Vec<u8>>)
    requires
        fragment_len > 0,
    ensures
        fragment_views(fragments@) == fragments_of(body@, fragment_len as nat),
{
    let length = body.len();
    proof {
        vstd::arithmetic::div_mod::lemma_fundamental_div_mod(length as int, fragment_len as int);
        assert(length % fragment_len != 0 ==> length / fragment_len < length) by (nonlinear_arith)
            requires
                length == fragment_len * (length / fragment_len) + length % fragment_len,
                fragment_len > 0,
                length / fragment_len >= 0,
        ;
    }
    let count = if length % fragment_len == 0 {
        length / fragment_len
    } else {
        length / fragment_len + 1
    };
    let ghost expected = fragments_of(body@, fragment_len as nat);
    let mut fragments: Vec<Vec<u8>> = Vec::new();
    let mut start: usize = 0;
    let mut i: usize = 0;
    while i < count
        invariant
            fragment_len > 0,
            length == body@.len(),
            count == fragment_count(length as nat, fragment_len as nat),
            expected == fragments_of(body@, fragment_len as nat),
            i <= count,
            fragments@.len() == i,
            i < count ==> start == i * fragment_len,
            forall|k: int| 0 <= k < i ==> (#[trigger] fragments@[k])@ == expected[k],
        decreases count - i,
    {
        proof {
            lemma_fragment_bounds(length as nat, fragment_len as nat, i as int);
        }
        let end = if length - start < fragment_len {
            length
        } else {
            start + fragment_len
        };
        let fragment = slice_to_vec(slice_subrange(body, start, end));
        assert(fragment@ == expected[i as int]);
        fragments.push(fragment);
        start = end;
        i += 1;
    }
    assert(fragment_views(fragments@) =~= expected);
    fragments
}

/// The digests that a writer declares for `fragments`.
pub fn fragment_hashes(fragments: &Vec<Vec<u8>>) -> (hashes: Vec<Hash32>)
    ensures
        hashes@ == digests(fragment_views(fragments@)),
{
    let mut hashes: Vec<Hash32> = Vec::new();
    let mut i: usize = 0;
    while i < fragments.len()
        invariant
            i <= fragments.len(),
            hashes@.len() == i,
            forall|k: int| 0 <= k < i ==> hashes@[k] == fragment_digest(fragments@[k]@),
        decreases fragments.len() - i,
    {
        hashes.push(Hash32::from_bytes(&keccack256(fragments[i].as_slice())));
        i += 1;
    }
    assert(hashes@ =~= digests(fragment_views(fragments@)));
    hashes
}

/// How far an upload has come.
#[derive(Clone, Copy, Debug, PartialEq, Eq, Structural)]
pub enum UploadPhase {
    /// The request to open the stream is sent.
    Opening,
    /// The fragment at the given offset is sent.
    Writing(u64),
    /// The request to close the stream is sent.
    Closing,
    /// The hub has the body and has queued it.
    Done,
    /// The upload was given up.
    Failed,
}

/// Why an upload was given up.
#[derive(Clone, Copy, Debug, PartialEq, Eq, Structural)]
pub enum UploadError {
    /// The message does not carry the id of the request that was sent.
    AckIdMismatch,
    /// The message is not the acknowledgement of the request that was sent,
    /// or it tells of a progress that the upload has not made.
    UnexpectedAck,
    /// The hub refused the request, with the given code.
    Refused(SyncError),
    /// The upload had ended before the message came.
    Finished,
}

/// What the writer does next.
#[derive(Debug)]
pub enum UploadStep {
    /// Send this request and wait for its acknowledgement.
    Send(SyncMessage),
    /// Nothing: the hub has the body and has queued it.
    Done,
    /// Nothing: the upload is given up.
    Failed(UploadError),
}

/// The mathematical value of an [`UploadStep`].
pub enum UploadStepView {
    Send(SyncMessageView),
    Done,
    Failed(UploadError),
}

impl View for UploadStep {
    type V = UploadStepView;

    open spec fn view(&self) -> UploadStepView {
        match self {
            UploadStep::Send(message) => UploadStepView::Send(message@),
            UploadStep::Done => UploadStepView::Done,
            UploadStep::Failed(error) => UploadStepView::Failed(*error),
        }
    }
}

/// One upload of one body, as its writer keeps track of it.
pub struct Upload {
    ids: IdGenerator,
    fragments: Vec<Vec<u8>>,
    stream_handle: u64,
    awaiting: u64,
    phase: UploadPhase,
}

/// The mathematical value of an [`Upload`].
pub struct UploadView {
    /// The id that the next request gets.
    pub next_id: u64,
    /// The fragments of the body.
    pub fragments: Seq<Seq<u8>>,
    /// The handle that the hub gave to the stream; 0 before it gave one.
    pub stream_handle: u64,
    /// The id of the request whose acknowledgement is awaited.
    pub awaiting: u64,
    pub phase: UploadPhase,
}

impl View for Upload {
    type V = UploadView;

    closed spec fn view(&self) -> UploadView {
        UploadView {
            next_id: self.ids.upcoming(),
            fragments: fragment_views(self.fragments@),
            stream_handle: self.stream_handle,
            awaiting: self.awaiting,
            phase: self.phase,
        }
    }
}

/// The id that follows `id`.
pub open spec fn id_after(id: u64) -> u64 {
    if id == u64::MAX {
        0
    } else {
        (id + 1) as u64
    }
}

/// The request that opens the stream for the body with the fragments
/// `fragments` of `length` bytes in all, addressed to `to`. A body of one
/// fragment carries the fragment inline.
pub open spec fn opening_request(to: u64, length: u64, fragments: Seq<Seq<u8>>) -> OpenWriteStreamView {
    OpenWriteStreamView {
        length,
        to,
        offset: 0,
        fragment_hashes: digests(fragments),
        inline_stream: if fragments.len() == 1 {
            Some(WriteFragmentView { stream_handle: 0, offset: 0, content: fragments[0] })
        } else {
            None
        },
    }
}

impl UploadView {
    /// The upload gives up with `error`.
    pub open spec fn fail(self, error: UploadError) -> (UploadView, UploadStepView) {
        (UploadView { phase: UploadPhase::Failed, ..self }, UploadStepView::Failed(error))
    }

    /// The upload sends the fragment at `offset`, or the request to close
    /// the stream where `offset` is past the last fragment.
    pub open spec fn proceed(self, offset: u64) -> (UploadView, UploadStepView) {
        if offset < self.fragments.len() {
            (
                UploadView {
                    next_id: id_after(self.next_id),
                    awaiting: self.next_id,
                    phase: UploadPhase::Writing(offset),
                    ..self
                },
                UploadStepView::Send(
                    SyncMessageView::new(
                        self.next_id,
                        MessageType::WriteFragment,
                        PayloadView::WriteFragment(
                            WriteFragmentView {
                                stream_handle: self.stream_handle,
                                offset,
                                content: self.fragments[offset as int],
                            },
                        ),
                    ),
                ),
            )
        } else {
            (
                UploadView {
                    next_id: id_after(self.next_id),
                    awaiting: self.next_id,
                    phase: UploadPhase::Closing,
                    ..self
                },
                UploadStepView::Send(
                    SyncMessageView::new(
                        self.next_id,
                        MessageType::CloseWriteStream,
                        PayloadView::CloseWriteStream(
                            CloseWriteStream { stream_handle: self.stream_handle },
                        ),
                    ),
                ),
            )
        }
    }

    /// The upload and what its writer does after `message` comes in.
    ///
    /// A message under another id than the awaited one, or of another kind
    /// than the awaited acknowledgement, ends the upload; so does one that
    /// tells of a refusal. `Noneed` ends it well. `Accept` makes the writer
    /// send the fragment that the hub names as its next; `Continue`, the
    /// fragment after the acknowledged one; `Nomore` after the last
    /// fragment, the request to close the stream, whose acknowledgement
    /// ends the upload well.
    pub open spec fn on_ack(self, message: SyncMessageView) -> (UploadView, UploadStepView) {
        match self.phase {
            UploadPhase::Done | UploadPhase::Failed => (
                self,
                UploadStepView::Failed(UploadError::Finished),
            ),
            UploadPhase::Opening => if message.id != self.awaiting {
                self.fail(UploadError::AckIdMismatch)
            } else if message.type_ == MessageType::OpenWriteStreamAck.spec_value()
                && message.payload is OpenWriteStreamAck {
                let ack = message.payload->OpenWriteStreamAck_0;
                match ack.ack_type {
                    OpenWriteStreamAckType::Noneed => (
                        UploadView { phase: UploadPhase::Done, ..self },
                        UploadStepView::Done,
                    ),
                    OpenWriteStreamAckType::Reject => self.fail(
                        UploadError::Refused(ack.sync_error),
                    ),
                    OpenWriteStreamAckType::Accept => (UploadView {
                        stream_handle: ack.stream_handle,
                        ..self
                    }).proceed(ack.next_fragment),
                }
            } else {
                self.fail(UploadError::UnexpectedAck)
            },
            UploadPhase::Writing(offset) => if message.id != self.awaiting {
                self.fail(UploadError::AckIdMismatch)
            } else if message.type_ == MessageType::WriteFragmentAck.spec_value()
                && message.payload is WriteFragmentAck {
                let ack = message.payload->WriteFragmentAck_0;
                match ack.ack_type {
                    FragmentAckType::Break => self.fail(UploadError::Refused(ack.sync_error)),
                    FragmentAckType::Continue => if offset + 1 < self.fragments.len() {
                        self.proceed((offset + 1) as u64)
                    } else {
                        self.fail(UploadError::UnexpectedAck)
                    },
                    FragmentAckType::Nomore => if offset + 1 == self.fragments.len() {
                        self.proceed((offset + 1) as u64)
                    } else {
                        self.fail(UploadError::UnexpectedAck)
                    },
                }
            } else {
                self.fail(UploadError::UnexpectedAck)
            },
            UploadPhase::Closing => if message.id != self.awaiting {
                self.fail(UploadError::AckIdMismatch)
            } else if message.type_ == MessageType::CloseWriteStreamAck.spec_value()
                && message.payload is CloseWriteStreamAck {
                let ack = message.payload->CloseWriteStreamAck_0;
                if ack.sync_error == SyncError::Success {
                    (UploadView { phase: UploadPhase::Done, ..self }, UploadStepView::Done)
                } else {
                    self.fail(UploadError::Refused(ack.sync_error))
                }
            } else {
                self.fail(UploadError::UnexpectedAck)
            },
        }
    }
}

impl Upload {
    /// Starts the upload of `body` to the account `to` in fragments of
    /// `fragment_len` bytes, with ids drawn from `ids`. Returns the upload
    /// and the request that opens the stream, which the writer sends.
    pub fn begin(ids: IdGenerator, to: u64, body: &[u8], fragment_len: usize) -> (started: (
        Upload,
        SyncMessage,
    ))
        requires
            fragment_len > 0,
        ensures
            started.0@ == (UploadView {
                next_id: id_after(ids.upcoming()),
                fragments: fragments_of(body@, fragment_len as nat),
                stream_handle: 0,
                awaiting: ids.upcoming(),
                phase: UploadPhase::Opening,
            }),
            started.1@ == SyncMessageView::new(
                ids.upcoming(),
                MessageType::OpenWriteStream,
                PayloadView::OpenWriteStream(
                    opening_request(
                        to,
                        body@.len() as u64,
                        fragments_of(body@, fragment_len as nat),
                    ),
                ),
            ),
    {
        let mut ids = ids;
        let fragments = split_fragments(body, fragment_len);
        let hashes = fragment_hashes(&fragments);
        let inline_stream = if fragments.len() == 1 {
            Some(WriteFragment { stream_handle: 0, offset: 0, content: fragments[0].clone() })
        } else {
            None
        };
        let request = OpenWriteStream {
            length: body.len() as u64,
            to,
            offset: 0,
            fragment_hashes: hashes,
            inline_stream,
        };
        let id = ids.next_id();
        let message = SyncMessage::new(
            id,
            MessageType::OpenWriteStream,
            Payload::OpenWriteStream(request),
        );
        let upload = Upload {
            ids,
            fragments,
            stream_handle: 0,
            awaiting: id,
            phase: UploadPhase::Opening,
        };
        (upload, message)
    }

    /// Ends the upload and gives the source of ids back.
    pub fn into_ids(self) -> (ids: IdGenerator)
        ensures
            ids.upcoming() == self@.next_id,
    {
        self.ids
    }

    /// How far the upload has come.
    pub fn phase(&self) -> (phase: UploadPhase)
        ensures
            phase == self@.phase,
    {
        self.phase
    }

    fn fail(&mut self, error: UploadError) -> (step: UploadStep)
        ensures
            (final(self)@, step@) == old(self)@.fail(error),
    {
        self.phase = UploadPhase::Failed;
        UploadStep::Failed(error)
    }

    fn proceed(&mut self, offset: u64) -> (step: UploadStep)
        ensures
            (final(self)@, step@) == old(self)@.proceed(offset),
    {
        let id = self.ids.next_id();
        self.awaiting = id;
        if offset < self.fragments.len() as u64 {
            self.phase = UploadPhase::Writing(offset);
            UploadStep::Send(
                SyncMessage::new(
                    id,
                    MessageType::WriteFragment,
                    Payload::WriteFragment(
                        WriteFragment {
                            stream_handle: self.stream_handle,
                            offset,
                            content: self.fragments[offset as usize].clone(),
                        },
                    ),
                ),
            )
        } else {
            self.phase = UploadPhase::Closing;
            UploadStep::Send(
                SyncMessage::new(
                    id,
                    MessageType::CloseWriteStream,
                    Payload::CloseWriteStream(CloseWriteStream { stream_handle: self.stream_handle }),
                ),
            )
        }
    }

    /// Takes the message that came in and says what the writer does next,
    /// exactly as [`UploadView::on_ack`] says.
    pub fn on_ack(&mut self, message: &SyncMessage) -> (step: UploadStep)
        ensures
            (final(self)@, step@) == old(self)@.on_ack(message@),
    {
        match self.phase {
            UploadPhase::Done | UploadPhase::Failed => UploadStep::Failed(UploadError::Finished),
            UploadPhase::Opening => {
                if message.id != self.awaiting {
                    return self.fail(UploadError::AckIdMismatch);
                }
                if message.type_ != MessageType::OpenWriteStreamAck.value() {
                    return self.fail(UploadError::UnexpectedAck);
                }
                match &message.payload {
                    Payload::OpenWriteStreamAck(ack) => match ack.ack_type {
                        OpenWriteStreamAckType::Noneed => {
                            self.phase = UploadPhase::Done;
                            UploadStep::Done
                        },
                        OpenWriteStreamAckType::Reject => self.fail(
                            UploadError::Refused(ack.sync_error),
                        ),
                        OpenWriteStreamAckType::Accept => {
                            self.stream_handle = ack.stream_handle;
                            self.proceed(ack.next_fragment)
                        },
                    },
                    _ => self.fail(UploadError::UnexpectedAck),
                }
            },
            UploadPhase::Writing(offset) => {
                if message.id != self.awaiting {
                    return self.fail(UploadError::AckIdMismatch);
                }
                if message.type_ != MessageType::WriteFragmentAck.value() {
                    return self.fail(UploadError::UnexpectedAck);
                }
                let count = self.fragments.len();
                match &message.payload {
                    Payload::WriteFragmentAck(ack) => match ack.ack_type {
                        FragmentAckType::Break => self.fail(UploadError::Refused(ack.sync_error)),
                        FragmentAckType::Continue => {
                            if offset < u64::MAX && offset + 1 < count as u64 {
                                self.proceed(offset + 1)
                            } else {
                                self.fail(UploadError::UnexpectedAck)
                            }
                        },
                        FragmentAckType::Nomore => {
                            if offset < u64::MAX && offset + 1 == count as u64 {
                                self.proceed(offset + 1)
                            } else {
                                self.fail(UploadError::UnexpectedAck)
                            }
                        },
                    },
                    _ => self.fail(UploadError::UnexpectedAck),
                }
            },
            UploadPhase::Closing => {
                if message.id != self.awaiting {
                    return self.fail(UploadError::AckIdMismatch);
                }
                if message.type_ != MessageType::CloseWriteStreamAck.value() {
                    return self.fail(UploadError::UnexpectedAck);
                }
                match &message.payload {
                    Payload::CloseWriteStreamAck(ack) => {
                        if ack.sync_error == SyncError::Success {
                            self.phase = UploadPhase::Done;
                            UploadStep::Done
                        } else {
                            self.fail(UploadError::Refused(ack.sync_error))
                        }
                    },
                    _ => self.fail(UploadError::UnexpectedAck),
                }
            },
        }
    }
}

} // verus!
