//! The timeline store: for each account the queue of its delivered
//! messages, and for each client of the account a read cursor into it.

use crate::account::MNSAccount;
use crate::blob::{Blob, BlobView};
use crate::hash::Hash32;
use crate::wire::Inbox;
use std::collections::HashMap;
use vstd::prelude::*;

verus! {

/// Whether two byte strings are the same.
pub fn same_bytes(left: &Vec<u8>, right: &Vec<u8>) -> (same: bool)
    ensures
        same == (left@ == right@),
{
    if left.len() != right.len() {
        return false;
    }
    let mut i: usize = 0;
    while i < left.len()
        invariant
            i <= left.len(),
            left.len() == right.len(),
            forall|k: int| 0 <= k < i ==> left@[k] == right@[k],
        decreases left.len() - i,
    {
        if left[i] != right[i] {
            return false;
        }
        i += 1;
    }
    assert(left@ =~= right@);
    true
}

/// The read position that one client has recorded.
pub struct ClientCursor {
    client: Vec<u8>,
    offset: u64,
}

/// The mathematical value of a [`ClientCursor`].
pub struct ClientCursorView {
    pub client: Seq<u8>,
    pub offset: u64,
}

impl View for ClientCursor {
    type V = ClientCursorView;

    closed spec fn view(&self) -> ClientCursorView {
        ClientCursorView { client: self.client@, offset: self.offset }
    }
}

impl ClientCursor {
    /// The cursor of `client` at `offset`.
    pub fn new(client: Vec<u8>, offset: u64) -> (cursor: Self)
        ensures
            cursor@ == (ClientCursorView { client: client@, offset }),
    {
        ClientCursor { client, offset }
    }

    /// The client.
    pub fn client(&self) -> (client: &Vec<u8>)
        ensures
            client@ == self@.client,
    {
        &self.client
    }

    /// The recorded offset.
    pub fn offset(&self) -> (offset: u64)
        ensures
            offset == self@.offset,
    {
        self.offset
    }
}

impl Clone for ClientCursor {
    fn clone(&self) -> (copy: Self)
        ensures
            copy@ == self@,
    {
        ClientCursor { client: self.client.clone(), offset: self.offset }
    }
}

/// The mathematical values of `cursors`.
pub open spec fn cursor_views(cursors: Seq<ClientCursor>) -> Seq<ClientCursorView> {
    Seq::new(cursors.len(), |i: int| cursors[i]@)
}

/// The positions of one account's timeline: it holds the entries from
/// `start` up to, not including, `end`, and each client's recorded cursor.
///
/// The cursors stand in a vector that is searched from the front. What a
/// map from clients to offsets would give, the account's invariant states:
/// no client has two cursors.
pub struct Account {
    start: u64,
    end: u64,
    clients: Vec<ClientCursor>,
}

/// The mathematical value of an [`Account`].
pub struct AccountView {
    pub start: u64,
    pub end: u64,
    pub clients: Seq<ClientCursorView>,
}

impl View for Account {
    type V = AccountView;

    closed spec fn view(&self) -> AccountView {
        AccountView {
            start: self.start,
            end: self.end,
            clients: Seq::new(self.clients@.len(), |i: int| self.clients@[i]@),
        }
    }
}

impl AccountView {
    /// `client` has recorded a cursor.
    pub open spec fn knows(self, client: Seq<u8>) -> bool {
        exists|i: int| 0 <= i < self.clients.len() && (#[trigger] self.clients[i]).client == client
    }

    /// Where the cursor of `client` is recorded.
    pub open spec fn position(self, client: Seq<u8>) -> int {
        choose|i: int| 0 <= i < self.clients.len() && (#[trigger] self.clients[i]).client == client
    }

    /// The offset that `client` has recorded: 0 until it records one.
    pub open spec fn recorded(self, client: Seq<u8>) -> u64 {
        if self.knows(client) {
            self.clients[self.position(client)].offset
        } else {
            0
        }
    }

    /// The cursor of `client`: its recorded offset, brought into the range
    /// from `start` to `end`.
    pub open spec fn cursor(self, client: Seq<u8>) -> u64 {
        if self.recorded(client) < self.start {
            self.start
        } else if self.recorded(client) > self.end {
            self.end
        } else {
            self.recorded(client)
        }
    }

    /// `start` is not past `end`, no recorded offset is past `end`, and no
    /// client has two cursors.
    pub open spec fn wf(self) -> bool {
        &&& self.start <= self.end
        &&& forall|i: int| 0 <= i < self.clients.len() ==> (#[trigger] self.clients[i]).offset <= self.end
        &&& forall|i: int, j: int|
            0 <= i < self.clients.len() && 0 <= j < self.clients.len() && i != j ==> (
            #[trigger] self.clients[i]).client != (#[trigger] self.clients[j]).client
    }

    /// The positions of the first `n` entries that `client` has not read.
    pub open spec fn first_n(self, client: Seq<u8>, n: u64) -> (u64, u64) {
        (
            self.cursor(client),
            if self.cursor(client) + n > self.end {
                self.end
            } else {
                (self.cursor(client) + n) as u64
            },
        )
    }

    /// How many entries `client` has not read.
    pub open spec fn length_of(self, client: Seq<u8>) -> u64 {
        (self.end - self.cursor(client)) as u64
    }

    /// The account with `offset` recorded for `client`.
    pub open spec fn record(self, client: Seq<u8>, offset: u64) -> AccountView {
        if self.knows(client) {
            AccountView {
                clients: self.clients.update(
                    self.position(client),
                    ClientCursorView { client, offset },
                ),
                ..self
            }
        } else {
            AccountView { clients: self.clients.push(ClientCursorView { client, offset }), ..self }
        }
    }

    /// The account after `client` moves its cursor `steps` entries on,
    /// stopping at `end`.
    pub open spec fn advance(self, client: Seq<u8>, steps: u64) -> AccountView {
        self.record(client, self.first_n(client, steps).1)
    }

    /// The account after the entries before `to` have expired: `start`
    /// moves on to `to`, but neither back nor past `end`.
    pub open spec fn trimmed(self, to: u64) -> AccountView {
        AccountView {
            start: if to < self.start {
                self.start
            } else if to > self.end {
                self.end
            } else {
                to
            },
            ..self
        }
    }

    /// The account with one entry more.
    pub open spec fn grown(self) -> AccountView {
        AccountView { end: (self.end + 1) as u64, ..self }
    }
}

/// The decimal digits of `number`, as bytes.
pub open spec fn decimal(number: nat) -> Seq<u8>
    decreases number,
{
    if number < 10 {
        seq![(48 + number) as u8]
    } else {
        decimal(number / 10).push((48 + number % 10) as u8)
    }
}

/// The key under which the positions of the timeline of `uns_id` are kept:
/// the eight bytes of `uns_id`, the most significant first.
pub open spec fn spec_account_key(uns_id: u64) -> Seq<u8> {
    Seq::new(8, |k: int| crate::hash::lane_byte(uns_id, k))
}

/// The key under which entry `offset` of the timeline of `uns_id` is kept:
/// the decimal digits of `uns_id`, an underscore, and the decimal digits of
/// `offset`.
pub open spec fn spec_entry_key(uns_id: u64, offset: u64) -> Seq<u8> {
    decimal(uns_id as nat) + seq![95u8] + decimal(offset as nat)
}

/// The key under which the positions of the timeline of `uns_id` are kept.
pub fn account_key(uns_id: u64) -> (key: [u8; 8])
    ensures
        key@ == spec_account_key(uns_id),
{
    let key = [
        (uns_id >> 56) as u8,
        ((uns_id >> 48) & 0xff) as u8,
        ((uns_id >> 40) & 0xff) as u8,
        ((uns_id >> 32) & 0xff) as u8,
        ((uns_id >> 24) & 0xff) as u8,
        ((uns_id >> 16) & 0xff) as u8,
        ((uns_id >> 8) & 0xff) as u8,
        (uns_id & 0xff) as u8,
    ];
    assert(key@ =~= spec_account_key(uns_id));
    key
}

fn push_decimal(text: &mut Vec<u8>, number: u64)
    ensures
        final(text)@ == old(text)@ + decimal(number as nat),
    decreases number,
{
    if number < 10 {
        text.push(48 + number as u8);
        assert(text@ =~= old(text)@ + decimal(number as nat));
    } else {
        push_decimal(text, number / 10);
        text.push(48 + (number % 10) as u8);
        assert(text@ =~= old(text)@ + decimal(number as nat));
    }
}

/// The key under which entry `offset` of the timeline of `uns_id` is kept.
pub fn entry_key(uns_id: u64, offset: u64) -> (key: Vec<u8>)
    ensures
        key@ == spec_entry_key(uns_id, offset),
{
    let mut key: Vec<u8> = Vec::new();
    push_decimal(&mut key, uns_id);
    key.push(95);
    push_decimal(&mut key, offset);
    assert(key@ =~= spec_entry_key(uns_id, offset));
    key
}

/// A cursor never moves back and never leaves the timeline: moving it on
/// leaves it at or behind where it was and at or before `end`, and leaves
/// every other client's cursor where it was.
pub proof fn lemma_advance(account: AccountView, client: Seq<u8>, steps: u64, other: Seq<u8>)
    requires
        account.wf(),
    ensures
        account.advance(client, steps).wf(),
        account.cursor(client) <= account.advance(client, steps).cursor(client) <= account.end,
        account.advance(client, steps).cursor(client) == if account.cursor(client) + steps
            > account.end {
            account.end
        } else {
            (account.cursor(client) + steps) as u64
        },
        other != client ==> account.advance(client, steps).cursor(other) == account.cursor(other),
{
    let to = account.first_n(client, steps).1;
    lemma_record(account, client, to, client);
    lemma_record(account, client, to, other);
}

/// When entries expire, a cursor that lags behind moves on to the new
/// start, and every other cursor stays where it was.
pub proof fn lemma_trim(account: AccountView, to: u64, client: Seq<u8>)
    requires
        account.wf(),
    ensures
        account.trimmed(to).wf(),
        account.start <= account.trimmed(to).start <= account.end,
        account.trimmed(to).cursor(client) == if account.cursor(client) < account.trimmed(
            to,
        ).start {
            account.trimmed(to).start
        } else {
            account.cursor(client)
        },
{
    let after = account.trimmed(to);
    if account.knows(client) {
        let i = account.position(client);
        assert(after.clients[i].client == client);
        assert(account.clients[i].offset <= account.end);
        let k = after.position(client);
        assert(account.clients[k].client == client);
    }
    if after.knows(client) {
        let k = after.position(client);
        assert(account.clients[k].client == client);
    }
}

/// Recording an offset for a client sets that client's recorded offset and
/// no other, and keeps the account well formed.
pub proof fn lemma_record(account: AccountView, client: Seq<u8>, offset: u64, other: Seq<u8>)
    requires
        account.wf(),
        offset <= account.end,
    ensures
        account.record(client, offset).wf(),
        account.record(client, offset).knows(client),
        account.record(client, offset).recorded(other) == if other == client {
            offset
        } else {
            account.recorded(other)
        },
{
    let after = account.record(client, offset);
    assert forall|a: int| 0 <= a < after.clients.len() implies (#[trigger] after.clients[a]).offset
        <= after.end by {
        if a < account.clients.len() {
            assert(account.clients[a].offset <= account.end);
        }
    }
    if account.knows(client) {
        let i = account.position(client);
        assert(after.clients[i].client == client);
        assert forall|a: int, b: int|
            0 <= a < after.clients.len() && 0 <= b < after.clients.len() && a != b implies (
        #[trigger] after.clients[a]).client != (#[trigger] after.clients[b]).client by {
            assert(account.clients[a].client != account.clients[b].client);
        }
        if other == client {
            assert(after.clients[after.position(client)].client == client);
        } else if account.knows(other) {
            let j = account.position(other);
            assert(after.clients[j].client == other);
            let k = after.position(other);
            assert(after.clients[k].client == other);
            assert(account.clients[k].client == other);
        } else {
            if after.knows(other) {
                let k = after.position(other);
                assert(account.clients[k].client == other);
            }
        }
    } else {
        let n = account.clients.len() as int;
        assert(after.clients[n].client == client);
        assert forall|a: int, b: int|
            0 <= a < after.clients.len() && 0 <= b < after.clients.len() && a != b implies (
        #[trigger] after.clients[a]).client != (#[trigger] after.clients[b]).client by {
            if a < n && b < n {
                assert(account.clients[a].client != account.clients[b].client);
            } else if a < n {
                assert(account.clients[a].client != client);
            } else {
                assert(account.clients[b].client != client);
            }
        }
        if other == client {
            let k = after.position(client);
            assert(after.clients[k].client == client);
            if k < n {
                assert(account.clients[k].client == client);
            }
        } else if account.knows(other) {
            let j = account.position(other);
            assert(after.clients[j].client == other);
            let k = after.position(other);
            assert(after.clients[k].client == other);
            assert(account.clients[k].client == other);
        } else {
            if after.knows(other) {
                let k = after.position(other);
                assert(after.clients[k].client == other);
                assert(account.clients[k].client == other);
            }
        }
    }
}

impl Account {
    /// The account's invariant: that of its value.
    pub open spec fn wf(&self) -> bool {
        self@.wf()
    }

    /// An empty timeline that no client has read.
    pub fn new() -> (account: Self)
        ensures
            account@ == (AccountView { start: 0, end: 0, clients: Seq::empty() }),
            account.wf(),
    {
        let account = Account { start: 0, end: 0, clients: Vec::new() };
        assert(account@.clients =~= Seq::<ClientCursorView>::empty());
        account
    }

    /// The account with the positions `start` and `end` and the recorded
    /// cursors `clients`, as it was written down before; `None` where
    /// these do not make a well-formed account.
    pub fn restore(start: u64, end: u64, clients: Vec<ClientCursor>) -> (account: Option<Self>)
        ensures
            account is Some <==> (AccountView { start, end, clients: cursor_views(clients@) }).wf(),
            account matches Some(restored) ==> restored@ == (AccountView {
                start,
                end,
                clients: cursor_views(clients@),
            }),
    {
        let ghost view = AccountView { start, end, clients: cursor_views(clients@) };
        if start > end {
            return None;
        }
        let mut i: usize = 0;
        while i < clients.len()
            invariant
                i <= clients.len(),
                view == (AccountView { start, end, clients: cursor_views(clients@) }),
                forall|a: int| 0 <= a < i ==> (#[trigger] view.clients[a]).offset <= end,
                forall|a: int, b: int|
                    0 <= a < i && 0 <= b < a ==> (#[trigger] view.clients[a]).client != (
                    #[trigger] view.clients[b]).client,
            decreases clients.len() - i,
        {
            if clients[i].offset > end {
                assert(view.clients[i as int].offset > end);
                return None;
            }
            let mut j: usize = 0;
            while j < i
                invariant
                    j <= i < clients.len(),
                    view == (AccountView { start, end, clients: cursor_views(clients@) }),
                    forall|b: int|
                        0 <= b < j ==> view.clients[i as int].client != (
                        #[trigger] view.clients[b]).client,
                decreases i - j,
            {
                if same_bytes(&clients[i].client, &clients[j].client) {
                    assert(view.clients[i as int].client == view.clients[j as int].client);
                    return None;
                }
                j += 1;
            }
            i += 1;
        }
        let account = Account { start, end, clients };
        assert(account@.clients =~= view.clients);
        assert forall|a: int, b: int|
            0 <= a < view.clients.len() && 0 <= b < view.clients.len() && a != b implies (
        #[trigger] view.clients[a]).client != (#[trigger] view.clients[b]).client by {
            if b < a {
            } else {
                assert(view.clients[b].client != view.clients[a].client);
            }
        }
        Some(account)
    }

    /// The recorded cursors, to write the account down.
    pub fn cursors(&self) -> (clients: Vec<ClientCursor>)
        ensures
            cursor_views(clients@) == self@.clients,
    {
        let mut clients: Vec<ClientCursor> = Vec::new();
        let mut i: usize = 0;
        while i < self.clients.len()
            invariant
                i <= self.clients.len(),
                clients@.len() == i,
                forall|k: int| 0 <= k < i ==> (#[trigger] clients@[k])@ == self.clients@[k]@,
            decreases self.clients.len() - i,
        {
            clients.push(self.clients[i].clone());
            i += 1;
        }
        assert(cursor_views(clients@) =~= self@.clients);
        clients
    }

    /// Lets the entries before `to` expire: the start moves on to `to`, but
    /// neither back nor past the end.
    pub fn trim(&mut self, to: u64)
        requires
            old(self).wf(),
        ensures
            final(self).wf(),
            final(self)@ == old(self)@.trimmed(to),
    {
        proof {
            lemma_trim(self@, to, Seq::empty());
        }
        if to > self.end {
            self.start = self.end;
        } else if to > self.start {
            self.start = to;
        }
        assert(self@.clients =~= old(self)@.clients);
    }

    /// Makes room for one more entry and returns its position; `None`,
    /// with nothing changed, where the positions are used up.
    pub fn append(&mut self) -> (position: Option<u64>)
        requires
            old(self).wf(),
        ensures
            final(self).wf(),
            old(self)@.end < u64::MAX ==> position == Some(old(self)@.end) && final(self)@ == old(
                self,
            )@.grown(),
            old(self)@.end == u64::MAX ==> position is None && final(self)@ == old(self)@,
    {
        if self.end == u64::MAX {
            return None;
        }
        let position = self.end;
        self.end = position + 1;
        assert(self@.clients =~= old(self)@.clients);
        assert forall|a: int| 0 <= a < self@.clients.len() implies (#[trigger] self@.clients[a]).offset
            <= self@.end by {
            assert(old(self)@.clients[a].offset <= old(self)@.end);
        }
        Some(position)
    }

    /// Position of the first entry that the timeline still holds.
    pub fn start(&self) -> (start: u64)
        ensures
            start == self@.start,
    {
        self.start
    }

    /// Position after the last entry.
    pub fn end(&self) -> (end: u64)
        ensures
            end == self@.end,
    {
        self.end
    }

    fn find_client(&self, client: &Vec<u8>) -> (at: Option<usize>)
        requires
            self.wf(),
        ensures
            match at {
                Some(i) => i < self@.clients.len() && self@.clients[i as int].client == client@
                    && self@.knows(client@) && self@.position(client@) == i,
                None => !self@.knows(client@),
            },
    {
        let mut i: usize = 0;
        while i < self.clients.len()
            invariant
                i <= self.clients.len(),
                self.wf(),
                forall|k: int| 0 <= k < i ==> (#[trigger] self@.clients[k]).client != client@,
            decreases self.clients.len() - i,
        {
            if same_bytes(&self.clients[i].client, client) {
                proof {
                    assert(self@.clients[i as int].client == client@);
                    assert(self@.knows(client@));
                    assert(self@.clients[self@.position(client@)].client == client@);
                }
                return Some(i);
            }
            i += 1;
        }
        None
    }

    /// The cursor of `client`.
    pub fn cursor(&self, client: &Vec<u8>) -> (at: u64)
        requires
            self.wf(),
        ensures
            at == self@.cursor(client@),
            self@.start <= at <= self@.end,
    {
        let recorded = match self.find_client(client) {
            Some(i) => self.clients[i].offset,
            None => 0,
        };
        if recorded < self.start {
            self.start
        } else if recorded > self.end {
            self.end
        } else {
            recorded
        }
    }

    /// The positions of the first `n` entries that the caller's client has
    /// not read, as a range.
    pub fn first_n(&self, mns: &MNSAccount, n: u64) -> (range: std::ops::Range<u64>)
        requires
            self.wf(),
        ensures
            (range.start, range.end) == self@.first_n(mns.client_id@, n),
            self@.start <= range.start <= range.end <= self@.end,
    {
        let start = self.cursor(&mns.client_id);
        let end = if n > self.end - start {
            self.end
        } else {
            start + n
        };
        start..end
    }

    /// Moves the cursor of the caller's client `steps` entries on, stopping
    /// at the end, and returns how many entries are then left to read.
    pub fn advance(&mut self, mns: &MNSAccount, steps: u64) -> (left: u64)
        requires
            old(self).wf(),
        ensures
            final(self).wf(),
            final(self)@ == old(self)@.advance(mns.client_id@, steps),
            left == final(self)@.length_of(mns.client_id@),
            left == old(self)@.end - old(self)@.first_n(mns.client_id@, steps).1,
    {
        let to = self.first_n(mns, steps).end;
        proof {
            lemma_record(self@, mns.client_id@, to, mns.client_id@);
        }
        match self.find_client(&mns.client_id) {
            Some(i) => {
                self.clients[i].offset = to;
                assert(self@.clients =~= old(self)@.clients.update(
                    i as int,
                    ClientCursorView { client: mns.client_id@, offset: to },
                ));
            },
            None => {
                self.clients.push(ClientCursor { client: mns.client_id.clone(), offset: to });
                assert(self@.clients =~= old(self)@.clients.push(
                    ClientCursorView { client: mns.client_id@, offset: to },
                ));
            },
        }
        self.end - to
    }

    /// How many entries the caller's client has not read.
    pub fn length_of(&self, mns: &MNSAccount) -> (left: u64)
        requires
            self.wf(),
        ensures
            left == self@.length_of(mns.client_id@),
    {
        self.end - self.cursor(&mns.client_id)
    }
}

/// Total declared length of `entries`.
pub open spec fn total_bytes(entries: Seq<BlobView>) -> nat
    decreases entries.len(),
{
    if entries.len() == 0 {
        0
    } else {
        total_bytes(entries.drop_last()) + entries.last().length as nat
    }
}

/// `bytes`, capped at `u64::MAX`.
pub open spec fn capped(bytes: nat) -> u64 {
    if bytes > u64::MAX {
        u64::MAX
    } else {
        bytes as u64
    }
}

/// The mathematical value of one account's timeline: its positions and
/// the entries it holds, oldest first.
pub struct AccountTimelineView {
    pub account: AccountView,
    pub entries: Seq<BlobView>,
}

impl AccountTimelineView {
    /// The timeline that nothing was appended to.
    pub open spec fn empty() -> AccountTimelineView {
        AccountTimelineView {
            account: AccountView { start: 0, end: 0, clients: Seq::empty() },
            entries: Seq::empty(),
        }
    }

    /// The positions are well formed, and the timeline knows every entry
    /// that was appended to it: entry `i` is the one at position `i`, also
    /// where it has expired.
    pub open spec fn wf(self) -> bool {
        &&& self.account.wf()
        &&& self.account.end == self.entries.len()
    }

    /// The entries that `client` has not read, oldest first.
    pub open spec fn unread(self, client: Seq<u8>) -> Seq<BlobView> {
        self.entries.skip(self.account.cursor(client) as int)
    }

    /// The entry at the cursor of `client`, if there is one.
    pub open spec fn peek(self, client: Seq<u8>) -> Option<BlobView> {
        if self.account.cursor(client) < self.account.end {
            Some(self.entries[self.account.cursor(client) as int])
        } else {
            None
        }
    }

    /// The inbox summary for `client`.
    pub open spec fn status(self, client: Seq<u8>) -> Inbox {
        Inbox {
            unread: self.account.length_of(client),
            total_length: capped(total_bytes(self.unread(client))),
        }
    }

    /// The timeline with `blob` appended.
    pub open spec fn appended(self, blob: BlobView) -> AccountTimelineView {
        AccountTimelineView { account: self.account.grown(), entries: self.entries.push(blob) }
    }

    /// The entries that have not expired, oldest first.
    pub open spec fn live(self) -> Seq<BlobView> {
        self.entries.skip(self.account.start as int)
    }

    /// The entries that expire when the start moves on to `to`.
    pub open spec fn expiring(self, to: u64) -> Seq<BlobView> {
        self.entries.subrange(self.account.start as int, self.account.trimmed(to).start as int)
    }

    /// The timeline after the entries before `to` have expired.
    pub open spec fn expired(self, to: u64) -> AccountTimelineView {
        AccountTimelineView { account: self.account.trimmed(to), ..self }
    }

    /// The timeline after `client` marks the entry `id` as read: its cursor
    /// moves one entry on if it stands on that entry, and stays otherwise.
    pub open spec fn popped(self, client: Seq<u8>, id: Hash32) -> AccountTimelineView {
        if self.peek(client) matches Some(blob) && blob.id == id {
            AccountTimelineView { account: self.account.advance(client, 1), ..self }
        } else {
            self
        }
    }
}

/// The mathematical value of the timeline store: the timeline of every
/// account that received a message.
pub struct TimelineView {
    pub accounts: Map<u64, AccountTimelineView>,
}

impl TimelineView {
    /// The timeline of `owner`: empty until a message arrives.
    pub open spec fn account(self, owner: u64) -> AccountTimelineView {
        if self.accounts.contains_key(owner) {
            self.accounts[owner]
        } else {
            AccountTimelineView::empty()
        }
    }

    /// Every account's timeline is well formed.
    pub open spec fn wf(self) -> bool {
        forall|owner: u64| #[trigger]
            self.accounts.contains_key(owner) ==> self.accounts[owner].wf()
    }

    /// The entries of `owner`'s timeline, oldest first.
    pub open spec fn entries(self, owner: u64) -> Seq<BlobView> {
        self.account(owner).entries
    }

    /// The entries of `owner`'s timeline that `client` has not read.
    pub open spec fn unread(self, owner: u64, client: Seq<u8>) -> Seq<BlobView> {
        self.account(owner).unread(client)
    }

    /// The store with `blob` appended to its owner's timeline.
    pub open spec fn append(self, blob: BlobView) -> TimelineView {
        TimelineView {
            accounts: self.accounts.insert(blob.owner, self.account(blob.owner).appended(blob)),
        }
    }

    /// The entry of `owner`'s timeline at the cursor of `client`.
    pub open spec fn get(self, owner: u64, client: Seq<u8>) -> Option<BlobView> {
        self.account(owner).peek(client)
    }

    /// The store after `client` marks the entry `id` of `owner`'s timeline
    /// as read.
    pub open spec fn pop(self, owner: u64, client: Seq<u8>, id: Hash32) -> TimelineView {
        if self.get(owner, client) matches Some(blob) && blob.id == id {
            TimelineView {
                accounts: self.accounts.insert(owner, self.account(owner).popped(client, id)),
            }
        } else {
            self
        }
    }

    /// The summary of `owner`'s inbox for `client`.
    pub open spec fn status(self, owner: u64, client: Seq<u8>) -> Inbox {
        self.account(owner).status(client)
    }

    /// The store after the entries of `owner`'s timeline before `to` have
    /// expired.
    pub open spec fn expire(self, owner: u64, to: u64) -> TimelineView {
        if self.accounts.contains_key(owner) {
            TimelineView { accounts: self.accounts.insert(owner, self.accounts[owner].expired(to)) }
        } else {
            self
        }
    }
}

/// The ids of `entries`, in order.
pub open spec fn entry_ids(entries: Seq<BlobView>) -> Seq<Hash32> {
    Seq::new(entries.len(), |i: int| entries[i].id)
}

/// The entry at a client's cursor is the first of its unread entries, and
/// the inbox summary counts them.
pub proof fn lemma_unread(timeline: TimelineView, owner: u64, client: Seq<u8>)
    requires
        timeline.wf(),
    ensures
        timeline.status(owner, client).unread == timeline.unread(owner, client).len(),
        timeline.get(owner, client) == if timeline.unread(owner, client).len() > 0 {
            Some(timeline.unread(owner, client)[0])
        } else {
            None
        },
        timeline.unread(owner, client).len() <= timeline.entries(owner).len(),
{
    if timeline.accounts.contains_key(owner) {
        assert(timeline.accounts[owner].wf());
    }
}

/// A client that has recorded no cursor has every entry unread that has
/// not expired.
pub proof fn lemma_unread_of_new_client(timeline: TimelineView, owner: u64, client: Seq<u8>)
    requires
        timeline.wf(),
        !timeline.account(owner).account.knows(client),
    ensures
        timeline.unread(owner, client) == timeline.account(owner).live(),
{
    if timeline.accounts.contains_key(owner) {
        assert(timeline.accounts[owner].wf());
    }
    assert(timeline.unread(owner, client) =~= timeline.account(owner).live());
}

/// When entries expire, they leave what the clients have unread, and
/// nothing else does: a client has unread what it had unread before and
/// has not expired.
pub proof fn lemma_expire(timeline: TimelineView, owner: u64, to: u64, other: u64, client: Seq<u8>)
    requires
        timeline.wf(),
    ensures
        timeline.expire(owner, to).wf(),
        timeline.expire(owner, to).entries(other) == timeline.entries(other),
        other != owner ==> timeline.expire(owner, to).unread(other, client) == timeline.unread(
            other,
            client,
        ),
        timeline.expire(owner, to).unread(owner, client).len() <= timeline.unread(
            owner,
            client,
        ).len(),
        timeline.expire(owner, to).unread(owner, client) == timeline.unread(owner, client).skip(
            timeline.unread(owner, client).len() - timeline.expire(owner, to).unread(
                owner,
                client,
            ).len(),
        ),
        timeline.account(owner).account.cursor(client) >= timeline.account(
            owner,
        ).account.trimmed(to).start ==> timeline.expire(owner, to).unread(owner, client)
            == timeline.unread(owner, client),
{
    let after = timeline.expire(owner, to);
    if timeline.accounts.contains_key(owner) {
        let before = timeline.accounts[owner];
        assert(before.wf());
        lemma_trim(before.account, to, client);
        assert forall|k: u64| #[trigger] after.accounts.contains_key(k) implies after.accounts[k].wf() by {
            if k != owner {
                assert(timeline.accounts.contains_key(k));
            }
        }
        assert(after.unread(owner, client) =~= timeline.unread(owner, client).skip(
            timeline.unread(owner, client).len() - after.unread(owner, client).len(),
        ));
        if other != owner {
            assert(after.account(other) == timeline.account(other));
        }
    } else {
        assert(timeline.unread(owner, client).skip(0) =~= timeline.unread(owner, client));
    }
}

/// Appending a blob puts it at the end of its owner's timeline and at the
/// end of what every client of the owner has unread; the timelines of the
/// other accounts stay as they were.
pub proof fn lemma_append(timeline: TimelineView, blob: BlobView, owner: u64, client: Seq<u8>)
    requires
        timeline.wf(),
        timeline.entries(blob.owner).len() < u64::MAX,
    ensures
        timeline.append(blob).wf(),
        timeline.append(blob).entries(owner) == if owner == blob.owner {
            timeline.entries(owner).push(blob)
        } else {
            timeline.entries(owner)
        },
        timeline.append(blob).unread(owner, client) == if owner == blob.owner {
            timeline.unread(owner, client).push(blob)
        } else {
            timeline.unread(owner, client)
        },
        timeline.append(blob).account(owner).account.clients == timeline.account(
            owner,
        ).account.clients,
{
    let before = timeline.account(blob.owner);
    let after = timeline.append(blob);
    if timeline.accounts.contains_key(blob.owner) {
        assert(timeline.accounts[blob.owner].wf());
    }
    assert(before.wf());
    assert(before.appended(blob).wf()) by {
        let grown = before.appended(blob).account;
        assert forall|i: int| 0 <= i < grown.clients.len() implies (#[trigger] grown.clients[i]).offset
            <= grown.end by {
            assert(before.account.clients[i].offset <= before.account.end);
        }
    }
    assert forall|other: u64| #[trigger] after.accounts.contains_key(other) implies after.accounts[other].wf() by {
        if other != blob.owner {
            assert(timeline.accounts.contains_key(other));
        }
    }
    if owner == blob.owner {
        assert(after.account(owner) == before.appended(blob));
        assert(after.account(owner).account.recorded(client) == before.account.recorded(client));
        assert(after.unread(owner, client) =~= timeline.unread(owner, client).push(blob));
    } else {
        assert(after.account(owner) == timeline.account(owner));
    }
}

/// Marking the entry at a client's cursor as read takes that entry, and
/// no other, from what the client has unread. The entries of the timeline
/// and what the other clients have unread stay as they were.
pub proof fn lemma_pop(
    timeline: TimelineView,
    owner: u64,
    client: Seq<u8>,
    other_owner: u64,
    other_client: Seq<u8>,
)
    requires
        timeline.wf(),
        timeline.get(owner, client) is Some,
    ensures
        ({
            let after = timeline.pop(owner, client, timeline.get(owner, client)->0.id);
            &&& after.wf()
            &&& after.unread(owner, client) == timeline.unread(owner, client).skip(1)
            &&& after.entries(other_owner) == timeline.entries(other_owner)
            &&& (other_owner != owner || other_client != client) ==> after.unread(
                other_owner,
                other_client,
            ) == timeline.unread(other_owner, other_client)
        }),
{
    let blob = timeline.get(owner, client)->0;
    let before = timeline.account(owner);
    let after = timeline.pop(owner, client, blob.id);
    assert(timeline.accounts.contains_key(owner));
    assert(timeline.accounts[owner].wf());
    let to = before.account.first_n(client, 1).1;
    lemma_record(before.account, client, to, client);
    lemma_record(before.account, client, to, other_client);
    assert(after.account(owner) == before.popped(client, blob.id));
    assert forall|other: u64| #[trigger] after.accounts.contains_key(other) implies after.accounts[other].wf() by {
        if other != owner {
            assert(timeline.accounts.contains_key(other));
        }
    }
    assert(after.unread(owner, client) =~= timeline.unread(owner, client).skip(1));
    if other_owner != owner {
        assert(after.account(other_owner) == timeline.account(other_owner));
    }
}

/// Marking an entry as read on which the client's cursor does not stand
/// changes nothing.
pub proof fn lemma_pop_elsewhere(timeline: TimelineView, owner: u64, client: Seq<u8>, id: Hash32)
    requires
        !(timeline.get(owner, client) matches Some(blob) && blob.id == id),
    ensures
        timeline.pop(owner, client, id) == timeline,
{
}

/// What a call that may return a blob descriptor says in terms of views.
pub open spec fn blob_option_view(blob: Option<Blob>) -> Option<BlobView> {
    match blob {
        Some(blob) => Some(blob@),
        None => None,
    }
}

struct AccountTimeline {
    account: Account,
    entries: Vec<Blob>,
}

impl View for AccountTimeline {
    type V = AccountTimelineView;

    closed spec fn view(&self) -> AccountTimelineView {
        AccountTimelineView {
            account: self.account@,
            entries: Seq::new(self.entries@.len(), |i: int| self.entries@[i]@),
        }
    }
}

impl AccountTimeline {
    proof fn lemma_view(&self)
        ensures
            self@.entries.len() == self.entries@.len(),
            forall|k: int| 0 <= k < self.entries@.len() ==> self@.entries[k] == self.entries@[k]@,
            self@.account.end == self.account.end,
            self@.account.start == self.account.start,
    {
    }
}

/// The in-memory timeline store.
pub struct MockTimeline {
    accounts: HashMap<u64, AccountTimeline>,
}

impl View for MockTimeline {
    type V = TimelineView;

    closed spec fn view(&self) -> TimelineView {
        TimelineView {
            accounts: Map::new(
                |owner: u64| self.accounts@.contains_key(owner),
                |owner: u64| self.accounts@[owner]@,
            ),
        }
    }
}

impl Default for MockTimeline {
    fn default() -> (store: Self)
        ensures
            store@.accounts == Map::<u64, AccountTimelineView>::empty(),
            store.wf(),
    {
        MockTimeline::new()
    }
}

impl MockTimeline {
    /// The store's invariant: that of its value.
    pub open spec fn wf(&self) -> bool {
        self@.wf()
    }

    /// A store without timelines.
    pub fn new() -> (store: Self)
        ensures
            store@.accounts == Map::<u64, AccountTimelineView>::empty(),
            store.wf(),
    {
        let store = MockTimeline { accounts: HashMap::new() };
        assert(store@.accounts =~= Map::<u64, AccountTimelineView>::empty());
        store
    }

    /// Appends `blob` to its owner's timeline and returns the number of
    /// entries that the timeline then holds.
    pub fn append(&mut self, blob: Blob) -> (length: u64)
        requires
            old(self).wf(),
        ensures
            final(self).wf(),
            final(self)@ == old(self)@.append(blob@),
            length == final(self)@.entries(blob.owner).len(),
    {
        let owner = blob.owner;
        let ghost before = self@.account(owner);
        let mut timeline = match self.accounts.remove(&owner) {
            Some(timeline) => timeline,
            None => {
                let timeline = AccountTimeline { account: Account::new(), entries: Vec::new() };
                assert(timeline@.entries =~= Seq::<BlobView>::empty());
                timeline
            },
        };
        assert(timeline@ == before);
        assert(before.wf());
        timeline.entries.push(blob);
        let length = timeline.entries.len() as u64;
        timeline.account.end = length;
        assert(timeline@.entries =~= before.entries.push(blob@));
        assert(timeline@ == before.appended(blob@));
        self.accounts.insert(owner, timeline);
        assert(self@.accounts =~= old(self)@.append(blob@).accounts);
        length
    }

    /// The entry of the caller's timeline at the cursor of the caller's
    /// client, if there is one.
    pub fn get(&self, mns: &MNSAccount) -> (blob: Option<Blob>)
        requires
            self.wf(),
        ensures
            blob_option_view(blob) == self@.get(mns.uns.id, mns.client_id@),
    {
        match self.accounts.get(&mns.uns.id) {
            Some(timeline) => {
                assert(timeline@ == self@.account(mns.uns.id));
                assert(timeline@.wf());
                proof {
                    timeline.lemma_view();
                }
                let count = timeline.entries.len();
                let at = timeline.account.cursor(&mns.client_id);
                if at < timeline.account.end {
                    Some(timeline.entries[at as usize].clone())
                } else {
                    None
                }
            },
            None => None,
        }
    }

    /// Marks the entry `id` as read for the caller's client: the cursor
    /// moves one entry on if it stands on that entry, and stays otherwise.
    pub fn pop(&mut self, mns: &MNSAccount, id: &Hash32)
        requires
            old(self).wf(),
        ensures
            final(self).wf(),
            final(self)@ == old(self)@.pop(mns.uns.id, mns.client_id@, *id),
    {
        let owner = mns.uns.id;
        let ghost before = self@.account(owner);
        let on_entry = match self.accounts.get(&owner) {
            Some(timeline) => {
                assert(timeline@ == before);
                assert(before.wf());
                proof {
                    timeline.lemma_view();
                }
                let count = timeline.entries.len();
                let at = timeline.account.cursor(&mns.client_id);
                at < timeline.account.end && timeline.entries[at as usize].id == *id
            },
            None => false,
        };
        if on_entry {
            match self.accounts.remove(&owner) {
                Some(timeline) => {
                    let mut timeline = timeline;
                    assert(timeline@ == before);
                    proof {
                        timeline.lemma_view();
                        lemma_record(
                            before.account,
                            mns.client_id@,
                            before.account.first_n(mns.client_id@, 1).1,
                            mns.client_id@,
                        );
                    }
                    timeline.account.advance(mns, 1);
                    assert(timeline@.entries =~= before.entries);
                    assert(timeline@ == before.popped(mns.client_id@, *id));
                    self.accounts.insert(owner, timeline);
                    assert(self@.accounts =~= old(self)@.pop(owner, mns.client_id@, *id).accounts);
                },
                None => {},
            }
        }
    }

    /// Lets the entries of `owner`'s timeline before the position `to`
    /// expire, and returns the ids of the bodies that the expired entries
    /// referred to, oldest first.
    pub fn expire(&mut self, owner: u64, to: u64) -> (expired: Vec<Hash32>)
        requires
            old(self).wf(),
        ensures
            final(self).wf(),
            final(self)@ == old(self)@.expire(owner, to),
            expired@ == entry_ids(old(self)@.account(owner).expiring(to)),
    {
        let ghost before = self@.account(owner);
        match self.accounts.remove(&owner) {
            Some(timeline) => {
                let mut timeline = timeline;
                assert(timeline@ == before);
                assert(before.wf());
                proof {
                    timeline.lemma_view();
                    lemma_trim(before.account, to, Seq::empty());
                }
                let count = timeline.entries.len();
                let from = timeline.account.start();
                timeline.account.trim(to);
                let upto = timeline.account.start();
                let mut expired: Vec<Hash32> = Vec::new();
                let mut i: usize = from as usize;
                while i < upto as usize
                    invariant
                        from <= i <= upto <= timeline.entries.len(),
                        expired@.len() == i - from,
                        forall|k: int|
                            0 <= k < expired@.len() ==> expired@[k] == timeline.entries@[from
                                + k].id,
                    decreases upto - i,
                {
                    expired.push(timeline.entries[i].id);
                    i += 1;
                }
                assert(timeline@.entries =~= before.entries);
                assert(timeline@ == before.expired(to));
                assert(expired@ =~= entry_ids(before.expiring(to)));
                self.accounts.insert(owner, timeline);
                assert(self@.accounts =~= old(self)@.expire(owner, to).accounts);
                expired
            },
            None => {
                assert(self@.accounts =~= old(self)@.accounts);
                assert(before.expiring(to) =~= Seq::<BlobView>::empty());
                let expired: Vec<Hash32> = Vec::new();
                assert(expired@ =~= entry_ids(before.expiring(to)));
                expired
            },
        }
    }

    /// The summary of the caller's inbox for the caller's client.
    pub fn status(&self, mns: &MNSAccount) -> (inbox: Inbox)
        requires
            self.wf(),
        ensures
            inbox == self@.status(mns.uns.id, mns.client_id@),
    {
        match self.accounts.get(&mns.uns.id) {
            Some(timeline) => {
                assert(timeline@ == self@.account(mns.uns.id));
                assert(timeline@.wf());
                proof {
                    timeline.lemma_view();
                }
                let count = timeline.entries.len();
                let from = timeline.account.cursor(&mns.client_id);
                let ghost unread = timeline@.unread(mns.client_id@);
                let mut total: u64 = 0;
                let mut i: usize = from as usize;
                assert(unread.take(0) =~= Seq::<BlobView>::empty());
                while i < timeline.entries.len()
                    invariant
                        from <= i <= timeline.entries.len(),
                        unread == timeline@.entries.skip(from as int),
                        timeline@.entries.len() == timeline.entries.len(),
                        forall|k: int|
                            0 <= k < timeline.entries.len() ==> timeline@.entries[k]
                                == timeline.entries[k]@,
                        total == capped(total_bytes(unread.take(i - from))),
                    decreases timeline.entries.len() - i,
                {
                    proof {
                        assert(unread.take(i + 1 - from).drop_last() =~= unread.take(i - from));
                        assert(unread.take(i + 1 - from).last() == timeline.entries[i as int]@);
                    }
                    total = total.saturating_add(timeline.entries[i].length);
                    i += 1;
                }
                assert(unread.take(i - from) =~= unread);
                Inbox { unread: timeline.account.end - from, total_length: total }
            },
            None => {
                assert(self@.account(mns.uns.id).unread(mns.client_id@) =~= Seq::<BlobView>::empty());
                Inbox { unread: 0, total_length: 0 }
            },
        }
    }
}

} // verus!
