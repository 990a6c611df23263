//! Storage engine and message-sync protocol of a service-provider hub for a
//! decentralized messaging service.
//!
//! Users push content-addressed messages into their inbox fragment by
//! fragment and pull them back in arrival order. Every executable function
//! here carries a contract over a mathematical model of the state it
//! touches, and Verus proves the function against it.
//!
//! - [`wire`] holds the message schema, [`hash`] the 32-byte hash value
//!   and the Keccak-256 digest of fragments.
//! - [`blob`] is the blob store: fragments checked against their declared
//!   digests, quota per account, bodies shared and counted by reference.
//! - [`timeline`] is the timeline store: a queue of messages per account,
//!   a read cursor per client.
//! - [`storage`] stitches the two into the seven operations of the
//!   protocol, and [`session`] hands each message of a connection to the
//!   operation it names.
//! - [`upload`] is the writer's side of an upload.
//! - [`laws`] and [`conformance`] state what holds of any sequence of
//!   requests, and of a writer and a hub together.
//! - [`account`], [`pubkey`], [`endpoint`] and [`hexcodec`] hold the
//!   principals and the text forms of keys and endpoints.

pub mod account;
pub mod blob;
pub mod conformance;
pub mod endpoint;
pub mod error;
pub mod hash;
pub mod hexcodec;
pub mod laws;
pub mod pubkey;
pub mod session;
pub mod storage;
pub mod timeline;
pub mod upload;
pub mod wire;

pub use account::{MNSAccount, MNSTypes, UNSAccount};
pub use blob::{Blob, MockBlob};
pub use endpoint::{SyncEndpoint, SyncEndpointError};
pub use error::{StorageError, SyncError};
pub use hash::{keccack256, Hash32};
pub use pubkey::{PublicKey, PublicKeyBuff, PublicKeyError};
pub use session::{DimspHubSession, DismpError};
pub use storage::{DimspHubStorage, MockStorage, StreamTable};
pub use timeline::{account_key, entry_key, Account, ClientCursor, MockTimeline};
pub use upload::{split_fragments, Upload, UploadError, UploadPhase, UploadStep};
pub use wire::{
    CloseInboxStream, CloseInboxStreamAck, CloseWriteStream, CloseWriteStreamAck, FragmentAckType,
    IdGenerator, Inbox, MessageType, OpenNextInboxStreamAck, OpenNextInboxStreamAckType,
    OpenReadStream, OpenWriteStream, OpenWriteStreamAck, OpenWriteStreamAckType, Payload,
    ReadFragment, ReadFragmentAck, SyncMessage, WriteFragment, WriteFragmentAck,
};
