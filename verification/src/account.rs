//! Name-service accounts: the principals that connect to the hub.

use crate::pubkey::PublicKey;
use vstd::prelude::*;

verus! {

/// A user-name-service account.
#[derive(Debug, Clone)]
pub struct UNSAccount {
    /// Numeric id, the stable primary key of the account.
    pub id: u64,
    /// Display name.
    pub user_name: String,
}

/// The kinds of mail-name-service account.
#[derive(Debug, Clone, Copy, PartialEq, Eq, Structural)]
pub enum MNSTypes {
    Unicast,
    Multicast,
    ServiceProvider,
}

impl Default for MNSTypes {
    fn default() -> (kind: Self)
        ensures
            kind == MNSTypes::Unicast,
    {
        MNSTypes::Unicast
    }
}

/// A mail-name-service account: the principal of a connection.
#[derive(Debug, Clone)]
pub struct MNSAccount {
    /// The user-name-service account behind it.
    pub uns: UNSAccount,
    /// Kind of account.
    pub account_type: MNSTypes,
    /// The account's public key.
    pub pub_key: PublicKey,
    /// Bytes of inbox storage that the account may use.
    pub quota: u64,
    /// For how many seconds a stored message is retained.
    pub lease: u64,
    /// Binary form of the content identifier of the caller's device key.
    /// Each client of an account reads the inbox with a cursor of its own.
    pub client_id: Vec<u8>,
}

impl Default for UNSAccount {
    fn default() -> (account: Self)
        ensures
            account.id == 0,
            account.user_name@ == Seq::<char>::empty(),
    {
        UNSAccount { id: 0, user_name: String::new() }
    }
}

impl Default for MNSAccount {
    fn default() -> (account: Self)
        ensures
            account.uns.id == 0,
            account.uns.user_name@ == Seq::<char>::empty(),
            account.account_type == MNSTypes::Unicast,
            account.quota == 0,
            account.lease == 0,
            account.client_id@ == Seq::<u8>::empty(),
    {
        MNSAccount {
            uns: UNSAccount::default(),
            account_type: MNSTypes::default(),
            pub_key: PublicKey::default(),
            quota: 0,
            lease: 0,
            client_id: Vec::new(),
        }
    }
}

} // verus!
