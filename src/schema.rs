//! The records that identities, friends and peers are kept in.
use crate::crypto::KeyPair;
use crate::table::Table;
use vstd::prelude::*;

verus! {

/// A point in time: seconds since the Unix epoch and the nanoseconds past
/// that second.
#[derive(Clone, Copy, Debug, PartialEq, Eq, Structural)]
pub struct Timestamp {
    pub secs: i64,
    pub nanos: u32,
}

/// Relies on `chrono::Utc::now` for the current time; nothing is known of it.
#[verifier::external_body]
pub(crate) fn now() -> (r: Timestamp) {
    let t = chrono::Utc::now();
    Timestamp { secs: t.timestamp(), nanos: t.timestamp_subsec_nanos() }
}

/// The local user's own record: kept private, edited in place.
pub struct UserInfo {
    pub name: String,
    pub status: Option<String>,
    pub keypair: KeyPair,
    /// Identity label (such as "email") to identity value.
    pub identities: Table<String>,
}

/// A friend as listed in a published document.
#[derive(Debug)]
pub struct PublishFriend {
    pub uri: String,
    /// The friend's public key, as base64 text.
    pub pubkey: String,
}

/// The published identity: the payload that gets signed.
#[derive(Debug)]
pub struct PublishUserInfo {
    pub name: String,
    pub status: Option<String>,
    /// The public key, as base64 text.
    pub pubkey: String,
    pub last_updated: Option<Timestamp>,
    pub friends: Vec<PublishFriend>,
    /// Identity label to identity value, in ascending order of labels.
    pub identities: Table<String>,
}

/// A friend in the local table: the identity last fetched, when, and whether
/// the friend is listed in the local user's published document.
#[derive(Debug)]
pub struct FriendInfo {
    pub last_updated: Timestamp,
    pub public: bool,
    pub info: PublishUserInfo,
}

/// A friend of a friend, with its trust score (see `score`).
#[derive(Debug)]
pub struct PeerInfo {
    pub last_updated: Timestamp,
    pub info: PublishUserInfo,
    pub score: u64,
}

/// The friends table, keyed by uri.
pub struct Friends {
    pub map: Table<FriendInfo>,
}

/// The peers table, keyed by uri.
pub struct Peers {
    pub map: Table<PeerInfo>,
}

impl Friends {
    /// An empty friends table.
    pub fn new() -> (r: Friends)
        ensures
            r.map.listing().len() == 0,
            r.map.wf(),
    {
        Friends { map: Table::new() }
    }
}

impl Peers {
    /// An empty peers table.
    pub fn new() -> (r: Peers)
        ensures
            r.map.listing().len() == 0,
            r.map.wf(),
    {
        Peers { map: Table::new() }
    }
}

} // verus!
