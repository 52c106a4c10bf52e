//! Collection synchronization for WebDAV (RFC 6578).
use vstd::prelude::*;

use super::extension::Extension;
use super::types as dav;
use super::versioningtypes as vers;

verus! {

/// sync-collection: the REPORT that synchronizes a collection.
#[derive(Debug, PartialEq, Clone)]
pub struct SyncCollection<E: Extension> {
    pub sync_token: SyncTokenRequest,
    pub sync_level: SyncLevel,
    pub limit: Option<vers::Limit>,
    pub prop: dav::PropName<E>,
}

/// sync-token: the token the server handed out, as returned by the client.
#[derive(Debug, PartialEq, Clone)]
pub struct SyncToken(pub String);

/// The token a PROPFIND or sync-collection request carries.
#[derive(Debug, PartialEq, Clone)]
pub enum SyncTokenRequest {
    InitialSync,
    IncrementalSync(String),
}

/// sync-level: the scope of the synchronization.
#[derive(Debug, PartialEq, Clone)]
pub enum SyncLevel {
    One,
    Infinite,
}

impl View for SyncToken {
    type V = Seq<char>;

    /// The token's characters.
    open spec fn view(&self) -> Seq<char> {
        self.0@
    }
}

impl View for SyncTokenRequest {
    /// The token asked from, none for an initial sync.
    type V = Option<Seq<char>>;

    open spec fn view(&self) -> Option<Seq<char>> {
        match self {
            SyncTokenRequest::InitialSync => None,
            SyncTokenRequest::IncrementalSync(s) => Some(s@),
        }
    }
}

impl View for SyncLevel {
    type V = SyncLevel;

    open spec fn view(&self) -> SyncLevel {
        *self
    }
}

} // verus!
