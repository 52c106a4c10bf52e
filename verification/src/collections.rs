//! Mailbox and DAV collection state: named identifier lists, the DAV sync
//! DAG and the IMAP UID index.
pub mod unique_ident;
pub mod ident_list;
pub mod ordered;
pub mod davdag;
pub mod flags;
pub mod mail_collections;
pub mod uidindex;
pub mod uidindex_laws;
pub mod namespace;
