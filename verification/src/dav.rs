//! WebDAV, CardDAV, ACL, versioning and sync data model.
pub mod extension;
pub mod types;
pub mod acltypes;
pub mod cardtypes;
pub mod synctypes;
pub mod versioningtypes;
pub mod realization;
pub mod error;
pub mod xml;
pub mod decoder;
pub mod coredecoder;
pub mod encoder;
pub mod syncdecoder;
pub mod acldecoder;
pub mod carddecoder;
pub mod versioningdecoder;
pub mod syncencoder;
pub mod aclencoder;
pub mod cardencoder;
pub mod versioningencoder;
pub mod codec_laws;
pub mod caltypes;
pub mod caldecoder;
pub mod calencoder;
pub mod fuzz_input;
