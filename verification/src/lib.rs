//! Content auditing for shared web hosting: fingerprints the files under the document
//! roots of a server's accounts, records what the live sites answer, keeps one changeset
//! for each account and scan, and compares changesets.
//!
//! The library holds the rules and the formats; reading directories and files, asking
//! the network and the system for anything, and running scans side by side are left to
//! the program that uses it.

pub mod base;
pub mod codec;
pub mod diff;
pub mod domain;
pub mod extension;
pub mod history;
pub mod ident;
pub mod json;
pub mod json_read;
pub mod process;
pub mod scan;
pub mod store;
pub mod structs;
pub mod text;
pub mod utils;
