//! Test assets that are kept outside of version control: each is a file
//! behind a URL, with the SHA-256 digest that its bytes must have. A run
//! fetches what the directory does not hold yet, records the digest of every
//! file it fetched in a manifest beside the files, and passes over the files
//! that the manifest already holds with the right digest.
//!
//! This library holds every rule of such a run and leaves the network and
//! the file system to its caller:
//!
//! - [`digest`]: the digest and its hexadecimal form;
//! - [`hasher`]: the SHA-256 computation, which `sha2` performs;
//! - [`hash_list`] and [`manifest`]: the list of verified files and the text
//!   it is kept in;
//! - [`fetch`]: what one transfer is worth;
//! - [`batch`] and [`run`]: the steps of a run, and what holds of every run;
//! - [`retry`]: when a failed run is made again, as `backon` schedules it;
//! - [`asset`] and [`names`]: the assets by their names, and the filter on
//!   the names.

pub mod asset;
pub mod batch;
pub mod digest;
pub mod error;
pub mod fetch;
pub mod hash_list;
pub mod hasher;
pub mod manifest;
pub mod names;
pub mod retry;
pub mod run;
pub mod text;

pub use asset::{TestAsset, TestAssetDef};
pub use digest::Sha256Hash;
pub use error::TaError;
pub use hasher::Sha256;
