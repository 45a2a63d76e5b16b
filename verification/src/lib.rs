//! Verified core of a batch file-rename utility.
//!
//! The library validates a batch of rename operations (conflict detection,
//! source-existence checks, containment and traversal-token checks), plans
//! the undo of a batch, builds directory-listing entries from path strings,
//! and sorts folder listings. All filesystem access stays with the caller,
//! which hands the library plain values (path strings and existence flags)
//! and performs the renames only when validation succeeds.

pub mod batch;
pub mod entries;
pub mod fsmodel;
pub mod paths;
