//! Folder comparison engine: snapshots of two directory trees are reconciled
//! into files missing on either side and files whose content differs, and a
//! comparison result is turned into the tasks that mirror the source onto the
//! destination.

pub mod compare;
pub mod entry;
pub mod hashing;
pub mod laws;
pub mod progress;
pub mod sync;
