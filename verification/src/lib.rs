//! Migration engine for a lightweight object-relational mapper.
//!
//! The library models an abstract database schema (`adb`), diffs two
//! schemas into an ordered list of operations (`diff`), renders those
//! operations into backend-specific SQL (`backend`), persists the chain
//! of migrations through a narrow filesystem interface (`fs`,
//! `migrations`), and tracks which migrations have been applied in a
//! bookkeeping table inside the target database (`db`).

use vstd::prelude::*;

pub mod adb;
pub mod backend;
pub mod db;
pub mod diff;
pub mod fs;
pub mod json;
pub mod migrations;

verus! {

/// The closed set of errors the engine surfaces across its boundary.
#[derive(Debug)]
pub enum Error {
    /// An I/O operation failed because the object was absent.
    IoNotFound,
    /// Any other I/O failure.
    Io,
    /// A stored file did not hold the expected serialized form.
    Serde,
    /// A problem with the migration chain itself.
    MigrationError(String),
    /// An operation list that cannot be rendered for the backend.
    InvalidMigration(String),
    /// A deferred type reference that cannot be resolved; carries the key.
    UnknownType(String),
    /// A lookup that found nothing.
    NoSuchObject,
    /// A row of unexpected width.
    BoundsError,
}

} // verus!
