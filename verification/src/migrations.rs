//! Migrations of the wallet database.

use vstd::prelude::*;

pub mod ironwood_pool_code_views;
pub mod orchard_note_version_uniqueness;

verus! {

/// The code of the Orchard pool.
pub const ORCHARD_POOL_CODE: i64 = 3;

/// The code of the Ironwood pool.
pub const IRONWOOD_POOL_CODE: i64 = 4;

/// The migrations that others depend on.
#[derive(Clone, Copy, Debug, PartialEq, Eq, Structural)]
pub enum Dependency {
    /// The tables of the Ironwood note commitment tree.
    IronwoodShardtree,
    /// The key scopes in the view of transaction outputs.
    TxOutputsKeyScopes,
    /// The versions of Orchard notes.
    OrchardNoteVersions,
}

/// Why a migration failed. `D` is how the database reports its own errors.
pub enum WalletMigrationError<D> {
    /// What is stored cannot be right.
    CorruptedData(String),
    /// The database failed.
    DbError(D),
    /// The migration with this identifier cannot be undone.
    CannotRevert(u128),
}

/// Why a stored transaction could not be parsed.
pub enum ParseFailure<D> {
    /// What is stored cannot be right.
    CorruptedData(String),
    /// The database failed.
    DbError(D),
    /// Any other reason, in words.
    Other(String),
}

} // verus!
