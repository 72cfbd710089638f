//! Allows Orchard and Ironwood notes to have the same action index.

use vstd::prelude::*;

use super::Dependency;
use super::WalletMigrationError;

verus! {

/// The identifier of the migration.
pub const MIGRATION_ID: u128 = 0x2aa44e8e_e8a7_4760_8de4_501956c969ac;

/// The statements of the migration. The table of received Orchard notes is made anew, so that the
/// version of a note counts among what tells it from others, and its rows and indices are kept.
pub const UP: &'static str =
    "DROP INDEX IF EXISTS idx_orchard_received_notes_account;
     DROP INDEX IF EXISTS idx_orchard_received_notes_address;
     DROP INDEX IF EXISTS idx_orchard_received_notes_tx;
     DROP INDEX IF EXISTS idx_orchard_received_notes_witness_stabilized;
     DROP INDEX IF EXISTS orchard_received_notes_account;
     DROP INDEX IF EXISTS orchard_received_notes_tx;

     PRAGMA legacy_alter_table = ON;

     CREATE TABLE orchard_received_notes_new (
         id INTEGER PRIMARY KEY,
         transaction_id INTEGER NOT NULL
             REFERENCES transactions(id_tx) ON DELETE CASCADE,
         action_index INTEGER NOT NULL,
         account_id INTEGER NOT NULL
             REFERENCES accounts(id) ON DELETE CASCADE,
         diversifier BLOB NOT NULL,
         value INTEGER NOT NULL,
         rho BLOB NOT NULL,
         rseed BLOB NOT NULL,
         nf BLOB UNIQUE,
         is_change INTEGER NOT NULL,
         memo BLOB,
         commitment_tree_position INTEGER,
         recipient_key_scope INTEGER,
         address_id INTEGER
             REFERENCES addresses(id) ON DELETE CASCADE,
         witness_stabilized INTEGER NOT NULL DEFAULT 0,
         note_version INTEGER NOT NULL DEFAULT 2,
         UNIQUE (transaction_id, action_index, note_version)
     );

     INSERT INTO orchard_received_notes_new (
         id, transaction_id, action_index, account_id,
         diversifier, value, rho, rseed, nf, is_change, memo,
         commitment_tree_position, recipient_key_scope, address_id,
         witness_stabilized, note_version
     )
     SELECT
         id, transaction_id, action_index, account_id,
         diversifier, value, rho, rseed, nf, is_change, memo,
         commitment_tree_position, recipient_key_scope, address_id,
         witness_stabilized, note_version
     FROM orchard_received_notes;

     DROP TABLE orchard_received_notes;
     ALTER TABLE orchard_received_notes_new RENAME TO orchard_received_notes;

     CREATE INDEX idx_orchard_received_notes_account
         ON orchard_received_notes (account_id ASC);
     CREATE INDEX idx_orchard_received_notes_address
         ON orchard_received_notes (address_id ASC);
     CREATE INDEX idx_orchard_received_notes_tx
         ON orchard_received_notes (transaction_id ASC);
     CREATE INDEX idx_orchard_received_notes_witness_stabilized
         ON orchard_received_notes (witness_stabilized);

     PRAGMA legacy_alter_table = OFF;";

/// The migration.
pub struct Migration;

impl Migration {
    /// The identifier of the migration.
    pub fn id(&self) -> (r: u128)
        ensures
            r == MIGRATION_ID,
    {
        MIGRATION_ID
    }

    /// The migrations that come before.
    pub fn dependencies(&self) -> (r: Vec<Dependency>)
        ensures
            r@ == seq![Dependency::OrchardNoteVersions],
    {
        let mut dependencies: Vec<Dependency> = Vec::new();
        dependencies.push(Dependency::OrchardNoteVersions);
        assert(dependencies@ =~= seq![Dependency::OrchardNoteVersions]);
        dependencies
    }

    /// What the migration does, in words.
    pub fn description(&self) -> (r: &'static str)
        ensures
            r@ == "Adds note version to Orchard received-note uniqueness."@,
    {
        "Adds note version to Orchard received-note uniqueness."
    }

    /// The statements of the migration.
    pub fn up(&self) -> (r: &'static str)
        ensures
            r@ == UP@,
    {
        UP
    }

    /// The migration cannot be undone.
    pub fn down<D>(&self) -> (r: Result<(), WalletMigrationError<D>>)
        ensures
            r matches Err(WalletMigrationError::CannotRevert(id)) && id == MIGRATION_ID,
    {
        Err(WalletMigrationError::CannotRevert(MIGRATION_ID))
    }
}

} // verus!
