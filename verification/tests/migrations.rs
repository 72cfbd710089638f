//! Migrations, run on databases in memory.

use ironwood::migrations::ironwood_pool_code_views::{
    ActionCounts, IronwoodRange, Migration as PoolCodeViews, SentTransaction, Step, WalletView,
    MIGRATION_ID as POOL_CODE_VIEWS_ID, RECODE_RANGE, SELECT_TRANSACTIONS,
};
use ironwood::migrations::orchard_note_version_uniqueness::{
    Migration as VersionUniqueness, MIGRATION_ID as VERSION_UNIQUENESS_ID,
};
use ironwood::migrations::{
    Dependency, ParseFailure, WalletMigrationError, IRONWOOD_POOL_CODE, ORCHARD_POOL_CODE,
};

use rusqlite::Connection;

fn counts(orchard: usize, ironwood: usize) -> Result<ActionCounts, ParseFailure<()>> {
    Ok(ActionCounts { orchard, ironwood })
}

fn sent(id_tx: i64, parsed: Result<ActionCounts, ParseFailure<()>>) -> SentTransaction<()> {
    SentTransaction { id_tx, parsed }
}

const MIGRATION: PoolCodeViews<()> = PoolCodeViews { params: () };

fn pool_codes(db: &Connection) -> Vec<(i64, i64, i64)> {
    let mut statement = db
        .prepare("SELECT transaction_id, output_index, output_pool FROM sent_notes ORDER BY 1, 2")
        .unwrap();
    let rows = statement
        .query_map([], |row| Ok((row.get(0)?, row.get(1)?, row.get(2)?)))
        .unwrap();
    rows.map(|row| row.unwrap()).collect()
}

#[test]
fn ironwood_pool_code_views_migrate() {
    let db = Connection::open_in_memory().unwrap();
    db.execute_batch(
        "CREATE TABLE transactions (id_tx INTEGER PRIMARY KEY, raw BLOB, mined_height INTEGER,
            expiry_height INTEGER);
         CREATE TABLE sent_notes (transaction_id INTEGER, output_pool INTEGER,
            output_index INTEGER);
         CREATE TABLE orchard_received_notes (transaction_id INTEGER, action_index INTEGER,
            note_version INTEGER);
         CREATE VIEW v_received_outputs AS SELECT 1 AS x;
         CREATE VIEW v_received_output_spends AS SELECT 1 AS x;
         CREATE VIEW v_transactions AS SELECT 1 AS x;
         CREATE VIEW v_tx_outputs AS SELECT 1 AS x;
         INSERT INTO transactions VALUES (1, x'01', NULL, NULL), (2, x'02', 5, NULL),
            (3, NULL, NULL, NULL);
         INSERT INTO sent_notes VALUES (1, 3, 0), (1, 3, 2), (1, 3, 3), (1, 2, 2), (2, 3, 0),
            (3, 3, 1), (3, 3, 2);
         INSERT INTO orchard_received_notes VALUES (3, 1, 3), (3, 2, 2);",
    )
    .unwrap();

    for step in MIGRATION.up() {
        match step {
            Step::Execute(statements) => db.execute_batch(statements).unwrap(),
            Step::Backfill => {
                let mut select = db.prepare(SELECT_TRANSACTIONS).unwrap();
                let ids: Vec<i64> = select
                    .query_map([], |row| row.get("id_tx"))
                    .unwrap()
                    .map(|id| id.unwrap())
                    .collect();
                assert_eq!(ids, vec![1, 2]);
                let transactions = ids
                    .into_iter()
                    .map(|id| sent(id, if id == 1 { counts(2, 2) } else { counts(1, 0) }))
                    .collect();
                let ranges =
                    MIGRATION.backfill_sent_ironwood_pool_codes(transactions).ok().unwrap();
                for range in ranges {
                    db.execute(
                        RECODE_RANGE,
                        &[
                            (":transaction_id", &range.id_tx),
                            (":ironwood_start", &range.ironwood_start),
                            (":ironwood_end", &range.ironwood_end),
                        ],
                    )
                    .unwrap();
                }
            }
            Step::CreateView(view) => {
                let name = match view {
                    WalletView::ReceivedOutputs => "v_received_outputs",
                    WalletView::ReceivedOutputSpends => "v_received_output_spends",
                    WalletView::Transactions => "v_transactions",
                    WalletView::TxOutputs => "v_tx_outputs",
                };
                db.execute_batch(&format!("CREATE VIEW {} AS SELECT 2 AS x", name)).unwrap();
            }
        }
    }

    assert_eq!(
        pool_codes(&db),
        vec![
            (1, 0, 3),
            (1, 2, 4),
            (1, 2, 2),
            (1, 3, 4),
            (2, 0, 3),
            (3, 1, 4),
            (3, 2, 3),
        ]
    );
}

#[test]
fn orchard_note_version_uniqueness_migrate() {
    let db = Connection::open_in_memory().unwrap();
    db.execute_batch(
        "CREATE TABLE transactions (id_tx INTEGER PRIMARY KEY);
         CREATE TABLE accounts (id INTEGER PRIMARY KEY);
         CREATE TABLE addresses (id INTEGER PRIMARY KEY);
         CREATE TABLE orchard_received_notes (
             id INTEGER PRIMARY KEY,
             transaction_id INTEGER NOT NULL,
             action_index INTEGER NOT NULL,
             account_id INTEGER NOT NULL,
             diversifier BLOB NOT NULL,
             value INTEGER NOT NULL,
             rho BLOB NOT NULL,
             rseed BLOB NOT NULL,
             nf BLOB UNIQUE,
             is_change INTEGER NOT NULL,
             memo BLOB,
             commitment_tree_position INTEGER,
             recipient_key_scope INTEGER,
             address_id INTEGER,
             witness_stabilized INTEGER NOT NULL DEFAULT 0,
             note_version INTEGER NOT NULL DEFAULT 2,
             UNIQUE (transaction_id, action_index)
         );
         CREATE INDEX orchard_received_notes_tx ON orchard_received_notes (transaction_id);
         INSERT INTO transactions VALUES (1);
         INSERT INTO accounts VALUES (1);
         INSERT INTO orchard_received_notes (transaction_id, action_index, account_id, diversifier,
             value, rho, rseed, is_change) VALUES (1, 0, 1, x'00', 7, x'01', x'02', 0);",
    )
    .unwrap();
    let insert = |version: i64| {
        db.execute(
            "INSERT INTO orchard_received_notes (transaction_id, action_index, account_id,
                 diversifier, value, rho, rseed, is_change, note_version)
             VALUES (1, 0, 1, x'00', 9, x'01', x'02', 0, ?1)",
            [version],
        )
    };
    assert!(insert(3).is_err());

    db.execute_batch(VersionUniqueness.up()).unwrap();

    assert!(insert(2).is_err());
    assert!(insert(3).is_ok());
    let kept: (i64, i64) = db
        .query_row(
            "SELECT value, note_version FROM orchard_received_notes WHERE id = 1",
            [],
            |row| Ok((row.get(0)?, row.get(1)?)),
        )
        .unwrap();
    assert_eq!(kept, (7, 2));
}

#[test]
fn only_ironwood_outputs_are_recoded() {
    let ranges = MIGRATION
        .backfill_sent_ironwood_pool_codes(vec![
            sent(5, counts(2, 3)),
            sent(6, counts(4, 0)),
            sent(7, counts(0, 1)),
        ])
        .ok()
        .unwrap();
    assert_eq!(
        ranges,
        vec![
            IronwoodRange { id_tx: 5, ironwood_start: 2, ironwood_end: 5 },
            IronwoodRange { id_tx: 7, ironwood_start: 0, ironwood_end: 1 },
        ]
    );
    assert_eq!((ORCHARD_POOL_CODE, IRONWOOD_POOL_CODE), (3, 4));
}

#[test]
fn failures_to_parse_are_reported() {
    let fail = |failure| {
        MIGRATION
            .backfill_sent_ironwood_pool_codes(vec![
                sent(1, counts(1, 1)),
                sent(2, Err(failure)),
                sent(3, Err(ParseFailure::DbError(()))),
            ])
            .err()
            .unwrap()
    };
    assert!(matches!(
        fail(ParseFailure::CorruptedData("bad".to_string())),
        WalletMigrationError::CorruptedData(m) if m == "bad"
    ));
    assert!(matches!(fail(ParseFailure::DbError(())), WalletMigrationError::DbError(())));
    assert!(matches!(
        fail(ParseFailure::Other("Oops".to_string())),
        WalletMigrationError::CorruptedData(m)
            if m == "An error was encountered decoding transaction data: Oops"
    ));
}

#[test]
fn migrations_describe_themselves() {
    assert_eq!(MIGRATION.id(), POOL_CODE_VIEWS_ID);
    assert_eq!(
        uuid::Uuid::from_u128(MIGRATION.id()).to_string(),
        "f6fb571a-2e78-4218-a2d2-241b4f787cbf"
    );
    assert_eq!(
        MIGRATION.dependencies(),
        vec![Dependency::IronwoodShardtree, Dependency::TxOutputsKeyScopes]
    );
    assert_eq!(
        MIGRATION.description(),
        "Updates wallet output views to expose Ironwood rows as pool code 4."
    );
    assert!(matches!(
        MIGRATION.down::<()>(),
        Err(WalletMigrationError::CannotRevert(id)) if id == POOL_CODE_VIEWS_ID
    ));
    assert_eq!(VersionUniqueness.id(), VERSION_UNIQUENESS_ID);
    assert_eq!(
        uuid::Uuid::from_u128(VersionUniqueness.id()).to_string(),
        "2aa44e8e-e8a7-4760-8de4-501956c969ac"
    );
    assert_eq!(VersionUniqueness.dependencies(), vec![Dependency::OrchardNoteVersions]);
    assert_eq!(
        VersionUniqueness.description(),
        "Adds note version to Orchard received-note uniqueness."
    );
    assert!(matches!(
        VersionUniqueness.down::<()>(),
        Err(WalletMigrationError::CannotRevert(id)) if id == VERSION_UNIQUENESS_ID
    ));
}
