//! SQLite table definitions and migrations.
//!
//! The statements are run once on startup, in order; each is idempotent
//! (`CREATE ... IF NOT EXISTS`), so running them on an existing database is
//! safe. A failure stops the run: the database is then partly migrated and
//! the node must not start.

use vstd::prelude::*;

verus! {

/// The `swaps` table.
pub const MIGRATION_SWAPS: &'static str = "
    CREATE TABLE IF NOT EXISTS swaps (
        id               INTEGER PRIMARY KEY AUTOINCREMENT,

        -- Pool identity
        pool_address     TEXT    NOT NULL,

        -- Block context
        block_number     INTEGER NOT NULL,
        block_timestamp  INTEGER NOT NULL,   -- Unix epoch seconds

        -- Transaction identity
        tx_hash          TEXT    NOT NULL,
        log_index        INTEGER NOT NULL,   -- position within the tx

        -- Participants
        sender           TEXT    NOT NULL,   -- caller of pool.swap()
        recipient        TEXT    NOT NULL,   -- receiver of output tokens

        -- Token deltas (signed decimal strings to handle i128)
        -- Positive  → tokens flowed INTO the pool
        -- Negative  → tokens flowed OUT of the pool
        amount0          TEXT    NOT NULL,
        amount1          TEXT    NOT NULL,

        -- Post-swap pool state — sufficient to reconstruct current price
        sqrt_price_x96   TEXT    NOT NULL,   -- 0x-hex U256
        liquidity        TEXT    NOT NULL,   -- 0x-hex u128; active range liquidity
        tick             INTEGER NOT NULL,   -- i32; current tick after swap

        -- Deduplication: a given log occupies exactly one position in a tx
        UNIQUE (tx_hash, log_index)
    );
    ";

/// Index of `swaps` by pool and block, for historical and live sync.
pub const MIGRATION_SWAPS_INDEX: &'static str = "
    CREATE INDEX IF NOT EXISTS idx_swaps_pool_block
        ON swaps (pool_address, block_number);
    ";

/// The `liquidity_changes` table, shared by mints and burns.
pub const MIGRATION_LIQUIDITY_CHANGES: &'static str = "
    CREATE TABLE IF NOT EXISTS liquidity_changes (
        id               INTEGER PRIMARY KEY AUTOINCREMENT,

        -- Discriminator: 'mint' | 'burn'
        event_type       TEXT    NOT NULL CHECK (event_type IN ('mint', 'burn')),

        -- Pool identity
        pool_address     TEXT    NOT NULL,

        -- Block context
        block_number     INTEGER NOT NULL,
        block_timestamp  INTEGER NOT NULL,

        -- Transaction identity
        tx_hash          TEXT    NOT NULL,
        log_index        INTEGER NOT NULL,

        -- Position owner (both events); the address that holds the LP position
        owner            TEXT    NOT NULL,

        -- Mint-only: the address that initiated the mint (may differ from owner
        -- when a router/manager contract is used).  NULL for burns.
        sender           TEXT,

        -- Position tick bounds
        tick_lower       INTEGER NOT NULL,
        tick_upper       INTEGER NOT NULL,

        -- Liquidity units added (mint) or removed (burn) — 0x-hex u128.
        -- This is raw V3 liquidity, NOT a token amount.
        amount           TEXT    NOT NULL,

        -- Actual token amounts moved — 0x-hex u128; always non-negative
        amount0          TEXT    NOT NULL,
        amount1          TEXT    NOT NULL,

        -- Deduplication
        UNIQUE (tx_hash, log_index)
    );
    ";

/// Index of `liquidity_changes` by pool and block, for replay and incremental updates.
pub const MIGRATION_LIQUIDITY_CHANGES_INDEX: &'static str = "
    CREATE INDEX IF NOT EXISTS idx_lc_pool_block
        ON liquidity_changes (pool_address, block_number);
    ";

/// Index of `liquidity_changes` by pool, owner and tick range, for looking up a position.
pub const MIGRATION_LIQUIDITY_CHANGES_POSITION_INDEX: &'static str = "
    CREATE INDEX IF NOT EXISTS idx_lc_pool_owner_ticks
        ON liquidity_changes (pool_address, owner, tick_lower, tick_upper);
    ";

/// The number of migration statements.
pub const MIGRATION_COUNT: usize = 5;

/// The migration statements, in the order in which they run.
pub open spec fn spec_migrations() -> Seq<&'static str> {
    seq![
        MIGRATION_SWAPS,
        MIGRATION_SWAPS_INDEX,
        MIGRATION_LIQUIDITY_CHANGES,
        MIGRATION_LIQUIDITY_CHANGES_INDEX,
        MIGRATION_LIQUIDITY_CHANGES_POSITION_INDEX,
    ]
}

/// The migration statements, in the order in which they run.
pub fn migrations() -> (r: Vec<&'static str>)
    ensures
        r@ == spec_migrations(),
        r@.len() == MIGRATION_COUNT,
{
    let mut r = Vec::new();
    r.push(MIGRATION_SWAPS);
    r.push(MIGRATION_SWAPS_INDEX);
    r.push(MIGRATION_LIQUIDITY_CHANGES);
    r.push(MIGRATION_LIQUIDITY_CHANGES_INDEX);
    r.push(MIGRATION_LIQUIDITY_CHANGES_POSITION_INDEX);
    assert(r@ =~= spec_migrations());
    r
}

/// What a migration run does next.
#[derive(Debug, Clone, Copy, PartialEq, Eq, Structural)]
pub enum MigrationStep {
    /// Execute the statement at this position of [`migrations`].
    Execute(usize),
    /// Every statement ran: the run succeeded.
    Complete,
    /// The last statement failed: stop and report its error.
    Abort,
}

/// The next step of a migration run that has executed `executed` statements,
/// the last of which failed if `last_failed`.
pub fn next_migration_step(executed: usize, last_failed: bool) -> (r: MigrationStep)
    ensures
        last_failed ==> r == MigrationStep::Abort,
        !last_failed && executed < MIGRATION_COUNT ==> r == MigrationStep::Execute(executed),
        !last_failed && executed >= MIGRATION_COUNT ==> r == MigrationStep::Complete,
{
    if last_failed {
        MigrationStep::Abort
    } else if executed < MIGRATION_COUNT {
        MigrationStep::Execute(executed)
    } else {
        MigrationStep::Complete
    }
}

} // verus!
