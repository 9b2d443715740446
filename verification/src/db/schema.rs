//! How a stored database is brought to the present schema.

use crate::numbers::{decimal, decimal_i64};
use crate::text::{append, same, texts};
use vstd::prelude::*;

verus! {

/// How many migrations there are: the version of the present schema.
pub const MIGRATION_COUNT: i64 = 2;

/// The version of the present schema.
pub open spec fn latest_version() -> i64 {
    MIGRATION_COUNT
}

/// The statement that takes the schema from version `n` to the next one.
pub open spec fn migration(n: int) -> Seq<char> {
    if n == 0 {
        "ALTER TABLE rss_feeds ADD COLUMN subject_id INTEGER"@
    } else {
        "CREATE TABLE IF NOT EXISTS subject_details(subject_id INTEGER PRIMARY KEY,payload TEXT NOT NULL,updated_at TEXT NOT NULL)"@
    }
}

/// The statement that takes the schema from version `n` to the next one.
fn migration_text(n: i64) -> (text: &'static str)
    ensures
        text@ == migration(n as int),
{
    if n == 0 {
        "ALTER TABLE rss_feeds ADD COLUMN subject_id INTEGER"
    } else {
        "CREATE TABLE IF NOT EXISTS subject_details(subject_id INTEGER PRIMARY KEY,payload TEXT NOT NULL,updated_at TEXT NOT NULL)"
    }
}

/// A migration and the new version number as one transaction.
pub open spec fn migration_batch(n: int) -> Seq<char> {
    "BEGIN; "@ + migration(n) + "; PRAGMA user_version="@ + decimal(n + 1) + "; COMMIT;"@
}

/// The first migration that a database of a version lacks.
pub open spec fn first_missing(current: int) -> int {
    if current < 0 {
        0
    } else if current > MIGRATION_COUNT {
        MIGRATION_COUNT as int
    } else {
        current
    }
}

/// The transactions that take a database of a version to the present schema.
pub open spec fn migrations_from(current: int) -> Seq<Seq<char>> {
    Seq::new(
        (MIGRATION_COUNT - first_missing(current)) as nat,
        |i: int| migration_batch(first_missing(current) + i),
    )
}

/// The version of a database after its migrations.
pub open spec fn version_after(current: i64) -> i64 {
    if current < MIGRATION_COUNT {
        MIGRATION_COUNT
    } else {
        current
    }
}

/// The version of a database after its migrations.
pub fn migrated_version(current: i64) -> (version: i64)
    ensures
        version == version_after(current),
{
    if current < MIGRATION_COUNT {
        MIGRATION_COUNT
    } else {
        current
    }
}

/// The transactions that take a database of a version to the present schema, in order.
/// Each holds one migration and its version number, so that both take effect or
/// neither.
pub fn apply_migrations(current: i64) -> (plan: Vec<String>)
    ensures
        texts(plan@) == migrations_from(current as int),
{
    let mut plan: Vec<String> = Vec::new();
    let from: i64 = if current < 0 {
        0
    } else if current > MIGRATION_COUNT {
        MIGRATION_COUNT
    } else {
        current
    };
    for n in from..MIGRATION_COUNT
        invariant
            from == first_missing(current as int),
            plan@.len() == n - from,
            forall|i: int| 0 <= i < plan@.len() ==> (#[trigger] plan@[i])@ == migration_batch(
                from + i,
            ),
    {
        let mut batch = String::new();
        append(&mut batch, "BEGIN; ");
        append(&mut batch, migration_text(n));
        append(&mut batch, "; PRAGMA user_version=");
        append(&mut batch, decimal_i64(n + 1).as_str());
        append(&mut batch, "; COMMIT;");
        assert(batch@ =~= migration_batch(n as int));
        plan.push(batch);
    }
    assert(texts(plan@) =~= migrations_from(current as int));
    plan
}

/// A database at the present schema needs no migration, and every migration moves it to
/// a version from which the following ones remain.
pub proof fn law_migrations_run_once(current: i64)
    ensures
        migrations_from(version_after(current) as int).len() == 0,
        0 <= current < MIGRATION_COUNT ==> migrations_from(current as int).drop_first()
            == migrations_from(current + 1),
{
    if 0 <= current < MIGRATION_COUNT {
        assert(migrations_from(current as int).drop_first() =~= migrations_from(current + 1));
    }
}

/// The columns that later versions added, with the statements that add them.
pub open spec fn added_columns() -> Seq<(Seq<char>, Seq<char>, Seq<char>)> {
    seq![
        ("rss_items"@, "download_id"@, "ALTER TABLE rss_items ADD COLUMN download_id TEXT"@),
        ("downloads"@, "source_key"@, "ALTER TABLE downloads ADD COLUMN source_key TEXT"@),
        ("rss_feeds"@, "rule_json"@, "ALTER TABLE rss_feeds ADD COLUMN rule_json TEXT"@),
        ("downloads"@, "playback_path"@, "ALTER TABLE downloads ADD COLUMN playback_path TEXT"@),
        ("downloads"@, "files_json"@, "ALTER TABLE downloads ADD COLUMN files_json TEXT"@),
        (
            "sync_queue"@,
            "version"@,
            "ALTER TABLE sync_queue ADD COLUMN version INTEGER NOT NULL DEFAULT 1"@,
        ),
    ]
}

/// Columns as pairs of table and name.
pub open spec fn columns_view(columns: Seq<(String, String)>) -> Seq<(Seq<char>, Seq<char>)> {
    columns.map_values(|c: (String, String)| (c.0@, c.1@))
}

/// The statements that add the first `n` of the later columns that are missing.
pub open spec fn missing_columns(columns: Seq<(Seq<char>, Seq<char>)>, n: int) -> Seq<Seq<char>>
    decreases n,
{
    if n <= 0 {
        Seq::empty()
    } else {
        let before = missing_columns(columns, n - 1);
        let (table, name, statement) = added_columns()[n - 1];
        if columns.contains((table, name)) {
            before
        } else {
            before.push(statement)
        }
    }
}

/// Adds the statement for a column unless the column is there.
fn add_missing(
    plan: &mut Vec<String>,
    columns: &Vec<(String, String)>,
    table: &str,
    name: &str,
    statement: &str,
)
    ensures
        texts(final(plan)@) == if columns_view(columns@).contains((table@, name@)) {
            texts(old(plan)@)
        } else {
            texts(old(plan)@).push(statement@)
        },
{
    let ghost all = columns_view(columns@);
    for i in 0..columns.len()
        invariant
            all == columns_view(columns@),
            *plan == *old(plan),
            forall|j: int| 0 <= j < i ==> #[trigger] all[j] != (table@, name@),
    {
        assert(all[i as int] == (columns@[i as int].0@, columns@[i as int].1@));
        if same(columns[i].0.as_str(), table) && same(columns[i].1.as_str(), name) {
            return ;
        }
    }
    plan.push(statement.to_owned());
    assert(texts(plan@) =~= texts(old(plan)@).push(statement@));
}

/// The statements that add the columns which a stored database lacks.
pub fn column_plan(columns: &Vec<(String, String)>) -> (plan: Vec<String>)
    ensures
        texts(plan@) == missing_columns(columns_view(columns@), added_columns().len() as int),
{
    let mut plan: Vec<String> = Vec::new();
    assert(texts(plan@) =~= Seq::<Seq<char>>::empty());
    add_missing(
        &mut plan,
        columns,
        "rss_items",
        "download_id",
        "ALTER TABLE rss_items ADD COLUMN download_id TEXT",
    );
    add_missing(
        &mut plan,
        columns,
        "downloads",
        "source_key",
        "ALTER TABLE downloads ADD COLUMN source_key TEXT",
    );
    add_missing(
        &mut plan,
        columns,
        "rss_feeds",
        "rule_json",
        "ALTER TABLE rss_feeds ADD COLUMN rule_json TEXT",
    );
    add_missing(
        &mut plan,
        columns,
        "downloads",
        "playback_path",
        "ALTER TABLE downloads ADD COLUMN playback_path TEXT",
    );
    add_missing(
        &mut plan,
        columns,
        "downloads",
        "files_json",
        "ALTER TABLE downloads ADD COLUMN files_json TEXT",
    );
    add_missing(
        &mut plan,
        columns,
        "sync_queue",
        "version",
        "ALTER TABLE sync_queue ADD COLUMN version INTEGER NOT NULL DEFAULT 1",
    );
    proof {
        reveal_with_fuel(missing_columns, 7);
    }
    plan
}

} // verus!
