//! The SQL tables that hold the record store, and what to do on opening a
//! database with a given schema version.
use vstd::prelude::*;

verus! {

/// The schema version this library writes.
pub const VERSION: i64 = 1;

/// The persistent tables: local records, and the mirror of the server. Safe
/// to run on a database that has them already.
pub const CREATE_SCHEMA_SQL: &'static str = "
CREATE TABLE IF NOT EXISTS moz_extension_data (
    ext_id TEXT NOT NULL PRIMARY KEY,
    data TEXT,
    sync_change_counter INTEGER NOT NULL DEFAULT 1,
    sync_status INTEGER NOT NULL DEFAULT 1
);

CREATE TABLE IF NOT EXISTS moz_extension_data_mirror (
    guid TEXT NOT NULL PRIMARY KEY,
    ext_id TEXT NOT NULL UNIQUE,
    server_modified INTEGER NOT NULL,
    data TEXT
);
";

/// The staging table, which lives for one connection.
pub const CREATE_TEMP_TABLES_SQL: &'static str = "
CREATE TEMP TABLE IF NOT EXISTS moz_extension_data_staging (
    guid TEXT NOT NULL PRIMARY KEY,
    ext_id TEXT NOT NULL,
    server_modified INTEGER NOT NULL,
    data TEXT
);
";

/// What opening a database asks for, given its stored schema version.
#[derive(Debug, Clone, Copy, PartialEq, Eq, Structural)]
pub enum SchemaStep {
    /// A new database: create the schema.
    Create,
    /// The version this library writes: nothing to create.
    Current,
    /// A version from a newer library: store this version, so the newer
    /// library migrates forward again, and create what is missing.
    Downgrade,
    /// An older version, which no migration handles.
    Unsupported,
}

/// The step for a database whose stored schema version is `user_version`.
pub fn schema_step(user_version: i64) -> (r: SchemaStep)
    ensures
        user_version == 0 ==> r == SchemaStep::Create,
        user_version == VERSION ==> r == SchemaStep::Current,
        user_version > VERSION ==> r == SchemaStep::Downgrade,
        user_version != 0 && user_version < VERSION ==> r == SchemaStep::Unsupported,
{
    if user_version == 0 {
        SchemaStep::Create
    } else if user_version == VERSION {
        SchemaStep::Current
    } else if user_version > VERSION {
        SchemaStep::Downgrade
    } else {
        SchemaStep::Unsupported
    }
}

} // verus!
