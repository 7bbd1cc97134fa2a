//! The store's schema, its versioned upgrade path, and the statements the
//! store runs.
use crate::text::{nat_text, u64_text};
use vstd::prelude::*;
use vstd::string::*;

verus! {

/// The schema version that an opened store ends at.
pub const LATEST_VERSION: usize = 2;

/// One step of the upgrade path.
#[derive(Clone, Copy, Debug, PartialEq, Eq, Structural)]
pub enum Migration {
    /// Creates the first schema on an empty store.
    GenerateV1,
    /// Turns filters into condition sets and adds root and item filters.
    UpgradeV1ToV2,
}

/// All steps, in order; step `k` takes version `k` to version `k + 1`.
pub open spec fn all_migrations() -> Seq<Migration> {
    seq![Migration::GenerateV1, Migration::UpgradeV1ToV2]
}

/// The version a step ends at.
pub open spec fn target_version(m: Migration) -> nat {
    match m {
        Migration::GenerateV1 => 1,
        Migration::UpgradeV1ToV2 => 2,
    }
}

/// The steps still to run on a store at version `current`.
pub open spec fn pending(current: nat) -> Seq<Migration> {
    if current >= all_migrations().len() {
        Seq::empty()
    } else {
        all_migrations().subrange(current as int, all_migrations().len() as int)
    }
}

/// The version after running `plan` on a store at version `current`.
pub open spec fn version_after(current: nat, plan: Seq<Migration>) -> nat {
    if plan.len() == 0 {
        current
    } else {
        target_version(plan.last())
    }
}

/// The statements of a step but its last, which records the version reached.
pub open spec fn migration_body(m: Migration) -> Seq<char> {
    match m {
        Migration::GenerateV1 => "CREATE TABLE IF NOT EXISTS files(id INTEGER PRIMARY KEY AUTOINCREMENT, name TEXT NOT NULL);
                CREATE TABLE IF NOT EXISTS relationships(id INTEGER PRIMARY KEY, from_name TEXT NOT NULL, to_name TEXT_NOT_NULL);
                CREATE TABLE IF NOT EXISTS filters(id INTEGER PRIMARY KEY, name TEXT_NOT_NULL);
                CREATE TABLE IF NOT EXISTS no_relationship_filters(filter_id INTEGER, side INTEGER, relationship_id INTEGER,
                    FOREIGN KEY(filter_id) REFERENCES filters(id),
                    FOREIGN KEY(relationship_id) REFERENCES relationships(id),
                    UNIQUE(filter_id, side, relationship_id));
                CREATE TABLE IF NOT EXISTS item_relationships(from_id INTEGER, to_id INTEGER, relationship_id INTEGER,
                    FOREIGN KEY(from_id) REFERENCES files(id),
                    FOREIGN KEY(to_id) REFERENCES files(id),
                    FOREIGN KEY(relationship_id) REFERENCES relationships(id),
                    UNIQUE(from_id, to_id, relationship_id));
                "@,
        Migration::UpgradeV1ToV2 => "ALTER TABLE filters RENAME TO condition_sets;
                ALTER TABLE no_relationship_filters RENAME TO no_relationship_conditions;
                ALTER TABLE no_relationship_conditions RENAME COLUMN filter_id TO condition_id;
                CREATE TABLE root_filters(id INTEGER PRIMARY KEY,
                    FOREIGN KEY(id) REFERENCES condition_sets(id));
                INSERT INTO root_filters(id) SELECT id FROM condition_sets;
                CREATE TABLE item_filters(condition INTEGER, filter INTEGER,
                    FOREIGN KEY(condition) REFERENCES condition_sets(id),
                    FOREIGN KEY(filter) REFERENCES condition_sets(id));
                CREATE TABLE has_relationship_with_variable_item_conditions(
                    condition_id INTEGER, side INTEGER, relationship_id INTEGER,
                    FOREIGN KEY(condition_id) REFERENCES condition_sets(id),
                    FOREIGN KEY(relationship_id) REFERENCES relationships(id));
                CREATE TABLE no_relationship_with_specific_item_conditions(
                    condition_id INTEGER, item_id INTEGER, side INTEGER, relationship_id INTEGER,
                    FOREIGN KEY(condition_id) REFERENCES condition_sets(id),
                    FOREIGN KEY(item_id) REFERENCES files(id),
                    FOREIGN KEY(relationship_id) REFERENCES relationships(id));
                "@,
    }
}

/// The statements of a step: its body, then setting the store's
/// `user_version` to the version the step reaches.
pub open spec fn migration_text(m: Migration) -> Seq<char> {
    migration_body(m) + "PRAGMA user_version = "@ + nat_text(target_version(m)) + ";"@
}

impl Migration {
    fn body(&self) -> (r: &'static str)
        ensures
            r@ == migration_body(*self),
    {
        match self {
            Migration::GenerateV1 => "CREATE TABLE IF NOT EXISTS files(id INTEGER PRIMARY KEY AUTOINCREMENT, name TEXT NOT NULL);
                CREATE TABLE IF NOT EXISTS relationships(id INTEGER PRIMARY KEY, from_name TEXT NOT NULL, to_name TEXT_NOT_NULL);
                CREATE TABLE IF NOT EXISTS filters(id INTEGER PRIMARY KEY, name TEXT_NOT_NULL);
                CREATE TABLE IF NOT EXISTS no_relationship_filters(filter_id INTEGER, side INTEGER, relationship_id INTEGER,
                    FOREIGN KEY(filter_id) REFERENCES filters(id),
                    FOREIGN KEY(relationship_id) REFERENCES relationships(id),
                    UNIQUE(filter_id, side, relationship_id));
                CREATE TABLE IF NOT EXISTS item_relationships(from_id INTEGER, to_id INTEGER, relationship_id INTEGER,
                    FOREIGN KEY(from_id) REFERENCES files(id),
                    FOREIGN KEY(to_id) REFERENCES files(id),
                    FOREIGN KEY(relationship_id) REFERENCES relationships(id),
                    UNIQUE(from_id, to_id, relationship_id));
                ",
            Migration::UpgradeV1ToV2 => "ALTER TABLE filters RENAME TO condition_sets;
                ALTER TABLE no_relationship_filters RENAME TO no_relationship_conditions;
                ALTER TABLE no_relationship_conditions RENAME COLUMN filter_id TO condition_id;
                CREATE TABLE root_filters(id INTEGER PRIMARY KEY,
                    FOREIGN KEY(id) REFERENCES condition_sets(id));
                INSERT INTO root_filters(id) SELECT id FROM condition_sets;
                CREATE TABLE item_filters(condition INTEGER, filter INTEGER,
                    FOREIGN KEY(condition) REFERENCES condition_sets(id),
                    FOREIGN KEY(filter) REFERENCES condition_sets(id));
                CREATE TABLE has_relationship_with_variable_item_conditions(
                    condition_id INTEGER, side INTEGER, relationship_id INTEGER,
                    FOREIGN KEY(condition_id) REFERENCES condition_sets(id),
                    FOREIGN KEY(relationship_id) REFERENCES relationships(id));
                CREATE TABLE no_relationship_with_specific_item_conditions(
                    condition_id INTEGER, item_id INTEGER, side INTEGER, relationship_id INTEGER,
                    FOREIGN KEY(condition_id) REFERENCES condition_sets(id),
                    FOREIGN KEY(item_id) REFERENCES files(id),
                    FOREIGN KEY(relationship_id) REFERENCES relationships(id));
                ",
        }
    }

    /// The version this step reaches.
    pub fn target_version(&self) -> (r: u64)
        ensures
            r == target_version(*self),
    {
        match self {
            Migration::GenerateV1 => 1,
            Migration::UpgradeV1ToV2 => 2,
        }
    }

    /// The statements of this step, run as one batch; the last sets the
    /// store's `user_version` to the version the step reaches.
    pub fn sql(&self) -> (r: String)
        ensures
            r@ == migration_text(*self),
    {
        let text = String::from_str(self.body());
        let text = text.concat("PRAGMA user_version = ");
        let version = u64_text(self.target_version());
        let text = text.concat(version.as_str());
        text.concat(";")
    }
}

/// The steps to run on a store at schema version `current`, skipping those
/// already applied.
pub fn upgrade_plan(current: usize) -> (r: Vec<Migration>)
    ensures
        r@ == pending(current as nat),
{
    let mut plan: Vec<Migration> = Vec::new();
    if current < 1 {
        plan.push(Migration::GenerateV1);
    }
    if current < 2 {
        plan.push(Migration::UpgradeV1ToV2);
    }
    assert(plan@ =~= pending(current as nat));
    plan
}

/// Opening a store at the latest version runs no step; opening a store at
/// any earlier version (an empty store is at 0) runs the remaining steps and
/// ends at the latest version.
pub proof fn lemma_upgrade_reaches_latest(current: nat)
    requires
        current <= LATEST_VERSION,
    ensures
        current == LATEST_VERSION ==> pending(current).len() == 0,
        version_after(current, pending(current)) == LATEST_VERSION,
        current == 0 ==> pending(current) == all_migrations(),
{
    assert(all_migrations().subrange(0, 2) =~= all_migrations());
}

/// Inserts an item row; `?1` is the name.
pub const INSERT_ITEM: &'static str = "INSERT INTO files(name) VALUES (?1)";

/// Deletes the item-relationship rows touching an item; `?1` is its id.
pub const DELETE_ITEM_RELATIONSHIPS: &'static str = "DELETE FROM item_relationships WHERE from_id = ?1 OR to_id = ?1";

/// Deletes an item row; `?1` is its id.
pub const DELETE_ITEM: &'static str = "DELETE FROM files WHERE id = ?1";

/// Inserts a relationship; `?1` and `?2` are its from and to names.
pub const INSERT_RELATIONSHIP: &'static str = "INSERT INTO relationships(from_name, to_name) VALUES (?1, ?2)";

/// Inserts an item-relationship; `?1`, `?2`, `?3` are from, to and relationship ids.
pub const INSERT_ITEM_RELATIONSHIP: &'static str =
    "INSERT INTO item_relationships(from_id, to_id, relationship_id) VALUES (?1, ?2, ?3)";

/// Inserts a condition set; `?1` is its name.
pub const INSERT_CONDITION_SET: &'static str = "INSERT INTO condition_sets(name) VALUES (?1)";

/// Inserts a no-relationship condition: set id, side, relationship id.
pub const INSERT_NO_RELATIONSHIP_CONDITION: &'static str =
    "INSERT INTO no_relationship_conditions(condition_id, side, relationship_id) VALUES (?1, ?2, ?3)";

/// Inserts a variable-item condition: set id, side, relationship id.
pub const INSERT_VARIABLE_ITEM_CONDITION: &'static str =
    "INSERT INTO has_relationship_with_variable_item_conditions(condition_id, side, relationship_id) VALUES (?1, ?2, ?3)";

/// Inserts a specific-item condition: set id, item id, side, relationship id.
pub const INSERT_SPECIFIC_ITEM_CONDITION: &'static str =
    "INSERT INTO no_relationship_with_specific_item_conditions(condition_id, item_id, side, relationship_id) VALUES (?1, ?2, ?3, ?4)";

/// Marks a condition set as a root filter; `?1` is its id.
pub const INSERT_ROOT_FILTER: &'static str = "INSERT INTO root_filters(id) VALUES (?1)";

/// Links the two condition sets of an item filter.
pub const INSERT_ITEM_FILTER: &'static str = "INSERT INTO item_filters(condition, filter) VALUES (?1, ?2)";

/// All item rows: id, name.
pub const SELECT_ITEMS: &'static str = "SELECT id, name FROM files";

/// All item-relationship rows: from id, to id, relationship id.
pub const SELECT_ITEM_RELATIONSHIPS: &'static str =
    "SELECT from_id, to_id, relationship_id FROM item_relationships";

/// All relationships: id, from name, to name.
pub const SELECT_RELATIONSHIPS: &'static str = "SELECT id, from_name, to_name FROM relationships";

/// All condition sets: id, name.
pub const SELECT_CONDITION_SETS: &'static str = "SELECT id, name FROM condition_sets";

/// The no-relationship conditions of a set, as `(0, side, relationship_id)`.
pub const SELECT_NO_RELATIONSHIP_CONDITIONS: &'static str =
    "SELECT 0, side, relationship_id FROM no_relationship_conditions WHERE condition_id = ?1";

/// The variable-item conditions of a set, as `(0, side, relationship_id)`.
pub const SELECT_VARIABLE_ITEM_CONDITIONS: &'static str =
    "SELECT 0, side, relationship_id FROM has_relationship_with_variable_item_conditions WHERE condition_id = ?1";

/// The specific-item conditions of a set, as `(item_id, side, relationship_id)`.
pub const SELECT_SPECIFIC_ITEM_CONDITIONS: &'static str =
    "SELECT item_id, side, relationship_id FROM no_relationship_with_specific_item_conditions WHERE condition_id = ?1";

/// The ids of the root filters.
pub const SELECT_ROOT_FILTERS: &'static str = "SELECT id FROM root_filters";

/// The `(condition, filter)` pairs of the item filters.
pub const SELECT_ITEM_FILTERS: &'static str = "SELECT condition, filter FROM item_filters";

/// The schema version.
pub const SELECT_VERSION: &'static str = "PRAGMA user_version";

} // verus!
