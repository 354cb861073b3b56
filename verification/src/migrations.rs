use vstd::prelude::*;

use vstd::string::StringExecFns;
use vstd::utf8::{decode_utf8, encode_utf8};

use crate::keys::bytes_eq;

verus! {

/// String equality, through the UTF-8 encodings of the two sides.
fn str_eq(a: &str, b: &str) -> (r: bool)
    ensures
        r == (a@ == b@),
{
    let r = bytes_eq(a.as_bytes(), b.as_bytes());
    proof {
        broadcast use vstd::utf8::encode_utf8_decode_utf8;

        if encode_utf8(a@) == encode_utf8(b@) {
            assert(decode_utf8(encode_utf8(a@)) == decode_utf8(encode_utf8(b@)));
        }
    }
    r
}

/// What the schema-migration machinery reads and changes: which tables,
/// columns and indexes exist, and the rows of the migrations table in insert
/// order.
pub struct Schema {
    pub has_messages_table: bool,
    pub has_users_table: bool,
    pub has_migrations_table: bool,
    pub has_tracking_id_column: bool,
    pub has_user_id_index: bool,
    pub has_tracking_id_index: bool,
    pub migrations: Vec<String>,
}

/// The mathematical value of a schema.
pub struct SchemaV {
    pub has_messages_table: bool,
    pub has_users_table: bool,
    pub has_migrations_table: bool,
    pub has_tracking_id_column: bool,
    pub has_user_id_index: bool,
    pub has_tracking_id_index: bool,
    pub migrations: Seq<Seq<char>>,
}

impl View for Schema {
    type V = SchemaV;

    open spec fn view(&self) -> SchemaV {
        SchemaV {
            has_messages_table: self.has_messages_table,
            has_users_table: self.has_users_table,
            has_migrations_table: self.has_migrations_table,
            has_tracking_id_column: self.has_tracking_id_column,
            has_user_id_index: self.has_user_id_index,
            has_tracking_id_index: self.has_tracking_id_index,
            migrations: self.migrations@.map_values(|s: String| s@),
        }
    }
}

/// Whether the migrations table records a step under this name.
pub open spec fn has_migration(s: SchemaV, name: Seq<char>) -> bool {
    s.has_migrations_table && s.migrations.contains(name)
}

/// What the first migration step does: where no `init` row exists, create
/// the three tables and record `init`.
pub open spec fn spec_init(s: SchemaV) -> SchemaV {
    if has_migration(s, "init"@) {
        s
    } else {
        SchemaV {
            has_messages_table: true,
            has_users_table: true,
            has_migrations_table: true,
            migrations: s.migrations.push("init"@),
            ..s
        }
    }
}

/// What the second migration step does: where no `tracking_ids` row exists,
/// add the tracking-id column and the two indexes, and record `tracking_ids`.
pub open spec fn spec_tracking_ids(s: SchemaV) -> SchemaV {
    if has_migration(s, "tracking_ids"@) {
        s
    } else {
        SchemaV {
            has_tracking_id_column: true,
            has_user_id_index: true,
            has_tracking_id_index: true,
            migrations: s.migrations.push("tracking_ids"@),
            ..s
        }
    }
}

/// What a full migration run does: both steps, in order.
pub open spec fn spec_migrate(s: SchemaV) -> SchemaV {
    spec_tracking_ids(spec_init(s))
}

/// Whether one of the recorded names equals `name`.
fn names_contain(rows: &Vec<String>, name: &str) -> (r: bool)
    ensures
        r == rows@.map_values(|s: String| s@).contains(name@),
{
    let ghost smap = rows@.map_values(|s: String| s@);
    let n = rows.len();
    for i in 0..n
        invariant
            n == rows@.len(),
            smap == rows@.map_values(|s: String| s@),
            forall|j: int| 0 <= j < i ==> smap[j] != name@,
    {
        proof {
            assert(smap[i as int] == rows@[i as int]@);
        }
        if str_eq(rows[i].as_str(), name) {
            proof {
                assert(smap.contains(name@));
            }
            return true;
        }
    }
    proof {
        assert(smap.len() == rows@.len());
        if smap.contains(name@) {
            let j = choose|j: int| 0 <= j < smap.len() && smap[j] == name@;
            assert(false);
        }
    }
    false
}

/// The first, name-gated migration step.
pub fn init(schema: &mut Schema)
    ensures
        final(schema)@ == spec_init(old(schema)@),
{
    let ghost pre = schema@;
    let run = !schema.has_migrations_table || !names_contain(&schema.migrations, "init");
    if run {
        schema.has_messages_table = true;
        schema.has_users_table = true;
        schema.has_migrations_table = true;
        schema.migrations.push(String::from_str("init"));
        proof {
            assert(schema@.migrations =~= pre.migrations.push("init"@));
        }
    }
}

/// The second, name-gated migration step.
pub fn tracking_ids(schema: &mut Schema)
    ensures
        final(schema)@ == spec_tracking_ids(old(schema)@),
{
    let ghost pre = schema@;
    let run = !schema.has_migrations_table || !names_contain(&schema.migrations, "tracking_ids");
    if run {
        schema.has_tracking_id_column = true;
        schema.has_user_id_index = true;
        schema.has_tracking_id_index = true;
        schema.migrations.push(String::from_str("tracking_ids"));
        proof {
            assert(schema@.migrations =~= pre.migrations.push("tracking_ids"@));
        }
    }
}

/// Runs the whole append-only list of migration steps, in order.
pub fn migrate(schema: &mut Schema)
    ensures
        final(schema)@ == spec_migrate(old(schema)@),
{
    init(schema);
    tracking_ids(schema);
}

/// Running the migrations twice gives the same schema as running them once:
/// the second run changes nothing, so it duplicates no row of the migrations
/// table either.
pub proof fn lemma_migrate_idempotent(s: SchemaV)
    ensures
        spec_migrate(spec_migrate(s)) == spec_migrate(s),
{
    let s1 = spec_migrate(s);
    assert(has_migration(s1, "init"@)) by {
        let si = spec_init(s);
        if has_migration(s, "init"@) {
        } else {
            assert(si.migrations.contains("init"@)) by {
                assert(si.migrations.last() == "init"@);
            }
        }
        if has_migration(si, "tracking_ids"@) {
        } else {
            assert(s1.migrations == si.migrations.push("tracking_ids"@));
            let j = choose|j: int|
                0 <= j < si.migrations.len() && si.migrations[j] == "init"@;
            assert(s1.migrations[j] == "init"@);
            assert(s1.migrations.contains("init"@));
        }
    }
    assert(has_migration(s1, "tracking_ids"@)) by {
        let si = spec_init(s);
        if has_migration(si, "tracking_ids"@) {
        } else {
            assert(s1.migrations.last() == "tracking_ids"@);
            assert(s1.migrations.contains("tracking_ids"@));
        }
    }
    assert(spec_init(s1) == s1);
    assert(spec_tracking_ids(s1) == s1);
}

} // verus!
