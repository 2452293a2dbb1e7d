//! The SQL that sets up full-text search over the library tables: an FTS5
//! table per source table, kept in step with it by three triggers.
use vstd::prelude::*;
use vstd::string::StringExecFns;

verus! {

/// The texts of a list of column names.
pub open spec fn names_view(cs: Seq<&str>) -> Seq<Seq<char>> {
    cs.map_values(|c: &str| c@)
}

/// `parts` joined with `sep` between each two.
pub open spec fn join(parts: Seq<Seq<char>>, sep: Seq<char>) -> Seq<char>
    decreases parts.len(),
{
    if parts.len() == 0 {
        Seq::empty()
    } else if parts.len() == 1 {
        parts[0]
    } else {
        join(parts.drop_last(), sep) + sep + parts.last()
    }
}

/// Each of `parts` with `p` in front.
pub open spec fn prefixed(parts: Seq<Seq<char>>, p: Seq<char>) -> Seq<Seq<char>> {
    parts.map_values(|c: Seq<char>| p + c)
}

/// The statement that creates the FTS5 table of `t` over `cols`.
pub open spec fn fts_table_sql_of(t: Seq<char>, cols: Seq<Seq<char>>) -> Seq<char> {
    "CREATE VIRTUAL TABLE IF NOT EXISTS "@ + t + "_fts USING fts5 (\n                "@ + join(
        cols,
        ","@,
    ) + ",\n                content='"@ + t
        + "',\n                content_rowid='id',\n                tokenize='qcm'\n            );"@
}

/// The trigger that indexes a row inserted into `t`.
pub open spec fn insert_trigger_sql_of(t: Seq<char>, cols: Seq<Seq<char>>) -> Seq<char> {
    "CREATE TRIGGER "@ + t + "_fts_i AFTER INSERT ON "@ + t + " BEGIN\n                INSERT INTO "@
        + t + "_fts(rowid, "@ + join(cols, ", "@) + ") VALUES (new.id, "@ + join(
        prefixed(cols, "new."@),
        ", "@,
    ) + ");\n            END;"@
}

/// The trigger that drops a row deleted from `t` from the index.
pub open spec fn delete_trigger_sql_of(t: Seq<char>, cols: Seq<Seq<char>>) -> Seq<char> {
    "CREATE TRIGGER "@ + t + "_fts_d AFTER DELETE ON "@ + t + " BEGIN\n                INSERT INTO "@
        + t + "_fts("@ + t + "_fts, rowid, "@ + join(cols, ", "@) + ") VALUES('delete', old.id, "@
        + join(prefixed(cols, "old."@), ", "@) + ");\n            END;"@
}

/// The trigger that re-indexes a row updated in `t`: the old values are
/// dropped from the index and the new ones added.
pub open spec fn update_trigger_sql_of(t: Seq<char>, cols: Seq<Seq<char>>) -> Seq<char> {
    "CREATE TRIGGER "@ + t + "_fts_u AFTER UPDATE ON "@ + t + " BEGIN\n                INSERT INTO "@
        + t + "_fts("@ + t + "_fts, rowid, "@ + join(cols, ", "@) + ") VALUES('delete', old.id, "@
        + join(prefixed(cols, "old."@), ", "@) + ");\n                INSERT INTO "@ + t
        + "_fts(rowid, "@ + join(cols, ", "@) + ") VALUES (new.id, "@ + join(
        prefixed(cols, "new."@),
        ", "@,
    ) + ");\n            END;"@
}

/// Appends the names in `parts`, each with `prefix` in front, joined by
/// `sep`.
fn push_joined(out: &mut String, parts: &[&str], prefix: &str, sep: &str)
    ensures
        final(out)@ == old(out)@ + join(prefixed(names_view(parts@), prefix@), sep@),
{
    let ghost start = out@;
    let mut i: usize = 0;
    while i < parts.len()
        invariant
            i <= parts@.len(),
            out@ == start + join(prefixed(names_view(parts@.take(i as int)), prefix@), sep@),
        decreases parts@.len() - i,
    {
        let ghost before = prefixed(names_view(parts@.take(i as int)), prefix@);
        let ghost x = prefix@ + parts@[i as int]@;
        if i > 0 {
            out.append(sep);
        }
        out.append(prefix);
        out.append(parts[i]);
        proof {
            let after = prefixed(names_view(parts@.take(i + 1)), prefix@);
            assert(after =~= before.push(x));
            assert(after.drop_last() =~= before);
            if i == 0 {
                assert(before =~= Seq::<Seq<char>>::empty());
                assert(out@ =~= start + x);
            } else {
                assert(out@ =~= start + join(before, sep@) + sep@ + x);
            }
        }
        i = i + 1;
    }
    proof {
        assert(parts@.take(parts@.len() as int) =~= parts@);
    }
}

proof fn lemma_prefixed_empty(parts: Seq<Seq<char>>)
    ensures
        prefixed(parts, Seq::empty()) == parts,
{
    assert(prefixed(parts, Seq::empty()) =~= parts);
}

pub fn create_fts_table_sql(table_name: &str, columns: &[&str]) -> (sql: String)
    ensures
        sql@ == fts_table_sql_of(table_name@, names_view(columns@)),
{
    let mut s = String::new();
    s.append("CREATE VIRTUAL TABLE IF NOT EXISTS ");
    s.append(table_name);
    s.append("_fts USING fts5 (\n                ");
    push_joined(&mut s, columns, "", ",");
    s.append(",\n                content='");
    s.append(table_name);
    s.append("',\n                content_rowid='id',\n                tokenize='qcm'\n            );");
    proof {
        lemma_prefixed_empty(names_view(columns@));
        assert(""@ =~= Seq::<char>::empty()) by {
            reveal_strlit("");
        }
    }
    s
}

pub fn create_insert_trigger_sql(table_name: &str, columns: &[&str]) -> (sql: String)
    ensures
        sql@ == insert_trigger_sql_of(table_name@, names_view(columns@)),
{
    let mut s = String::new();
    s.append("CREATE TRIGGER ");
    s.append(table_name);
    s.append("_fts_i AFTER INSERT ON ");
    s.append(table_name);
    s.append(" BEGIN\n                INSERT INTO ");
    s.append(table_name);
    s.append("_fts(rowid, ");
    push_joined(&mut s, columns, "", ", ");
    s.append(") VALUES (new.id, ");
    push_joined(&mut s, columns, "new.", ", ");
    s.append(");\n            END;");
    proof {
        lemma_prefixed_empty(names_view(columns@));
        assert(""@ =~= Seq::<char>::empty()) by {
            reveal_strlit("");
        }
    }
    s
}

pub fn create_delete_trigger_sql(table_name: &str, columns: &[&str]) -> (sql: String)
    ensures
        sql@ == delete_trigger_sql_of(table_name@, names_view(columns@)),
{
    let mut s = String::new();
    s.append("CREATE TRIGGER ");
    s.append(table_name);
    s.append("_fts_d AFTER DELETE ON ");
    s.append(table_name);
    s.append(" BEGIN\n                INSERT INTO ");
    s.append(table_name);
    s.append("_fts(");
    s.append(table_name);
    s.append("_fts, rowid, ");
    push_joined(&mut s, columns, "", ", ");
    s.append(") VALUES('delete', old.id, ");
    push_joined(&mut s, columns, "old.", ", ");
    s.append(");\n            END;");
    proof {
        lemma_prefixed_empty(names_view(columns@));
        assert(""@ =~= Seq::<char>::empty()) by {
            reveal_strlit("");
        }
    }
    s
}

pub fn create_update_trigger_sql(table_name: &str, columns: &[&str]) -> (sql: String)
    ensures
        sql@ == update_trigger_sql_of(table_name@, names_view(columns@)),
{
    let mut s = String::new();
    s.append("CREATE TRIGGER ");
    s.append(table_name);
    s.append("_fts_u AFTER UPDATE ON ");
    s.append(table_name);
    s.append(" BEGIN\n                INSERT INTO ");
    s.append(table_name);
    s.append("_fts(");
    s.append(table_name);
    s.append("_fts, rowid, ");
    push_joined(&mut s, columns, "", ", ");
    s.append(") VALUES('delete', old.id, ");
    push_joined(&mut s, columns, "old.", ", ");
    s.append(");\n                INSERT INTO ");
    s.append(table_name);
    s.append("_fts(rowid, ");
    push_joined(&mut s, columns, "", ", ");
    s.append(") VALUES (new.id, ");
    push_joined(&mut s, columns, "new.", ", ");
    s.append(");\n            END;");
    proof {
        lemma_prefixed_empty(names_view(columns@));
        assert(""@ =~= Seq::<char>::empty()) by {
            reveal_strlit("");
        }
    }
    s
}

/// The statements that set up search over table `t`: its FTS5 table and
/// its insert, delete and update triggers, in that order.
pub open spec fn fts_setup_of(t: Seq<char>, cols: Seq<Seq<char>>) -> Seq<Seq<char>> {
    seq![
        fts_table_sql_of(t, cols),
        insert_trigger_sql_of(t, cols),
        delete_trigger_sql_of(t, cols),
        update_trigger_sql_of(t, cols),
    ]
}

pub open spec fn strings_view(v: Seq<String>) -> Seq<Seq<char>> {
    v.map_values(|s: String| s@)
}

/// Appends the statements that set up search over one table.
pub fn create_fts_table_and_triggers(out: &mut Vec<String>, table_name: &str, columns: &[&str])
    ensures
        strings_view(final(out)@) == strings_view(old(out)@) + fts_setup_of(
            table_name@,
            names_view(columns@),
        ),
{
    let a = create_fts_table_sql(table_name, columns);
    let b = create_insert_trigger_sql(table_name, columns);
    let c = create_delete_trigger_sql(table_name, columns);
    let d = create_update_trigger_sql(table_name, columns);
    let ghost v = seq![a@, b@, c@, d@];
    out.push(a);
    out.push(b);
    out.push(c);
    out.push(d);
    proof {
        assert(strings_view(out@) =~= strings_view(old(out)@) + v);
    }
}

/// The tables searched, with their searched columns: albums and artists by
/// name and description, songs by name.
pub open spec fn fts_up_of() -> Seq<Seq<char>> {
    fts_setup_of("album"@, seq!["name"@, "description"@]) + fts_setup_of(
        "artist"@,
        seq!["name"@, "description"@],
    ) + fts_setup_of("song"@, seq!["name"@])
}

/// The statements of the migration that adds search, in the order they run.
pub fn fts_up_statements() -> (v: Vec<String>)
    ensures
        strings_view(v@) == fts_up_of(),
{
    let mut v: Vec<String> = Vec::new();
    let two: [&str; 2] = ["name", "description"];
    let one: [&str; 1] = ["name"];
    proof {
        assert(names_view(two@) =~= seq!["name"@, "description"@]);
        assert(names_view(one@) =~= seq!["name"@]);
        assert(strings_view(v@) =~= Seq::<Seq<char>>::empty());
    }
    create_fts_table_and_triggers(&mut v, "album", two.as_slice());
    create_fts_table_and_triggers(&mut v, "artist", two.as_slice());
    create_fts_table_and_triggers(&mut v, "song", one.as_slice());
    proof {
        assert(strings_view(v@) =~= fts_up_of());
    }
    v
}

/// The statements that undo the migration: the three FTS5 tables are dropped.
pub fn fts_down_statements() -> (v: Vec<String>)
    ensures
        strings_view(v@) == seq![
            "DROP TABLE IF EXISTS album_fts;"@,
            "DROP TABLE IF EXISTS artist_fts;"@,
            "DROP TABLE IF EXISTS song_fts;"@,
        ],
{
    let mut v: Vec<String> = Vec::new();
    v.push(String::from_str("DROP TABLE IF EXISTS album_fts;"));
    v.push(String::from_str("DROP TABLE IF EXISTS artist_fts;"));
    v.push(String::from_str("DROP TABLE IF EXISTS song_fts;"));
    proof {
        assert(strings_view(v@) =~= seq![
            "DROP TABLE IF EXISTS album_fts;"@,
            "DROP TABLE IF EXISTS artist_fts;"@,
            "DROP TABLE IF EXISTS song_fts;"@,
        ]);
    }
    v
}

} // verus!
