use qcm_backend::fts_schema::{
    create_delete_trigger_sql, create_fts_table_sql, create_insert_trigger_sql,
    create_update_trigger_sql, fts_down_statements, fts_up_statements,
};

fn prefixed(columns: &[&str], p: &str) -> String {
    columns.iter().map(|c| format!("{}{}", p, c)).collect::<Vec<_>>().join(", ")
}

fn table_sql(table_name: &str, columns: &[&str]) -> String {
    let columns_str = columns.join(",");
    format!(
        r#"CREATE VIRTUAL TABLE IF NOT EXISTS {table_name}_fts USING fts5 (
                {columns_str},
                content='{table_name}',
                content_rowid='id',
                tokenize='qcm'
            );"#,
    )
}

fn insert_sql(table_name: &str, columns: &[&str]) -> String {
    let columns_str = columns.join(", ");
    let values_str = prefixed(columns, "new.");
    format!(
        r#"CREATE TRIGGER {table_name}_fts_i AFTER INSERT ON {table_name} BEGIN
                INSERT INTO {table_name}_fts(rowid, {columns_str}) VALUES (new.id, {values_str});
            END;"#,
    )
}

fn delete_sql(table_name: &str, columns: &[&str]) -> String {
    let columns_str = columns.join(", ");
    let values_str = prefixed(columns, "old.");
    format!(
        r#"CREATE TRIGGER {table_name}_fts_d AFTER DELETE ON {table_name} BEGIN
                INSERT INTO {table_name}_fts({table_name}_fts, rowid, {columns_str}) VALUES('delete', old.id, {values_str});
            END;"#,
    )
}

fn update_sql(table_name: &str, columns: &[&str]) -> String {
    let columns_str = columns.join(", ");
    let old_values_str = prefixed(columns, "old.");
    let new_values_str = prefixed(columns, "new.");
    format!(
        r#"CREATE TRIGGER {table_name}_fts_u AFTER UPDATE ON {table_name} BEGIN
                INSERT INTO {table_name}_fts({table_name}_fts, rowid, {columns_str}) VALUES('delete', old.id, {old_values_str});
                INSERT INTO {table_name}_fts(rowid, {columns_str}) VALUES (new.id, {new_values_str});
            END;"#
    )
}

#[test]
fn fts_statements_match_their_templates() {
    for (t, cols) in [("album", vec!["name", "description"]), ("song", vec!["name"]), ("x", vec![])] {
        assert_eq!(create_fts_table_sql(t, &cols), table_sql(t, &cols));
        assert_eq!(create_insert_trigger_sql(t, &cols), insert_sql(t, &cols));
        assert_eq!(create_delete_trigger_sql(t, &cols), delete_sql(t, &cols));
        assert_eq!(create_update_trigger_sql(t, &cols), update_sql(t, &cols));
    }
}

#[test]
fn fts_insert_trigger_text() {
    assert_eq!(
        create_insert_trigger_sql("song", &["name"]),
        "CREATE TRIGGER song_fts_i AFTER INSERT ON song BEGIN\n                INSERT INTO song_fts(rowid, name) VALUES (new.id, new.name);\n            END;"
    );
}

#[test]
fn fts_migration_up_and_down() {
    let up = fts_up_statements();
    assert_eq!(up.len(), 12);
    assert_eq!(up[0], table_sql("album", &["name", "description"]));
    assert_eq!(up[5], insert_sql("artist", &["name", "description"]));
    assert_eq!(up[11], update_sql("song", &["name"]));
    assert_eq!(
        fts_down_statements(),
        vec![
            "DROP TABLE IF EXISTS album_fts;",
            "DROP TABLE IF EXISTS artist_fts;",
            "DROP TABLE IF EXISTS song_fts;"
        ]
    );
}
