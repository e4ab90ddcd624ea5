use propane_migrations::adb::{AColumn, ADB, ATable, DeferredSqlType, SqlType, SqlVal};
use propane_migrations::backend::SqliteBackend;
use propane_migrations::db::{BackendConnection, MemConnection};
use propane_migrations::diff::{diff, Operation};
use propane_migrations::fs::{Filesystem, MemFilesystem};
use propane_migrations::json::{parse_table, table_json};
use propane_migrations::migrations::from_root_and_filesystem;

fn blog_table() -> ATable {
    let mut t = ATable::new("Blog".to_string());
    t.add_column(AColumn::new(
        "id",
        DeferredSqlType::Known(SqlType::BigInt),
        false,
        true,
        None,
    ));
    t.add_column(AColumn::new(
        "name",
        DeferredSqlType::Known(SqlType::Text),
        false,
        false,
        None,
    ));
    t
}

fn blog_with_created() -> ATable {
    let mut t = blog_table();
    t.add_column(AColumn::new(
        "created",
        DeferredSqlType::Known(SqlType::Text),
        false,
        false,
        Some(SqlVal::Text(String::new())),
    ));
    t
}

#[test]
fn diff_of_identical_schemas_is_empty() {
    let mut a = ADB::new();
    a.replace_table(blog_table());
    let mut b = ADB::new();
    b.replace_table(blog_table());
    let ops = diff(&a, &b);
    assert_eq!(ops.len(), 0);
}

#[test]
fn diff_reports_added_table_and_column() {
    let empty = ADB::new();
    let mut one = ADB::new();
    one.replace_table(blog_table());
    let ops = diff(&empty, &one);
    assert_eq!(ops.len(), 1);
    assert!(matches!(ops[0], Operation::AddTable(_)));

    let mut two = ADB::new();
    two.replace_table(blog_with_created());
    let ops = diff(&one, &two);
    assert_eq!(ops.len(), 1);
    match &ops[0] {
        Operation::AddColumn(t, c) => {
            assert_eq!(t, "Blog");
            assert_eq!(c.name, "created");
        }
        other => panic!("unexpected operation {:?}", std::mem::discriminant(other)),
    }
}

#[test]
fn table_json_round_trips() {
    let t = blog_with_created();
    let text = table_json(&t);
    let back = parse_table(&text).expect("canonical text must parse");
    assert_eq!(table_json(&back), text);
    assert_eq!(back.name, "Blog");
    assert_eq!(back.columns.len(), 3);
    assert_eq!(back.columns[2].name, "created");
}

#[test]
fn resolve_rewrites_deferred_reference() {
    let mut db = ADB::new();
    db.replace_table(blog_table());
    let mut post = ATable::new("Post".to_string());
    post.add_column(AColumn::new(
        "id",
        DeferredSqlType::Known(SqlType::BigInt),
        false,
        true,
        None,
    ));
    post.add_column(AColumn::new(
        "blog_id",
        DeferredSqlType::Deferred("Blog.pk".to_string()),
        false,
        false,
        None,
    ));
    db.replace_table(post);
    db.resolve_types().expect("resolution succeeds");
    let resolved = &db.tables[1].columns[1].sqltype;
    assert!(matches!(resolved, DeferredSqlType::Known(SqlType::BigInt)));

    let mut dangling = ADB::new();
    let mut post = ATable::new("Post".to_string());
    post.add_column(AColumn::new(
        "id",
        DeferredSqlType::Known(SqlType::BigInt),
        false,
        true,
        None,
    ));
    post.add_column(AColumn::new(
        "blog_id",
        DeferredSqlType::Deferred("Blog.pk".to_string()),
        false,
        false,
        None,
    ));
    dangling.replace_table(post);
    dangling.remove_table("Blog");
    let err = dangling
        .resolve_types()
        .expect_err("dangling reference fails");
    match err {
        propane_migrations::Error::UnknownType(k) => assert_eq!(k, "Blog.pk"),
        _ => panic!("expected an unknown-type error"),
    }
}

#[test]
fn first_migration_creates_bookkeeping_table() {
    let fs = MemFilesystem::new();
    let mut ms = from_root_and_filesystem("migrations".to_string(), fs);
    let current = ms.get_current();
    current
        .write_table(&mut ms.fs, &blog_table())
        .expect("snapshot written");
    let backend = SqliteBackend::new();
    let m = ms
        .create_migration(&backend, "m1", None)
        .expect("creation succeeds")
        .expect("a migration is created");
    assert_eq!(m.get_name(), "m1");
    let up = m.up_sql(&ms.fs, "sqlite").expect("forward SQL present");
    assert!(up.contains("CREATE TABLE \"Blog\""));
    assert!(up.contains("CREATE TABLE \"propane_migrations\""));
    let st = ms.get_state().expect("state readable");
    assert_eq!(st.latest.as_deref(), Some("m1"));
}

#[test]
fn add_column_renders_alter_and_no_op_returns_none() {
    let fs = MemFilesystem::new();
    let mut ms = from_root_and_filesystem("migrations".to_string(), fs);
    ms.get_current()
        .write_table(&mut ms.fs, &blog_table())
        .expect("snapshot written");
    let backend = SqliteBackend::new();
    ms.create_migration(&backend, "m1", None)
        .expect("creation succeeds")
        .expect("a migration is created");
    ms.get_current()
        .write_table(&mut ms.fs, &blog_with_created())
        .expect("snapshot updated");
    let from = ms
        .get_latest()
        .expect("state readable")
        .expect("m1 is the tip");
    let m2 = ms
        .create_migration(&backend, "m2", Some(from))
        .expect("creation succeeds")
        .expect("a migration is created");
    let up = m2.up_sql(&ms.fs, "sqlite").expect("forward SQL present");
    assert!(up.contains(
        "ALTER TABLE \"Blog\" ADD COLUMN \"created\" TEXT NOT NULL DEFAULT ''"
    ));
    let down = m2.down_sql(&ms.fs, "sqlite").expect("reverse SQL present");
    assert!(down.contains("__propane_tmp"));

    let from = ms
        .get_latest()
        .expect("state readable")
        .expect("m2 is the tip");
    let none = ms
        .create_migration(&backend, "m3", Some(from))
        .expect("creation succeeds");
    assert!(none.is_none());
    let st = ms.get_state().expect("state readable");
    assert_eq!(st.latest.as_deref(), Some("m2"));
}

#[test]
fn apply_records_and_unapplied_shrinks() {
    let fs = MemFilesystem::new();
    let mut ms = from_root_and_filesystem("migrations".to_string(), fs);
    ms.get_current()
        .write_table(&mut ms.fs, &blog_table())
        .expect("snapshot written");
    let backend = SqliteBackend::new();
    ms.create_migration(&backend, "m1", None)
        .expect("creation succeeds")
        .expect("a migration is created");

    let mut conn = MemConnection::new("sqlite".to_string());
    let unapplied = ms.get_unapplied_migrations(&conn).expect("walk succeeds");
    assert_eq!(unapplied.len(), 1);
    assert_eq!(unapplied[0].get_name(), "m1");

    unapplied[0].apply(&ms.fs, &mut conn).expect("apply succeeds");
    assert_eq!(conn.script_count(), 1);
    let last = ms
        .get_last_applied_migration(&conn)
        .expect("walk succeeds")
        .expect("m1 was applied");
    assert_eq!(last.get_name(), "m1");
    let unapplied = ms.get_unapplied_migrations(&conn).expect("walk succeeds");
    assert_eq!(unapplied.len(), 0);
}

#[test]
fn non_canonical_state_record_propagates_an_error() {
    let mut fs = MemFilesystem::new();
    fs.write("migrations/state.json", "{\"latest\": \"m1\"}")
        .expect("write succeeds");
    let ms = from_root_and_filesystem("migrations".to_string(), fs);
    assert!(ms.get_state().is_err());
    assert!(ms.get_latest().is_err());
    assert!(ms.get_all_migrations().is_err());
}

#[test]
fn divergent_migration_leaves_state_untouched() {
    let fs = MemFilesystem::new();
    let mut ms = from_root_and_filesystem("migrations".to_string(), fs);
    ms.get_current()
        .write_table(&mut ms.fs, &blog_table())
        .expect("snapshot written");
    let backend = SqliteBackend::new();
    ms.create_migration(&backend, "m1", None)
        .expect("creation succeeds")
        .expect("a migration is created");
    // a second root migration forks the history: it is created, but the
    // tip is not advanced
    let orphan = ms
        .create_migration(&backend, "orphan", None)
        .expect("creation succeeds")
        .expect("a migration is created");
    assert_eq!(orphan.get_name(), "orphan");
    let st = ms.get_state().expect("state readable");
    assert_eq!(st.latest.as_deref(), Some("m1"));
}
