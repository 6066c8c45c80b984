use rusqlite::types::Value as SqlValue;
use rusqlite::Connection;

use pinky::error::{PinkyError, ValidationKind};
use pinky::frontmatter::UpsertStatement;
use pinky::library::Library;
use pinky::value::Value;

/// Bind the library's dynamic values as relational parameters.
fn sql_params(params: &[Value]) -> Vec<SqlValue> {
    params
        .iter()
        .map(|v| match v {
            Value::Null => SqlValue::Null,
            Value::Bool(b) => SqlValue::Integer(if *b { 1 } else { 0 }),
            Value::Int(i) => SqlValue::Integer(*i),
            Value::Float(t) => SqlValue::Real(t.parse::<f64>().unwrap()),
            Value::Str(s) => SqlValue::Text(s.clone()),
        })
        .collect()
}

fn run_upsert(conn: &Connection, u: &UpsertStatement) {
    conn.execute(&u.sql, rusqlite::params_from_iter(sql_params(&u.params))).unwrap();
}

#[test]
fn create_library_builds_the_default_table() {
    let plan = Library::new("kb", None).unwrap();
    assert_eq!(plan.config_file_name, "kb.yaml");
    assert_eq!(plan.config_text, "schema_dir: schemas\ndefault_schema: note\n");
    assert_eq!(plan.schema_dir, "schemas");
    assert_eq!(plan.schema_file_name, "note.yaml");
    assert_eq!(plan.db_file_name, "kb.db");
    assert_eq!(
        plan.ddl,
        "CREATE TABLE IF NOT EXISTS note (id TEXT PRIMARY KEY, archived INTEGER, title TEXT NOT NULL)"
    );

    let conn = Connection::open_in_memory().unwrap();
    conn.execute(&plan.ddl, []).unwrap();
    let mut stmt = conn.prepare("PRAGMA table_info(note)").unwrap();
    let cols: Vec<(String, String, bool, bool)> = stmt
        .query_map([], |row| {
            Ok((
                row.get::<_, String>(1)?,
                row.get::<_, String>(2)?,
                row.get::<_, bool>(3)?,
                row.get::<_, i64>(5)? == 1,
            ))
        })
        .unwrap()
        .map(|r| r.unwrap())
        .collect();
    assert_eq!(
        cols,
        vec![
            (String::from("id"), String::from("TEXT"), false, true),
            (String::from("archived"), String::from("INTEGER"), false, false),
            (String::from("title"), String::from("TEXT"), true, false),
        ]
    );
}

#[test]
fn reissuing_a_table_definition_is_a_no_op() {
    let plan = Library::new("kb", None).unwrap();
    let conn = Connection::open_in_memory().unwrap();
    conn.execute(&plan.ddl, []).unwrap();
    let lib = plan.library;
    let ddl = lib.commit_schema(&plan.schema_file_text).unwrap();
    conn.execute(&ddl, []).unwrap();
}

#[test]
fn new_page_with_known_id_writes_the_expected_file() {
    let plan = Library::new("kb", None).unwrap();
    let lib = plan.library;
    let page = lib.new_page_with_id(Some(&plan.schema_file_text), "U").unwrap();
    assert_eq!(page.file_name, "note.U.md");
    assert_eq!(
        page.contents,
        "---\nid: U\nschema: note\narchived: false\ntitle: null\n---\n"
    );
}

#[test]
fn new_page_without_schema_file_is_not_found() {
    let lib = Library::new("kb", None).unwrap().library;
    assert!(matches!(lib.new_page(None), Err(PinkyError::NotFound)));
    assert!(matches!(lib.new_page_with_id(None, "U"), Err(PinkyError::NotFound)));
    assert!(matches!(
        lib.new_page_with_id(Some("not a schema"), "U"),
        Err(PinkyError::Format)
    ));
}

#[test]
fn commit_rejects_mismatched_identity() {
    let plan = Library::new("kb", None).unwrap();
    let lib = plan.library;
    let page = lib.new_page_with_id(Some(&plan.schema_file_text), "U").unwrap();
    let r = lib.commit_page("note.V.md", &page.contents, Some(&plan.schema_file_text));
    assert!(matches!(r, Err(PinkyError::Consistency)));
    let r = lib.commit_page("draft.U.md", &page.contents, Some(&plan.schema_file_text));
    assert!(matches!(r, Err(PinkyError::Consistency)));
}

#[test]
fn commit_without_schema_file_is_not_found() {
    let plan = Library::new("kb", None).unwrap();
    let lib = plan.library;
    let page = lib.new_page_with_id(Some(&plan.schema_file_text), "U").unwrap();
    let r = lib.commit_page(&page.file_name, &page.contents, None);
    assert!(matches!(r, Err(PinkyError::NotFound)));
}

#[test]
fn commit_rejects_malformed_filename_and_document() {
    let plan = Library::new("kb", None).unwrap();
    let lib = plan.library;
    let page = lib.new_page_with_id(Some(&plan.schema_file_text), "U").unwrap();
    let r = lib.commit_page("nodots", &page.contents, Some(&plan.schema_file_text));
    assert!(matches!(r, Err(PinkyError::Format)));
    let r = lib.commit_page(&page.file_name, "no delimiters", Some(&plan.schema_file_text));
    assert!(matches!(r, Err(PinkyError::Format)));
}

#[test]
fn commit_flow_rejects_then_stores_one_row() {
    let plan = Library::new("kb", None).unwrap();
    let conn = Connection::open_in_memory().unwrap();
    conn.execute(&plan.ddl, []).unwrap();
    let lib = plan.library;
    let schema_text = plan.schema_file_text;

    // the fresh page still has a null title: the commit is rejected and no
    // row is written
    let page = lib.new_page_with_id(Some(&schema_text), "U").unwrap();
    let r = lib.commit_page(&page.file_name, &page.contents, Some(&schema_text));
    match r {
        Err(PinkyError::Validation(e)) => {
            assert_eq!(e.property, "title");
            assert_eq!(e.kind, ValidationKind::NullNotAllowed);
        },
        other => panic!("unexpected commit outcome: {:?}", other.map(|u| u.sql)),
    }
    let count: i64 = conn.query_row("SELECT COUNT(*) FROM note", [], |r| r.get(0)).unwrap();
    assert_eq!(count, 0);

    // after the user edits the title, the commit stores exactly one row
    let edited = page.contents.replace("title: null", "title: \"Hello\"");
    let u = lib.commit_page(&page.file_name, &edited, Some(&schema_text)).unwrap();
    run_upsert(&conn, &u);
    let rows: Vec<(String, i64, String)> = {
        let mut stmt = conn.prepare("SELECT id, archived, title FROM note").unwrap();
        let it = stmt
            .query_map([], |row| Ok((row.get(0)?, row.get(1)?, row.get(2)?)))
            .unwrap();
        it.map(|r| r.unwrap()).collect()
    };
    assert_eq!(rows, vec![(String::from("U"), 0, String::from("Hello"))]);
}

#[test]
fn committing_twice_keeps_one_row_with_latest_values() {
    let plan = Library::new("kb", None).unwrap();
    let conn = Connection::open_in_memory().unwrap();
    conn.execute(&plan.ddl, []).unwrap();
    let lib = plan.library;
    let schema_text = plan.schema_file_text;

    let page = lib.new_page_with_id(Some(&schema_text), "U").unwrap();
    let first = page.contents.replace("title: null", "title: \"First\"");
    let u = lib.commit_page(&page.file_name, &first, Some(&schema_text)).unwrap();
    run_upsert(&conn, &u);
    run_upsert(&conn, &u);
    let second = page
        .contents
        .replace("title: null", "title: \"Second\"")
        .replace("archived: false", "archived: true");
    let u = lib.commit_page(&page.file_name, &second, Some(&schema_text)).unwrap();
    run_upsert(&conn, &u);

    let rows: Vec<(String, i64, String)> = {
        let mut stmt = conn.prepare("SELECT id, archived, title FROM note").unwrap();
        let it = stmt
            .query_map([], |row| Ok((row.get(0)?, row.get(1)?, row.get(2)?)))
            .unwrap();
        it.map(|r| r.unwrap()).collect()
    };
    assert_eq!(rows, vec![(String::from("U"), 1, String::from("Second"))]);
}

#[test]
fn numeric_values_reach_the_store_intact() {
    let schema_text = "name: entry\nproperties:\n  count:\n    type: Int\n    nullable: false\n    default: -7\n  ratio:\n    type: Float\n    nullable: true\n";
    let lib = Library::new("kb", None).unwrap().library;
    let ddl = lib.commit_schema(schema_text).unwrap();
    assert_eq!(
        ddl,
        "CREATE TABLE IF NOT EXISTS entry (id TEXT PRIMARY KEY, count INTEGER NOT NULL, ratio REAL)"
    );
    let conn = Connection::open_in_memory().unwrap();
    conn.execute(&ddl, []).unwrap();

    let page = lib.new_page_with_id(Some(schema_text), "E1").unwrap();
    assert_eq!(
        page.contents,
        "---\nid: E1\nschema: entry\ncount: -7\nratio: null\n---\n"
    );
    let edited = page.contents.replace("ratio: null", "ratio: 2.75");
    let u = lib.commit_page(&page.file_name, &edited, Some(schema_text)).unwrap();
    run_upsert(&conn, &u);
    let row: (String, i64, f64) = conn
        .query_row("SELECT id, count, ratio FROM entry", [], |r| {
            Ok((r.get(0)?, r.get(1)?, r.get(2)?))
        })
        .unwrap();
    assert_eq!(row, (String::from("E1"), -7, 2.75));
}

#[test]
fn open_reads_the_written_configuration() {
    let plan = Library::new("kb", None).unwrap();
    let lib = Library::open("kb", &plan.config_text).unwrap();
    assert_eq!(lib.name, "kb");
    assert_eq!(lib.config.schema_dir, "schemas");
    assert_eq!(lib.config.default_schema, "note");
    assert_eq!(lib.resolve_schema_name(None), "note");
    assert_eq!(lib.resolve_schema_name(Some(&String::from("task"))), "task");
}
