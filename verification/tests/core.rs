use pinky::error::{PinkyError, ValidationKind};
use pinky::frontmatter::Frontmatter;
use pinky::library::{Library, LibraryConfig};
use pinky::schema::{Property, PropertyType, Schema};
use pinky::value::Value;

fn note_schema() -> Schema {
    Schema {
        name: String::from("note"),
        properties: vec![
            (
                String::from("archived"),
                Property {
                    ptype: PropertyType::Bool,
                    nullable: true,
                    default: Some(Value::Bool(false)),
                },
            ),
            (
                String::from("title"),
                Property { ptype: PropertyType::String, nullable: false, default: None },
            ),
        ],
    }
}

fn rich_schema() -> Schema {
    Schema {
        name: String::from("entry"),
        properties: vec![
            (
                String::from("count"),
                Property { ptype: PropertyType::Int, nullable: false, default: Some(Value::Int(-7)) },
            ),
            (
                String::from("label"),
                Property {
                    ptype: PropertyType::String,
                    nullable: true,
                    default: Some(Value::Str(String::from("a: b"))),
                },
            ),
            (
                String::from("ratio"),
                Property {
                    ptype: PropertyType::Float,
                    nullable: true,
                    default: Some(Value::Float(String::from("-0.25"))),
                },
            ),
        ],
    }
}

#[test]
fn schema_serialization_is_canonical() {
    let text = note_schema().to_yaml_string();
    assert_eq!(
        text,
        "name: note\nproperties:\n  archived:\n    type: Bool\n    nullable: true\n    default: false\n  title:\n    type: String\n    nullable: false\n"
    );
}

#[test]
fn schema_round_trip() {
    let s = note_schema();
    let back = Schema::from_yaml_string(&s.to_yaml_string()).unwrap();
    assert_eq!(back, s);
}

#[test]
fn schema_round_trip_rich_values() {
    let s = rich_schema();
    let back = Schema::from_yaml_string(&s.to_yaml_string()).unwrap();
    assert_eq!(back, s);
}

#[test]
fn schema_parse_rejects_unknown_type_tag() {
    let text = "name: note\nproperties:\n  a:\n    type: Blob\n    nullable: true\n";
    assert!(matches!(Schema::from_yaml_string(text), Err(PinkyError::Format)));
}

#[test]
fn schema_parse_rejects_unsorted_properties() {
    let text = "name: note\nproperties:\n  b:\n    type: Int\n    nullable: true\n  a:\n    type: Int\n    nullable: true\n";
    assert!(matches!(Schema::from_yaml_string(text), Err(PinkyError::Format)));
}

#[test]
fn schema_parse_rejects_leading_zero_integer_default() {
    let text = "name: note\nproperties:\n  a:\n    type: Int\n    nullable: true\n    default: 007\n";
    assert!(matches!(Schema::from_yaml_string(text), Err(PinkyError::Format)));
}

#[test]
fn fresh_frontmatter_fills_defaults() {
    let s = note_schema();
    let f = Frontmatter::new("U", &s);
    assert_eq!(f.id, "U");
    assert_eq!(f.schema, "note");
    assert_eq!(
        f.properties,
        vec![
            (String::from("archived"), Value::Bool(false)),
            (String::from("title"), Value::Null),
        ]
    );
}

#[test]
fn fresh_frontmatter_of_covered_schema_is_valid() {
    let s = rich_schema();
    let f = Frontmatter::new("U", &s);
    assert!(f.is_valid(&s));
    assert!(f.validate(&s).is_ok());
}

#[test]
fn frontmatter_document_round_trip() {
    let f = Frontmatter {
        id: String::from("0a1b"),
        schema: String::from("entry"),
        properties: vec![
            (String::from("count"), Value::Int(i64::MIN)),
            (String::from("label"), Value::Str(String::from("a: b, c"))),
            (String::from("ratio"), Value::Float(String::from("3.50"))),
            (String::from("total"), Value::Int(i64::MAX)),
        ],
    };
    let doc = f.to_document_string();
    let back = Frontmatter::from_document(&doc).unwrap();
    assert_eq!(back, f);
}

#[test]
fn frontmatter_block_rendering_is_canonical() {
    let f = Frontmatter::new("U", &note_schema());
    assert_eq!(f.to_yaml_string(), "id: U\nschema: note\narchived: false\ntitle: null\n");
    assert_eq!(
        f.to_document_string(),
        "---\nid: U\nschema: note\narchived: false\ntitle: null\n---\n"
    );
}

#[test]
fn document_body_after_delimiter_is_ignored() {
    let doc = "---\nid: U\nschema: note\narchived: true\ntitle: \"Hi\"\n---\nfree text\nmore ---\n";
    let f = Frontmatter::from_document(doc).unwrap();
    assert_eq!(f.id, "U");
    assert_eq!(
        f.properties,
        vec![
            (String::from("archived"), Value::Bool(true)),
            (String::from("title"), Value::Str(String::from("Hi"))),
        ]
    );
}

#[test]
fn document_without_opening_delimiter_is_rejected() {
    let doc = "id: U\nschema: note\n---\n";
    assert!(matches!(Frontmatter::from_document(doc), Err(PinkyError::Format)));
}

#[test]
fn document_without_closing_delimiter_is_rejected() {
    let doc = "---\nid: U\nschema: note\n";
    assert!(matches!(Frontmatter::from_document(doc), Err(PinkyError::Format)));
}

#[test]
fn unknown_property_is_invalid() {
    let s = note_schema();
    let f = Frontmatter {
        id: String::from("U"),
        schema: String::from("note"),
        properties: vec![(String::from("rating"), Value::Int(3))],
    };
    let e = f.validate(&s).unwrap_err();
    assert_eq!(e.property, "rating");
    assert_eq!(e.kind, ValidationKind::UnknownProperty);
    assert!(!f.is_valid(&s));
}

#[test]
fn null_for_non_nullable_is_invalid() {
    let s = note_schema();
    let f = Frontmatter {
        id: String::from("U"),
        schema: String::from("note"),
        properties: vec![(String::from("title"), Value::Null)],
    };
    let e = f.validate(&s).unwrap_err();
    assert_eq!(e.property, "title");
    assert_eq!(e.kind, ValidationKind::NullNotAllowed);
}

#[test]
fn kind_mismatch_is_invalid() {
    let s = note_schema();
    let f = Frontmatter {
        id: String::from("U"),
        schema: String::from("note"),
        properties: vec![
            (String::from("archived"), Value::Bool(true)),
            (String::from("title"), Value::Int(5)),
        ],
    };
    let e = f.validate(&s).unwrap_err();
    assert_eq!(e.property, "title");
    assert_eq!(e.kind, ValidationKind::TypeMismatch);
}

#[test]
fn integer_against_float_property_is_invalid() {
    let s = rich_schema();
    let f = Frontmatter {
        id: String::from("U"),
        schema: String::from("entry"),
        properties: vec![(String::from("ratio"), Value::Int(1))],
    };
    let e = f.validate(&s).unwrap_err();
    assert_eq!(e.property, "ratio");
    assert_eq!(e.kind, ValidationKind::TypeMismatch);
}

#[test]
fn table_definition_matches_stable_order() {
    let ddl = note_schema().sql_commit_string();
    assert_eq!(
        ddl,
        "CREATE TABLE IF NOT EXISTS note (id TEXT PRIMARY KEY, archived INTEGER, title TEXT NOT NULL)"
    );
}

#[test]
fn upsert_uses_bound_parameters_only() {
    let s = note_schema();
    let f = Frontmatter {
        id: String::from("U"),
        schema: String::from("note"),
        properties: vec![
            (String::from("archived"), Value::Bool(false)),
            (String::from("title"), Value::Str(String::from("x; DROP TABLE note"))),
        ],
    };
    let u = f.sql_commit_string(&s);
    assert_eq!(u.sql, "REPLACE INTO note (id, archived, title) VALUES (?, ?, ?)");
    assert_eq!(
        u.params,
        vec![
            Value::Str(String::from("U")),
            Value::Bool(false),
            Value::Str(String::from("x; DROP TABLE note")),
        ]
    );
}

#[test]
fn config_round_trip() {
    let c = LibraryConfig {
        schema_dir: String::from("schemas"),
        default_schema: String::from("note"),
    };
    let back = LibraryConfig::from_yaml_string(&c.to_yaml_string()).unwrap();
    assert_eq!(back, c);
}

#[test]
fn malformed_config_is_a_config_error() {
    assert!(matches!(
        LibraryConfig::from_yaml_string("schema_dir only"),
        Err(PinkyError::Config)
    ));
    assert!(matches!(Library::open("kb", "nonsense"), Err(PinkyError::Config)));
}

#[test]
fn scaffold_schema_file() {
    let lib = Library::new("kb", None).unwrap().library;
    let sf = lib.new_schema("draft").unwrap();
    assert_eq!(sf.dir, "schemas");
    assert_eq!(sf.file_name, "draft.yaml");
    assert_eq!(sf.contents, "name: draft\nproperties:\n");
    let parsed = Schema::from_yaml_string(&sf.contents).unwrap();
    assert_eq!(parsed.name, "draft");
    assert!(parsed.properties.is_empty());
}

#[test]
fn scaffold_rejects_unusable_name() {
    let lib = Library::new("kb", None).unwrap().library;
    assert!(matches!(lib.new_schema("bad name"), Err(PinkyError::Format)));
    assert!(matches!(lib.new_schema("id"), Err(PinkyError::Format)));
}

#[test]
fn fresh_page_ids_are_usable_in_filenames() {
    let lib = Library::new("kb", None).unwrap().library;
    let schema_text = note_schema().to_yaml_string();
    let page = lib.new_page(Some(&schema_text)).unwrap();
    let (schema, id) = pinky::library::parse_page_file_str(&page.file_name).unwrap();
    assert_eq!(schema, "note");
    assert_eq!(id.chars().count(), 36);
    assert!(id.chars().all(|c| c.is_ascii_alphanumeric() || c == '-'));
    let f = Frontmatter::from_document(&page.contents).unwrap();
    assert_eq!(f.id, id);
    assert_eq!(f.schema, "note");
}

#[test]
fn page_filename_identity() {
    let (schema, id) = pinky::library::parse_page_file_str("note.U.md").unwrap();
    assert_eq!(schema, "note");
    assert_eq!(id, "U");
    assert!(pinky::library::parse_page_file_str("note.md").is_none());
    assert!(pinky::library::parse_page_file_str("note.U.txt").is_none());
}
