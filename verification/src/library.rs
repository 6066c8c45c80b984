//! The library store: configuration, filename conventions, and the planning
//! side of every operation on a library.
//!
//! The embedding application owns the directory tree and the relational
//! connection. Each operation here takes the plain values the application
//! read (file names, file contents) and returns what it must write or
//! execute (file contents, SQL text with bound parameters), so that every
//! decision between reading and writing is verified.

use vstd::prelude::*;

use crate::error::PinkyError;
use crate::frontmatter::{
    doc_text, first_violation, params_view, spec_new_fm, spec_parse_document, upsert_params,
    upsert_sql, Frontmatter, UpsertStatement,
};
use crate::schema::{
    ddl_text, schema_text, spec_parse_schema_text, Property, PropertyType, Schema, SpecProperty,
    SpecSchema,
};
use crate::text::{
    find_ch, is_prefix, spec_join, spec_lines, split_lines, str_eq, string_views, valid_id,
    valid_name,
};
use crate::value::{SpecValue, Value};

verus! {

/// Global configuration of the embedding application: the library opened by
/// default, if any.
pub struct PinkyConfig {
    pub default_lib: Option<String>,
}

/// A library's configuration: the directory its schemas live in, and the
/// schema used when a page is created without naming one.
#[derive(Debug, PartialEq, Eq)]
pub struct LibraryConfig {
    pub schema_dir: String,
    pub default_schema: String,
}

/// The mathematical model of a `LibraryConfig`.
pub ghost struct SpecLibraryConfig {
    pub schema_dir: Seq<char>,
    pub default_schema: Seq<char>,
}

impl View for LibraryConfig {
    type V = SpecLibraryConfig;

    open spec fn view(&self) -> SpecLibraryConfig {
        SpecLibraryConfig { schema_dir: self.schema_dir@, default_schema: self.default_schema@ }
    }
}

pub open spec fn schema_dir_prefix() -> Seq<char> {
    "schema_dir: "@
}

pub open spec fn default_schema_prefix() -> Seq<char> {
    "default_schema: "@
}

/// The text of a library configuration file.
pub open spec fn config_text(c: SpecLibraryConfig) -> Seq<char> {
    spec_join(
        seq![
            schema_dir_prefix() + c.schema_dir,
            default_schema_prefix() + c.default_schema,
        ],
    )
}

/// Decode a library configuration file.
pub open spec fn spec_parse_config(t: Seq<char>) -> Option<SpecLibraryConfig> {
    let lines = spec_lines(t);
    if lines.len() == 2 && is_prefix(schema_dir_prefix(), lines[0]) && valid_name(
        lines[0].skip(schema_dir_prefix().len() as int),
    ) && is_prefix(default_schema_prefix(), lines[1]) && valid_name(
        lines[1].skip(default_schema_prefix().len() as int),
    ) {
        Some(
            SpecLibraryConfig {
                schema_dir: lines[0].skip(schema_dir_prefix().len() as int),
                default_schema: lines[1].skip(default_schema_prefix().len() as int),
            },
        )
    } else {
        None
    }
}

impl LibraryConfig {
    /// Render the configuration in its canonical text form.
    pub fn to_yaml_string(&self) -> (r: String)
        ensures
            r@ == config_text(self@),
    {
        let mut lines: Vec<String> = Vec::new();
        lines.push(String::from_str("schema_dir: ").concat(self.schema_dir.as_str()));
        lines.push(String::from_str("default_schema: ").concat(self.default_schema.as_str()));
        let r = crate::text::join_lines(&lines, 0);
        proof {
            assert(string_views(lines@).skip(0) =~= string_views(lines@));
            assert(string_views(lines@) =~= seq![
                schema_dir_prefix() + self.schema_dir@,
                default_schema_prefix() + self.default_schema@,
            ]);
        }
        r
    }

    /// Decode a configuration file; `Ok` exactly on the canonical form.
    pub fn from_yaml_string(text: &str) -> (r: Result<LibraryConfig, PinkyError>)
        ensures
            match r {
                Ok(c) => spec_parse_config(text@) == Some(c@),
                Err(e) => spec_parse_config(text@) is None && e is Config,
            },
    {
        let lines = split_lines(text);
        let ghost ls = spec_lines(text@);
        proof {
            assert(forall|j: int| 0 <= j < ls.len() ==> ls[j] == lines@[j]@);
        }
        if lines.len() != 2 {
            return Err(PinkyError::Config);
        }
        let l0 = lines[0];
        let sdlen = "schema_dir: ".unicode_len();
        if !crate::text::has_prefix(l0, "schema_dir: ") {
            return Err(PinkyError::Config);
        }
        let sd = l0.substring_char(sdlen, l0.unicode_len());
        proof {
            assert(sd@ =~= ls[0].skip(schema_dir_prefix().len() as int));
        }
        if !crate::text::valid_name_str(sd) {
            return Err(PinkyError::Config);
        }
        let l1 = lines[1];
        let dslen = "default_schema: ".unicode_len();
        if !crate::text::has_prefix(l1, "default_schema: ") {
            return Err(PinkyError::Config);
        }
        let ds = l1.substring_char(dslen, l1.unicode_len());
        proof {
            assert(ds@ =~= ls[1].skip(default_schema_prefix().len() as int));
        }
        if !crate::text::valid_name_str(ds) {
            return Err(PinkyError::Config);
        }
        Ok(
            LibraryConfig {
                schema_dir: String::from_str(sd),
                default_schema: String::from_str(ds),
            },
        )
    }
}

/// A page bound to the schema it was created from.
pub struct Page {
    pub id: String,
    pub schema: Schema,
}

/// A library: its name (the last segment of its root directory) and its
/// configuration. The directory tree and the relational connection that
/// realize it are owned by the embedding application.
#[derive(Debug)]
pub struct Library {
    pub name: String,
    pub config: LibraryConfig,
}

/// The mathematical model of a `Library`.
pub ghost struct SpecLibrary {
    pub name: Seq<char>,
    pub config: SpecLibraryConfig,
}

impl View for Library {
    type V = SpecLibrary;

    open spec fn view(&self) -> SpecLibrary {
        SpecLibrary { name: self.name@, config: self.config@ }
    }
}

/// `<name>.yaml`: a schema file, or the library's configuration file.
pub open spec fn yaml_file_name(n: Seq<char>) -> Seq<char> {
    n + ".yaml"@
}

/// `<name>.db`: the library's relational store.
pub open spec fn db_file_name(n: Seq<char>) -> Seq<char> {
    n + ".db"@
}

/// `<schema>.<id>.md`: a page file.
pub open spec fn page_file_name(schema: Seq<char>, id: Seq<char>) -> Seq<char> {
    schema + "."@ + id + ".md"@
}

/// The identity a page filename encodes: the schema and id segments of
/// `<schema>.<id>.md`.
pub open spec fn parse_page_file_name(t: Seq<char>) -> Option<(Seq<char>, Seq<char>)> {
    let i = find_ch(t, '.');
    if i < t.len() && valid_name(t.subrange(0, i)) {
        let rest = t.subrange(i + 1, t.len() as int);
        let j = find_ch(rest, '.');
        if j < rest.len() && valid_id(rest.subrange(0, j)) && rest.subrange(
            j + 1,
            rest.len() as int,
        ) == "md"@ {
            Some((t.subrange(0, i), rest.subrange(0, j)))
        } else {
            None
        }
    } else {
        None
    }
}

/// Decode a page filename into its (schema, id) identity.
pub fn parse_page_file_str(name: &str) -> (r: Option<(String, String)>)
    ensures
        match r {
            Some(p) => parse_page_file_name(name@) == Some((p.0@, p.1@)),
            None => parse_page_file_name(name@) is None,
        },
{
    let len = name.unicode_len();
    let i = crate::text::find_char_from(name, 0, '.');
    proof {
        assert(name@.skip(0) =~= name@);
    }
    if i >= len {
        return None;
    }
    let schema = name.substring_char(0, i);
    proof {
        assert(schema@ =~= name@.subrange(0, i as int));
    }
    if !crate::text::valid_name_str(schema) {
        return None;
    }
    let ghost rest = name@.subrange(i + 1, name@.len() as int);
    let j = crate::text::find_char_from(name, i + 1, '.');
    proof {
        assert(rest =~= name@.skip(i + 1));
        crate::text::lemma_find_ch(rest, '.');
        assert(j - i - 1 == find_ch(rest, '.')) by {
            if j < len {
                crate::text::lemma_find_ch_at(rest, '.', j - i - 1);
            } else {
                crate::text::lemma_find_ch_at(rest, '.', rest.len() as int);
            }
        }
    }
    if j >= len {
        return None;
    }
    let id = name.substring_char(i + 1, j);
    proof {
        assert(id@ =~= rest.subrange(0, j - i - 1));
    }
    if !crate::text::valid_id_str(id) {
        return None;
    }
    let suffix = name.substring_char(j + 1, len);
    proof {
        assert(suffix@ =~= rest.subrange(j - i - 1 + 1, rest.len() as int));
    }
    if !str_eq(suffix, "md") {
        return None;
    }
    Some((String::from_str(schema), String::from_str(id)))
}

/// A page filename built from a usable identity decodes back to it.
pub proof fn lemma_page_file_name_round_trip(schema: Seq<char>, id: Seq<char>)
    requires
        valid_name(schema),
        valid_id(id),
    ensures
        parse_page_file_name(page_file_name(schema, id)) == Some((schema, id)),
{
    reveal_strlit(".");
    reveal_strlit(".md");
    reveal_strlit("md");
    let t = page_file_name(schema, id);
    assert forall|x: int| 0 <= x < schema.len() implies t[x] != '.' by {
        assert(t[x] == schema[x]);
        assert(crate::text::is_name_char(schema[x]));
    }
    assert(t[schema.len() as int] == '.');
    crate::text::lemma_find_ch_at(t, '.', schema.len() as int);
    assert(t.subrange(0, schema.len() as int) =~= schema);
    let rest = t.subrange(schema.len() as int + 1, t.len() as int);
    assert(rest =~= id + ".md"@);
    assert forall|x: int| 0 <= x < id.len() implies rest[x] != '.' by {
        assert(rest[x] == id[x]);
        assert(crate::text::is_id_char(id[x]));
    }
    assert(rest[id.len() as int] == '.');
    crate::text::lemma_find_ch_at(rest, '.', id.len() as int);
    assert(rest.subrange(0, id.len() as int) =~= id);
    assert(rest.subrange(id.len() as int + 1, rest.len() as int) =~= "md"@);
}

/// Relies on `uuid::Uuid::new_v4` and its `Display` form: a fresh random
/// version-4 id rendered as 36 lowercase hexadecimal and hyphen characters.
#[verifier::external_body]
fn fresh_page_id() -> (r: String)
    ensures
        r@.len() == 36,
        valid_id(r@),
{
    uuid::Uuid::new_v4().to_string()
}

/// The schema a fresh library is seeded with: a note with a non-nullable
/// string title and a nullable archived flag that defaults to false.
pub open spec fn seed_schema(name: Seq<char>) -> SpecSchema {
    SpecSchema {
        name,
        properties: seq![
            (
                "archived"@,
                SpecProperty {
                    ptype: PropertyType::Bool,
                    nullable: true,
                    default: Some(SpecValue::Bool(false)),
                },
            ),
            (
                "title"@,
                SpecProperty { ptype: PropertyType::String, nullable: false, default: None },
            ),
        ],
    }
}

fn build_seed_schema(name: &String) -> (r: Schema)
    ensures
        r@ == seed_schema(name@),
{
    let mut props: Vec<(String, Property)> = Vec::new();
    props.push(
        (
            String::from_str("archived"),
            Property {
                ptype: PropertyType::Bool,
                nullable: true,
                default: Some(Value::Bool(false)),
            },
        ),
    );
    props.push(
        (
            String::from_str("title"),
            Property { ptype: PropertyType::String, nullable: false, default: None },
        ),
    );
    let r = Schema { name: name.clone(), properties: props };
    proof {
        assert(crate::schema::props_view(r.properties@) =~= seed_schema(name@).properties);
    }
    r
}

/// Everything the application must materialize to create a library: the
/// files to write and the table definition to execute.
pub struct CreatePlan {
    pub library: Library,
    pub config_file_name: String,
    pub config_text: String,
    pub schema_dir: String,
    pub schema_file_name: String,
    pub schema_file_text: String,
    pub db_file_name: String,
    pub ddl: String,
}

/// The scaffold file of a fresh schema: the name and no properties yet.
pub struct SchemaFile {
    pub dir: String,
    pub file_name: String,
    pub contents: String,
}

/// A fresh page: the file to write under the library root.
pub struct PageFile {
    pub file_name: String,
    pub contents: String,
}


/// What a page commit returns, for every input. The checks run in order:
/// filename decode, document decode, identity agreement, schema resolution,
/// schema decode, validation; the first failure names the error, and only a
/// fully checked page yields its upsert.
pub open spec fn commit_page_post(
    r: Result<UpsertStatement, PinkyError>,
    fnm: Seq<char>,
    doc: Seq<char>,
    st: Option<Seq<char>>,
) -> bool {
    match parse_page_file_name(fnm) {
        None => r matches Err(e) && e is Format,
        Some(pi) => match spec_parse_document(doc) {
            None => r matches Err(e) && e is Format,
            Some(f) => if f.id != pi.1 || f.schema != pi.0 {
                r matches Err(e) && e is Consistency
            } else {
                match st {
                    None => r matches Err(e) && e is NotFound,
                    Some(stt) => match spec_parse_schema_text(stt) {
                        None => r matches Err(e) && e is Format,
                        Some(sc) => match first_violation(f.properties, sc) {
                            Some(v) => r matches Err(PinkyError::Validation(e)) && e.property@
                                == v.0 && e.kind == v.1,
                            None => r matches Ok(u) && u.sql@ == upsert_sql(f, sc) && params_view(
                                u.params@,
                            ) == upsert_params(f, sc),
                        },
                    },
                }
            },
        },
    }
}

impl Library {

    /// Plan the creation of a library: its configuration file, its schema
    /// directory, the seeded default schema file, the relational store file,
    /// and the table definition of the seeded schema. Rejected with `Config`
    /// when the library or configured names are unusable.
    pub fn new(name: &str, config: Option<LibraryConfig>) -> (r: Result<CreatePlan, PinkyError>)
        ensures
            match r {
                Ok(p) => {
                    let c = p.library@.config;
                    &&& valid_name(name@)
                    &&& valid_name(c.schema_dir)
                    &&& valid_name(c.default_schema)
                    &&& p.library@.name == name@
                    &&& (match config {
                        Some(gc) => c == gc@,
                        None => c == (SpecLibraryConfig {
                            schema_dir: "schemas"@,
                            default_schema: "note"@,
                        }),
                    })
                    &&& p.config_file_name@ == yaml_file_name(name@)
                    &&& p.config_text@ == config_text(c)
                    &&& p.schema_dir@ == c.schema_dir
                    &&& p.schema_file_name@ == yaml_file_name(c.default_schema)
                    &&& p.schema_file_text@ == schema_text(seed_schema(c.default_schema))
                    &&& p.db_file_name@ == db_file_name(name@)
                    &&& p.ddl@ == ddl_text(seed_schema(c.default_schema))
                },
                Err(e) => {
                    &&& e is Config
                    &&& !(valid_name(name@) && (match config {
                        Some(gc) => valid_name(gc@.schema_dir) && valid_name(gc@.default_schema),
                        None => true,
                    }))
                },
            },
    {
        if !crate::text::valid_name_str(name) {
            return Err(PinkyError::Config);
        }
        let config = match config {
            Some(c) => {
                if !crate::text::valid_name_str(c.schema_dir.as_str())
                    || !crate::text::valid_name_str(c.default_schema.as_str()) {
                    return Err(PinkyError::Config);
                }
                c
            },
            None => {
                proof {
                    reveal_strlit("schemas");
                    reveal_strlit("note");
                    assert(valid_name("schemas"@)) by {
                        assert(forall|i: int|
                            0 <= i < "schemas"@.len() ==> crate::text::is_name_char(
                                #[trigger] "schemas"@[i],
                            ));
                    }
                    assert(valid_name("note"@)) by {
                        assert(forall|i: int|
                            0 <= i < "note"@.len() ==> crate::text::is_name_char(
                                #[trigger] "note"@[i],
                            ));
                    }
                }
                LibraryConfig {
                    schema_dir: String::from_str("schemas"),
                    default_schema: String::from_str("note"),
                }
            },
        };
        let seed = build_seed_schema(&config.default_schema);
        let schema_file_text = seed.to_yaml_string();
        let ddl = seed.sql_commit_string();
        let config_text = config.to_yaml_string();
        let config_file_name = String::from_str(name).concat(".yaml");
        let db_file = String::from_str(name).concat(".db");
        let schema_file_name = config.default_schema.clone().concat(".yaml");
        let schema_dir = config.schema_dir.clone();
        let library = Library { name: String::from_str(name), config };
        Ok(
            CreatePlan {
                library,
                config_file_name,
                config_text,
                schema_dir,
                schema_file_name,
                schema_file_text,
                db_file_name: db_file,
                ddl,
            },
        )
    }

    /// Open a library from its name and the text of its configuration file.
    pub fn open(name: &str, config_text: &str) -> (r: Result<Library, PinkyError>)
        ensures
            match r {
                Ok(l) => spec_parse_config(config_text@) == Some(l@.config) && l@.name == name@,
                Err(e) => spec_parse_config(config_text@) is None && e is Config,
            },
    {
        let config = match LibraryConfig::from_yaml_string(config_text) {
            Ok(c) => c,
            Err(e) => {
                return Err(e);
            },
        };
        Ok(Library { name: String::from_str(name), config })
    }

    /// The schema a new page uses: the explicit one, or the default.
    pub fn resolve_schema_name(&self, explicit: Option<&String>) -> (r: String)
        ensures
            r@ == (match explicit {
                Some(s) => s@,
                None => self@.config.default_schema,
            }),
    {
        match explicit {
            Some(s) => s.clone(),
            None => self.config.default_schema.clone(),
        }
    }

    /// Plan a new page with a given id: decode the schema file, fill the
    /// frontmatter with defaults, and name the file `<schema>.<id>.md`.
    /// `NotFound` without a schema file, `Format` when it does not decode.
    pub fn new_page_with_id(&self, schema_text: Option<&str>, id: &str) -> (r: Result<
        PageFile,
        PinkyError,
    >)
        ensures
            match schema_text {
                None => r matches Err(e) && e is NotFound,
                Some(st) => match spec_parse_schema_text(st@) {
                    None => r matches Err(e) && e is Format,
                    Some(sc) => r matches Ok(p) && p.file_name@ == page_file_name(sc.name, id@)
                        && p.contents@ == doc_text(spec_new_fm(id@, sc)),
                },
            },
    {
        let st = match schema_text {
            Some(st) => st,
            None => {
                return Err(PinkyError::NotFound);
            },
        };
        let schema = match Schema::from_yaml_string(st) {
            Ok(s) => s,
            Err(_) => {
                return Err(PinkyError::Format);
            },
        };
        let fm = Frontmatter::new(id, &schema);
        let contents = fm.to_document_string();
        let file_name = schema.name.clone().concat(".").concat(id).concat(".md");
        proof {
            assert(file_name@ =~= page_file_name(schema@.name, id@));
        }
        Ok(PageFile { file_name, contents })
    }

    /// Plan a new page under a fresh random id.
    pub fn new_page(&self, schema_text: Option<&str>) -> (r: Result<PageFile, PinkyError>)
        ensures
            match schema_text {
                None => r matches Err(e) && e is NotFound,
                Some(st) => match spec_parse_schema_text(st@) {
                    None => r matches Err(e) && e is Format,
                    Some(sc) => r matches Ok(p) && exists|id: Seq<char>|
                        valid_id(id) && id.len() == 36 && p.file_name@ == page_file_name(
                            sc.name,
                            id,
                        ) && p.contents@ == doc_text(spec_new_fm(id, sc)),
                },
            },
    {
        let id = fresh_page_id();
        let r = self.new_page_with_id(schema_text, id.as_str());
        proof {
            if schema_text is Some && spec_parse_schema_text(schema_text->Some_0@) is Some {
                let sc = spec_parse_schema_text(schema_text->Some_0@)->Some_0;
                assert(r matches Ok(p) ==> valid_id(id@) && id@.len() == 36 && p.file_name@
                    == page_file_name(sc.name, id@) && p.contents@ == doc_text(
                    spec_new_fm(id@, sc),
                ));
            }
        }
        r
    }

    /// Plan a scaffold schema file for hand-editing: the name and no
    /// properties. The table is not created here; that is deferred to an
    /// explicit schema commit.
    pub fn new_schema(&self, name: &str) -> (r: Result<SchemaFile, PinkyError>)
        ensures
            match r {
                Ok(f) => valid_name(name@) && f.dir@ == self@.config.schema_dir && f.file_name@
                    == yaml_file_name(name@) && f.contents@ == schema_text(
                    SpecSchema { name: name@, properties: Seq::empty() },
                ),
                Err(e) => !valid_name(name@) && e is Format,
            },
    {
        if !crate::text::valid_name_str(name) {
            return Err(PinkyError::Format);
        }
        let scaffold = Schema { name: String::from_str(name), properties: Vec::new() };
        proof {
            assert(crate::schema::props_view(scaffold.properties@) =~= Seq::<
                (Seq<char>, SpecProperty),
            >::empty());
        }
        let contents = scaffold.to_yaml_string();
        Ok(
            SchemaFile {
                dir: self.config.schema_dir.clone(),
                file_name: String::from_str(name).concat(".yaml"),
                contents,
            },
        )
    }

    /// Decide a page commit. The filename must decode, the document must
    /// decode, the two identities must agree, the named schema must be
    /// present and decode, and the frontmatter must validate; only then is
    /// the upsert issued, and nothing was staged before it.
    pub fn commit_page(&self, file_name: &str, document: &str, schema_text: Option<&str>) -> (r:
        Result<UpsertStatement, PinkyError>)
        ensures
            commit_page_post(
                r,
                file_name@,
                document@,
                match schema_text {
                    Some(st) => Some(st@),
                    None => None,
                },
            ),
    {
        let identity = match parse_page_file_str(file_name) {
            Some(p) => p,
            None => {
                return Err(PinkyError::Format);
            },
        };
        let fm = match Frontmatter::from_document(document) {
            Ok(f) => f,
            Err(_) => {
                return Err(PinkyError::Format);
            },
        };
        if !str_eq(fm.id.as_str(), identity.1.as_str()) || !str_eq(
            fm.schema.as_str(),
            identity.0.as_str(),
        ) {
            return Err(PinkyError::Consistency);
        }
        let st = match schema_text {
            Some(st) => st,
            None => {
                return Err(PinkyError::NotFound);
            },
        };
        let schema = match Schema::from_yaml_string(st) {
            Ok(s) => s,
            Err(_) => {
                return Err(PinkyError::Format);
            },
        };
        match fm.validate(&schema) {
            Ok(_) => Ok(fm.sql_commit_string(&schema)),
            Err(e) => Err(PinkyError::Validation(e)),
        }
    }

    /// Decide a schema commit: the schema file must decode; the result is
    /// its table definition, safe to re-issue for an existing table.
    pub fn commit_schema(&self, schema_text: &str) -> (r: Result<String, PinkyError>)
        ensures
            match r {
                Ok(d) => spec_parse_schema_text(schema_text@) matches Some(sc) && d@ == ddl_text(
                    sc,
                ),
                Err(e) => spec_parse_schema_text(schema_text@) is None && e is Format,
            },
    {
        let schema = match Schema::from_yaml_string(schema_text) {
            Ok(s) => s,
            Err(_) => {
                return Err(PinkyError::Format);
            },
        };
        Ok(schema.sql_commit_string())
    }
}

} // verus!
