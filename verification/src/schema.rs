//! The schema model: a named document kind with named, typed properties, its
//! text form, and its projection to a relational table definition.
//!
//! A schema file is line-based: a `name:` line, a `properties:` line, and per
//! property an indented group of `type:`, `nullable:` and optional `default:`
//! lines. Properties are kept, written, and required on input, in strictly
//! ascending name order; that order is also the stable column order of the
//! relational projection.

use vstd::prelude::*;

use crate::error::PinkyError;
use crate::text::{
    is_prefix, seq_lt, sorted_keys, spec_find, spec_join, spec_lines, str_eq, str_lt, valid_name,
    views, is_name_char, line_ok, split_lines, string_views, join_lines,
};
use crate::value::{spec_parse_val, val_text, wf_value, SpecValue, Value, parse_value, render_value};

verus! {

/// The closed set of property types.
#[derive(Clone, Copy, Debug, PartialEq, Eq, Structural)]
pub enum PropertyType {
    String,
    Int,
    Float,
    Bool,
}

/// A named field of a schema: its type, nullability, and optional default.
#[derive(Debug, PartialEq, Eq)]
pub struct Property {
    pub ptype: PropertyType,
    pub nullable: bool,
    pub default: Option<Value>,
}

/// The mathematical model of a `Property`.
pub ghost struct SpecProperty {
    pub ptype: PropertyType,
    pub nullable: bool,
    pub default: Option<SpecValue>,
}

impl View for Property {
    type V = SpecProperty;

    open spec fn view(&self) -> SpecProperty {
        SpecProperty {
            ptype: self.ptype,
            nullable: self.nullable,
            default: match self.default {
                None => None,
                Some(v) => Some(v@),
            },
        }
    }
}

/// A typed definition of a document kind.
#[derive(Debug, PartialEq, Eq)]
pub struct Schema {
    pub name: String,
    /// Property name to property, in strictly ascending name order.
    pub properties: Vec<(String, Property)>,
}

/// The mathematical model of a `Schema`.
pub ghost struct SpecSchema {
    pub name: Seq<char>,
    pub properties: Seq<(Seq<char>, SpecProperty)>,
}

/// The model of a keyed property vector.
pub open spec fn props_view(v: Seq<(String, Property)>) -> Seq<(Seq<char>, SpecProperty)> {
    v.map_values(|p: (String, Property)| (p.0@, p.1@))
}

impl View for Schema {
    type V = SpecSchema;

    open spec fn view(&self) -> SpecSchema {
        SpecSchema { name: self.name@, properties: props_view(self.properties@) }
    }
}

pub open spec fn wf_prop(p: SpecProperty) -> bool {
    match p.default {
        None => true,
        Some(v) => wf_value(v),
    }
}

/// A well-formed schema: a usable name, and uniquely named, ordered,
/// representable properties.
pub open spec fn wf_schema(s: SpecSchema) -> bool {
    &&& valid_name(s.name)
    &&& sorted_keys(s.properties)
    &&& forall|i: int|
        0 <= i < s.properties.len() ==> valid_name(#[trigger] s.properties[i].0) && wf_prop(
            s.properties[i].1,
        )
}

pub open spec fn name_prefix() -> Seq<char> {
    "name: "@
}

pub open spec fn properties_header() -> Seq<char> {
    "properties:"@
}

pub open spec fn type_prefix() -> Seq<char> {
    "    type: "@
}

pub open spec fn nullable_prefix() -> Seq<char> {
    "    nullable: "@
}

pub open spec fn default_prefix() -> Seq<char> {
    "    default: "@
}

pub open spec fn tag_text(t: PropertyType) -> Seq<char> {
    match t {
        PropertyType::String => "String"@,
        PropertyType::Int => "Int"@,
        PropertyType::Float => "Float"@,
        PropertyType::Bool => "Bool"@,
    }
}

pub open spec fn bool_text(b: bool) -> Seq<char> {
    if b {
        "true"@
    } else {
        "false"@
    }
}

/// The indented `  <name>:` line opening a property group.
pub open spec fn key_line(k: Seq<char>) -> Seq<char> {
    "  "@ + k + ":"@
}

/// The lines of one property group.
pub open spec fn prop_lines(k: Seq<char>, p: SpecProperty) -> Seq<Seq<char>> {
    let head = seq![
        key_line(k),
        type_prefix() + tag_text(p.ptype),
        nullable_prefix() + bool_text(p.nullable),
    ];
    match p.default {
        None => head,
        Some(v) => head + seq![default_prefix() + val_text(v)],
    }
}

pub open spec fn props_lines(ps: Seq<(Seq<char>, SpecProperty)>) -> Seq<Seq<char>>
    decreases ps.len(),
{
    if ps.len() == 0 {
        Seq::empty()
    } else {
        prop_lines(ps[0].0, ps[0].1) + props_lines(ps.skip(1))
    }
}

/// The lines of a schema file.
pub open spec fn schema_lines(s: SpecSchema) -> Seq<Seq<char>> {
    seq![name_prefix() + s.name, properties_header()] + props_lines(s.properties)
}

/// The full text of a schema file.
pub open spec fn schema_text(s: SpecSchema) -> Seq<char> {
    spec_join(schema_lines(s))
}

/// The key named by a `  <name>:` line, if the line has that shape.
pub open spec fn key_of_line(l: Seq<char>) -> Option<Seq<char>> {
    if l.len() >= 4 && l[0] == ' ' && l[1] == ' ' && l[l.len() - 1] == ':' && valid_name(
        l.subrange(2, l.len() - 1),
    ) {
        Some(l.subrange(2, l.len() - 1))
    } else {
        None
    }
}

pub open spec fn tag_of(t: Seq<char>) -> Option<PropertyType> {
    if t == "String"@ {
        Some(PropertyType::String)
    } else if t == "Int"@ {
        Some(PropertyType::Int)
    } else if t == "Float"@ {
        Some(PropertyType::Float)
    } else if t == "Bool"@ {
        Some(PropertyType::Bool)
    } else {
        None
    }
}

pub open spec fn bool_of(t: Seq<char>) -> Option<bool> {
    if t == "true"@ {
        Some(true)
    } else if t == "false"@ {
        Some(false)
    } else {
        None
    }
}

/// Decode the property groups of a schema file, strictly ascending by name.
pub open spec fn spec_parse_props(lines: Seq<Seq<char>>) -> Option<
    Seq<(Seq<char>, SpecProperty)>,
>
    decreases lines.len(),
{
    if lines.len() == 0 {
        Some(Seq::empty())
    } else if lines.len() < 3 {
        None
    } else {
        let k = key_of_line(lines[0]);
        let tg = if is_prefix(type_prefix(), lines[1]) {
            tag_of(lines[1].skip(type_prefix().len() as int))
        } else {
            None
        };
        let nb = if is_prefix(nullable_prefix(), lines[2]) {
            bool_of(lines[2].skip(nullable_prefix().len() as int))
        } else {
            None
        };
        if k is None || tg is None || nb is None {
            None
        } else {
            let has_default = lines.len() >= 4 && is_prefix(default_prefix(), lines[3]);
            let dv = if has_default {
                spec_parse_val(lines[3].skip(default_prefix().len() as int))
            } else {
                None
            };
            if has_default && dv is None {
                None
            } else {
                let consumed: int = if has_default {
                    4
                } else {
                    3
                };
                match spec_parse_props(lines.skip(consumed)) {
                    None => None,
                    Some(r) => {
                        let p = SpecProperty {
                            ptype: tg->Some_0,
                            nullable: nb->Some_0,
                            default: if has_default {
                                Some(dv->Some_0)
                            } else {
                                None
                            },
                        };
                        if r.len() == 0 || seq_lt(k->Some_0, r[0].0) {
                            Some(seq![(k->Some_0, p)] + r)
                        } else {
                            None
                        }
                    },
                }
            }
        }
    }
}

/// Decode a schema file from its lines.
pub open spec fn spec_parse_schema(lines: Seq<Seq<char>>) -> Option<SpecSchema> {
    if lines.len() >= 2 && is_prefix(name_prefix(), lines[0]) && valid_name(
        lines[0].skip(name_prefix().len() as int),
    ) && lines[1] == properties_header() {
        match spec_parse_props(lines.skip(2)) {
            None => None,
            Some(ps) => Some(
                SpecSchema { name: lines[0].skip(name_prefix().len() as int), properties: ps },
            ),
        }
    } else {
        None
    }
}

/// Decode a schema file from its full text.
pub open spec fn spec_parse_schema_text(t: Seq<char>) -> Option<SpecSchema> {
    spec_parse_schema(spec_lines(t))
}

/// Whatever the property decoder accepts is well-formed: names usable,
/// strictly ascending, defaults representable.
pub proof fn lemma_parse_props_wf(lines: Seq<Seq<char>>)
    ensures
        spec_parse_props(lines) matches Some(ps) ==> sorted_keys(ps) && (forall|i: int|
            0 <= i < ps.len() ==> valid_name(#[trigger] ps[i].0) && wf_prop(ps[i].1)),
    decreases lines.len(),
{
    if lines.len() >= 3 && spec_parse_props(lines) is Some {
        let has_default = lines.len() >= 4 && is_prefix(default_prefix(), lines[3]);
        let consumed: int = if has_default {
            4
        } else {
            3
        };
        lemma_parse_props_wf(lines.skip(consumed));
        if has_default {
            crate::value::lemma_parse_val_wf(lines[3].skip(default_prefix().len() as int));
        }
        let ps = spec_parse_props(lines)->Some_0;
        let r = spec_parse_props(lines.skip(consumed))->Some_0;
        assert(ps.len() == 1 + r.len());
        assert(forall|i: int| 1 <= i < ps.len() ==> ps[i] == r[i - 1]);
        assert(sorted_keys(ps)) by {
            assert forall|i: int| 0 <= i < ps.len() - 1 implies seq_lt(
                #[trigger] ps[i].0,
                ps[i + 1].0,
            ) by {
                if i > 0 {
                    assert(seq_lt(r[i - 1].0, r[i].0));
                }
            }
        }
    }
}

/// The text tag of a property type.
pub fn tag_str(t: PropertyType) -> (r: &'static str)
    ensures
        r@ == tag_text(t),
{
    match t {
        PropertyType::String => "String",
        PropertyType::Int => "Int",
        PropertyType::Float => "Float",
        PropertyType::Bool => "Bool",
    }
}

fn parse_tag_str(t: &str) -> (r: Option<PropertyType>)
    ensures
        r == tag_of(t@),
{
    if str_eq(t, "String") {
        Some(PropertyType::String)
    } else if str_eq(t, "Int") {
        Some(PropertyType::Int)
    } else if str_eq(t, "Float") {
        Some(PropertyType::Float)
    } else if str_eq(t, "Bool") {
        Some(PropertyType::Bool)
    } else {
        None
    }
}

fn parse_bool_str(t: &str) -> (r: Option<bool>)
    ensures
        r == bool_of(t@),
{
    if str_eq(t, "true") {
        Some(true)
    } else if str_eq(t, "false") {
        Some(false)
    } else {
        None
    }
}

fn parse_key_line(l: &str) -> (r: Option<String>)
    ensures
        match r {
            Some(k) => key_of_line(l@) == Some(k@),
            None => key_of_line(l@) is None,
        },
{
    let len = l.unicode_len();
    if len < 4 {
        return None;
    }
    if l.get_char(0) != ' ' || l.get_char(1) != ' ' || l.get_char(len - 1) != ':' {
        return None;
    }
    let mid = l.substring_char(2, len - 1);
    if crate::text::valid_name_str(mid) {
        Some(String::from_str(mid))
    } else {
        None
    }
}

/// Decode the property groups of the lines from index `i` on.
fn parse_props(lines: &Vec<&str>, i: usize) -> (r: Option<Vec<(String, Property)>>)
    requires
        i <= lines@.len(),
    ensures
        match r {
            Some(v) => spec_parse_props(views(lines@).skip(i as int)) == Some(props_view(v@)),
            None => spec_parse_props(views(lines@).skip(i as int)) is None,
        },
    decreases lines@.len() - i,
{
    let ghost ls = views(lines@).skip(i as int);
    proof {
        assert(forall|j: int| 0 <= j < ls.len() ==> ls[j] == lines@[i + j]@);
    }
    let n = lines.len();
    if i == n {
        let v: Vec<(String, Property)> = Vec::new();
        proof {
            assert(props_view(v@) =~= Seq::<(Seq<char>, SpecProperty)>::empty());
        }
        return Some(v);
    }
    if n - i < 3 {
        return None;
    }
    let k = parse_key_line(lines[i]);
    let tline = lines[i + 1];
    let tplen = "    type: ".unicode_len();
    let tg: Option<PropertyType> = if crate::text::has_prefix(tline, "    type: ") {
        let rest = tline.substring_char(tplen, tline.unicode_len());
        proof {
            assert(rest@ =~= tline@.skip(type_prefix().len() as int));
        }
        parse_tag_str(rest)
    } else {
        None
    };
    let nline = lines[i + 2];
    let nplen = "    nullable: ".unicode_len();
    let nb: Option<bool> = if crate::text::has_prefix(nline, "    nullable: ") {
        let rest = nline.substring_char(nplen, nline.unicode_len());
        proof {
            assert(rest@ =~= nline@.skip(nullable_prefix().len() as int));
        }
        parse_bool_str(rest)
    } else {
        None
    };
    let (k, tg, nb) = match (k, tg, nb) {
        (Some(a), Some(b), Some(c)) => (a, b, c),
        _ => {
            return None;
        },
    };
    let dplen = "    default: ".unicode_len();
    let has_default = n - i >= 4 && crate::text::has_prefix(lines[i + 3], "    default: ");
    let dv: Option<Value> = if has_default {
        let dline = lines[i + 3];
        let rest = dline.substring_char(dplen, dline.unicode_len());
        proof {
            assert(rest@ =~= ls[3].skip(default_prefix().len() as int));
        }
        parse_value(rest)
    } else {
        None
    };
    if has_default && dv.is_none() {
        return None;
    }
    let consumed: usize = if has_default {
        4
    } else {
        3
    };
    let rest = parse_props(lines, i + consumed);
    proof {
        assert(views(lines@).skip(i + consumed) =~= ls.skip(consumed as int));
    }
    let mut rest = match rest {
        Some(r) => r,
        None => {
            return None;
        },
    };
    let p = Property { ptype: tg, nullable: nb, default: dv };
    if rest.len() > 0 && !str_lt(k.as_str(), rest[0].0.as_str()) {
        proof {
            assert(props_view(rest@)[0].0 == rest@[0].0@);
        }
        return None;
    }
    let ghost kk = k@;
    let ghost pp = p@;
    let ghost rest0 = props_view(rest@);
    proof {
        if rest@.len() > 0 {
            assert(rest0[0].0 == rest@[0].0@);
        }
    }
    let mut v: Vec<(String, Property)> = Vec::new();
    v.push((k, p));
    v.append(&mut rest);
    proof {
        assert(props_view(v@) =~= seq![(kk, pp)] + rest0);
        assert(spec_parse_props(ls) == Some(props_view(v@)));
    }
    Some(v)
}

impl Schema {
    /// Decode a schema file; `Ok` exactly on the canonical text form, and
    /// `Format` otherwise.
    pub fn from_yaml_string(text: &str) -> (r: Result<Schema, PinkyError>)
        ensures
            match r {
                Ok(s) => spec_parse_schema_text(text@) == Some(s@) && wf_schema(s@),
                Err(e) => spec_parse_schema_text(text@) is None && e is Format,
            },
    {
        let lines = split_lines(text);
        let ghost ls = spec_lines(text@);
        proof {
            assert(forall|j: int| 0 <= j < ls.len() ==> ls[j] == lines@[j]@);
        }
        if lines.len() < 2 {
            return Err(PinkyError::Format);
        }
        let l0 = lines[0];
        let nplen = "name: ".unicode_len();
        if !crate::text::has_prefix(l0, "name: ") {
            return Err(PinkyError::Format);
        }
        let name = l0.substring_char(nplen, l0.unicode_len());
        proof {
            assert(name@ =~= ls[0].skip(name_prefix().len() as int));
        }
        if !crate::text::valid_name_str(name) {
            return Err(PinkyError::Format);
        }
        if !str_eq(lines[1], "properties:") {
            return Err(PinkyError::Format);
        }
        let props = match parse_props(&lines, 2) {
            Some(p) => p,
            None => {
                proof {
                    assert(views(lines@).skip(2) =~= ls.skip(2));
                }
                return Err(PinkyError::Format);
            },
        };
        let s = Schema { name: String::from_str(name), properties: props };
        proof {
            assert(views(lines@).skip(2) =~= ls.skip(2));
            lemma_parse_props_wf(ls.skip(2));
        }
        Ok(s)
    }

    /// Render the schema in its canonical text form.
    pub fn to_yaml_string(&self) -> (r: String)
        ensures
            r@ == schema_text(self@),
    {
        let mut lines: Vec<String> = Vec::new();
        lines.push(String::from_str("name: ").concat(self.name.as_str()));
        lines.push(String::from_str("properties:"));
        let mut pl = render_props_lines(&self.properties, 0);
        proof {
            assert(self.properties@.skip(0) =~= self.properties@);
            assert(props_view(self.properties@).skip(0) =~= props_view(self.properties@));
        }
        lines.append(&mut pl);
        proof {
            assert(string_views(lines@) =~= schema_lines(self@));
        }
        let r = join_lines(&lines, 0);
        proof {
            assert(string_views(lines@).skip(0) =~= string_views(lines@));
        }
        r
    }

    /// Look a property up by name: the first entry holding it, if any.
    pub fn get_prop<'a>(&'a self, name: &str) -> (r: Option<&'a Property>)
        ensures
            match r {
                Some(p) => spec_find(self@.properties, name@) == Some(p@),
                None => spec_find(self@.properties, name@) is None,
            },
    {
        let ghost ps = self@.properties;
        let n = self.properties.len();
        let mut j: usize = 0;
        proof {
            assert(ps.skip(0) =~= ps);
        }
        while j < n
            invariant
                0 <= j <= n,
                n == self.properties@.len(),
                ps == props_view(self.properties@),
                spec_find(ps, name@) == spec_find(ps.skip(j as int), name@),
            decreases n - j,
        {
            let pr = &self.properties[j];
            if str_eq(pr.0.as_str(), name) {
                proof {
                    assert(ps.skip(j as int)[0] == ps[j as int]);
                }
                return Some(&pr.1);
            }
            proof {
                assert(ps.skip(j as int)[0] == ps[j as int]);
                assert(ps[j as int].0 == self.properties@[j as int].0@);
                assert(ps.skip(j as int).skip(1) =~= ps.skip(j + 1));
            }
            j += 1;
        }
        None
    }
}

/// The relational column type of a property type.
pub open spec fn sql_type_text(t: PropertyType) -> Seq<char> {
    match t {
        PropertyType::String => "TEXT"@,
        PropertyType::Int => "INTEGER"@,
        PropertyType::Float => "REAL"@,
        PropertyType::Bool => "INTEGER"@,
    }
}

/// The column definitions that follow the primary key, one per property in
/// stable order.
pub open spec fn ddl_cols(ps: Seq<(Seq<char>, SpecProperty)>) -> Seq<char>
    decreases ps.len(),
{
    if ps.len() == 0 {
        Seq::empty()
    } else {
        ", "@ + ps[0].0 + " "@ + sql_type_text(ps[0].1.ptype) + (if ps[0].1.nullable {
            Seq::<char>::empty()
        } else {
            " NOT NULL"@
        }) + ddl_cols(ps.skip(1))
    }
}

/// The table definition of a schema: a table named after it, an `id` text
/// primary key, and one typed column per property. Re-issuing it for an
/// existing table is a no-op.
pub open spec fn ddl_text(s: SpecSchema) -> Seq<char> {
    "CREATE TABLE IF NOT EXISTS "@ + s.name + " (id TEXT PRIMARY KEY"@ + ddl_cols(s.properties)
        + ")"@
}

pub fn sql_type_str(t: PropertyType) -> (r: &'static str)
    ensures
        r@ == sql_type_text(t),
{
    match t {
        PropertyType::String => "TEXT",
        PropertyType::Int => "INTEGER",
        PropertyType::Float => "REAL",
        PropertyType::Bool => "INTEGER",
    }
}

fn ddl_cols_str(props: &Vec<(String, Property)>, i: usize) -> (r: String)
    requires
        i <= props@.len(),
    ensures
        r@ == ddl_cols(props_view(props@).skip(i as int)),
    decreases props@.len() - i,
{
    if i == props.len() {
        let r = String::new();
        proof {
            assert(r@ =~= ddl_cols(props_view(props@).skip(i as int)));
        }
        return r;
    }
    let rest = ddl_cols_str(props, i + 1);
    let pr = &props[i];
    let mut r = String::from_str(", ").concat(pr.0.as_str()).concat(" ").concat(
        sql_type_str(pr.1.ptype),
    );
    if !pr.1.nullable {
        r = r.concat(" NOT NULL");
    }
    let r = r.concat(rest.as_str());
    proof {
        let ps = props_view(props@).skip(i as int);
        assert(ps[0] == props_view(props@)[i as int]);
        assert(ps.skip(1) =~= props_view(props@).skip(i + 1));
        assert(r@ =~= ddl_cols(ps));
    }
    r
}

impl Schema {
    /// The SQL text that commits this schema to the relational store: its
    /// table definition per `ddl_text`.
    pub fn sql_commit_string(&self) -> (r: String)
        ensures
            r@ == ddl_text(self@),
    {
        let cols = ddl_cols_str(&self.properties, 0);
        proof {
            assert(props_view(self.properties@).skip(0) =~= props_view(self.properties@));
        }
        let r = String::from_str("CREATE TABLE IF NOT EXISTS ").concat(self.name.as_str()).concat(
            " (id TEXT PRIMARY KEY",
        ).concat(cols.as_str()).concat(")");
        proof {
            assert(r@ =~= ddl_text(self@));
        }
        r
    }
}

/// Every line a schema renders holds no newline.
proof fn lemma_schema_lines_ok(s: SpecSchema)
    requires
        wf_schema(s),
    ensures
        forall|k: int|
            0 <= k < schema_lines(s).len() ==> line_ok(#[trigger] schema_lines(s)[k]),
{
    reveal_strlit("name: ");
    reveal_strlit("properties:");
    let name_line = name_prefix() + s.name;
    assert(line_ok(name_line)) by {
        assert forall|i: int| 0 <= i < name_line.len() implies name_line[i] != '\n' by {
            if i >= name_prefix().len() {
                assert(is_name_char(s.name[i - name_prefix().len()]));
            }
        }
    }
    assert(line_ok(properties_header()));
    lemma_props_lines_ok(s.properties);
    assert forall|k: int|
        0 <= k < schema_lines(s).len() implies line_ok(#[trigger] schema_lines(s)[k]) by {
        if k >= 2 {
            assert(schema_lines(s)[k] == props_lines(s.properties)[k - 2]);
        }
    }
}

proof fn lemma_props_lines_ok(ps: Seq<(Seq<char>, SpecProperty)>)
    requires
        forall|i: int|
            0 <= i < ps.len() ==> valid_name(#[trigger] ps[i].0) && wf_prop(ps[i].1),
    ensures
        forall|k: int| 0 <= k < props_lines(ps).len() ==> line_ok(#[trigger] props_lines(ps)[k]),
    decreases ps.len(),
{
    reveal_strlit("  ");
    reveal_strlit(":");
    reveal_strlit("    type: ");
    reveal_strlit("    nullable: ");
    reveal_strlit("    default: ");
    reveal_strlit("String");
    reveal_strlit("Int");
    reveal_strlit("Float");
    reveal_strlit("Bool");
    reveal_strlit("true");
    reveal_strlit("false");
    if ps.len() > 0 {
        let k0 = ps[0].0;
        let p0 = ps[0].1;
        let pl = prop_lines(k0, p0);
        assert(line_ok(key_line(k0))) by {
            assert forall|i: int| 0 <= i < key_line(k0).len() implies key_line(k0)[i] != '\n' by {
                if 2 <= i < key_line(k0).len() - 1 {
                    assert(is_name_char(k0[i - 2]));
                }
            }
        }
        assert(line_ok(pl[1]));
        assert(line_ok(pl[2]));
        match p0.default {
            Some(v) => {
                crate::value::lemma_val_text_line_ok(v);
                assert(line_ok(pl[3]));
            },
            None => {},
        }
        lemma_props_lines_ok(ps.skip(1));
        assert forall|k: int|
            0 <= k < props_lines(ps).len() implies line_ok(#[trigger] props_lines(ps)[k]) by {
            if k >= pl.len() {
                assert(props_lines(ps)[k] == props_lines(ps.skip(1))[k - pl.len()]);
            } else {
                assert(props_lines(ps)[k] == pl[k]);
            }
        }
    }
}

/// Rendered property groups decode back to the same properties.
proof fn lemma_parse_props_of_lines(ps: Seq<(Seq<char>, SpecProperty)>)
    requires
        sorted_keys(ps),
        forall|i: int|
            0 <= i < ps.len() ==> valid_name(#[trigger] ps[i].0) && wf_prop(ps[i].1),
    ensures
        spec_parse_props(props_lines(ps)) == Some(ps),
    decreases ps.len(),
{
    reveal_strlit("  ");
    reveal_strlit(":");
    reveal_strlit("    type: ");
    reveal_strlit("    nullable: ");
    reveal_strlit("    default: ");
    reveal_strlit("String");
    reveal_strlit("Int");
    reveal_strlit("Float");
    reveal_strlit("Bool");
    reveal_strlit("true");
    reveal_strlit("false");
    let lines = props_lines(ps);
    if ps.len() == 0 {
        assert(lines =~= Seq::<Seq<char>>::empty());
    } else {
        let k0 = ps[0].0;
        let p0 = ps[0].1;
        let pl = prop_lines(k0, p0);
        let rest_lines = props_lines(ps.skip(1));
        assert(lines == pl + rest_lines);
        assert(lines.len() >= 3);
        assert(lines[0] == key_line(k0));
        assert(lines[1] == pl[1]);
        assert(lines[2] == pl[2]);
        // the opening line names the key
        assert(key_of_line(lines[0]) == Some(k0)) by {
            let l = key_line(k0);
            assert(l.len() == k0.len() + 3);
            assert(l[0] == ' ' && l[1] == ' ');
            assert(l[l.len() - 1] == ':');
            assert(l.subrange(2, l.len() - 1) =~= k0);
        }
        // the type line carries the tag
        assert(is_prefix(type_prefix(), lines[1]));
        assert(lines[1].skip(type_prefix().len() as int) =~= tag_text(p0.ptype));
        assert(tag_of(tag_text(p0.ptype)) == Some(p0.ptype)) by {
            assert("String"@.len() == 6 && "Int"@.len() == 3 && "Float"@.len() == 5 && "Bool"@.len()
                == 4);
        }
        // the nullable line carries the flag
        assert(is_prefix(nullable_prefix(), lines[2]));
        assert(lines[2].skip(nullable_prefix().len() as int) =~= bool_text(p0.nullable));
        assert(bool_of(bool_text(p0.nullable)) == Some(p0.nullable)) by {
            assert("true"@.len() == 4 && "false"@.len() == 5);
        }
        let consumed: int = if p0.default is Some {
            4
        } else {
            3
        };
        match p0.default {
            Some(v) => {
                assert(lines[3] == default_prefix() + val_text(v));
                assert(is_prefix(default_prefix(), lines[3]));
                assert(lines[3].skip(default_prefix().len() as int) =~= val_text(v));
                crate::value::lemma_parse_val_text(v);
            },
            None => {
                // a following group's key line is not a default line
                if lines.len() >= 4 {
                    assert(lines[3] == rest_lines[0]);
                    assert(ps.skip(1).len() > 0);
                    assert(rest_lines[0] == key_line(ps.skip(1)[0].0)) by {
                        assert(rest_lines == prop_lines(ps.skip(1)[0].0, ps.skip(1)[0].1)
                            + props_lines(ps.skip(1).skip(1)));
                    }
                    assert(!is_prefix(default_prefix(), lines[3])) by {
                        let k1 = ps.skip(1)[0].0;
                        assert(valid_name(k1));
                        assert(key_line(k1)[2] == k1[0]);
                        assert(is_name_char(k1[0]));
                        assert(default_prefix()[2] == ' ');
                    }
                }
            },
        }
        assert(lines.skip(consumed) =~= rest_lines);
        assert(sorted_keys(ps.skip(1))) by {
            assert forall|x: int| 0 <= x < ps.skip(1).len() - 1 implies seq_lt(
                #[trigger] ps.skip(1)[x].0,
                ps.skip(1)[x + 1].0,
            ) by {
                assert(ps.skip(1)[x] == ps[x + 1]);
                assert(ps.skip(1)[x + 1] == ps[x + 2]);
            }
        }
        lemma_parse_props_of_lines(ps.skip(1));
        if ps.skip(1).len() > 0 {
            assert(seq_lt(k0, ps.skip(1)[0].0)) by {
                assert(ps.skip(1)[0] == ps[1]);
            }
        }
        assert(seq![(k0, p0)] + ps.skip(1) =~= ps);
    }
}

/// Serializing and decoding a well-formed schema gives the schema back.
pub proof fn lemma_schema_round_trip(s: SpecSchema)
    requires
        wf_schema(s),
    ensures
        spec_parse_schema_text(schema_text(s)) == Some(s),
{
    reveal_strlit("name: ");
    reveal_strlit("properties:");
    lemma_schema_lines_ok(s);
    crate::text::lemma_lines_of_join(schema_lines(s));
    let lines = schema_lines(s);
    assert(lines[0] == name_prefix() + s.name);
    assert(is_prefix(name_prefix(), lines[0]));
    assert(lines[0].skip(name_prefix().len() as int) =~= s.name);
    assert(lines[1] == properties_header());
    assert(lines.skip(2) =~= props_lines(s.properties));
    lemma_parse_props_of_lines(s.properties);
}

/// Render the lines of the property groups from index `i` on.
fn render_props_lines(props: &Vec<(String, Property)>, i: usize) -> (r: Vec<String>)
    requires
        i <= props@.len(),
    ensures
        string_views(r@) == props_lines(props_view(props@).skip(i as int)),
    decreases props@.len() - i,
{
    if i == props.len() {
        let r: Vec<String> = Vec::new();
        proof {
            assert(string_views(r@) =~= props_lines(props_view(props@).skip(i as int)));
        }
        return r;
    }
    let mut rest = render_props_lines(props, i + 1);
    let pr = &props[i];
    let mut v: Vec<String> = Vec::new();
    v.push(String::from_str("  ").concat(pr.0.as_str()).concat(":"));
    v.push(String::from_str("    type: ").concat(tag_str(pr.1.ptype)));
    v.push(
        String::from_str("    nullable: ").concat(
            if pr.1.nullable {
                "true"
            } else {
                "false"
            },
        ),
    );
    match &pr.1.default {
        Some(val) => {
            let vt = render_value(val);
            v.push(String::from_str("    default: ").concat(vt.as_str()));
        },
        None => {},
    }
    v.append(&mut rest);
    proof {
        let ps = props_view(props@).skip(i as int);
        assert(ps[0] == props_view(props@)[i as int]);
        assert(ps.skip(1) =~= props_view(props@).skip(i + 1));
        assert(string_views(v@) =~= prop_lines(ps[0].0, ps[0].1) + props_lines(ps.skip(1)));
    }
    v
}

} // verus!
