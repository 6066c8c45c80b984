//! The frontmatter of a page: its identity and dynamic property values, the
//! document codec that frames it between `---` delimiters, the validator that
//! checks it against a schema, and the projection to a relational upsert.

use vstd::prelude::*;

use crate::error::{PinkyError, ValidationError, ValidationKind};
use crate::schema::{Property, PropertyType, Schema, SpecProperty, SpecSchema, wf_schema};
use crate::text::{
    is_prefix, find_ch, seq_lt, sorted_keys, spec_find, spec_join, spec_lines,
    str_eq, str_lt, valid_id, valid_name, views, string_views, line_ok, split_lines,
    lemma_find_at_index,
};
use crate::value::{
    spec_parse_val, val_text, wf_value, SpecValue, Value, parse_value, render_value,
};

verus! {

/// The structured header of one page, bound to a schema by name.
#[derive(Debug, PartialEq, Eq)]
pub struct Frontmatter {
    pub id: String,
    pub schema: String,
    /// Property name to value, in strictly ascending name order.
    pub properties: Vec<(String, Value)>,
}

/// The mathematical model of a `Frontmatter`.
pub ghost struct SpecFrontmatter {
    pub id: Seq<char>,
    pub schema: Seq<char>,
    pub properties: Seq<(Seq<char>, SpecValue)>,
}

/// The model of a keyed value vector.
pub open spec fn vals_view(v: Seq<(String, Value)>) -> Seq<(Seq<char>, SpecValue)> {
    v.map_values(|p: (String, Value)| (p.0@, p.1@))
}

impl View for Frontmatter {
    type V = SpecFrontmatter;

    open spec fn view(&self) -> SpecFrontmatter {
        SpecFrontmatter {
            id: self.id@,
            schema: self.schema@,
            properties: vals_view(self.properties@),
        }
    }
}

/// A well-formed frontmatter: usable identity and uniquely named, ordered,
/// representable values.
pub open spec fn wf_frontmatter(f: SpecFrontmatter) -> bool {
    &&& valid_id(f.id)
    &&& valid_name(f.schema)
    &&& sorted_keys(f.properties)
    &&& forall|i: int|
        0 <= i < f.properties.len() ==> valid_name(#[trigger] f.properties[i].0) && wf_value(
            f.properties[i].1,
        )
}

pub open spec fn id_prefix() -> Seq<char> {
    "id: "@
}

pub open spec fn schema_prefix() -> Seq<char> {
    "schema: "@
}

pub open spec fn delim() -> Seq<char> {
    "---"@
}

/// A `key: value` line.
pub open spec fn kv_line(k: Seq<char>, v: SpecValue) -> Seq<char> {
    k + ": "@ + val_text(v)
}

pub open spec fn kv_lines(ps: Seq<(Seq<char>, SpecValue)>) -> Seq<Seq<char>>
    decreases ps.len(),
{
    if ps.len() == 0 {
        Seq::empty()
    } else {
        seq![kv_line(ps[0].0, ps[0].1)] + kv_lines(ps.skip(1))
    }
}

/// The lines of the frontmatter block: identity first, then the properties in
/// ascending name order.
pub open spec fn fm_lines(f: SpecFrontmatter) -> Seq<Seq<char>> {
    seq![id_prefix() + f.id, schema_prefix() + f.schema] + kv_lines(f.properties)
}

/// The text of the frontmatter block alone.
pub open spec fn fm_text(f: SpecFrontmatter) -> Seq<char> {
    spec_join(fm_lines(f))
}

/// The full document a fresh page holds: the block framed by `---` lines,
/// followed by an empty body.
pub open spec fn doc_text(f: SpecFrontmatter) -> Seq<char> {
    spec_join(seq![delim()] + fm_lines(f) + seq![delim()])
}

/// Split a `key: value` line at the first colon.
pub open spec fn kv_of_line(l: Seq<char>) -> Option<(Seq<char>, Seq<char>)> {
    let i = find_ch(l, ':');
    if i + 1 < l.len() && l[i + 1] == ' ' && valid_name(l.subrange(0, i)) {
        Some((l.subrange(0, i), l.subrange(i + 2, l.len() as int)))
    } else {
        None
    }
}

/// Decode the property lines of a block, strictly ascending by name.
pub open spec fn spec_parse_kvs(lines: Seq<Seq<char>>) -> Option<Seq<(Seq<char>, SpecValue)>>
    decreases lines.len(),
{
    if lines.len() == 0 {
        Some(Seq::empty())
    } else {
        match kv_of_line(lines[0]) {
            None => None,
            Some((k, vt)) => match spec_parse_val(vt) {
                None => None,
                Some(v) => match spec_parse_kvs(lines.skip(1)) {
                    None => None,
                    Some(r) => if r.len() == 0 || seq_lt(k, r[0].0) {
                        Some(seq![(k, v)] + r)
                    } else {
                        None
                    },
                },
            },
        }
    }
}

/// Decode a frontmatter block from its lines.
pub open spec fn spec_parse_fm_block(lines: Seq<Seq<char>>) -> Option<SpecFrontmatter> {
    if lines.len() >= 2 && is_prefix(id_prefix(), lines[0]) && valid_id(
        lines[0].skip(id_prefix().len() as int),
    ) && is_prefix(schema_prefix(), lines[1]) && valid_name(
        lines[1].skip(schema_prefix().len() as int),
    ) {
        match spec_parse_kvs(lines.skip(2)) {
            None => None,
            Some(ps) => Some(
                SpecFrontmatter {
                    id: lines[0].skip(id_prefix().len() as int),
                    schema: lines[1].skip(schema_prefix().len() as int),
                    properties: ps,
                },
            ),
        }
    } else {
        None
    }
}

/// First index holding the `---` delimiter line, or the length if absent.
pub open spec fn find_delim(ls: Seq<Seq<char>>) -> int
    decreases ls.len(),
{
    if ls.len() == 0 {
        0
    } else if ls[0] == delim() {
        0
    } else {
        1 + find_delim(ls.skip(1))
    }
}

pub proof fn lemma_find_delim_at(ls: Seq<Seq<char>>, i: int)
    requires
        0 <= i <= ls.len(),
        i < ls.len() ==> ls[i] == delim(),
        forall|j: int| 0 <= j < i ==> ls[j] != delim(),
    ensures
        find_delim(ls) == i,
    decreases ls.len(),
{
    if ls.len() > 0 && ls[0] != delim() {
        lemma_find_delim_at(ls.skip(1), i - 1);
    }
}

/// Decode a document: a leading `---` line, the block up to the matching
/// closing `---` line, and an opaque body after it. `None` when a delimiter
/// is missing or the block does not decode.
pub open spec fn spec_parse_document(t: Seq<char>) -> Option<SpecFrontmatter> {
    let lines = spec_lines(t);
    if lines.len() == 0 || lines[0] != delim() {
        None
    } else {
        let j = 1 + find_delim(lines.skip(1));
        if j < lines.len() {
            spec_parse_fm_block(lines.subrange(1, j))
        } else {
            None
        }
    }
}

/// A property's value in a fresh frontmatter: its declared default, or null.
pub open spec fn default_or_null(p: SpecProperty) -> SpecValue {
    match p.default {
        Some(v) => v,
        None => SpecValue::Null,
    }
}

pub open spec fn defaults_of(ps: Seq<(Seq<char>, SpecProperty)>) -> Seq<(Seq<char>, SpecValue)> {
    ps.map_values(|p: (Seq<char>, SpecProperty)| (p.0, default_or_null(p.1)))
}

/// The frontmatter a fresh page starts with: one entry per schema property.
pub open spec fn spec_new_fm(id: Seq<char>, s: SpecSchema) -> SpecFrontmatter {
    SpecFrontmatter { id, schema: s.name, properties: defaults_of(s.properties) }
}

/// A fresh frontmatter of a well-formed schema is itself well-formed, so the
/// document it is written to decodes back to it.
pub proof fn lemma_new_fm_wf(id: Seq<char>, s: SpecSchema)
    requires
        valid_id(id),
        wf_schema(s),
    ensures
        wf_frontmatter(spec_new_fm(id, s)),
{
    let ps = spec_new_fm(id, s).properties;
    assert(forall|i: int| 0 <= i < ps.len() ==> #[trigger] ps[i].0 == s.properties[i].0);
    assert(sorted_keys(ps)) by {
        assert forall|i: int| 0 <= i < ps.len() - 1 implies seq_lt(
            #[trigger] ps[i].0,
            ps[i + 1].0,
        ) by {
            assert(seq_lt(s.properties[i].0, s.properties[i + 1].0));
        }
    }
    assert forall|i: int| 0 <= i < ps.len() implies valid_name(#[trigger] ps[i].0) && wf_value(
        ps[i].1,
    ) by {
        assert(valid_name(s.properties[i].0));
        assert(crate::schema::wf_prop(s.properties[i].1));
        assert(ps[i].1 == default_or_null(s.properties[i].1));
    }
}

/// Does a non-null value's dynamic kind agree with a declared type?
pub open spec fn kind_matches(v: SpecValue, t: PropertyType) -> bool {
    match v {
        SpecValue::Null => false,
        SpecValue::Bool(_) => t is Bool,
        SpecValue::Int(_) => t is Int,
        SpecValue::Float(_) => t is Float,
        SpecValue::Str(_) => t is String,
    }
}

/// The rule one (name, value) entry breaks against a schema, if any.
pub open spec fn kv_violation(k: Seq<char>, v: SpecValue, s: SpecSchema) -> Option<
    ValidationKind,
> {
    match spec_find(s.properties, k) {
        None => Some(ValidationKind::UnknownProperty),
        Some(p) => if v is Null {
            if p.nullable {
                None
            } else {
                Some(ValidationKind::NullNotAllowed)
            }
        } else {
            if kind_matches(v, p.ptype) {
                None
            } else {
                Some(ValidationKind::TypeMismatch)
            }
        },
    }
}

/// The first entry that breaks a rule, front to back, with the broken rule.
/// Schema properties absent from the frontmatter are not checked.
pub open spec fn first_violation(
    kvs: Seq<(Seq<char>, SpecValue)>,
    s: SpecSchema,
) -> Option<(Seq<char>, ValidationKind)>
    decreases kvs.len(),
{
    if kvs.len() == 0 {
        None
    } else {
        match kv_violation(kvs[0].0, kvs[0].1, s) {
            Some(kind) => Some((kvs[0].0, kind)),
            None => first_violation(kvs.skip(1), s),
        }
    }
}

/// The column-name list of the upsert, after `id`, in stable schema order.
pub open spec fn upsert_cols(ps: Seq<(Seq<char>, SpecProperty)>) -> Seq<char>
    decreases ps.len(),
{
    if ps.len() == 0 {
        Seq::empty()
    } else {
        ", "@ + ps[0].0 + upsert_cols(ps.skip(1))
    }
}

/// One positional placeholder per property, after the one for `id`.
pub open spec fn qmarks(n: nat) -> Seq<char>
    decreases n,
{
    if n == 0 {
        Seq::empty()
    } else {
        ", ?"@ + qmarks((n - 1) as nat)
    }
}

/// The SQL of the upsert keyed by `id`: a REPLACE writing every property
/// column, all values carried as bound parameters.
pub open spec fn upsert_sql(f: SpecFrontmatter, s: SpecSchema) -> Seq<char> {
    "REPLACE INTO "@ + s.name + " (id"@ + upsert_cols(s.properties) + ") VALUES (?"@ + qmarks(
        s.properties.len(),
    ) + ")"@
}

/// The bound parameters of the upsert: the id, then one value per schema
/// property in stable order — the frontmatter's value, or null if absent.
pub open spec fn upsert_params(f: SpecFrontmatter, s: SpecSchema) -> Seq<SpecValue> {
    seq![SpecValue::Str(f.id)] + s.properties.map_values(
        |p: (Seq<char>, SpecProperty)|
            match spec_find(f.properties, p.0) {
                Some(v) => v,
                None => SpecValue::Null,
            },
    )
}

/// The models of a vector of values.
pub open spec fn params_view(v: Seq<Value>) -> Seq<SpecValue> {
    v.map_values(|x: Value| x@)
}

/// A relational upsert: SQL text with positional placeholders, and the
/// values to bind, in placeholder order.
#[derive(Debug)]
pub struct UpsertStatement {
    pub sql: String,
    pub params: Vec<Value>,
}

fn parse_kv_str(l: &str) -> (r: Option<(String, Value)>)
    ensures
        match r {
            Some(kv) => kv_of_line(l@) matches Some(sp) && sp.0 == kv.0@ && spec_parse_val(sp.1)
                == Some(kv.1@),
            None => kv_of_line(l@) is None || spec_parse_val(kv_of_line(l@)->Some_0.1) is None,
        },
{
    let len = l.unicode_len();
    let i = crate::text::find_char_from(l, 0, ':');
    proof {
        assert(l@.skip(0) =~= l@);
    }
    if i >= len || i + 1 >= len {
        return None;
    }
    if l.get_char(i + 1) != ' ' {
        return None;
    }
    let k = l.substring_char(0, i);
    proof {
        assert(k@ =~= l@.subrange(0, i as int));
    }
    if !crate::text::valid_name_str(k) {
        return None;
    }
    let vt = l.substring_char(i + 2, len);
    proof {
        assert(vt@ =~= l@.subrange(i + 2, l@.len() as int));
    }
    match parse_value(vt) {
        Some(v) => Some((String::from_str(k), v)),
        None => None,
    }
}

/// Decode the `key: value` lines in `[i, to)`, strictly ascending by key.
fn parse_kvs(lines: &Vec<&str>, i: usize, to: usize) -> (r: Option<Vec<(String, Value)>>)
    requires
        i <= to <= lines@.len(),
    ensures
        match r {
            Some(v) => spec_parse_kvs(views(lines@).subrange(i as int, to as int)) == Some(
                vals_view(v@),
            ),
            None => spec_parse_kvs(views(lines@).subrange(i as int, to as int)) is None,
        },
    decreases to - i,
{
    let ghost ls = views(lines@).subrange(i as int, to as int);
    proof {
        assert(forall|j: int| 0 <= j < ls.len() ==> ls[j] == lines@[i + j]@);
    }
    if i == to {
        let v: Vec<(String, Value)> = Vec::new();
        proof {
            assert(vals_view(v@) =~= Seq::<(Seq<char>, SpecValue)>::empty());
        }
        return Some(v);
    }
    let kv = match parse_kv_str(lines[i]) {
        Some(kv) => kv,
        None => {
            return None;
        },
    };
    let rest = parse_kvs(lines, i + 1, to);
    proof {
        assert(views(lines@).subrange(i + 1, to as int) =~= ls.skip(1));
    }
    let mut rest = match rest {
        Some(r) => r,
        None => {
            return None;
        },
    };
    if rest.len() > 0 && !str_lt(kv.0.as_str(), rest[0].0.as_str()) {
        proof {
            assert(vals_view(rest@)[0].0 == rest@[0].0@);
        }
        return None;
    }
    let ghost kk = kv.0@;
    let ghost vv = kv.1@;
    let ghost rest0 = vals_view(rest@);
    proof {
        if rest@.len() > 0 {
            assert(rest0[0].0 == rest@[0].0@);
        }
    }
    let mut v: Vec<(String, Value)> = Vec::new();
    v.push(kv);
    v.append(&mut rest);
    proof {
        assert(vals_view(v@) =~= seq![(kk, vv)] + rest0);
        assert(spec_parse_kvs(ls) == Some(vals_view(v@)));
    }
    Some(v)
}

fn render_kv_lines(props: &Vec<(String, Value)>, i: usize) -> (r: Vec<String>)
    requires
        i <= props@.len(),
    ensures
        string_views(r@) == kv_lines(vals_view(props@).skip(i as int)),
    decreases props@.len() - i,
{
    if i == props.len() {
        let r: Vec<String> = Vec::new();
        proof {
            assert(string_views(r@) =~= kv_lines(vals_view(props@).skip(i as int)));
        }
        return r;
    }
    let mut rest = render_kv_lines(props, i + 1);
    let pr = &props[i];
    let vt = render_value(&pr.1);
    let mut v: Vec<String> = Vec::new();
    v.push(pr.0.clone().concat(": ").concat(vt.as_str()));
    v.append(&mut rest);
    proof {
        let ps = vals_view(props@).skip(i as int);
        assert(ps[0] == vals_view(props@)[i as int]);
        assert(ps.skip(1) =~= vals_view(props@).skip(i + 1));
        assert(string_views(v@) =~= seq![kv_line(ps[0].0, ps[0].1)] + kv_lines(ps.skip(1)));
    }
    v
}

impl Frontmatter {
    /// A fresh instance for a page of the given schema: one entry per schema
    /// property, valued by the property's default, or null without one.
    pub fn new(id: &str, schema: &Schema) -> (r: Frontmatter)
        ensures
            r@ == spec_new_fm(id@, schema@),
    {
        let ghost ps = schema@.properties;
        let n = schema.properties.len();
        let mut props: Vec<(String, Value)> = Vec::new();
        let mut i: usize = 0;
        while i < n
            invariant
                0 <= i <= n,
                n == schema.properties@.len(),
                ps == crate::schema::props_view(schema.properties@),
                props@.len() == i,
                forall|j: int|
                    0 <= j < i ==> #[trigger] vals_view(props@)[j] == (
                        ps[j].0,
                        default_or_null(ps[j].1),
                    ),
            decreases n - i,
        {
            let pr = &schema.properties[i];
            let val = match &pr.1.default {
                Some(d) => d.clone(),
                None => Value::Null,
            };
            let ghost props0 = props@;
            let ghost vv = val@;
            props.push((pr.0.clone(), val));
            proof {
                assert forall|j: int| 0 <= j < i + 1 implies #[trigger] vals_view(props@)[j] == (
                    ps[j].0,
                    default_or_null(ps[j].1),
                ) by {
                    assert(vals_view(props@)[j] == (props@[j].0@, props@[j].1@));
                    if j < i {
                        assert(props@[j] == props0[j]);
                        assert(vals_view(props0)[j] == (ps[j].0, default_or_null(ps[j].1)));
                        assert(vals_view(props0)[j] == (props0[j].0@, props0[j].1@));
                    } else {
                        assert(props@[j].0@ == pr.0@);
                        assert(props@[j].1@ == vv);
                        assert(ps[j] == (schema.properties@[j].0@, schema.properties@[j].1@));
                    }
                }
            }
            i += 1;
        }
        proof {
            assert(vals_view(props@) =~= defaults_of(ps));
        }
        Frontmatter {
            id: String::from_str(id),
            schema: schema.name.clone(),
            properties: props,
        }
    }

    /// Render the frontmatter block alone, without the framing delimiters.
    pub fn to_yaml_string(&self) -> (r: String)
        ensures
            r@ == fm_text(self@),
    {
        let mut lines: Vec<String> = Vec::new();
        lines.push(String::from_str("id: ").concat(self.id.as_str()));
        lines.push(String::from_str("schema: ").concat(self.schema.as_str()));
        let mut kl = render_kv_lines(&self.properties, 0);
        proof {
            assert(vals_view(self.properties@).skip(0) =~= vals_view(self.properties@));
        }
        lines.append(&mut kl);
        proof {
            assert(string_views(lines@) =~= fm_lines(self@));
        }
        let r = crate::text::join_lines(&lines, 0);
        proof {
            assert(string_views(lines@).skip(0) =~= string_views(lines@));
        }
        r
    }

    /// Render the full document of a fresh page: the block framed by `---`
    /// lines and an empty body.
    pub fn to_document_string(&self) -> (r: String)
        ensures
            r@ == doc_text(self@),
    {
        let mut lines: Vec<String> = Vec::new();
        lines.push(String::from_str("---"));
        lines.push(String::from_str("id: ").concat(self.id.as_str()));
        lines.push(String::from_str("schema: ").concat(self.schema.as_str()));
        let mut kl = render_kv_lines(&self.properties, 0);
        proof {
            assert(vals_view(self.properties@).skip(0) =~= vals_view(self.properties@));
        }
        lines.append(&mut kl);
        lines.push(String::from_str("---"));
        proof {
            assert(string_views(lines@) =~= seq![delim()] + fm_lines(self@) + seq![delim()]);
        }
        let r = crate::text::join_lines(&lines, 0);
        proof {
            assert(string_views(lines@).skip(0) =~= string_views(lines@));
        }
        r
    }

    /// Decode a document's frontmatter; `Ok` exactly when the delimiters
    /// frame a block in the canonical form, and `Format` otherwise. The body
    /// after the closing delimiter is left untouched.
    pub fn from_document(text: &str) -> (r: Result<Frontmatter, PinkyError>)
        ensures
            match r {
                Ok(f) => spec_parse_document(text@) == Some(f@) && wf_frontmatter(f@),
                Err(e) => spec_parse_document(text@) is None && e is Format,
            },
    {
        let lines = split_lines(text);
        let ghost ls = spec_lines(text@);
        proof {
            assert(forall|j: int| 0 <= j < ls.len() ==> ls[j] == lines@[j]@);
        }
        if lines.len() == 0 || !str_eq(lines[0], "---") {
            return Err(PinkyError::Format);
        }
        let n = lines.len();
        let mut j: usize = 1;
        let mut found = false;
        while j < n && !found
            invariant
                1 <= j <= n,
                n == lines@.len(),
                ls == views(lines@),
                forall|x: int| 0 <= x < ls.len() ==> ls[x] == lines@[x]@,
                forall|x: int| 1 <= x < j ==> ls[x] != delim(),
                found ==> j < n && ls[j as int] == delim(),
            decreases n - j, (if found { 0int } else { 1int }),
        {
            if str_eq(lines[j], "---") {
                found = true;
            } else {
                j += 1;
            }
        }
        proof {
            assert forall|x: int| 0 <= x < j - 1 implies ls.skip(1)[x] != delim() by {
                assert(ls.skip(1)[x] == ls[x + 1]);
            }
            if found {
                assert(ls.skip(1)[j - 1] == ls[j as int]);
            }
            lemma_find_delim_at(ls.skip(1), j - 1);
        }
        if !found {
            return Err(PinkyError::Format);
        }
        // the block between the delimiters
        if j < 3 {
            proof {
                assert(ls.subrange(1, j as int).len() < 2);
            }
            return Err(PinkyError::Format);
        }
        let ghost block = ls.subrange(1, j as int);
        let l0 = lines[1];
        let idplen = "id: ".unicode_len();
        if !crate::text::has_prefix(l0, "id: ") {
            return Err(PinkyError::Format);
        }
        let id = l0.substring_char(idplen, l0.unicode_len());
        proof {
            assert(block[0] == ls[1]);
            assert(id@ =~= block[0].skip(id_prefix().len() as int));
        }
        if !crate::text::valid_id_str(id) {
            return Err(PinkyError::Format);
        }
        let l1 = lines[2];
        let scplen = "schema: ".unicode_len();
        if !crate::text::has_prefix(l1, "schema: ") {
            return Err(PinkyError::Format);
        }
        let sc = l1.substring_char(scplen, l1.unicode_len());
        proof {
            assert(block[1] == ls[2]);
            assert(sc@ =~= block[1].skip(schema_prefix().len() as int));
        }
        if !crate::text::valid_name_str(sc) {
            return Err(PinkyError::Format);
        }
        let props = match parse_kvs(&lines, 3, j) {
            Some(p) => p,
            None => {
                proof {
                    assert(views(lines@).subrange(3, j as int) =~= block.skip(2));
                }
                return Err(PinkyError::Format);
            },
        };
        proof {
            assert(views(lines@).subrange(3, j as int) =~= block.skip(2));
            lemma_parse_kvs_wf(block.skip(2));
        }
        Ok(
            Frontmatter {
                id: String::from_str(id),
                schema: String::from_str(sc),
                properties: props,
            },
        )
    }

    /// Look a property's value up by name.
    pub fn get_value<'a>(&'a self, name: &str) -> (r: Option<&'a Value>)
        ensures
            match r {
                Some(v) => spec_find(self@.properties, name@) == Some(v@),
                None => spec_find(self@.properties, name@) is None,
            },
    {
        let ghost ps = self@.properties;
        let n = self.properties.len();
        let mut j: usize = 0;
        proof {
            assert(ps.skip(0) =~= ps);
        }
        while j < n
            invariant
                0 <= j <= n,
                n == self.properties@.len(),
                ps == vals_view(self.properties@),
                spec_find(ps, name@) == spec_find(ps.skip(j as int), name@),
            decreases n - j,
        {
            let pr = &self.properties[j];
            if str_eq(pr.0.as_str(), name) {
                proof {
                    assert(ps.skip(j as int)[0] == ps[j as int]);
                }
                return Some(&pr.1);
            }
            proof {
                assert(ps.skip(j as int)[0] == ps[j as int]);
                assert(ps[j as int].0 == self.properties@[j as int].0@);
                assert(ps.skip(j as int).skip(1) =~= ps.skip(j + 1));
            }
            j += 1;
        }
        None
    }

    /// Check every (name, value) entry against the schema: the name must be
    /// declared, null needs a nullable property, and any other value's kind
    /// must equal the declared type. The first offence is reported.
    pub fn validate(&self, schema: &Schema) -> (r: Result<(), ValidationError>)
        ensures
            match r {
                Ok(_) => first_violation(self@.properties, schema@) is None,
                Err(e) => first_violation(self@.properties, schema@) == Some(
                    (e.property@, e.kind),
                ),
            },
    {
        let ghost ps = self@.properties;
        let n = self.properties.len();
        let mut j: usize = 0;
        proof {
            assert(ps.skip(0) =~= ps);
        }
        while j < n
            invariant
                0 <= j <= n,
                n == self.properties@.len(),
                ps == vals_view(self.properties@),
                first_violation(ps, schema@) == first_violation(ps.skip(j as int), schema@),
            decreases n - j,
        {
            let pr = &self.properties[j];
            proof {
                assert(ps.skip(j as int)[0] == ps[j as int]);
                assert(ps[j as int] == (self.properties@[j as int].0@, self.properties@[j as int].1@));
                assert(ps.skip(j as int).skip(1) =~= ps.skip(j + 1));
            }
            match schema.get_prop(pr.0.as_str()) {
                None => {
                    return Err(
                        ValidationError {
                            property: pr.0.clone(),
                            kind: ValidationKind::UnknownProperty,
                        },
                    );
                },
                Some(p) => {
                    let is_null = match &pr.1 {
                        Value::Null => true,
                        _ => false,
                    };
                    if is_null {
                        if !p.nullable {
                            return Err(
                                ValidationError {
                                    property: pr.0.clone(),
                                    kind: ValidationKind::NullNotAllowed,
                                },
                            );
                        }
                    } else {
                        let agrees = match &pr.1 {
                            Value::Null => false,
                            Value::Bool(_) => matches!(p.ptype, PropertyType::Bool),
                            Value::Int(_) => matches!(p.ptype, PropertyType::Int),
                            Value::Float(_) => matches!(p.ptype, PropertyType::Float),
                            Value::Str(_) => matches!(p.ptype, PropertyType::String),
                        };
                        if !agrees {
                            return Err(
                                ValidationError {
                                    property: pr.0.clone(),
                                    kind: ValidationKind::TypeMismatch,
                                },
                            );
                        }
                    }
                },
            }
            j += 1;
        }
        Ok(())
    }

    /// Does the frontmatter satisfy the schema?
    pub fn is_valid(&self, schema: &Schema) -> (r: bool)
        ensures
            r == (first_violation(self@.properties, schema@) is None),
    {
        self.validate(schema).is_ok()
    }

    /// The SQL text and bound parameters that commit this frontmatter to the
    /// relational store: a REPLACE keyed by `id`, writing every property
    /// column in the schema's stable order.
    pub fn sql_commit_string(&self, schema: &Schema) -> (r: UpsertStatement)
        ensures
            r.sql@ == upsert_sql(self@, schema@),
            params_view(r.params@) == upsert_params(self@, schema@),
    {
        let ghost sps = schema@.properties;
        let cols = upsert_cols_str(&schema.properties, 0);
        proof {
            assert(crate::schema::props_view(schema.properties@).skip(0) =~= sps);
        }
        let marks = qmarks_str(schema.properties.len());
        let sql = String::from_str("REPLACE INTO ").concat(schema.name.as_str()).concat(
            " (id",
        ).concat(cols.as_str()).concat(") VALUES (?").concat(marks.as_str()).concat(")");
        let n = schema.properties.len();
        let mut params: Vec<Value> = Vec::new();
        params.push(Value::Str(self.id.clone()));
        let mut i: usize = 0;
        while i < n
            invariant
                0 <= i <= n,
                n == schema.properties@.len(),
                sps == crate::schema::props_view(schema.properties@),
                params@.len() == i + 1,
                params_view(params@)[0] == SpecValue::Str(self@.id),
                forall|j: int|
                    0 <= j < i ==> #[trigger] params_view(params@)[j + 1] == (match spec_find(
                        self@.properties,
                        sps[j].0,
                    ) {
                        Some(v) => v,
                        None => SpecValue::Null,
                    }),
            decreases n - i,
        {
            let pr = &schema.properties[i];
            let val = match self.get_value(pr.0.as_str()) {
                Some(v) => v.clone(),
                None => Value::Null,
            };
            let ghost vv = val@;
            proof {
                assert(sps[i as int].0 == schema.properties@[i as int].0@);
                assert(vv == (match spec_find(self@.properties, sps[i as int].0) {
                    Some(v) => v,
                    None => SpecValue::Null,
                }));
            }
            let ghost params0 = params@;
            params.push(val);
            proof {
                assert forall|j: int|
                    0 <= j < i + 1 implies #[trigger] params_view(params@)[j + 1] == (
                match spec_find(self@.properties, sps[j].0) {
                    Some(v) => v,
                    None => SpecValue::Null,
                }) by {
                    assert(params_view(params@)[j + 1] == params@[j + 1]@);
                    if j < i {
                        assert(params@[j + 1] == params0[j + 1]);
                        assert(params_view(params0)[j + 1] == params0[j + 1]@);
                    } else {
                        assert(params@[j + 1]@ == vv);
                    }
                }
                assert(params_view(params@)[0] == params@[0]@);
                assert(params@[0] == params0[0]);
                assert(params_view(params0)[0] == params0[0]@);
            }
            i += 1;
        }
        proof {
            let up = upsert_params(self@, schema@);
            assert(params_view(params@).len() == up.len());
            assert forall|k: int| 0 <= k < up.len() implies params_view(params@)[k] == up[k] by {
                if k > 0 {
                    let j = k - 1;
                    assert(params_view(params@)[j + 1] == (match spec_find(
                        self@.properties,
                        sps[j].0,
                    ) {
                        Some(v) => v,
                        None => SpecValue::Null,
                    }));
                }
            }
            assert(params_view(params@) =~= up);
        }
        UpsertStatement { sql, params }
    }
}

/// Whatever the property-line decoder accepts is well-formed: names usable,
/// strictly ascending, values representable.
pub proof fn lemma_parse_kvs_wf(lines: Seq<Seq<char>>)
    ensures
        spec_parse_kvs(lines) matches Some(ps) ==> sorted_keys(ps) && (forall|i: int|
            0 <= i < ps.len() ==> valid_name(#[trigger] ps[i].0) && wf_value(ps[i].1)),
    decreases lines.len(),
{
    if lines.len() > 0 && spec_parse_kvs(lines) is Some {
        lemma_parse_kvs_wf(lines.skip(1));
        crate::value::lemma_parse_val_wf(kv_of_line(lines[0])->Some_0.1);
        let ps = spec_parse_kvs(lines)->Some_0;
        let r = spec_parse_kvs(lines.skip(1))->Some_0;
        assert(ps.len() == 1 + r.len());
        assert(forall|i: int| 1 <= i < ps.len() ==> ps[i] == r[i - 1]);
        assert(sorted_keys(ps)) by {
            assert forall|i: int| 0 <= i < ps.len() - 1 implies seq_lt(
                #[trigger] ps[i].0,
                ps[i + 1].0,
            ) by {
                if i > 0 {
                    assert(seq_lt(r[i - 1].0, r[i].0));
                }
            }
        }
    }
}

/// Every line a frontmatter block renders holds no newline.
proof fn lemma_fm_lines_ok(f: SpecFrontmatter)
    requires
        wf_frontmatter(f),
    ensures
        forall|k: int| 0 <= k < fm_lines(f).len() ==> line_ok(#[trigger] fm_lines(f)[k]),
{
    reveal_strlit("id: ");
    reveal_strlit("schema: ");
    let id_line = id_prefix() + f.id;
    assert(line_ok(id_line)) by {
        assert forall|i: int| 0 <= i < id_line.len() implies id_line[i] != '\n' by {
            if i >= id_prefix().len() {
                assert(crate::text::is_id_char(f.id[i - id_prefix().len()]));
            }
        }
    }
    let schema_line = schema_prefix() + f.schema;
    assert(line_ok(schema_line)) by {
        assert forall|i: int| 0 <= i < schema_line.len() implies schema_line[i] != '\n' by {
            if i >= schema_prefix().len() {
                assert(crate::text::is_name_char(f.schema[i - schema_prefix().len()]));
            }
        }
    }
    lemma_kv_lines_ok(f.properties);
    assert forall|k: int| 0 <= k < fm_lines(f).len() implies line_ok(#[trigger] fm_lines(f)[k]) by {
        if k >= 2 {
            assert(fm_lines(f)[k] == kv_lines(f.properties)[k - 2]);
        }
    }
}

proof fn lemma_kv_lines_ok(ps: Seq<(Seq<char>, SpecValue)>)
    requires
        forall|i: int| 0 <= i < ps.len() ==> valid_name(#[trigger] ps[i].0) && wf_value(ps[i].1),
    ensures
        forall|k: int| 0 <= k < kv_lines(ps).len() ==> line_ok(#[trigger] kv_lines(ps)[k]),
    decreases ps.len(),
{
    reveal_strlit(": ");
    if ps.len() > 0 {
        let l = kv_line(ps[0].0, ps[0].1);
        assert(line_ok(l)) by {
            crate::value::lemma_val_text_line_ok(ps[0].1);
            let k0 = ps[0].0;
            assert forall|i: int| 0 <= i < l.len() implies l[i] != '\n' by {
                if i < k0.len() {
                    assert(crate::text::is_name_char(k0[i]));
                } else if i >= k0.len() + 2 {
                    assert(l[i] == val_text(ps[0].1)[i - k0.len() - 2]);
                }
            }
        }
        lemma_kv_lines_ok(ps.skip(1));
        assert forall|k: int| 0 <= k < kv_lines(ps).len() implies line_ok(
            #[trigger] kv_lines(ps)[k],
        ) by {
            if k > 0 {
                assert(kv_lines(ps)[k] == kv_lines(ps.skip(1))[k - 1]);
            }
        }
    }
}

/// Rendered `key: value` lines decode back to the same entries.
proof fn lemma_parse_kvs_of_lines(ps: Seq<(Seq<char>, SpecValue)>)
    requires
        sorted_keys(ps),
        forall|i: int| 0 <= i < ps.len() ==> valid_name(#[trigger] ps[i].0) && wf_value(ps[i].1),
    ensures
        spec_parse_kvs(kv_lines(ps)) == Some(ps),
    decreases ps.len(),
{
    reveal_strlit(": ");
    let lines = kv_lines(ps);
    if ps.len() == 0 {
        assert(lines =~= Seq::<Seq<char>>::empty());
    } else {
        let k0 = ps[0].0;
        let v0 = ps[0].1;
        let l = kv_line(k0, v0);
        assert(lines[0] == l);
        assert(kv_of_line(l) == Some((k0, val_text(v0)))) by {
            assert forall|j: int| 0 <= j < k0.len() implies l[j] != ':' by {
                assert(crate::text::is_name_char(k0[j]));
            }
            assert(l[k0.len() as int] == ':');
            crate::text::lemma_find_ch_at(l, ':', k0.len() as int);
            assert(l[k0.len() as int + 1] == ' ');
            assert(l.subrange(0, k0.len() as int) =~= k0);
            assert(l.subrange(k0.len() as int + 2, l.len() as int) =~= val_text(v0));
        }
        crate::value::lemma_parse_val_text(v0);
        assert(lines.skip(1) =~= kv_lines(ps.skip(1)));
        assert(sorted_keys(ps.skip(1))) by {
            assert forall|x: int| 0 <= x < ps.skip(1).len() - 1 implies seq_lt(
                #[trigger] ps.skip(1)[x].0,
                ps.skip(1)[x + 1].0,
            ) by {
                assert(ps.skip(1)[x] == ps[x + 1]);
                assert(ps.skip(1)[x + 1] == ps[x + 2]);
            }
        }
        lemma_parse_kvs_of_lines(ps.skip(1));
        if ps.skip(1).len() > 0 {
            assert(seq_lt(k0, ps.skip(1)[0].0)) by {
                assert(ps.skip(1)[0] == ps[1]);
            }
        }
        assert(seq![(k0, v0)] + ps.skip(1) =~= ps);
    }
}

/// Serializing a well-formed frontmatter as a document and decoding the
/// document gives the frontmatter back.
pub proof fn lemma_frontmatter_round_trip(f: SpecFrontmatter)
    requires
        wf_frontmatter(f),
    ensures
        spec_parse_document(doc_text(f)) == Some(f),
{
    reveal_strlit("---");
    reveal_strlit("id: ");
    reveal_strlit("schema: ");
    let doc_lines = seq![delim()] + fm_lines(f) + seq![delim()];
    lemma_fm_lines_ok(f);
    assert(line_ok(delim()));
    assert forall|k: int| 0 <= k < doc_lines.len() implies line_ok(#[trigger] doc_lines[k]) by {
        if 1 <= k < doc_lines.len() - 1 {
            assert(doc_lines[k] == fm_lines(f)[k - 1]);
        }
    }
    crate::text::lemma_lines_of_join(doc_lines);
    let lines = spec_lines(doc_text(f));
    assert(lines == doc_lines);
    assert(lines[0] == delim());
    // no block line is a delimiter: each starts with a letter or a name char
    lemma_kv_lines_len(f.properties);
    let fmn = fm_lines(f).len() as int;
    assert forall|x: int| 0 <= x < fmn implies lines.skip(1)[x] != delim() by {
        assert(lines.skip(1)[x] == fm_lines(f)[x]);
        let l = fm_lines(f)[x];
        if x == 0 {
            assert(l[0] == 'i');
        } else if x == 1 {
            assert(l[0] == 's');
        } else {
            assert(l == kv_lines(f.properties)[x - 2]);
            lemma_kv_line_head(f.properties, x - 2);
            assert(crate::text::is_name_char(l[0]));
        }
        assert(delim()[0] == '-');
        assert(l[0] != '-');
    }
    assert(lines.skip(1)[fmn] == delim());
    lemma_find_delim_at(lines.skip(1), fmn);
    let j = 1 + fmn;
    assert(j < lines.len());
    let block = lines.subrange(1, j);
    assert(block =~= fm_lines(f));
    assert(block[0] == id_prefix() + f.id);
    assert(is_prefix(id_prefix(), block[0]));
    assert(block[0].skip(id_prefix().len() as int) =~= f.id);
    assert(block[1] == schema_prefix() + f.schema);
    assert(is_prefix(schema_prefix(), block[1]));
    assert(block[1].skip(schema_prefix().len() as int) =~= f.schema);
    assert(block.skip(2) =~= kv_lines(f.properties));
    lemma_parse_kvs_of_lines(f.properties);
}

proof fn lemma_kv_line_head(ps: Seq<(Seq<char>, SpecValue)>, x: int)
    requires
        forall|i: int| 0 <= i < ps.len() ==> valid_name(#[trigger] ps[i].0),
        0 <= x < ps.len(),
    ensures
        kv_lines(ps).len() == ps.len(),
        kv_lines(ps)[x] == kv_line(ps[x].0, ps[x].1),
        kv_lines(ps)[x][0] == ps[x].0[0],
    decreases x,
{
    if x == 0 {
        assert(kv_line(ps[0].0, ps[0].1)[0] == ps[0].0[0]);
        lemma_kv_lines_len(ps);
    } else {
        lemma_kv_line_head(ps.skip(1), x - 1);
        lemma_kv_lines_len(ps);
        assert(kv_lines(ps)[x] == kv_lines(ps.skip(1))[x - 1]);
        assert(ps.skip(1)[x - 1] == ps[x]);
    }
}

proof fn lemma_kv_lines_len(ps: Seq<(Seq<char>, SpecValue)>)
    ensures
        kv_lines(ps).len() == ps.len(),
    decreases ps.len(),
{
    if ps.len() > 0 {
        lemma_kv_lines_len(ps.skip(1));
    }
}

/// If no entry breaks a rule, the validator accepts.
proof fn lemma_no_violation(kvs: Seq<(Seq<char>, SpecValue)>, s: SpecSchema)
    requires
        forall|i: int|
            0 <= i < kvs.len() ==> kv_violation(#[trigger] kvs[i].0, kvs[i].1, s) is None,
    ensures
        first_violation(kvs, s) is None,
    decreases kvs.len(),
{
    if kvs.len() > 0 {
        assert(kv_violation(kvs[0].0, kvs[0].1, s) is None);
        assert forall|i: int|
            0 <= i < kvs.skip(1).len() implies kv_violation(
            #[trigger] kvs.skip(1)[i].0,
            kvs.skip(1)[i].1,
            s,
        ) is None by {
            assert(kvs.skip(1)[i] == kvs[i + 1]);
        }
        lemma_no_violation(kvs.skip(1), s);
    }
}

/// If some entry breaks a rule, the validator rejects.
proof fn lemma_violation_found(kvs: Seq<(Seq<char>, SpecValue)>, s: SpecSchema, i: int)
    requires
        0 <= i < kvs.len(),
        kv_violation(kvs[i].0, kvs[i].1, s) is Some,
    ensures
        first_violation(kvs, s) is Some,
    decreases i,
{
    if i > 0 && kv_violation(kvs[0].0, kvs[0].1, s) is None {
        assert(kvs.skip(1)[i - 1] == kvs[i]);
        lemma_violation_found(kvs.skip(1), s, i - 1);
    }
}

/// Does a property's declared default satisfy its own type and nullability?
pub open spec fn default_ok(p: SpecProperty) -> bool {
    match p.default {
        None => p.nullable,
        Some(v) => if v is Null {
            p.nullable
        } else {
            kind_matches(v, p.ptype)
        },
    }
}

/// Every property's default satisfies its own declaration; a fresh page of
/// the schema then starts out valid.
pub open spec fn defaults_valid(s: SpecSchema) -> bool {
    forall|i: int| 0 <= i < s.properties.len() ==> default_ok(#[trigger] s.properties[i].1)
}

/// A fresh frontmatter is valid against its schema, provided every property
/// is covered by its default: a declared default of the right kind, or
/// nullability where the default is null or absent.
pub proof fn lemma_new_frontmatter_valid(id: Seq<char>, s: SpecSchema)
    requires
        wf_schema(s),
        defaults_valid(s),
    ensures
        first_violation(spec_new_fm(id, s).properties, s) is None,
{
    let kvs = spec_new_fm(id, s).properties;
    assert forall|i: int|
        0 <= i < kvs.len() implies kv_violation(#[trigger] kvs[i].0, kvs[i].1, s) is None by {
        assert(kvs[i] == (s.properties[i].0, default_or_null(s.properties[i].1)));
        lemma_find_at_index(s.properties, i);
        assert(default_ok(s.properties[i].1));
    }
    lemma_no_violation(kvs, s);
}

/// A frontmatter naming a property its schema does not declare is invalid.
pub proof fn lemma_unknown_property_invalid(f: SpecFrontmatter, s: SpecSchema, i: int)
    requires
        0 <= i < f.properties.len(),
        spec_find(s.properties, f.properties[i].0) is None,
    ensures
        first_violation(f.properties, s) is Some,
{
    lemma_violation_found(f.properties, s, i);
}

/// A frontmatter holding null for a non-nullable property is invalid.
pub proof fn lemma_null_not_allowed_invalid(f: SpecFrontmatter, s: SpecSchema, i: int)
    requires
        0 <= i < f.properties.len(),
        f.properties[i].1 is Null,
        spec_find(s.properties, f.properties[i].0) matches Some(p) && !p.nullable,
    ensures
        first_violation(f.properties, s) is Some,
{
    lemma_violation_found(f.properties, s, i);
}

/// A frontmatter holding a value whose dynamic kind disagrees with the
/// declared property type is invalid.
pub proof fn lemma_type_mismatch_invalid(f: SpecFrontmatter, s: SpecSchema, i: int)
    requires
        0 <= i < f.properties.len(),
        !(f.properties[i].1 is Null),
        spec_find(s.properties, f.properties[i].0) matches Some(p) && !kind_matches(
            f.properties[i].1,
            p.ptype,
        ),
    ensures
        first_violation(f.properties, s) is Some,
{
    lemma_violation_found(f.properties, s, i);
}

fn upsert_cols_str(props: &Vec<(String, Property)>, i: usize) -> (r: String)
    requires
        i <= props@.len(),
    ensures
        r@ == upsert_cols(crate::schema::props_view(props@).skip(i as int)),
    decreases props@.len() - i,
{
    if i == props.len() {
        let r = String::new();
        proof {
            assert(r@ =~= upsert_cols(crate::schema::props_view(props@).skip(i as int)));
        }
        return r;
    }
    let rest = upsert_cols_str(props, i + 1);
    let pr = &props[i];
    let r = String::from_str(", ").concat(pr.0.as_str()).concat(rest.as_str());
    proof {
        let ps = crate::schema::props_view(props@).skip(i as int);
        assert(ps[0] == crate::schema::props_view(props@)[i as int]);
        assert(ps.skip(1) =~= crate::schema::props_view(props@).skip(i + 1));
        assert(r@ =~= upsert_cols(ps));
    }
    r
}

fn qmarks_str(n: usize) -> (r: String)
    ensures
        r@ == qmarks(n as nat),
    decreases n,
{
    if n == 0 {
        let r = String::new();
        proof {
            assert(r@ =~= qmarks(0));
        }
        return r;
    }
    let rest = qmarks_str(n - 1);
    let r = String::from_str(", ?").concat(rest.as_str());
    r
}

} // verus!
