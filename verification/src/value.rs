//! The dynamic frontmatter value: a closed sum over null, booleans, integers,
//! floating-point literals and strings, with its single-token text form.
//!
//! A floating-point value is carried as its decimal literal text, so the
//! library never computes on floats; the embedding application converts the
//! text when it binds the value to a relational parameter.

use vstd::prelude::*;

use crate::num::{
    int_str, int_text, is_float_str, is_float_text, parse_int_str, spec_parse_int, strip_sign,
    dot_at, all_digits, is_digit, lemma_parse_int_text,
};

verus! {

/// A dynamic value held by a frontmatter property.
#[derive(Debug, PartialEq, Eq)]
pub enum Value {
    Null,
    Bool(bool),
    Int(i64),
    /// A floating-point literal, carried as its decimal text.
    Float(String),
    Str(String),
}

/// The mathematical model of a `Value`.
pub ghost enum SpecValue {
    Null,
    Bool(bool),
    Int(int),
    Float(Seq<char>),
    Str(Seq<char>),
}

impl View for Value {
    type V = SpecValue;

    open spec fn view(&self) -> SpecValue {
        match self {
            Value::Null => SpecValue::Null,
            Value::Bool(b) => SpecValue::Bool(*b),
            Value::Int(i) => SpecValue::Int(*i as int),
            Value::Float(t) => SpecValue::Float(t@),
            Value::Str(s) => SpecValue::Str(s@),
        }
    }
}

/// A representable value: integers fit the machine type, a float literal has
/// the literal shape, and a string holds neither a quote nor a newline (the
/// text form reserves both).
pub open spec fn wf_value(v: SpecValue) -> bool {
    match v {
        SpecValue::Null => true,
        SpecValue::Bool(_) => true,
        SpecValue::Int(i) => i64::MIN <= i <= i64::MAX,
        SpecValue::Float(t) => is_float_text(t),
        SpecValue::Str(s) => forall|i: int| 0 <= i < s.len() ==> s[i] != '"' && s[i] != '\n',
    }
}

pub open spec fn null_text() -> Seq<char> {
    seq!['n', 'u', 'l', 'l']
}

pub open spec fn true_text() -> Seq<char> {
    seq!['t', 'r', 'u', 'e']
}

pub open spec fn false_text() -> Seq<char> {
    seq!['f', 'a', 'l', 's', 'e']
}

/// The single-token text of a value.
pub open spec fn val_text(v: SpecValue) -> Seq<char> {
    match v {
        SpecValue::Null => null_text(),
        SpecValue::Bool(b) => if b {
            true_text()
        } else {
            false_text()
        },
        SpecValue::Int(i) => int_text(i),
        SpecValue::Float(t) => t,
        SpecValue::Str(s) => seq!['"'] + s + seq!['"'],
    }
}

/// The inner text of a well-formed quoted token.
pub open spec fn quoted_ok(t: Seq<char>) -> bool {
    t.len() >= 2 && t[0] == '"' && t[t.len() - 1] == '"' && forall|i: int|
        1 <= i < t.len() - 1 ==> t[i] != '"' && t[i] != '\n'
}

/// What a value token means; `Some` exactly on the text forms above.
pub open spec fn spec_parse_val(t: Seq<char>) -> Option<SpecValue> {
    if t == null_text() {
        Some(SpecValue::Null)
    } else if t == true_text() {
        Some(SpecValue::Bool(true))
    } else if t == false_text() {
        Some(SpecValue::Bool(false))
    } else if quoted_ok(t) {
        Some(SpecValue::Str(t.subrange(1, t.len() - 1)))
    } else if spec_parse_int(t) is Some {
        Some(SpecValue::Int(spec_parse_int(t)->Some_0))
    } else if is_float_text(t) {
        Some(SpecValue::Float(t))
    } else {
        None
    }
}

/// A decoded value is always representable.
pub proof fn lemma_parse_val_wf(t: Seq<char>)
    ensures
        spec_parse_val(t) matches Some(v) ==> wf_value(v),
{
    if quoted_ok(t) {
        let s = t.subrange(1, t.len() - 1);
        assert forall|i: int| 0 <= i < s.len() implies s[i] != '"' && s[i] != '\n' by {
            assert(s[i] == t[i + 1]);
        }
    }
    if t.len() > 0 && t[0] == '-' && crate::num::is_canon_digits(t.skip(1)) {
        crate::num::lemma_digits_val_bound(t.skip(1));
    }
    if crate::num::is_canon_digits(t) {
        crate::num::lemma_digits_val_bound(t);
    }
}

/// The text of a well-formed value decodes back to that value.
pub proof fn lemma_parse_val_text(v: SpecValue)
    requires
        wf_value(v),
    ensures
        spec_parse_val(val_text(v)) == Some(v),
{
    let t = val_text(v);
    match v {
        SpecValue::Null => {},
        SpecValue::Bool(b) => {
            if b {
                assert(t[0] != null_text()[0]);
            } else {
                assert(t.len() != null_text().len());
                assert(t.len() != true_text().len());
            }
        },
        SpecValue::Int(i) => {
            lemma_parse_int_text(i);
            assert(t == int_text(i));
            assert(t.len() > 0);
            assert(t[0] == '-' || is_digit(t[0])) by {
                if i >= 0 {
                    crate::num::lemma_nat_digits_shape(i as nat);
                } else {
                    crate::num::lemma_nat_digits_shape((-i) as nat);
                    assert(t[0] == '-');
                }
            }
            assert(t[0] != 'n' && t[0] != 't' && t[0] != 'f' && t[0] != '"');
            assert(t != null_text() && t != true_text() && t != false_text());
            assert(!quoted_ok(t));
        },
        SpecValue::Float(ft) => {
            let u = strip_sign(ft);
            let d = choose|d: int| dot_at(strip_sign(ft), d);
            assert(dot_at(u, d));
            assert(u[d] == '.');
            assert(t[0] == '-' || t[0] == u[0]);
            if t[0] != '-' {
                assert(all_digits(u.subrange(0, d)));
                assert(is_digit(u.subrange(0, d)[0]));
                assert(is_digit(t[0]));
            }
            assert(t[0] != 'n' && t[0] != 't' && t[0] != 'f' && t[0] != '"');
            assert(t != null_text() && t != true_text() && t != false_text());
            assert(!quoted_ok(t));
            assert(spec_parse_int(t) is None) by {
                if t.len() > 0 && t[0] == '-' {
                    assert(u == t.skip(1));
                    assert(!is_digit(u[d]));
                    assert(!all_digits(u));
                } else {
                    assert(u == t);
                    assert(!is_digit(t[d]));
                    assert(!all_digits(t));
                }
            }
        },
        SpecValue::Str(s) => {
            assert(t.len() == s.len() + 2);
            assert(t[0] == '"');
            assert(t[t.len() - 1] == '"');
            assert(forall|i: int| 1 <= i < t.len() - 1 ==> t[i] == s[i - 1]);
            assert(t[0] != 'n' && t[0] != 't' && t[0] != 'f');
            assert(t != null_text() && t != true_text() && t != false_text());
            assert(quoted_ok(t));
            assert(t.subrange(1, t.len() - 1) =~= s);
        },
    }
}

/// The text of a well-formed value holds no newline, so it stays on one line.
pub proof fn lemma_val_text_line_ok(v: SpecValue)
    requires
        wf_value(v),
    ensures
        forall|i: int| 0 <= i < val_text(v).len() ==> val_text(v)[i] != '\n',
{
    let t = val_text(v);
    match v {
        SpecValue::Null => {},
        SpecValue::Bool(_) => {},
        SpecValue::Int(i) => {
            if i < 0 {
                crate::num::lemma_nat_digits_shape((-i) as nat);
                assert(all_digits(t.skip(1)));
                assert forall|x: int| 0 <= x < t.len() implies t[x] != '\n' by {
                    if x > 0 {
                        assert(is_digit(t.skip(1)[x - 1]));
                    }
                }
            } else {
                crate::num::lemma_nat_digits_shape(i as nat);
            }
        },
        SpecValue::Float(ft) => {
            let u = strip_sign(ft);
            let d = choose|d: int| dot_at(strip_sign(ft), d);
            assert(dot_at(u, d));
            let off: int = if ft.len() > 0 && ft[0] == '-' {
                1
            } else {
                0
            };
            assert forall|x: int| 0 <= x < t.len() implies t[x] != '\n' by {
                if x >= off {
                    let y = x - off;
                    assert(t[x] == u[y]);
                    if y < d {
                        assert(is_digit(u.subrange(0, d)[y]));
                    } else if y == d {
                        assert(u[y] == '.');
                    } else {
                        assert(is_digit(u.subrange(d + 1, u.len() as int)[y - d - 1]));
                    }
                }
            }
        },
        SpecValue::Str(s) => {
            assert forall|x: int| 0 <= x < t.len() implies t[x] != '\n' by {
                if 1 <= x < t.len() - 1 {
                    assert(t[x] == s[x - 1]);
                }
            }
        },
    }
}

/// Render a value as its single-token text.
pub fn render_value(v: &Value) -> (r: String)
    ensures
        r@ == val_text(v@),
{
    proof {
        reveal_strlit("null");
        reveal_strlit("true");
        reveal_strlit("false");
        reveal_strlit("\"");
    }
    match v {
        Value::Null => {
            let r = String::from_str("null");
            proof {
                assert(r@ =~= null_text());
            }
            r
        },
        Value::Bool(b) => {
            if *b {
                let r = String::from_str("true");
                proof {
                    assert(r@ =~= true_text());
                }
                r
            } else {
                let r = String::from_str("false");
                proof {
                    assert(r@ =~= false_text());
                }
                r
            }
        },
        Value::Int(i) => int_str(*i),
        Value::Float(t) => {
            let r = t.clone();
            r
        },
        Value::Str(s) => {
            let r = String::from_str("\"").concat(s.as_str()).concat("\"");
            proof {
                assert(r@ =~= seq!['"'] + s@ + seq!['"']);
            }
            r
        },
    }
}

/// Decode a single value token; `Some` exactly as `spec_parse_val` says.
pub fn parse_value(t: &str) -> (r: Option<Value>)
    ensures
        match r {
            Some(v) => spec_parse_val(t@) == Some(v@),
            None => spec_parse_val(t@) is None,
        },
{
    proof {
        reveal_strlit("null");
        reveal_strlit("true");
        reveal_strlit("false");
        assert("null"@ =~= null_text());
        assert("true"@ =~= true_text());
        assert("false"@ =~= false_text());
    }
    if crate::text::str_eq(t, "null") {
        return Some(Value::Null);
    }
    if crate::text::str_eq(t, "true") {
        return Some(Value::Bool(true));
    }
    if crate::text::str_eq(t, "false") {
        return Some(Value::Bool(false));
    }
    let len = t.unicode_len();
    if len >= 2 && t.get_char(0) == '"' && t.get_char(len - 1) == '"' {
        let mut i: usize = 1;
        let mut ok = true;
        while i < len - 1
            invariant
                1 <= i <= len - 1,
                len == t@.len(),
                len >= 2,
                ok == (forall|j: int| 1 <= j < i ==> t@[j] != '"' && t@[j] != '\n'),
            decreases len - 1 - i,
        {
            let c = t.get_char(i);
            if c == '"' || c == '\n' {
                ok = false;
            }
            i += 1;
        }
        if ok {
            let mid = t.substring_char(1, len - 1);
            let r = String::from_str(mid);
            proof {
                assert(quoted_ok(t@));
                assert(r@ == t@.subrange(1, t@.len() - 1));
            }
            return Some(Value::Str(r));
        } else {
            proof {
                assert(!quoted_ok(t@));
                let j = choose|j: int| 1 <= j < len && (t@[j] == '"' || t@[j] == '\n');
                assert(spec_parse_int(t@) is None) by {
                    assert(t@[0] == '"');
                    assert(!is_digit(t@[0]));
                }
                assert(!is_float_text(t@)) by {
                    assert forall|d: int| !dot_at(strip_sign(t@), d) by {
                        if dot_at(strip_sign(t@), d) {
                            assert(strip_sign(t@) == t@);
                            assert(is_digit(t@.subrange(0, d)[0]));
                            assert(false);
                        }
                    }
                }
            }
            return None;
        }
    }
    proof {
        assert(!quoted_ok(t@));
    }
    match parse_int_str(t) {
        Some(i) => {
            return Some(Value::Int(i));
        },
        None => {},
    }
    if is_float_str(t) {
        let r = String::from_str(t);
        return Some(Value::Float(r));
    }
    None
}

impl Clone for Value {
    /// A structural copy; the model is preserved.
    fn clone(&self) -> (r: Self)
        ensures
            r@ == self@,
    {
        match self {
            Value::Null => Value::Null,
            Value::Bool(b) => Value::Bool(*b),
            Value::Int(i) => Value::Int(*i),
            Value::Float(t) => Value::Float(t.clone()),
            Value::Str(s) => Value::Str(s.clone()),
        }
    }
}

} // verus!
