//! Character-level primitives shared by the codecs: identifier alphabets,
//! lexicographic ordering of strings, and splitting text into lines.

use vstd::prelude::*;

verus! {

/// Characters allowed in schema and property names. The alphabet is SQL- and
/// filename-safe, so names may stand as table and column identifiers and as
/// filename segments without quoting.
pub open spec fn is_name_char(c: char) -> bool {
    ('a' <= c && c <= 'z') || ('A' <= c && c <= 'Z') || ('0' <= c && c <= '9') || c == '_'
}

/// A usable schema or property name. `id` and `schema` are reserved for the
/// fixed keys of the frontmatter block.
pub open spec fn valid_name(t: Seq<char>) -> bool {
    &&& t.len() > 0
    &&& forall|i: int| 0 <= i < t.len() ==> is_name_char(#[trigger] t[i])
    &&& t != seq!['i', 'd']
    &&& t != seq!['s', 'c', 'h', 'e', 'm', 'a']
}

/// Characters allowed in a page id (the hyphenated hexadecimal alphabet of a
/// generated id is a subset).
pub open spec fn is_id_char(c: char) -> bool {
    ('a' <= c && c <= 'z') || ('A' <= c && c <= 'Z') || ('0' <= c && c <= '9') || c == '-'
}

/// A usable page id: non-empty, and free of `.`, `:`, newlines and path
/// separators, so it can stand in a filename segment and a frontmatter line.
pub open spec fn valid_id(t: Seq<char>) -> bool {
    &&& t.len() > 0
    &&& forall|i: int| 0 <= i < t.len() ==> is_id_char(#[trigger] t[i])
}

/// Strict lexicographic order on character sequences, by code point.
pub open spec fn seq_lt(a: Seq<char>, b: Seq<char>) -> bool
    decreases a.len(),
{
    if b.len() == 0 {
        false
    } else if a.len() == 0 {
        true
    } else if a[0] != b[0] {
        a[0] < b[0]
    } else {
        seq_lt(a.skip(1), b.skip(1))
    }
}

pub proof fn lemma_seq_lt_irrefl(a: Seq<char>)
    ensures
        !seq_lt(a, a),
    decreases a.len(),
{
    if a.len() > 0 {
        lemma_seq_lt_irrefl(a.skip(1));
    }
}

pub proof fn lemma_seq_lt_trans(a: Seq<char>, b: Seq<char>, c: Seq<char>)
    requires
        seq_lt(a, b),
        seq_lt(b, c),
    ensures
        seq_lt(a, c),
    decreases a.len() + b.len() + c.len(),
{
    if a.len() == 0 || b.len() == 0 || c.len() == 0 {
    } else {
        if a[0] == b[0] && b[0] == c[0] {
            lemma_seq_lt_trans(a.skip(1), b.skip(1), c.skip(1));
        }
    }
}

/// First index at or after 0 where `c` occurs in `t`, or `t.len()` if absent.
pub open spec fn find_ch(t: Seq<char>, c: char) -> int
    decreases t.len(),
{
    if t.len() == 0 {
        0
    } else if t[0] == c {
        0
    } else {
        1 + find_ch(t.skip(1), c)
    }
}

pub proof fn lemma_find_ch(t: Seq<char>, c: char)
    ensures
        0 <= find_ch(t, c) <= t.len(),
        find_ch(t, c) < t.len() ==> t[find_ch(t, c)] == c,
        forall|j: int| 0 <= j < find_ch(t, c) ==> t[j] != c,
    decreases t.len(),
{
    if t.len() > 0 && t[0] != c {
        lemma_find_ch(t.skip(1), c);
        assert forall|j: int| 0 <= j < find_ch(t, c) implies t[j] != c by {
            if j > 0 {
                assert(t.skip(1)[j - 1] != c);
            }
        }
    }
}

/// If the first occurrence is known pointwise, it is `find_ch`.
pub proof fn lemma_find_ch_at(t: Seq<char>, c: char, i: int)
    requires
        0 <= i <= t.len(),
        i == t.len() || t[i] == c,
        forall|j: int| 0 <= j < i ==> t[j] != c,
    ensures
        find_ch(t, c) == i,
    decreases t.len(),
{
    if t.len() > 0 && t[0] != c {
        lemma_find_ch_at(t.skip(1), c, i - 1);
    }
}

/// The text split at every newline. A trailing newline does not open a final
/// empty line.
pub open spec fn spec_lines(t: Seq<char>) -> Seq<Seq<char>>
    decreases t.len(),
{
    if t.len() == 0 {
        Seq::empty()
    } else {
        let i = find_ch(t, '\n');
        if 0 <= i < t.len() {
            seq![t.subrange(0, i)] + spec_lines(t.subrange(i + 1, t.len() as int))
        } else {
            seq![t]
        }
    }
}

/// The lines joined back into text, each line followed by a newline.
pub open spec fn spec_join(ls: Seq<Seq<char>>) -> Seq<char>
    decreases ls.len(),
{
    if ls.len() == 0 {
        Seq::empty()
    } else {
        ls[0] + seq!['\n'] + spec_join(ls.skip(1))
    }
}

/// A line that may be joined: it holds no newline of its own.
pub open spec fn line_ok(l: Seq<char>) -> bool {
    forall|i: int| 0 <= i < l.len() ==> l[i] != '\n'
}

/// Splitting undoes joining, for any block of newline-free lines.
pub proof fn lemma_lines_of_join(ls: Seq<Seq<char>>)
    requires
        forall|k: int| 0 <= k < ls.len() ==> line_ok(#[trigger] ls[k]),
    ensures
        spec_lines(spec_join(ls)) == ls,
    decreases ls.len(),
{
    if ls.len() == 0 {
        assert(spec_lines(spec_join(ls)) =~= ls);
    } else {
        let t = spec_join(ls);
        let l0 = ls[0];
        let rest = spec_join(ls.skip(1));
        assert(t == l0 + seq!['\n'] + rest);
        assert(t.len() == l0.len() + 1 + rest.len());
        assert(forall|j: int| 0 <= j < l0.len() ==> t[j] == l0[j] && t[j] != '\n');
        assert(t[l0.len() as int] == '\n');
        lemma_find_ch_at(t, '\n', l0.len() as int);
        assert(t.subrange(0, l0.len() as int) =~= l0);
        assert(t.subrange(l0.len() as int + 1, t.len() as int) =~= rest);
        lemma_lines_of_join(ls.skip(1));
        assert(spec_lines(t) =~= ls);
    }
}

/// The keys of a keyed sequence are in strictly ascending order.
pub open spec fn sorted_keys<T>(s: Seq<(Seq<char>, T)>) -> bool {
    forall|i: int| 0 <= i < s.len() - 1 ==> seq_lt(#[trigger] s[i].0, s[i + 1].0)
}

/// The first entry with key `k`, searched front to back.
pub open spec fn spec_find<T>(s: Seq<(Seq<char>, T)>, k: Seq<char>) -> Option<T>
    decreases s.len(),
{
    if s.len() == 0 {
        None
    } else if s[0].0 == k {
        Some(s[0].1)
    } else {
        spec_find(s.skip(1), k)
    }
}

/// In a sorted keyed sequence, any earlier key is below any later one.
pub proof fn lemma_sorted_pairwise<T>(s: Seq<(Seq<char>, T)>, i: int, j: int)
    requires
        sorted_keys(s),
        0 <= i < j < s.len(),
    ensures
        seq_lt(s[i].0, s[j].0),
    decreases j - i,
{
    if i + 1 == j {
    } else {
        lemma_sorted_pairwise(s, i + 1, j);
        lemma_seq_lt_trans(s[i].0, s[i + 1].0, s[j].0);
    }
}

/// In a sorted keyed sequence, looking an entry's own key up yields that
/// entry.
pub proof fn lemma_find_at_index<T>(s: Seq<(Seq<char>, T)>, i: int)
    requires
        sorted_keys(s),
        0 <= i < s.len(),
    ensures
        spec_find(s, s[i].0) == Some(s[i].1),
    decreases i,
{
    if i == 0 {
    } else {
        lemma_sorted_pairwise(s, 0, i);
        lemma_seq_lt_irrefl(s[i].0);
        assert(s[0].0 != s[i].0);
        assert(sorted_keys(s.skip(1))) by {
            assert forall|x: int| 0 <= x < s.skip(1).len() - 1 implies seq_lt(
                #[trigger] s.skip(1)[x].0,
                s.skip(1)[x + 1].0,
            ) by {
                assert(s.skip(1)[x] == s[x + 1]);
                assert(s.skip(1)[x + 1] == s[x + 2]);
            }
        }
        lemma_find_at_index(s.skip(1), i - 1);
    }
}

/// `p` is an initial segment of `s`.
pub open spec fn is_prefix(p: Seq<char>, s: Seq<char>) -> bool {
    p.len() <= s.len() && forall|i: int| 0 <= i < p.len() ==> s[i] == p[i]
}

/// Equality of two string slices, decided character by character.
pub fn str_eq(a: &str, b: &str) -> (r: bool)
    ensures
        r == (a@ == b@),
{
    let alen = a.unicode_len();
    let blen = b.unicode_len();
    if alen != blen {
        return false;
    }
    let mut i: usize = 0;
    while i < alen
        invariant
            0 <= i <= alen,
            alen == a@.len(),
            alen == b@.len(),
            forall|j: int| 0 <= j < i ==> a@[j] == b@[j],
        decreases alen - i,
    {
        if a.get_char(i) != b.get_char(i) {
            return false;
        }
        i += 1;
    }
    proof {
        assert(a@ =~= b@);
    }
    true
}

/// Strict lexicographic comparison of two string slices.
pub fn str_lt(a: &str, b: &str) -> (r: bool)
    ensures
        r == seq_lt(a@, b@),
{
    let alen = a.unicode_len();
    let blen = b.unicode_len();
    let mut i: usize = 0;
    proof {
        assert(a@.skip(0) =~= a@);
        assert(b@.skip(0) =~= b@);
    }
    loop
        invariant
            0 <= i <= alen,
            i <= blen,
            alen == a@.len(),
            blen == b@.len(),
            forall|j: int| 0 <= j < i ==> a@[j] == b@[j],
            seq_lt(a@, b@) == seq_lt(a@.skip(i as int), b@.skip(i as int)),
        decreases alen - i,
    {
        if i >= blen {
            return false;
        }
        if i >= alen {
            return true;
        }
        let ca = a.get_char(i);
        let cb = b.get_char(i);
        if ca != cb {
            return ca < cb;
        }
        proof {
            assert(a@.skip(i as int).skip(1) =~= a@.skip(i + 1));
            assert(b@.skip(i as int).skip(1) =~= b@.skip(i + 1));
        }
        i += 1;
    }
}

/// Does `s` start with `p`?
pub fn has_prefix(s: &str, p: &str) -> (r: bool)
    ensures
        r == is_prefix(p@, s@),
{
    let plen = p.unicode_len();
    let slen = s.unicode_len();
    if plen > slen {
        return false;
    }
    let mut i: usize = 0;
    while i < plen
        invariant
            0 <= i <= plen,
            plen <= slen,
            plen == p@.len(),
            slen == s@.len(),
            forall|j: int| 0 <= j < i ==> s@[j] == p@[j],
        decreases plen - i,
    {
        if s.get_char(i) != p.get_char(i) {
            return false;
        }
        i += 1;
    }
    true
}

/// First index at or after `from` holding `c`, as `find_ch` on the suffix.
pub fn find_char_from(s: &str, from: usize, c: char) -> (r: usize)
    requires
        from <= s@.len(),
    ensures
        r == from + find_ch(s@.skip(from as int), c),
        from <= r <= s@.len(),
        r < s@.len() ==> s@[r as int] == c,
        forall|j: int| from <= j < r ==> s@[j] != c,
{
    let len = s.unicode_len();
    let mut i: usize = from;
    while i < len
        invariant
            from <= i <= len,
            len == s@.len(),
            forall|j: int| from <= j < i ==> s@[j] != c,
        decreases len - i,
    {
        if s.get_char(i) == c {
            proof {
                lemma_find_ch_at(s@.skip(from as int), c, i - from);
            }
            return i;
        }
        i += 1;
    }
    proof {
        lemma_find_ch_at(s@.skip(from as int), c, len - from);
    }
    len
}

/// The views of a vector of string slices.
pub open spec fn views(v: Seq<&str>) -> Seq<Seq<char>> {
    v.map_values(|s: &str| s@)
}

/// The views of a vector of owned strings.
pub open spec fn string_views(v: Seq<String>) -> Seq<Seq<char>> {
    v.map_values(|s: String| s@)
}

/// Decide `valid_name`.
pub fn valid_name_str(s: &str) -> (r: bool)
    ensures
        r == valid_name(s@),
{
    proof {
        reveal_strlit("id");
        reveal_strlit("schema");
        assert("id"@ =~= seq!['i', 'd']);
        assert("schema"@ =~= seq!['s', 'c', 'h', 'e', 'm', 'a']);
    }
    let len = s.unicode_len();
    if len == 0 {
        return false;
    }
    let mut i: usize = 0;
    while i < len
        invariant
            0 <= i <= len,
            len == s@.len(),
            forall|j: int| 0 <= j < i ==> is_name_char(#[trigger] s@[j]),
        decreases len - i,
    {
        let c = s.get_char(i);
        if !(('a' <= c && c <= 'z') || ('A' <= c && c <= 'Z') || ('0' <= c && c <= '9') || c
            == '_') {
            return false;
        }
        i += 1;
    }
    if str_eq(s, "id") {
        return false;
    }
    if str_eq(s, "schema") {
        return false;
    }
    true
}

/// Decide `valid_id`.
pub fn valid_id_str(s: &str) -> (r: bool)
    ensures
        r == valid_id(s@),
{
    let len = s.unicode_len();
    if len == 0 {
        return false;
    }
    let mut i: usize = 0;
    while i < len
        invariant
            0 <= i <= len,
            len == s@.len(),
            forall|j: int| 0 <= j < i ==> is_id_char(#[trigger] s@[j]),
        decreases len - i,
    {
        let c = s.get_char(i);
        if !(('a' <= c && c <= 'z') || ('A' <= c && c <= 'Z') || ('0' <= c && c <= '9') || c
            == '-') {
            return false;
        }
        i += 1;
    }
    true
}

/// Split text into lines, one slice per line, exactly as `spec_lines`.
pub fn split_lines<'a>(s: &'a str) -> (r: Vec<&'a str>)
    ensures
        views(r@) == spec_lines(s@),
    decreases s@.len(),
{
    let len = s.unicode_len();
    if len == 0 {
        let r: Vec<&'a str> = Vec::new();
        proof {
            assert(views(r@) =~= spec_lines(s@));
        }
        return r;
    }
    let i = find_char_from(s, 0, '\n');
    proof {
        assert(s@.skip(0) =~= s@);
    }
    if i < len {
        let head = s.substring_char(0, i);
        let tail = s.substring_char(i + 1, len);
        let mut r = split_lines(tail);
        r.insert(0, head);
        proof {
            assert(views(r@) =~= seq![s@.subrange(0, i as int)] + spec_lines(
                s@.subrange(i + 1, s@.len() as int),
            ));
        }
        r
    } else {
        let mut r: Vec<&'a str> = Vec::new();
        r.push(s);
        proof {
            assert(views(r@) =~= seq![s@]);
        }
        r
    }
}

/// Join lines into text, each line followed by a newline.
pub fn join_lines(v: &Vec<String>, i: usize) -> (r: String)
    requires
        i <= v@.len(),
    ensures
        r@ == spec_join(string_views(v@).skip(i as int)),
    decreases v@.len() - i,
{
    if i == v.len() {
        let r = String::new();
        proof {
            assert(r@ =~= spec_join(string_views(v@).skip(i as int)));
        }
        return r;
    }
    let rest = join_lines(v, i + 1);
    let line = v[i].clone();
    let r = line.concat("\n").concat(rest.as_str());
    proof {
        reveal_strlit("\n");
        assert("\n"@ =~= seq!['\n']);
        let sv = string_views(v@).skip(i as int);
        assert(sv[0] == v@[i as int]@);
        assert(sv.skip(1) =~= string_views(v@).skip(i + 1));
        assert(r@ =~= sv[0] + seq!['\n'] + spec_join(sv.skip(1)));
    }
    r
}

} // verus!
