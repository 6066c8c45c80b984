//! Decimal text for integer values, and the shape of floating-point literals.
//!
//! Integer frontmatter values are held as `i64` and rendered in canonical
//! decimal (no leading zeros, `-` only on negative values). Floating-point
//! values are held as their decimal literal text, so the library itself never
//! computes on a float; the grammar of such a literal is defined here.

use vstd::prelude::*;

verus! {

pub open spec fn is_digit(c: char) -> bool {
    '0' <= c && c <= '9'
}

pub open spec fn digit_val(c: char) -> int {
    c as int - 48
}

pub open spec fn digit_char(d: int) -> char {
    if d == 0 {
        '0'
    } else if d == 1 {
        '1'
    } else if d == 2 {
        '2'
    } else if d == 3 {
        '3'
    } else if d == 4 {
        '4'
    } else if d == 5 {
        '5'
    } else if d == 6 {
        '6'
    } else if d == 7 {
        '7'
    } else if d == 8 {
        '8'
    } else {
        '9'
    }
}

/// The canonical decimal digits of a natural number, most significant first.
pub open spec fn nat_digits(n: nat) -> Seq<char>
    decreases n,
{
    if n < 10 {
        seq![digit_char(n as int)]
    } else {
        nat_digits(n / 10) + seq![digit_char((n % 10) as int)]
    }
}

/// The canonical decimal text of an integer.
pub open spec fn int_text(i: int) -> Seq<char> {
    if i < 0 {
        seq!['-'] + nat_digits((-i) as nat)
    } else {
        nat_digits(i as nat)
    }
}

pub open spec fn all_digits(t: Seq<char>) -> bool {
    t.len() > 0 && forall|i: int| 0 <= i < t.len() ==> is_digit(#[trigger] t[i])
}

/// Digit text with no superfluous leading zero.
pub open spec fn is_canon_digits(t: Seq<char>) -> bool {
    all_digits(t) && (t.len() > 1 ==> t[0] != '0')
}

/// The value of a digit sequence.
pub open spec fn digits_val(t: Seq<char>) -> int
    decreases t.len(),
{
    if t.len() == 0 {
        0
    } else {
        digits_val(t.drop_last()) * 10 + digit_val(t.last())
    }
}

pub open spec fn pow10(n: nat) -> int
    decreases n,
{
    if n == 0 {
        1
    } else {
        10 * pow10((n - 1) as nat)
    }
}

/// What an integer value text means: `Some(v)` exactly when `t` is the
/// canonical decimal text of an `i64` value `v`.
pub open spec fn spec_parse_int(t: Seq<char>) -> Option<int> {
    if t.len() > 0 && t[0] == '-' {
        let u = t.skip(1);
        if is_canon_digits(u) && digits_val(u) >= 1 && -digits_val(u) >= i64::MIN as int {
            Some(-digits_val(u))
        } else {
            None
        }
    } else {
        if is_canon_digits(t) && digits_val(t) <= i64::MAX as int {
            Some(digits_val(t))
        } else {
            None
        }
    }
}

pub proof fn lemma_nat_digits_shape(n: nat)
    ensures
        nat_digits(n).len() > 0,
        all_digits(nat_digits(n)),
        n > 0 ==> nat_digits(n)[0] != '0',
        n == 0 ==> nat_digits(n) == seq!['0'],
        is_canon_digits(nat_digits(n)),
    decreases n,
{
    if n >= 10 {
        lemma_nat_digits_shape(n / 10);
    }
}

pub proof fn lemma_digit_char_val(d: int)
    requires
        0 <= d < 10,
    ensures
        digit_val(digit_char(d)) == d,
        is_digit(digit_char(d)),
{
}

pub proof fn lemma_digits_val_nat_digits(n: nat)
    ensures
        digits_val(nat_digits(n)) == n,
    decreases n,
{
    if n < 10 {
        lemma_digit_char_val(n as int);
        reveal_with_fuel(digits_val, 2);
        assert(nat_digits(n).drop_last() =~= Seq::<char>::empty());
        assert(nat_digits(n).last() == digit_char(n as int));
    } else {
        lemma_digits_val_nat_digits(n / 10);
        lemma_digit_char_val((n % 10) as int);
        let a = nat_digits(n / 10);
        let t = nat_digits(n);
        assert(t.drop_last() =~= a);
        assert(t.last() == digit_char((n % 10) as int));
        assert(digits_val(t) == digits_val(a) * 10 + digit_val(digit_char((n % 10) as int)));
        vstd::arithmetic::div_mod::lemma_fundamental_div_mod(n as int, 10);
        assert(digits_val(t) == (n / 10) * 10 + (n % 10));
    }
}

pub proof fn lemma_digits_val_bound(t: Seq<char>)
    requires
        forall|i: int| 0 <= i < t.len() ==> is_digit(#[trigger] t[i]),
    ensures
        0 <= digits_val(t) < pow10(t.len()),
    decreases t.len(),
{
    if t.len() > 0 {
        lemma_digits_val_bound(t.drop_last());
    }
}

pub proof fn lemma_canon_digits_lower(t: Seq<char>)
    requires
        all_digits(t),
        t[0] != '0',
    ensures
        digits_val(t) >= pow10((t.len() - 1) as nat),
    decreases t.len(),
{
    if t.len() == 1 {
        assert(digits_val(t) == digits_val(t.drop_last()) * 10 + digit_val(t.last()));
        assert(t.drop_last() =~= Seq::<char>::empty());
        assert(is_digit(t[0]) && t[0] != '0');
        assert(digit_val(t.last()) >= 1);
    } else {
        let a = t.drop_last();
        assert(a[0] == t[0]);
        assert(all_digits(a));
        lemma_canon_digits_lower(a);
        assert(is_digit(t.last()));
        assert(digit_val(t.last()) >= 0);
        assert(digits_val(a) * 10 >= pow10((a.len() - 1) as nat) * 10);
        assert(pow10((t.len() - 1) as nat) == 10 * pow10((t.len() - 2) as nat));
    }
}

pub proof fn lemma_pow10_mono(a: nat, b: nat)
    requires
        a <= b,
    ensures
        pow10(a) <= pow10(b),
    decreases b,
{
    if a < b {
        lemma_pow10_mono(a, (b - 1) as nat);
        lemma_digit_pow_pos((b - 1) as nat);
    }
}

pub proof fn lemma_digit_pow_pos(n: nat)
    ensures
        pow10(n) >= 1,
    decreases n,
{
    if n > 0 {
        lemma_digit_pow_pos((n - 1) as nat);
    }
}

pub proof fn lemma_pow10_values()
    ensures
        pow10(18) == 1000000000000000000,
        pow10(19) == 10000000000000000000,
{
    reveal_with_fuel(pow10, 21);
}

/// The canonical text parses back to its value.
pub proof fn lemma_parse_int_text(i: int)
    requires
        i64::MIN <= i <= i64::MAX,
    ensures
        spec_parse_int(int_text(i)) == Some(i),
{
    if i < 0 {
        let m = (-i) as nat;
        lemma_nat_digits_shape(m);
        lemma_digits_val_nat_digits(m);
        let t = int_text(i);
        assert(t[0] == '-');
        assert(t.skip(1) =~= nat_digits(m));
    } else {
        let m = i as nat;
        lemma_nat_digits_shape(m);
        lemma_digits_val_nat_digits(m);
        let t = int_text(i);
        assert(is_digit(t[0]));
        assert(t[0] != '-');
    }
}

/// One decimal digit as text.
fn digit_str(d: u64) -> (r: &'static str)
    requires
        d < 10,
    ensures
        r@ == seq![digit_char(d as int)],
{
    proof {
        reveal_strlit("0");
        reveal_strlit("1");
        reveal_strlit("2");
        reveal_strlit("3");
        reveal_strlit("4");
        reveal_strlit("5");
        reveal_strlit("6");
        reveal_strlit("7");
        reveal_strlit("8");
        reveal_strlit("9");
    }
    let r = match d {
        0 => "0",
        1 => "1",
        2 => "2",
        3 => "3",
        4 => "4",
        5 => "5",
        6 => "6",
        7 => "7",
        8 => "8",
        _ => "9",
    };
    proof {
        assert(r@ =~= seq![digit_char(d as int)]);
    }
    r
}

/// The canonical decimal text of a natural number.
pub fn nat_text(n: u64) -> (r: String)
    ensures
        r@ == nat_digits(n as nat),
    decreases n,
{
    if n < 10 {
        String::from_str(digit_str(n))
    } else {
        let q = nat_text(n / 10);
        q.concat(digit_str(n % 10))
    }
}

/// The canonical decimal text of an integer.
pub fn int_str(i: i64) -> (r: String)
    ensures
        r@ == int_text(i as int),
{
    if i >= 0 {
        nat_text(i as u64)
    } else {
        let m: u64 = ((-(i + 1)) as u64) + 1;
        proof {
            assert(m as int == -(i as int));
            reveal_strlit("-");
        }
        let t = nat_text(m);
        String::from_str("-").concat(t.as_str())
    }
}

/// Are the characters of `s` in `[from, to)` all decimal digits?
pub fn digits_in_range(s: &str, from: usize, to: usize) -> (r: bool)
    requires
        from <= to <= s@.len(),
    ensures
        r == (forall|j: int| from <= j < to ==> is_digit(#[trigger] s@[j])),
{
    let mut i: usize = from;
    while i < to
        invariant
            from <= i <= to <= s@.len(),
            forall|j: int| from <= j < i ==> is_digit(#[trigger] s@[j]),
        decreases to - i,
    {
        let c = s.get_char(i);
        if c < '0' || c > '9' {
            return false;
        }
        i += 1;
    }
    true
}

/// Decode an integer value text; `Some` exactly on canonical `i64` decimals.
pub fn parse_int_str(s: &str) -> (r: Option<i64>)
    ensures
        match r {
            Some(v) => spec_parse_int(s@) == Some(v as int),
            None => spec_parse_int(s@) is None,
        },
{
    let len = s.unicode_len();
    let neg = len > 0 && s.get_char(0) == '-';
    let start: usize = if neg {
        1
    } else {
        0
    };
    let ghost u = if neg {
        s@.skip(1)
    } else {
        s@
    };
    proof {
        assert(s@.skip(0) =~= s@);
        assert(u =~= s@.subrange(start as int, len as int));
    }
    if len == start {
        return None;
    }
    if !digits_in_range(s, start, len) {
        proof {
            assert(exists|j: int| start <= j < len && !is_digit(#[trigger] s@[j]));
            let j = choose|j: int| start <= j < len && !is_digit(#[trigger] s@[j]);
            assert(u[j - start] == s@[j]);
            assert(!all_digits(u));
        }
        return None;
    }
    proof {
        assert(all_digits(u));
    }
    if len - start > 1 && s.get_char(start) == '0' {
        return None;
    }
    proof {
        assert(is_canon_digits(u));
    }
    if len - start > 19 {
        proof {
            assert(u.len() >= 20);
            assert(u[0] != '0');
            lemma_canon_digits_lower(u);
            lemma_pow10_mono(19, (u.len() - 1) as nat);
            lemma_pow10_values();
            assert(digits_val(u) >= 10000000000000000000);
        }
        return None;
    }
    let mut acc: u64 = 0;
    let mut i: usize = start;
    proof {
        assert(s@.subrange(start as int, start as int) =~= Seq::<char>::empty());
        lemma_pow10_values();
    }
    while i < len
        invariant
            start <= i <= len,
            len == s@.len(),
            len - start <= 19,
            u == s@.subrange(start as int, len as int),
            all_digits(u),
            forall|j: int| start <= j < len ==> is_digit(#[trigger] s@[j]),
            acc == digits_val(s@.subrange(start as int, i as int)),
            acc < pow10((i - start) as nat),
            pow10(18) == 1000000000000000000,
            pow10(19) == 10000000000000000000,
        decreases len - i,
    {
        let c = s.get_char(i);
        let d: u64 = (c as u32 as u64) - 48;
        proof {
            lemma_pow10_mono((i - start) as nat, 18);
            let p = s@.subrange(start as int, i as int);
            let q = s@.subrange(start as int, i + 1);
            assert(q.drop_last() =~= p);
            assert(q.last() == s@[i as int]);
            assert(d == digit_val(s@[i as int]));
        }
        acc = acc * 10 + d;
        i += 1;
    }
    proof {
        assert(s@.subrange(start as int, len as int) == u);
        assert(acc == digits_val(u));
    }
    if neg {
        if acc == 0 {
            return None;
        }
        if acc <= 9223372036854775807u64 {
            Some(-(acc as i64))
        } else if acc == 9223372036854775808u64 {
            Some(i64::MIN)
        } else {
            None
        }
    } else {
        if acc <= 9223372036854775807u64 {
            Some(acc as i64)
        } else {
            None
        }
    }
}

/// A literal body with its optional minus sign stripped.
pub open spec fn strip_sign(t: Seq<char>) -> Seq<char> {
    if t.len() > 0 && t[0] == '-' {
        t.skip(1)
    } else {
        t
    }
}

/// Digits, a dot at position `d`, digits.
pub open spec fn dot_at(u: Seq<char>, d: int) -> bool {
    0 < d && d + 1 < u.len() && u[d] == '.' && all_digits(u.subrange(0, d)) && all_digits(
        u.subrange(d + 1, u.len() as int),
    )
}

/// The shape of a floating-point literal: an optional minus sign, one or more
/// digits, a dot, one or more digits.
pub open spec fn is_float_text(t: Seq<char>) -> bool {
    exists|d: int| #[trigger] dot_at(strip_sign(t), d)
}

/// Recognize a floating-point literal.
pub fn is_float_str(s: &str) -> (r: bool)
    ensures
        r == is_float_text(s@),
{
    let len = s.unicode_len();
    let start: usize = if len > 0 && s.get_char(0) == '-' {
        1
    } else {
        0
    };
    let ghost u = strip_sign(s@);
    proof {
        assert(s@.skip(0) =~= s@);
        assert(u =~= s@.subrange(start as int, len as int));
        assert(u.len() == len - start);
        assert(forall|x: int| 0 <= x < u.len() ==> u[x] == s@[x + start]);
    }
    if start >= len {
        proof {
            assert(forall|d: int| !dot_at(strip_sign(s@), d));
        }
        return false;
    }
    let p = crate::text::find_char_from(s, start, '.');
    if p >= len {
        proof {
            assert forall|d: int| !dot_at(strip_sign(s@), d) by {
                if 0 < d && d + 1 < u.len() {
                    assert(s@[d + start] != '.');
                }
            }
        }
        return false;
    }
    let ghost dp = p - start;
    let ok = p > start && p + 1 < len && digits_in_range(s, start, p) && digits_in_range(
        s,
        p + 1,
        len,
    );
    proof {
        if ok {
            assert(u.subrange(0, dp) =~= s@.subrange(start as int, p as int));
            assert(u.subrange(dp + 1, u.len() as int) =~= s@.subrange(p + 1, len as int));
            assert(all_digits(u.subrange(0, dp)));
            assert(all_digits(u.subrange(dp + 1, u.len() as int)));
            assert(0 < dp && dp + 1 < u.len() && u[dp] == '.');
            assert(dot_at(strip_sign(s@), dp));
        } else {
            assert forall|d: int| !dot_at(strip_sign(s@), d) by {
                if dot_at(u, d) {
                    assert(s@[d + start] == '.');
                    assert(d + start >= p);
                    if d > dp {
                        assert(u.subrange(0, d)[dp] == u[dp]);
                        assert(is_digit(u.subrange(0, d)[dp]));
                        assert(false);
                    }
                    assert(d == dp);
                    assert(u.subrange(0, dp) =~= s@.subrange(start as int, p as int));
                    assert(u.subrange(dp + 1, u.len() as int) =~= s@.subrange(p + 1, len as int));
                    assert(p > start && p + 1 < len);
                    assert forall|j: int| start <= j < p implies is_digit(#[trigger] s@[j]) by {
                        assert(s@.subrange(start as int, p as int)[j - start] == s@[j]);
                    }
                    assert forall|j: int| p + 1 <= j < len implies is_digit(#[trigger] s@[j]) by {
                        assert(s@.subrange(p + 1, len as int)[j - p - 1] == s@[j]);
                    }
                    assert(false);
                }
            }
        }
    }
    ok
}

} // verus!
