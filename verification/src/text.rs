//! Verified text utilities for the statement and CSV parsers: splitting a
//! line into tokens, substring search, trimming, ASCII case folding, and
//! parsing currency amounts into fixed-point cents.

use vstd::prelude::*;

verus! {

/// The views of a vector of owned strings.
pub open spec fn str_views(ts: Seq<String>) -> Seq<Seq<char>> {
    ts.map_values(|t: String| t@)
}

/// Splitting on a separator, as `str::split` does with a single-character
/// pattern: every maximal (possibly empty) segment between separators, so the
/// result always holds one more segment than the line holds separators.
pub open spec fn spec_split(s: Seq<char>, sep: char) -> Seq<Seq<char>>
    decreases s.len(),
{
    if s.len() == 0 {
        seq![Seq::<char>::empty()]
    } else if s[0] == sep {
        seq![Seq::<char>::empty()] + spec_split(s.skip(1), sep)
    } else {
        let rest = spec_split(s.skip(1), sep);
        seq![seq![s[0]] + rest[0]] + rest.skip(1)
    }
}

/// A split always yields at least one segment.
pub proof fn lemma_split_nonempty(s: Seq<char>, sep: char)
    ensures
        spec_split(s, sep).len() >= 1,
    decreases s.len(),
{
    if s.len() != 0 && s[0] != sep {
        lemma_split_nonempty(s.skip(1), sep);
    }
}

/// A sequence without the separator splits into itself alone.
pub proof fn lemma_split_none(s: Seq<char>, sep: char)
    requires
        forall|j: int| 0 <= j < s.len() ==> s[j] != sep,
    ensures
        spec_split(s, sep) =~~= seq![s],
    decreases s.len(),
{
    if s.len() != 0 {
        lemma_split_none(s.skip(1), sep);
        assert(seq![s[0]] + s.skip(1) =~= s);
    }
}

/// Splitting at the first separator: the head segment is everything before
/// it, and the rest is the split of everything after it.
pub proof fn lemma_split_at_first(s: Seq<char>, sep: char, k: int)
    requires
        0 <= k < s.len(),
        s[k] == sep,
        forall|j: int| 0 <= j < k ==> s[j] != sep,
    ensures
        spec_split(s, sep) =~~= seq![s.take(k)] + spec_split(s.skip(k + 1), sep),
    decreases k,
{
    if k == 0 {
        assert(s.take(0) =~= Seq::<char>::empty());
    } else {
        let t = s.skip(1);
        lemma_split_at_first(t, sep, k - 1);
        let rest = spec_split(t, sep);
        lemma_split_nonempty(t.skip(k), sep);
        assert(t.take(k - 1) =~= s.subrange(1, k));
        assert(seq![s[0]] + s.subrange(1, k) =~= s.take(k));
        assert(t.skip(k) =~= s.skip(k + 1));
        assert(spec_split(s, sep) =~~= seq![s.take(k)] + spec_split(s.skip(k + 1), sep));
    }
}

/// Splits a string into the segments between occurrences of `sep`,
/// mirroring `spec_split` exactly.
pub fn split_char(s: &str, sep: char) -> (r: Vec<String>)
    ensures
        str_views(r@) =~~= spec_split(s@, sep),
{
    let n = s.unicode_len();
    let mut r: Vec<String> = Vec::new();
    let mut start: usize = 0;
    let mut i: usize = 0;
    proof {
        assert(s@.skip(0) =~= s@);
        assert(str_views(r@) =~~= Seq::<Seq<char>>::empty());
    }
    while i < n
        invariant
            0 <= start <= i <= n == s@.len(),
            forall|j: int| start <= j < i ==> s@[j] != sep,
            str_views(r@) + spec_split(s@.skip(start as int), sep) =~~= spec_split(s@, sep),
        decreases n - i,
    {
        if s.get_char(i) == sep {
            let tok = s.substring_char(start, i).to_owned();
            proof {
                let tail = s@.skip(start as int);
                lemma_split_at_first(tail, sep, i - start);
                assert(tail.take(i - start) =~= s@.subrange(start as int, i as int));
                assert(tail.skip(i - start + 1) =~= s@.skip(i + 1));
                assert(str_views(r@.push(tok)) =~~= str_views(r@).push(tok@));
            }
            r.push(tok);
            start = i + 1;
        }
        i += 1;
    }
    let last = s.substring_char(start, n).to_owned();
    proof {
        let tail = s@.skip(start as int);
        lemma_split_none(tail, sep);
        assert(tail =~= s@.subrange(start as int, n as int));
        assert(str_views(r@.push(last)) =~~= str_views(r@).push(last@));
    }
    r.push(last);
    r
}

/// Joining segments with a separator between each pair.
pub open spec fn spec_join(ts: Seq<Seq<char>>, sep: char) -> Seq<char>
    decreases ts.len(),
{
    if ts.len() == 0 {
        Seq::empty()
    } else if ts.len() == 1 {
        ts[0]
    } else {
        ts[0] + seq![sep] + spec_join(ts.skip(1), sep)
    }
}

/// Splitting loses nothing: joining the segments with the separator gives
/// back the text that was split.
pub proof fn lemma_split_join_identity(s: Seq<char>, sep: char)
    ensures
        spec_join(spec_split(s, sep), sep) == s,
    decreases s.len(),
{
    if s.len() == 0 {
    } else {
        lemma_split_join_identity(s.skip(1), sep);
        let rest = spec_split(s.skip(1), sep);
        lemma_split_nonempty(s.skip(1), sep);
        let sp = spec_split(s, sep);
        if s[0] == sep {
            assert(sp.skip(1) =~~= rest);
            assert(sp.len() == 1 + rest.len());
            assert(spec_join(sp, sep) == sp[0] + seq![sep] + spec_join(rest, sep));
            assert(sp[0] + seq![sep] + spec_join(rest, sep) =~= s);
        } else {
            if rest.len() == 1 {
                assert(sp.len() == 1);
                assert(sp[0] =~= s);
            } else {
                assert(sp.skip(1) =~~= rest.skip(1));
                assert(sp.len() == rest.len());
                assert(spec_join(sp, sep) == sp[0] + seq![sep] + spec_join(rest.skip(1), sep));
                assert(spec_join(rest, sep) == rest[0] + seq![sep] + spec_join(rest.skip(1), sep));
                assert(sp[0] =~= seq![s[0]] + rest[0]);
                let tail = spec_join(rest.skip(1), sep);
                assert(sp[0] + seq![sep] + tail =~= seq![s[0]] + (rest[0] + seq![sep] + tail));
                assert(seq![s[0]] + s.skip(1) =~= s);
            }
        }
    }
}

/// Whether the string holds the character anywhere.
pub fn contains_char(s: &str, c: char) -> (r: bool)
    ensures
        r == s@.contains(c),
{
    let n = s.unicode_len();
    let mut i: usize = 0;
    while i < n
        invariant
            0 <= i <= n == s@.len(),
            forall|j: int| 0 <= j < i ==> s@[j] != c,
        decreases n - i,
    {
        if s.get_char(i) == c {
            assert(s@[i as int] == c);
            return true;
        }
        i += 1;
    }
    false
}

/// A hyperlink marker: the four characters of "http" in a row.
pub open spec fn spec_has_link(s: Seq<char>) -> bool {
    exists|i: int|
        0 <= i && i + 4 <= s.len() && #[trigger] s[i] == 'h' && s[i + 1] == 't' && s[i + 2] == 't'
            && s[i + 3] == 'p'
}

/// Whether the line holds a hyperlink marker ("http") anywhere.
pub fn has_link(s: &str) -> (r: bool)
    ensures
        r == spec_has_link(s@),
{
    let n = s.unicode_len();
    if n < 4 {
        return false;
    }
    let mut i: usize = 0;
    while i <= n - 4
        invariant
            0 <= i <= n - 4 + 1,
            4 <= n == s@.len(),
            forall|j: int|
                0 <= j < i ==> !(#[trigger] s@[j] == 'h' && s@[j + 1] == 't' && s@[j + 2] == 't'
                    && s@[j + 3] == 'p'),
        decreases n - i,
    {
        if s.get_char(i) == 'h' && s.get_char(i + 1) == 't' && s.get_char(i + 2) == 't'
            && s.get_char(i + 3) == 'p' {
            return true;
        }
        i += 1;
    }
    false
}

// ---------------------------------------------------------------------------
// character classes
// ---------------------------------------------------------------------------
/// An ASCII decimal digit.
pub open spec fn is_digit_char(c: char) -> bool {
    '0' <= c && c <= '9'
}

/// ASCII whitespace, the characters stripped by trimming.
pub open spec fn is_ws_char(c: char) -> bool {
    c == ' ' || c == '\t' || c == '\n' || c == '\r'
}

/// ASCII lowering of one character.
pub open spec fn lower_char(c: char) -> char {
    if 'A' <= c && c <= 'Z' {
        ((c as u8) + 32) as char
    } else {
        c
    }
}

/// ASCII lowering of a whole sequence.
pub open spec fn spec_lower(s: Seq<char>) -> Seq<char> {
    s.map_values(|c: char| lower_char(c))
}

pub open spec fn all_digits(s: Seq<char>) -> bool {
    forall|j: int| 0 <= j < s.len() ==> is_digit_char(#[trigger] s[j])
}

/// Numeric value of a digit character.
pub open spec fn digit_val(c: char) -> int {
    c as u32 - 48
}

/// Value of a string of decimal digits, most significant first.
pub open spec fn digits_value(s: Seq<char>) -> int
    decreases s.len(),
{
    if s.len() == 0 {
        0
    } else {
        digits_value(s.drop_last()) * 10 + digit_val(s.last())
    }
}

pub proof fn lemma_digits_value_nonneg(s: Seq<char>)
    requires
        all_digits(s),
    ensures
        digits_value(s) >= 0,
    decreases s.len(),
{
    if s.len() > 0 {
        lemma_digits_value_nonneg(s.drop_last());
    }
}

/// A digit string is worth at least any of its prefixes.
pub proof fn lemma_digits_value_prefix(s: Seq<char>, k: int)
    requires
        all_digits(s),
        0 <= k <= s.len(),
    ensures
        digits_value(s) >= digits_value(s.take(k)),
    decreases s.len(),
{
    if k == s.len() {
        assert(s.take(k) =~= s);
    } else {
        let d = s.drop_last();
        lemma_digits_value_prefix(d, k);
        assert(s.take(k) =~= d.take(k));
        lemma_digits_value_nonneg(d);
    }
}

// ---------------------------------------------------------------------------
// currency amounts as fixed-point cents
// ---------------------------------------------------------------------------
/// The digits of an amount, past any single leading sign.
pub open spec fn spec_unsigned(t: Seq<char>) -> Seq<char> {
    if t.len() > 0 && (t[0] == '-' || t[0] == '+') {
        t.skip(1)
    } else {
        t
    }
}

pub open spec fn spec_sign(t: Seq<char>) -> int {
    if t.len() > 0 && t[0] == '-' {
        -1
    } else {
        1
    }
}

/// Cents contributed by the fraction digits: only the first two count, and
/// any further digits must all be zero for the amount to be exact in cents.
pub open spec fn frac_cents(f: Seq<char>) -> int {
    if f.len() == 0 {
        0
    } else if f.len() == 1 {
        digit_val(f[0]) * 10
    } else {
        digit_val(f[0]) * 10 + digit_val(f[1])
    }
}

/// A well-formed unsigned decimal amount: at most one point, digits on both
/// sides, at least one digit in all, and nothing but zeros past the second
/// fraction digit (so the value is exact in cents).
pub open spec fn cents_shape_ok(u: Seq<char>) -> bool {
    let ps = spec_split(u, '.');
    &&& ps.len() <= 2
    &&& all_digits(ps[0])
    &&& (ps.len() == 2 ==> all_digits(ps[1]) && (forall|j: int|
        2 <= j < ps[1].len() ==> #[trigger] ps[1][j] == '0'))
    &&& ps[0].len() + (if ps.len() == 2 {
        ps[1].len()
    } else {
        0
    }) >= 1
}

/// Magnitude in cents of a well-formed unsigned decimal amount.
pub open spec fn cents_magnitude(u: Seq<char>) -> int {
    let ps = spec_split(u, '.');
    digits_value(ps[0]) * 100 + (if ps.len() == 2 {
        frac_cents(ps[1])
    } else {
        0
    })
}

/// Parsing a decimal token into signed cents.  `None` when the token is not
/// a plain optionally-signed decimal number, when the fraction is not exact
/// in cents, or when the magnitude does not fit the signed 64-bit cents
/// domain.
pub open spec fn spec_parse_cents(t: Seq<char>) -> Option<int> {
    let u = spec_unsigned(t);
    if cents_shape_ok(u) && cents_magnitude(u) <= i64::MAX {
        Some(spec_sign(t) * cents_magnitude(u))
    } else {
        None
    }
}

/// A sequence holding the separator splits into at least two segments.
pub proof fn lemma_split_two(s: Seq<char>, sep: char, w: int)
    requires
        0 <= w < s.len(),
        s[w] == sep,
    ensures
        spec_split(s, sep).len() >= 2,
    decreases s.len(),
{
    if s.len() > 0 && s[0] != sep {
        lemma_split_nonempty(s.skip(1), sep);
        lemma_split_two(s.skip(1), sep, w - 1);
    } else {
        lemma_split_nonempty(s.skip(1), sep);
    }
}

/// A non-digit other than the point, found among leading digits, spoils the
/// integer part.
proof fn lemma_shape_fail_in_int(u: Seq<char>, q: int)
    requires
        0 <= q < u.len(),
        forall|j: int| 0 <= j < q ==> is_digit_char(#[trigger] u[j]),
        !is_digit_char(u[q]),
        u[q] != '.',
    ensures
        !cents_shape_ok(u),
{
    let ps = spec_split(u, '.');
    match u.index_of_first('.') {
        Some(pd) => {
            u.index_of_first_ensures('.');
            assert(pd > q);
            lemma_split_at_first(u, '.', pd);
            assert(ps[0] == u.take(pd));
            assert(ps[0][q] == u[q]);
        },
        None => {
            u.index_of_first_ensures('.');
            assert(forall|j: int| 0 <= j < u.len() ==> u[j] != '.');
            lemma_split_none(u, '.');
            assert(ps[0] == u);
        },
    }
}

/// A bad character in the fraction part spoils the shape: either it is a
/// second point, or a non-digit, or a nonzero digit past the second place.
proof fn lemma_shape_fail_in_frac(u: Seq<char>, p: int, b: int)
    requires
        0 <= p < u.len(),
        u[p] == '.',
        forall|j: int| 0 <= j < p ==> #[trigger] u[j] != '.',
        p + 1 <= b < u.len(),
        forall|j: int| p + 1 <= j < b ==> is_digit_char(#[trigger] u[j]),
        !is_digit_char(u[b]) || (b - (p + 1) >= 2 && u[b] != '0'),
    ensures
        !cents_shape_ok(u),
{
    let ps = spec_split(u, '.');
    lemma_split_at_first(u, '.', p);
    let rest = u.skip(p + 1);
    match rest.index_of_first('.') {
        Some(k) => {
            rest.index_of_first_ensures('.');
            lemma_split_two(rest, '.', k);
        },
        None => {
            rest.index_of_first_ensures('.');
            lemma_split_none(rest, '.');
            assert(ps[1] == rest);
            assert(rest[b - (p + 1)] == u[b]);
        },
    }
}

/// Parses a decimal token into signed cents, exactly as `spec_parse_cents`
/// classifies it.
pub fn parse_cents(s: &str) -> (r: Option<i64>)
    ensures
        r is Some <==> spec_parse_cents(s@) is Some,
        r is Some ==> r->0 as int == spec_parse_cents(s@)->0,
        r is Some ==> -i64::MAX <= r->0 <= i64::MAX,
{
    let n = s.unicode_len();
    let ghost t = s@;
    let mut i: usize = 0;
    let mut neg = false;
    if n > 0 {
        let c0 = s.get_char(0);
        if c0 == '-' {
            neg = true;
            i = 1;
        } else if c0 == '+' {
            i = 1;
        }
    }
    let ghost i0 = i as int;
    let ghost u = spec_unsigned(t);
    proof {
        assert(u =~= t.skip(i0));
        assert(neg == (spec_sign(t) == -1));
    }
    // integer part
    let int_start = i;
    let mut acc: i64 = 0;
    while i < n && s.get_char(i) != '.'
        invariant
            i0 <= int_start as int <= i as int <= n == t.len(),
            t == s@,
            u == t.skip(i0),
            u == spec_unsigned(t),
            i0 == int_start as int,
            forall|j: int| i0 <= j < i as int ==> is_digit_char(#[trigger] t[j]),
            0 <= acc,
            acc == digits_value(u.take(i - i0)),
        decreases n - i,
    {
        let c = s.get_char(i);
        if !(c >= '0' && c <= '9') {
            proof {
                lemma_shape_fail_in_int(u, i - i0);
            }
            return None;
        }
        let d = (c as u32 - 48) as i64;
        if acc > (i64::MAX - d) / 10 {
            proof {
                lemma_overflow_means_too_big(u, i - i0, acc as int, d as int);
            }
            return None;
        }
        proof {
            assert(acc * 10 + d <= i64::MAX) by {
                lemma_mul_div_bound(acc as int, d as int);
            }
            assert(u.take(i - i0 + 1).drop_last() =~= u.take(i - i0));
            assert(u.take(i - i0 + 1).last() == t[i as int]);
        }
        acc = acc * 10 + d;
        i += 1;
    }
    let ghost int_digits = u.take(i - i0);
    let mut fc: i64 = 0;
    let mut nd: usize = i - int_start;
    if i < n {
        // fraction part, after the point
        let ghost p = i as int - i0;
        proof {
            assert(u[p] == '.');
        }
        i += 1;
        let frac_start = i;
        while i < n
            invariant
                i0 + p + 1 <= i as int <= n == t.len(),
                frac_start as int == i0 + p + 1,
                t == s@,
                u == t.skip(i0),
                u == spec_unsigned(t),
                0 <= i0 <= i0 + p < n,
                t[i0 + p] == '.',
                forall|j: int| 0 <= j < p ==> is_digit_char(#[trigger] u[j]),
                forall|j: int| 0 <= j < p ==> #[trigger] u[j] != '.',
                forall|j: int|
                    p + 1 <= j < i - i0 ==> is_digit_char(#[trigger] u[j]),
                forall|j: int| p + 3 <= j < i - i0 ==> #[trigger] u[j] == '0',
                int_digits == u.take(p),
                nd == p + (i as int - frac_start as int),
                0 <= fc <= 99,
                fc == frac_cents(u.subrange(p + 1, i - i0)),
            decreases n - i,
        {
            let c = s.get_char(i);
            if !(c >= '0' && c <= '9') {
                proof {
                    lemma_shape_fail_in_frac(u, p, i - i0);
                }
                return None;
            }
            let d = (c as u32 - 48) as i64;
            let fpos = i - frac_start;
            if fpos == 0 {
                fc = d * 10;
            } else if fpos == 1 {
                fc = fc + d;
            } else if c != '0' {
                proof {
                    lemma_shape_fail_in_frac(u, p, i - i0);
                }
                return None;
            }
            proof {
                let f_new = u.subrange(p + 1, i - i0 + 1);
                let f_old = u.subrange(p + 1, i - i0);
                assert(f_new.drop_last() =~= f_old);
                if fpos >= 2 {
                    assert(f_new.take(2) =~= f_old.take(2));
                    assert(frac_cents(f_new) == frac_cents(f_old));
                }
            }
            nd += 1;
            i += 1;
        }
        proof {
            let rest = u.skip(p + 1);
            lemma_split_at_first(u, '.', p);
            lemma_split_none(rest, '.');
            assert(rest =~= u.subrange(p + 1, u.len() as int));
            assert(spec_split(u, '.') =~~= seq![int_digits, rest]);
        }
    } else {
        proof {
            lemma_split_none(u, '.');
            assert(u =~= int_digits);
            assert(spec_split(u, '.') =~~= seq![int_digits]);
        }
    }
    if nd == 0 {
        return None;
    }
    if acc > (i64::MAX - fc) / 100 {
        proof {
            lemma_mul_div_bound_100(acc as int, fc as int);
        }
        return None;
    }
    proof {
        lemma_mul_div_bound_100(acc as int, fc as int);
    }
    let mag = acc * 100 + fc;
    if neg {
        Some(-mag)
    } else {
        Some(mag)
    }
}

/// When the running value cannot take one more digit, the full digit string
/// is already too big for the cents domain.
proof fn lemma_overflow_means_too_big(u: Seq<char>, q: int, acc: int, d: int)
    requires
        0 <= q < u.len(),
        forall|j: int| 0 <= j < q ==> is_digit_char(#[trigger] u[j]),
        is_digit_char(u[q]),
        0 <= d <= 9,
        d == digit_val(u[q]),
        acc == digits_value(u.take(q)),
        acc >= 0,
        acc > (i64::MAX - d) / 10,
    ensures
        !(cents_shape_ok(u) && cents_magnitude(u) <= i64::MAX),
{
    if cents_shape_ok(u) {
        let ps = spec_split(u, '.');
        lemma_mul_div_bound(acc, d);
        assert(acc * 10 + d > i64::MAX);
        // the integer part extends u.take(q + 1), whose value is acc * 10 + d
        assert(u.take(q + 1).drop_last() =~= u.take(q));
        assert(digits_value(u.take(q + 1)) == acc * 10 + d);
        match u.index_of_first('.') {
            Some(pd) => {
                u.index_of_first_ensures('.');
                assert(pd >= q + 1);
                lemma_split_at_first(u, '.', pd);
                assert(ps[0] == u.take(pd));
                assert(u.take(pd).take(q + 1) =~= u.take(q + 1));
                lemma_digits_value_prefix(u.take(pd), q + 1);
            },
            None => {
                u.index_of_first_ensures('.');
                lemma_split_none(u, '.');
                assert(ps[0] == u);
                assert(u.take(q + 1) =~= ps[0].take(q + 1));
                lemma_digits_value_prefix(ps[0], q + 1);
            },
        }
        assert(digits_value(ps[0]) > i64::MAX);
        lemma_digits_value_nonneg(ps[0]);
        assert(digits_value(ps[0]) * 100 >= digits_value(ps[0])) by (nonlinear_arith)
            requires
                digits_value(ps[0]) >= 0,
        ;
        if ps.len() == 2 {
            assert(frac_cents(ps[1]) >= 0);
        }
        assert(cents_magnitude(u) > i64::MAX);
    }
}

/// `a * 10 + d` fits below the bound exactly when `a <= (MAX - d) / 10`.
proof fn lemma_mul_div_bound(a: int, d: int)
    requires
        a >= 0,
        0 <= d <= 9,
    ensures
        a <= (i64::MAX - d) / 10 <==> a * 10 + d <= i64::MAX,
{
    let x = i64::MAX - d;
    let z = x / 10;
    vstd::arithmetic::div_mod::lemma_fundamental_div_mod(x, 10);
    vstd::arithmetic::div_mod::lemma_mod_bound(x, 10);
    assert(z * 10 == 10 * z);
}

/// `a * 100 + f` fits below the bound exactly when `a <= (MAX - f) / 100`.
proof fn lemma_mul_div_bound_100(a: int, f: int)
    requires
        a >= 0,
        0 <= f <= 99,
    ensures
        a <= (i64::MAX - f) / 100 <==> a * 100 + f <= i64::MAX,
{
    let x = i64::MAX - f;
    let z = x / 100;
    vstd::arithmetic::div_mod::lemma_fundamental_div_mod(x, 100);
    vstd::arithmetic::div_mod::lemma_mod_bound(x, 100);
    assert(z * 100 == 100 * z);
}

// ---------------------------------------------------------------------------
// dropping marker characters before numeric parsing
// ---------------------------------------------------------------------------
/// The characters left once currency markers (`$`) and thousands separators
/// (`,`) are dropped.
pub open spec fn spec_strip_money(s: Seq<char>) -> Seq<char>
    decreases s.len(),
{
    if s.len() == 0 {
        Seq::empty()
    } else {
        let rest = spec_strip_money(s.drop_last());
        if s.last() == '$' || s.last() == ',' {
            rest
        } else {
            rest.push(s.last())
        }
    }
}

/// Drops `$` and `,` from a token, leaving everything else in order.
pub fn strip_money(s: &str) -> (r: String)
    ensures
        r@ == spec_strip_money(s@),
{
    let n = s.unicode_len();
    let mut r = String::new();
    let mut i: usize = 0;
    while i < n
        invariant
            0 <= i <= n == s@.len(),
            r@ == spec_strip_money(s@.take(i as int)),
        decreases n - i,
    {
        let c = s.get_char(i);
        if !(c == '$' || c == ',') {
            let piece = s.substring_char(i, i + 1);
            proof {
                assert(piece@ =~= seq![s@[i as int]]);
            }
            r.append(piece);
        }
        proof {
            assert(s@.take(i + 1).drop_last() =~= s@.take(i as int));
        }
        i += 1;
    }
    proof {
        assert(s@.take(n as int) =~= s@);
    }
    r
}

/// The characters left once a given single character is dropped.
pub open spec fn spec_strip_char(s: Seq<char>, out: char) -> Seq<char>
    decreases s.len(),
{
    if s.len() == 0 {
        Seq::empty()
    } else {
        let rest = spec_strip_char(s.drop_last(), out);
        if s.last() == out {
            rest
        } else {
            rest.push(s.last())
        }
    }
}

/// Drops every occurrence of one character, leaving everything else in order.
pub fn strip_char(s: &str, out: char) -> (r: String)
    ensures
        r@ == spec_strip_char(s@, out),
{
    let n = s.unicode_len();
    let mut r = String::new();
    let mut i: usize = 0;
    while i < n
        invariant
            0 <= i <= n == s@.len(),
            r@ == spec_strip_char(s@.take(i as int), out),
        decreases n - i,
    {
        let c = s.get_char(i);
        if c != out {
            let piece = s.substring_char(i, i + 1);
            proof {
                assert(piece@ =~= seq![s@[i as int]]);
            }
            r.append(piece);
        }
        proof {
            assert(s@.take(i + 1).drop_last() =~= s@.take(i as int));
        }
        i += 1;
    }
    proof {
        assert(s@.take(n as int) =~= s@);
    }
    r
}

// ---------------------------------------------------------------------------
// trimming and case folding
// ---------------------------------------------------------------------------
/// The sequence with leading whitespace dropped.
pub open spec fn trim_front(s: Seq<char>) -> Seq<char>
    decreases s.len(),
{
    if s.len() > 0 && is_ws_char(s[0]) {
        trim_front(s.skip(1))
    } else {
        s
    }
}

/// The sequence with trailing whitespace dropped.
pub open spec fn trim_back(s: Seq<char>) -> Seq<char>
    decreases s.len(),
{
    if s.len() > 0 && is_ws_char(s.last()) {
        trim_back(s.drop_last())
    } else {
        s
    }
}

/// The sequence with whitespace dropped at both ends.
pub open spec fn spec_trim(s: Seq<char>) -> Seq<char> {
    trim_back(trim_front(s))
}

/// ASCII whitespace test, executable form.
pub fn ws_char(c: char) -> (r: bool)
    ensures
        r == is_ws_char(c),
{
    c == ' ' || c == '\t' || c == '\n' || c == '\r'
}

/// ASCII digit test, executable form.
pub fn digit_char(c: char) -> (r: bool)
    ensures
        r == is_digit_char(c),
{
    c >= '0' && c <= '9'
}

/// Trims ASCII whitespace from both ends.
pub fn trim_str<'a>(s: &'a str) -> (r: &'a str)
    ensures
        r@ == spec_trim(s@),
{
    let n = s.unicode_len();
    let mut a: usize = 0;
    proof {
        assert(s@.skip(0) =~= s@);
    }
    while a < n && ws_char(s.get_char(a))
        invariant
            0 <= a <= n == s@.len(),
            trim_front(s@) == trim_front(s@.skip(a as int)),
        decreases n - a,
    {
        proof {
            assert(s@.skip(a as int).skip(1) =~= s@.skip(a + 1));
        }
        a += 1;
    }
    let ghost u = s@.skip(a as int);
    proof {
        if a < n {
            assert(trim_front(u) == u);
        } else {
            assert(u.len() == 0);
        }
    }
    let mut b: usize = n;
    proof {
        assert(u.take(n - a) =~= u);
    }
    while b > a && ws_char(s.get_char(b - 1))
        invariant
            0 <= a <= b <= n == s@.len(),
            u == s@.skip(a as int),
            trim_front(s@) == u,
            trim_back(u) == trim_back(u.take(b - a)),
        decreases b,
    {
        proof {
            let w = u.take(b - a);
            assert(w.len() > 0 && is_ws_char(w.last()));
            assert(w.drop_last() =~= u.take(b - a - 1));
        }
        b -= 1;
    }
    proof {
        let w = u.take(b - a);
        if b > a {
            assert(trim_back(w) == w);
        } else {
            assert(w.len() == 0);
        }
        assert(w =~= s@.subrange(a as int, b as int));
    }
    s.substring_char(a, b)
}

/// ASCII lowering of one character, executable form.
pub fn to_lower_char(c: char) -> (r: char)
    ensures
        r == lower_char(c),
{
    if c >= 'A' && c <= 'Z' {
        ((c as u8) + 32) as char
    } else {
        c
    }
}

/// Whether the ASCII lowering of `s` is exactly `lit`.
pub fn lower_matches(s: &str, lit: &str) -> (r: bool)
    ensures
        r == (spec_lower(s@) == lit@),
{
    let n = s.unicode_len();
    if n != lit.unicode_len() {
        proof {
            assert(spec_lower(s@).len() == s@.len());
        }
        return false;
    }
    let mut i: usize = 0;
    while i < n
        invariant
            0 <= i <= n == s@.len() == lit@.len(),
            forall|j: int| 0 <= j < i ==> lower_char(s@[j]) == #[trigger] lit@[j],
        decreases n - i,
    {
        if to_lower_char(s.get_char(i)) != lit.get_char(i) {
            proof {
                assert(spec_lower(s@)[i as int] != lit@[i as int]);
            }
            return false;
        }
        i += 1;
    }
    proof {
        assert(spec_lower(s@) =~= lit@);
    }
    true
}

// ---------------------------------------------------------------------------
// the transaction-record line pattern
// ---------------------------------------------------------------------------
/// An ASCII letter.
pub open spec fn is_alpha_char(c: char) -> bool {
    ('a' <= c && c <= 'z') || ('A' <= c && c <= 'Z')
}

/// A character allowed in the sign prefix of an amount token.
pub open spec fn is_sign_char(c: char) -> bool {
    c == '-' || c == '$'
}

/// A character allowed in the digit body of an amount token.
pub open spec fn is_amount_digit_char(c: char) -> bool {
    is_digit_char(c) || c == ','
}

/// A calendar date written `Mon DD, YYYY` starting at `i`, with `d` day
/// digits: three letters, a space, `d >= 1` digits, a comma, a space, four
/// year digits, and one more space right after the year.
pub open spec fn date_pattern_at(s: Seq<char>, i: int, d: int) -> bool {
    &&& 0 <= i
    &&& 1 <= d
    &&& i + 11 + d <= s.len()
    &&& is_alpha_char(s[i])
    &&& is_alpha_char(s[i + 1])
    &&& is_alpha_char(s[i + 2])
    &&& s[i + 3] == ' '
    &&& forall|j: int| i + 4 <= j < i + 4 + d ==> is_digit_char(#[trigger] s[j])
    &&& s[i + 4 + d] == ','
    &&& s[i + 5 + d] == ' '
    &&& forall|j: int| i + 6 + d <= j < i + 10 + d ==> is_digit_char(#[trigger] s[j])
    &&& s[i + 10 + d] == ' '
}

/// A currency-like amount token starting after a space at `k`: `m >= 1` sign
/// characters (`-` or `$`), then a digit or thousands separator, then at
/// least one more character of any kind.
pub open spec fn amount_pattern_at(s: Seq<char>, k: int, m: int) -> bool {
    &&& 0 <= k
    &&& 1 <= m
    &&& k + m + 2 < s.len()
    &&& s[k] == ' '
    &&& forall|j: int| k + 1 <= j < k + 1 + m ==> is_sign_char(#[trigger] s[j])
    &&& is_amount_digit_char(s[k + 1 + m])
}

/// A record line: a date pattern somewhere, followed — past the space after
/// its year, anywhere to the right — by an amount pattern.
pub open spec fn spec_is_record_line(s: Seq<char>) -> bool {
    exists|i: int, d: int, k: int, m: int|
        #![trigger date_pattern_at(s, i, d), amount_pattern_at(s, k, m)]
        date_pattern_at(s, i, d) && i + 11 + d <= k && amount_pattern_at(s, k, m)
}

/// Two day-digit widths for the same date start must agree: the character
/// after the digit run is a comma, never a digit.
proof fn lemma_date_width_unique(s: Seq<char>, i: int, d1: int, d2: int)
    requires
        date_pattern_at(s, i, d1),
        date_pattern_at(s, i, d2),
    ensures
        d1 == d2,
{
    if d1 < d2 {
        assert(is_digit_char(s[i + 4 + d1]));
    }
    if d2 < d1 {
        assert(is_digit_char(s[i + 4 + d2]));
    }
}

/// Length of the maximal run of day digits from `from`.
fn digit_run_len(s: &str, from: usize) -> (m: usize)
    requires
        from <= s@.len(),
    ensures
        from + m <= s@.len(),
        forall|j: int| from <= j < from + m ==> is_digit_char(#[trigger] s@[j]),
        from + m == s@.len() || !is_digit_char(s@[from + m as int]),
{
    let n = s.unicode_len();
    let mut i = from;
    while i < n && digit_char(s.get_char(i))
        invariant
            from <= i <= n == s@.len(),
            forall|j: int| from <= j < i ==> is_digit_char(#[trigger] s@[j]),
        decreases n - i,
    {
        i += 1;
    }
    i - from
}

/// Sign-character test, executable form.
fn sign_char(c: char) -> (r: bool)
    ensures
        r == is_sign_char(c),
{
    c == '-' || c == '$'
}

/// Length of the maximal run of sign characters from `from`.
fn sign_run_len(s: &str, from: usize) -> (m: usize)
    requires
        from <= s@.len(),
    ensures
        from + m <= s@.len(),
        forall|j: int| from <= j < from + m ==> is_sign_char(#[trigger] s@[j]),
        from + m == s@.len() || !is_sign_char(s@[from + m as int]),
{
    let n = s.unicode_len();
    let mut i = from;
    while i < n && sign_char(s.get_char(i))
        invariant
            from <= i <= n == s@.len(),
            forall|j: int| from <= j < i ==> is_sign_char(#[trigger] s@[j]),
        decreases n - i,
    {
        i += 1;
    }
    i - from
}

/// The day-digit width of a date pattern starting at `i`, when one starts
/// there.
fn date_len_at(s: &str, i: usize) -> (r: Option<usize>)
    requires
        i < s@.len(),
    ensures
        match r {
            Some(d) => date_pattern_at(s@, i as int, d as int),
            None => forall|d: int| !date_pattern_at(s@, i as int, d),
        },
{
    let n = s.unicode_len();
    if n - i < 12 {
        return None;
    }
    let a0 = s.get_char(i);
    let a1 = s.get_char(i + 1);
    let a2 = s.get_char(i + 2);
    let alpha0 = (a0 >= 'a' && a0 <= 'z') || (a0 >= 'A' && a0 <= 'Z');
    let alpha1 = (a1 >= 'a' && a1 <= 'z') || (a1 >= 'A' && a1 <= 'Z');
    let alpha2 = (a2 >= 'a' && a2 <= 'z') || (a2 >= 'A' && a2 <= 'Z');
    if !(alpha0 && alpha1 && alpha2 && s.get_char(i + 3) == ' ') {
        return None;
    }
    let m = digit_run_len(s, i + 4);
    if m == 0 {
        return None;
    }
    let ghost dd = m as int;
    proof {
        assert forall|d: int| date_pattern_at(s@, i as int, d) implies d == dd by {
            if d < dd {
                assert(is_digit_char(s@[i + 4 + d]));
            }
            if d > dd {
                assert(is_digit_char(s@[i + 4 + dd]));
            }
        }
    }
    if i + 4 + m >= n || s.get_char(i + 4 + m) != ',' {
        return None;
    }
    if i + 5 + m >= n || s.get_char(i + 5 + m) != ' ' {
        return None;
    }
    if m > n - (i + 11) {
        return None;
    }
    let y0 = s.get_char(i + 6 + m);
    let y1 = s.get_char(i + 7 + m);
    let y2 = s.get_char(i + 8 + m);
    let y3 = s.get_char(i + 9 + m);
    if s.get_char(i + 10 + m) != ' ' {
        return None;
    }
    if digit_char(y0) && digit_char(y1) && digit_char(y2) && digit_char(y3) {
        proof {
            assert forall|j: int|
                i + 6 + m <= j < i + 10 + m implies is_digit_char(#[trigger] s@[j]) by {
                assert(j == i + 6 + m || j == i + 7 + m || j == i + 8 + m || j == i + 9 + m);
            }
            assert(date_pattern_at(s@, i as int, m as int));
        }
        Some(m)
    } else {
        None
    }
}

/// Whether an amount pattern starts at `k`.
fn amount_at(s: &str, k: usize) -> (r: bool)
    requires
        k < s@.len(),
    ensures
        r == exists|m: int| amount_pattern_at(s@, k as int, m),
{
    let n = s.unicode_len();
    if s.get_char(k) != ' ' {
        return false;
    }
    let m = sign_run_len(s, k + 1);
    if m == 0 {
        return false;
    }
    let ghost mm = m as int;
    proof {
        assert forall|m2: int| amount_pattern_at(s@, k as int, m2) implies m2 == mm by {
            if m2 < mm {
                assert(is_sign_char(s@[k + 1 + m2]));
                assert(is_amount_digit_char(s@[k + 1 + m2]));
            }
            if m2 > mm {
                assert(is_sign_char(s@[k + 1 + mm]));
            }
        }
    }
    if k + 1 + m >= n {
        return false;
    }
    let c = s.get_char(k + 1 + m);
    if !((c >= '0' && c <= '9') || c == ',') {
        return false;
    }
    if k + m + 2 >= n {
        return false;
    }
    proof {
        assert(amount_pattern_at(s@, k as int, mm));
    }
    true
}

/// Whether an amount pattern starts anywhere at or after `from`.
fn has_amount_from(s: &str, from: usize) -> (r: bool)
    requires
        from <= s@.len(),
    ensures
        r == exists|k: int, m: int|
            #![trigger amount_pattern_at(s@, k, m)]
            from <= k && amount_pattern_at(s@, k, m),
{
    let n = s.unicode_len();
    let mut k = from;
    while k < n
        invariant
            from <= k <= n == s@.len(),
            forall|kk: int, m: int|
                #![trigger amount_pattern_at(s@, kk, m)]
                from <= kk < k ==> !amount_pattern_at(s@, kk, m),
        decreases n - k,
    {
        if amount_at(s, k) {
            return true;
        }
        k += 1;
    }
    false
}

/// Whether the line matches the transaction-record pattern, exactly as
/// `spec_is_record_line` classifies it.
pub fn is_record_line(s: &str) -> (r: bool)
    ensures
        r == spec_is_record_line(s@),
{
    let n = s.unicode_len();
    let mut i: usize = 0;
    while i < n
        invariant
            0 <= i <= n == s@.len(),
            forall|ii: int, d: int, k: int, m: int|
                #![trigger date_pattern_at(s@, ii, d), amount_pattern_at(s@, k, m)]
                0 <= ii < i && date_pattern_at(s@, ii, d) && ii + 11 + d <= k
                    ==> !amount_pattern_at(s@, k, m),
        decreases n - i,
    {
        match date_len_at(s, i) {
            Some(d) => {
                if has_amount_from(s, i + 11 + d) {
                    return true;
                }
                proof {
                    assert forall|d2: int, k: int, m: int|
                        date_pattern_at(s@, i as int, d2) && i + 11 + d2 <= k
                            implies !amount_pattern_at(s@, k, m) by {
                        lemma_date_width_unique(s@, i as int, d2, d as int);
                    }
                }
            },
            None => {},
        }
        i += 1;
    }
    false
}

} // verus!
