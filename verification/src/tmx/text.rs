//! Text-level parsing for attribute and data values: decimal integers,
//! fixed-point decimal fractions, whitespace trimming, and splitting
//! comma-separated layer data.

use crate::tmx::TmxError;
use vstd::prelude::*;

verus! {

/// Largest whole part (before the decimal point) that the fixed-point
/// parser accepts.
pub const MAX_WHOLE: u64 = 999_999_999_999;

pub open spec fn is_digit(c: char) -> bool {
    48 <= c as u32 <= 57
}

/// The value of a decimal digit.
pub open spec fn digit_val(c: char) -> int {
    c as u32 - 48
}

pub open spec fn all_digits(s: Seq<char>) -> bool {
    forall|i: int| 0 <= i < s.len() ==> is_digit(s[i])
}

/// The number a digit string denotes in decimal.
pub open spec fn dec_val(s: Seq<char>) -> int
    decreases s.len(),
{
    if s.len() == 0 {
        0
    } else {
        dec_val(s.drop_last()) * 10 + digit_val(s.last())
    }
}

pub proof fn lemma_dec_val_nonneg(s: Seq<char>)
    requires
        all_digits(s),
    ensures
        dec_val(s) >= 0,
    decreases s.len(),
{
    if s.len() > 0 {
        assert(all_digits(s.drop_last()));
        lemma_dec_val_nonneg(s.drop_last());
    }
}

/// A digit string is worth at least any of its prefixes.
pub proof fn lemma_dec_val_prefix(s: Seq<char>, k: int)
    requires
        all_digits(s),
        0 <= k <= s.len(),
    ensures
        dec_val(s.subrange(0, k)) <= dec_val(s),
    decreases s.len(),
{
    if k == s.len() {
        assert(s.subrange(0, k) =~= s);
    } else {
        assert(all_digits(s.drop_last()));
        assert(s.drop_last().subrange(0, k) =~= s.subrange(0, k));
        lemma_dec_val_prefix(s.drop_last(), k);
        lemma_dec_val_nonneg(s.drop_last());
    }
}

/// Index of the first `.` in `s`, or `s.len()` when there is none.
pub open spec fn dot_pos(s: Seq<char>) -> int
    decreases s.len(),
{
    if s.len() == 0 {
        0
    } else if s.first() == '.' {
        0
    } else {
        1 + dot_pos(s.drop_first())
    }
}

/// `dot_pos` is determined by where the dots are.
pub proof fn lemma_dot_pos_at(s: Seq<char>, m: int)
    requires
        0 <= m <= s.len(),
        forall|i: int| 0 <= i < m ==> s[i] != '.',
        m < s.len() ==> s[m] == '.',
    ensures
        dot_pos(s) == m,
    decreases s.len(),
{
    if m == 0 {
        if s.len() > 0 {
            assert(s.first() == s[0]);
        }
    } else {
        assert(s.first() != '.');
        let t = s.drop_first();
        assert forall|i: int| 0 <= i < m - 1 implies t[i] != '.' by {
            assert(t[i] == s[i + 1]);
        }
        assert(m - 1 < t.len() ==> t[m - 1] == s[m]);
        lemma_dot_pos_at(t, m - 1);
    }
}

/// The first three digits after the decimal point, as thousandths.
pub open spec fn frac_milli(f: Seq<char>) -> int {
    (if f.len() >= 1 {
        100 * digit_val(f[0])
    } else {
        0
    }) + (if f.len() >= 2 {
        10 * digit_val(f[1])
    } else {
        0
    }) + (if f.len() >= 3 {
        digit_val(f[2])
    } else {
        0
    })
}

/// An unsigned fixed-point decimal: a non-empty digit string worth at most
/// `MAX_WHOLE`, optionally followed by `.` and a non-empty digit string.
pub open spec fn fixed_body_ok(s: Seq<char>) -> bool {
    let d = dot_pos(s);
    let ip = s.subrange(0, d);
    &&& ip.len() > 0
    &&& all_digits(ip)
    &&& dec_val(ip) <= MAX_WHOLE as int
    &&& (d < s.len() ==> {
        let fp = s.subrange(d + 1, s.len() as int);
        fp.len() > 0 && all_digits(fp)
    })
}

/// The value of an unsigned fixed-point decimal, in thousandths; fractional
/// digits past the third are ignored.
pub open spec fn fixed_body_val(s: Seq<char>) -> int {
    let d = dot_pos(s);
    dec_val(s.subrange(0, d)) * 1000 + (if d < s.len() {
        frac_milli(s.subrange(d + 1, s.len() as int))
    } else {
        0
    })
}

/// A fixed-point decimal with an optional leading minus sign.
pub open spec fn fixed_ok(s: Seq<char>) -> bool {
    if s.len() > 0 && s[0] == '-' {
        fixed_body_ok(s.subrange(1, s.len() as int))
    } else {
        fixed_body_ok(s)
    }
}

/// Its value in thousandths.
pub open spec fn fixed_val(s: Seq<char>) -> int {
    if s.len() > 0 && s[0] == '-' {
        -fixed_body_val(s.subrange(1, s.len() as int))
    } else {
        fixed_body_val(s)
    }
}

pub open spec fn is_space(c: char) -> bool {
    c == ' ' || c == '\n' || c == '\t' || c == '\r'
}

/// `s` without leading and trailing whitespace.
pub open spec fn trim(s: Seq<char>) -> Seq<char>
    decreases s.len(),
{
    if s.len() > 0 && is_space(s.first()) {
        trim(s.drop_first())
    } else if s.len() > 0 && is_space(s.last()) {
        trim(s.drop_last())
    } else {
        s
    }
}

/// `trim` keeps exactly the part between the leading and the trailing
/// whitespace run.
proof fn lemma_trim_subrange(s: Seq<char>, lo: int, hi: int)
    requires
        0 <= lo <= hi <= s.len(),
        forall|k: int| 0 <= k < lo ==> is_space(s[k]),
        forall|k: int| hi <= k < s.len() ==> is_space(s[k]),
        lo < hi ==> !is_space(s[lo]) && !is_space(s[hi - 1]),
    ensures
        trim(s) == s.subrange(lo, hi),
    decreases s.len(),
{
    if s.len() == 0 {
        assert(trim(s) =~= s.subrange(lo, hi));
    } else if lo > 0 {
        assert(is_space(s.first()));
        let t = s.drop_first();
        assert forall|k: int| 0 <= k < lo - 1 implies is_space(t[k]) by {
            assert(t[k] == s[k + 1]);
        }
        assert forall|k: int| hi - 1 <= k < t.len() implies is_space(t[k]) by {
            assert(t[k] == s[k + 1]);
        }
        lemma_trim_subrange(t, lo - 1, hi - 1);
        assert(t.subrange(lo - 1, hi - 1) =~= s.subrange(lo, hi));
    } else if lo == hi {
        // everything is whitespace
        assert(is_space(s.first()));
        let t = s.drop_first();
        assert forall|k: int| 0 <= k < t.len() implies is_space(t[k]) by {
            assert(t[k] == s[k + 1]);
        }
        lemma_trim_subrange(t, 0, 0);
        assert(t.subrange(0, 0) =~= s.subrange(lo, hi));
    } else if hi < s.len() {
        assert(!is_space(s.first()));
        assert(is_space(s.last()));
        let t = s.drop_last();
        lemma_trim_subrange(t, lo, hi);
        assert(t.subrange(lo, hi) =~= s.subrange(lo, hi));
    } else {
        assert(!is_space(s.first()));
        assert(!is_space(s.last()));
        assert(trim(s) == s);
        assert(s.subrange(0, s.len() as int) =~= s);
    }
}

/// The comma-separated tokens of `s`, in order: one more token than there
/// are commas, each holding the characters between two commas.
pub open spec fn csv_tokens(s: Seq<char>) -> Seq<Seq<char>>
    decreases s.len(),
{
    if s.len() == 0 {
        seq![Seq::empty()]
    } else {
        let prev = csv_tokens(s.drop_last());
        if s.last() == ',' {
            prev.push(Seq::empty())
        } else {
            prev.update(prev.len() - 1, prev.last().push(s.last()))
        }
    }
}

pub proof fn lemma_csv_tokens_nonempty(s: Seq<char>)
    ensures
        csv_tokens(s).len() >= 1,
    decreases s.len(),
{
    if s.len() > 0 {
        lemma_csv_tokens_nonempty(s.drop_last());
    }
}

/// The characters of a string, as a vector.
pub fn chars_of(s: &String) -> (r: Vec<char>)
    ensures
        r@ == s@,
{
    let n = s.as_str().unicode_len();
    let mut r: Vec<char> = Vec::new();
    let mut i: usize = 0;
    while i < n
        invariant
            i <= n,
            n == s@.len(),
            r@ =~= s@.subrange(0, i as int),
        decreases n - i,
    {
        r.push(s.as_str().get_char(i));
        proof {
            assert(r@ =~= s@.subrange(0, i + 1));
        }
        i += 1;
    }
    proof {
        assert(s@.subrange(0, s@.len() as int) =~= s@);
    }
    r
}

/// Parses a non-empty all-digit string as a `usize`.
pub fn parse_usize_chars(v: &Vec<char>) -> (r: Result<usize, TmxError>)
    ensures
        match r {
            Ok(n) => usize_ok(v@) && n as int == dec_val(v@),
            Err(e) => !usize_ok(v@) && e == TmxError::InvalidNumericValue,
        },
{
    if v.len() == 0 {
        return Err(TmxError::InvalidNumericValue);
    }
    let mut acc: usize = 0;
    let mut i: usize = 0;
    while i < v.len()
        invariant
            i <= v@.len(),
            all_digits(v@.subrange(0, i as int)),
            acc as int == dec_val(v@.subrange(0, i as int)),
        decreases v@.len() - i,
    {
        let c = v[i];
        let u = c as u32;
        if u < 48 || u > 57 {
            proof {
                assert(!is_digit(v@[i as int]));
            }
            return Err(TmxError::InvalidNumericValue);
        }
        let d = (u - 48) as usize;
        let wide: u128 = (acc as u128) * 10 + (d as u128);
        proof {
            assert(v@.subrange(0, i + 1).drop_last() =~= v@.subrange(0, i as int));
            assert(v@.subrange(0, i + 1).last() == v@[i as int]);
        }
        if wide > (usize::MAX as u128) {
            proof {
                if usize_ok(v@) {
                    lemma_dec_val_prefix(v@, i + 1);
                }
            }
            return Err(TmxError::InvalidNumericValue);
        }
        acc = wide as usize;
        i += 1;
    }
    proof {
        assert(v@.subrange(0, v@.len() as int) =~= v@);
    }
    Ok(acc)
}

/// A non-empty digit string whose value fits a `usize`.
pub open spec fn usize_ok(s: Seq<char>) -> bool {
    s.len() > 0 && all_digits(s) && dec_val(s) <= usize::MAX as int
}

/// Parses the unsigned body of a fixed-point decimal, yielding thousandths.
fn parse_fixed_body(v: &Vec<char>) -> (r: Result<u64, TmxError>)
    ensures
        match r {
            Ok(m) => fixed_body_ok(v@) && m as int == fixed_body_val(v@) && m
                <= 999_999_999_999_999,
            Err(e) => !fixed_body_ok(v@) && e == TmxError::InvalidNumericValue,
        },
{
    let n = v.len();
    let mut acc: u64 = 0;
    let mut i: usize = 0;
    while i < n && v[i] != '.'
        invariant
            i <= n,
            n == v@.len(),
            forall|k: int| 0 <= k < i ==> is_digit(v@[k]) && v@[k] != '.',
            acc as int == dec_val(v@.subrange(0, i as int)),
            acc <= MAX_WHOLE,
        decreases n - i,
    {
        let c = v[i];
        let u = c as u32;
        if u < 48 || u > 57 {
            proof {
                lemma_fixed_body_bad_char(v@, i as int);
            }
            return Err(TmxError::InvalidNumericValue);
        }
        let d = (u - 48) as u64;
        let wide: u64 = acc * 10 + d;
        proof {
            assert(v@.subrange(0, i + 1).drop_last() =~= v@.subrange(0, i as int));
            assert(v@.subrange(0, i + 1).last() == v@[i as int]);
        }
        if wide > MAX_WHOLE {
            proof {
                lemma_fixed_body_too_big(v@, i + 1);
            }
            return Err(TmxError::InvalidNumericValue);
        }
        acc = wide;
        i += 1;
    }
    proof {
        lemma_dot_pos_at(v@, i as int);
        assert(v@.subrange(0, dot_pos(v@)) =~= v@.subrange(0, i as int));
    }
    if i == 0 {
        return Err(TmxError::InvalidNumericValue);
    }
    if i == n {
        return Ok(acc * 1000);
    }
    // v[i] is the decimal point; the fraction follows
    let ghost fp = v@.subrange(i + 1, n as int);
    let mut frac: u64 = 0;
    let mut j: usize = i + 1;
    if j == n {
        return Err(TmxError::InvalidNumericValue);
    }
    while j < n
        invariant
            i + 1 <= j <= n,
            n == v@.len(),
            dot_pos(v@) == i as int,
            fp == v@.subrange(i + 1, n as int),
            forall|k: int| i + 1 <= k < j ==> is_digit(v@[k]),
            frac as int == frac_milli(v@.subrange(i + 1, j as int)),
            frac <= 999,
        decreases n - j,
    {
        let c = v[j];
        let u = c as u32;
        if u < 48 || u > 57 {
            proof {
                assert(fp[j - i - 1] == v@[j as int]);
                assert(!all_digits(fp));
            }
            return Err(TmxError::InvalidNumericValue);
        }
        let d = (u - 48) as u64;
        let p = j - i - 1;
        if p == 0 {
            frac = 100 * d;
        } else if p == 1 {
            frac = frac + 10 * d;
        } else if p == 2 {
            frac = frac + d;
        }
        proof {
            let a = v@.subrange(i + 1, j as int);
            let b = v@.subrange(i + 1, j + 1);
            assert(b.len() == a.len() + 1);
            assert forall|k: int| 0 <= k < a.len() implies b[k] == a[k] by {}
            assert(b[j - i - 1] == v@[j as int]);
        }
        j += 1;
    }
    proof {
        assert(v@.subrange(i + 1, n as int) =~= fp);
        lemma_dec_val_nonneg(v@.subrange(0, i as int));
    }
    Ok(acc * 1000 + frac)
}

/// `dot_pos` never passes the end.
proof fn lemma_dot_pos_le(s: Seq<char>)
    ensures
        0 <= dot_pos(s) <= s.len(),
    decreases s.len(),
{
    if s.len() > 0 && s.first() != '.' {
        lemma_dot_pos_le(s.drop_first());
    }
}

/// A non-digit before the decimal point spoils the whole body.
proof fn lemma_fixed_body_bad_char(s: Seq<char>, i: int)
    requires
        0 <= i < s.len(),
        forall|k: int| 0 <= k < i ==> s[k] != '.',
        s[i] != '.',
        !is_digit(s[i]),
    ensures
        !fixed_body_ok(s),
{
    lemma_dot_pos_le(s);
    if fixed_body_ok(s) {
        let d = dot_pos(s);
        lemma_dot_pos_ge(s, i + 1);
        let ip = s.subrange(0, d);
        assert(ip[i] == s[i]);
        assert(is_digit(ip[i]));
    }
}

/// `dot_pos` is at least `m` when no dot stands before `m`.
proof fn lemma_dot_pos_ge(s: Seq<char>, m: int)
    requires
        0 <= m <= s.len(),
        forall|k: int| 0 <= k < m ==> s[k] != '.',
    ensures
        dot_pos(s) >= m,
    decreases s.len(),
{
    lemma_dot_pos_le(s);
    if m > 0 {
        assert(s[0] != '.');
        assert(s.first() == s[0]);
        let t = s.drop_first();
        assert forall|k: int| 0 <= k < m - 1 implies t[k] != '.' by {
            assert(t[k] == s[k + 1]);
            assert(s[k + 1] != '.');
        }
        lemma_dot_pos_ge(t, m - 1);
        assert(dot_pos(s) == 1 + dot_pos(t));
    }
}

/// A whole part already worth more than `MAX_WHOLE` spoils the body.
proof fn lemma_fixed_body_too_big(s: Seq<char>, i: int)
    requires
        0 < i <= s.len(),
        forall|k: int| 0 <= k < i ==> s[k] != '.',
        dec_val(s.subrange(0, i)) > MAX_WHOLE as int,
    ensures
        !fixed_body_ok(s),
{
    lemma_dot_pos_le(s);
    if fixed_body_ok(s) {
        let d = dot_pos(s);
        lemma_dot_pos_ge(s, i);
        let ip = s.subrange(0, d);
        assert(ip.subrange(0, i) =~= s.subrange(0, i));
        lemma_dec_val_prefix(ip, i);
    }
}

/// Parses a fixed-point decimal with optional leading minus sign, yielding
/// thousandths.
pub fn parse_fixed_chars(v: &Vec<char>) -> (r: Result<i64, TmxError>)
    ensures
        match r {
            Ok(x) => fixed_ok(v@) && x as int == fixed_val(v@) && -1_000_000_000_000_000 < x
                < 1_000_000_000_000_000,
            Err(e) => !fixed_ok(v@) && e == TmxError::InvalidNumericValue,
        },
{
    if v.len() > 0 && v[0] == '-' {
        let mut tail: Vec<char> = Vec::new();
        let mut i: usize = 1;
        while i < v.len()
            invariant
                1 <= i <= v@.len(),
                tail@ =~= v@.subrange(1, i as int),
            decreases v@.len() - i,
        {
            tail.push(v[i]);
            proof {
                assert(tail@ =~= v@.subrange(1, i + 1));
            }
            i += 1;
        }
        proof {
            assert(v@.subrange(1, v@.len() as int) =~= tail@);
        }
        match parse_fixed_body(&tail) {
            Ok(m) => Ok(-(m as i64)),
            Err(e) => Err(e),
        }
    } else {
        match parse_fixed_body(v) {
            Ok(m) => Ok(m as i64),
            Err(e) => Err(e),
        }
    }
}

fn is_space_char(c: char) -> (r: bool)
    ensures
        r == is_space(c),
{
    c == ' ' || c == '\n' || c == '\t' || c == '\r'
}

/// `v` without leading and trailing whitespace.
pub fn trim_chars(v: &Vec<char>) -> (r: Vec<char>)
    ensures
        r@ == trim(v@),
{
    let n = v.len();
    let mut lo: usize = 0;
    while lo < n && is_space_char(v[lo])
        invariant
            lo <= n,
            n == v@.len(),
            forall|k: int| 0 <= k < lo ==> is_space(v@[k]),
        decreases n - lo,
    {
        lo += 1;
    }
    let mut hi: usize = n;
    while hi > lo && is_space_char(v[hi - 1])
        invariant
            lo <= hi <= n,
            n == v@.len(),
            forall|k: int| hi <= k < n ==> is_space(v@[k]),
        decreases hi,
    {
        hi -= 1;
    }
    let mut r: Vec<char> = Vec::new();
    let mut k: usize = lo;
    while k < hi
        invariant
            lo <= k <= hi <= n,
            n == v@.len(),
            r@ =~= v@.subrange(lo as int, k as int),
        decreases hi - k,
    {
        r.push(v[k]);
        proof {
            assert(r@ =~= v@.subrange(lo as int, k + 1));
        }
        k += 1;
    }
    proof {
        lemma_trim_subrange(v@, lo as int, hi as int);
    }
    r
}

/// The views of a token list.
pub open spec fn tokens_view(ts: Seq<Vec<char>>) -> Seq<Seq<char>> {
    ts.map_values(|t: Vec<char>| t@)
}

/// Splits on commas: exactly the tokens of `csv_tokens`.
pub fn split_commas(v: &Vec<char>) -> (r: Vec<Vec<char>>)
    ensures
        tokens_view(r@) == csv_tokens(v@),
        r@.len() >= 1,
{
    let mut r: Vec<Vec<char>> = Vec::new();
    r.push(Vec::new());
    proof {
        assert(tokens_view(r@) =~= csv_tokens(v@.subrange(0, 0)));
    }
    let mut i: usize = 0;
    while i < v.len()
        invariant
            i <= v@.len(),
            r@.len() >= 1,
            tokens_view(r@) =~= csv_tokens(v@.subrange(0, i as int)),
        decreases v@.len() - i,
    {
        let ghost prefix = v@.subrange(0, i as int);
        proof {
            assert(v@.subrange(0, i + 1).drop_last() =~= prefix);
            assert(v@.subrange(0, i + 1).last() == v@[i as int]);
            lemma_csv_tokens_nonempty(prefix);
        }
        let c = v[i];
        if c == ',' {
            r.push(Vec::new());
            proof {
                assert(tokens_view(r@) =~= csv_tokens(v@.subrange(0, i + 1)));
            }
        } else {
            let mut t = match r.pop() {
                Some(t) => t,
                None => Vec::new(),
            };
            t.push(c);
            r.push(t);
            proof {
                let toks = csv_tokens(prefix);
                assert(tokens_view(r@) =~= toks.update(
                    toks.len() - 1,
                    toks.last().push(v@[i as int]),
                ));
            }
        }
        i += 1;
    }
    proof {
        assert(v@.subrange(0, v@.len() as int) =~= v@);
    }
    r
}

} // verus!
