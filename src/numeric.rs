use vstd::prelude::*;

use crate::lexical::slice_chars;

verus! {

pub open spec fn is_digit(c: char) -> bool {
    '0' <= c && c <= '9'
}

pub open spec fn all_digits(t: Seq<char>) -> bool {
    forall|k: int| 0 <= k < t.len() ==> is_digit(#[trigger] t[k])
}

/// The value of a run of decimal digits, most significant first.
pub open spec fn digits_value(t: Seq<char>) -> int
    decreases t.len(),
{
    if t.len() == 0 {
        0
    } else {
        10 * digits_value(t.drop_last()) + (t.last() as int - '0' as int)
    }
}

/// What a base-10 signed integer literal denotes: an optional `+` or `-`
/// followed by at least one digit, and nothing else.
pub open spec fn integer_literal(t: Seq<char>) -> Option<int> {
    if t.len() > 0 && (t[0] == '+' || t[0] == '-') {
        let d = t.drop_first();
        if d.len() > 0 && all_digits(d) {
            Some(
                if t[0] == '-' {
                    -digits_value(d)
                } else {
                    digits_value(d)
                },
            )
        } else {
            None
        }
    } else if t.len() > 0 && all_digits(t) {
        Some(digits_value(t))
    } else {
        None
    }
}

/// The 64-bit integer that `t` reads as, when it is an integer literal in range.
pub open spec fn i64_of(t: Seq<char>) -> Option<i64> {
    match integer_literal(t) {
        Some(v) => if i64::MIN <= v <= i64::MAX {
            Some(v as i64)
        } else {
            None
        },
        None => None,
    }
}

pub proof fn lemma_digits_value_nonneg(t: Seq<char>)
    requires
        all_digits(t),
    ensures
        digits_value(t) >= 0,
    decreases t.len(),
{
    if t.len() > 0 {
        assert(all_digits(t.drop_last())) by {
            assert forall|k: int| 0 <= k < t.drop_last().len() implies is_digit(
                #[trigger] t.drop_last()[k],
            ) by {
                assert(is_digit(t[k]));
            }
        }
        lemma_digits_value_nonneg(t.drop_last());
        assert(is_digit(t[t.len() - 1]));
    }
}

/// A longer run of digits is worth at least as much as its prefix.
pub proof fn lemma_digits_value_prefix(t: Seq<char>, j: int)
    requires
        all_digits(t),
        0 <= j <= t.len(),
    ensures
        digits_value(t.take(j)) <= digits_value(t),
    decreases t.len(),
{
    if j == t.len() {
        assert(t.take(j) =~= t);
    } else {
        let u = t.drop_last();
        assert(all_digits(u)) by {
            assert forall|k: int| 0 <= k < u.len() implies is_digit(#[trigger] u[k]) by {
                assert(is_digit(t[k]));
            }
        }
        lemma_digits_value_prefix(u, j);
        lemma_digits_value_nonneg(u);
        assert(u.take(j) =~= t.take(j));
        assert(is_digit(t[t.len() - 1]));
    }
}

/// Reads a base-10 signed integer, as `i64::from_str` does.
pub fn parse_i64(t: &Vec<char>) -> (r: Option<i64>)
    ensures
        r == i64_of(t@),
{
    let n = t.len();
    if n == 0 {
        return None;
    }
    let signed = t[0] == '+' || t[0] == '-';
    let neg = t[0] == '-';
    let ds: usize = if signed { 1 } else { 0 };
    if ds == n {
        return None;
    }
    let limit: u64 = if neg { 9223372036854775808 } else { 9223372036854775807 };
    let ghost d = t@.subrange(ds as int, n as int);
    proof {
        if signed {
            assert(d =~= t@.drop_first());
        } else {
            assert(d =~= t@);
        }
    }
    let mut acc: u64 = 0;
    let mut k: usize = ds;
    while k < n
        invariant
            ds <= k <= n,
            n == t.len(),
            n > 0,
            signed == (t@[0] == '+' || t@[0] == '-'),
            neg == (t@[0] == '-'),
            ds == (if signed { 1usize } else { 0usize }),
            signed ==> d == t@.drop_first(),
            !signed ==> d == t@,
            d == t@.subrange(ds as int, n as int),
            d.take(k - ds) == t@.subrange(ds as int, k as int),
            all_digits(t@.subrange(ds as int, k as int)),
            acc as int == digits_value(t@.subrange(ds as int, k as int)),
            acc <= limit,
            limit == (if neg { 9223372036854775808u64 } else { 9223372036854775807u64 }),
        decreases n - k,
    {
        let c = t[k];
        let prefix = Ghost(t@.subrange(ds as int, k as int));
        let next = Ghost(t@.subrange(ds as int, k + 1));
        assert(next@.drop_last() =~= prefix@);
        if !('0' <= c && c <= '9') {
            assert(!is_digit(d[k - ds]));
            assert(!all_digits(d));
            return None;
        }
        let v = (c as u32 - '0' as u32) as u64;
        assert(all_digits(next@)) by {
            assert forall|q: int| 0 <= q < next@.len() implies is_digit(#[trigger] next@[q]) by {
                if q < prefix@.len() {
                    assert(next@[q] == prefix@[q]);
                }
            }
        }
        if acc > (limit - v) / 10 {
            proof {
                assert(all_digits(d) ==> digits_value(d) > limit) by {
                    if all_digits(d) {
                        assert(d.take(k + 1 - ds) =~= next@);
                        lemma_digits_value_prefix(d, k + 1 - ds);
                    }
                }
            }
            return None;
        }
        acc = acc * 10 + v;
        k = k + 1;
        proof {
            assert(d.take(k - ds) =~= t@.subrange(ds as int, k as int));
        }
    }
    assert(t@.subrange(ds as int, n as int) =~= d);
    if neg {
        if acc == 9223372036854775808 {
            Some(i64::MIN)
        } else {
            Some(-(acc as i64))
        }
    } else {
        Some(acc as i64)
    }
}

/// The end of the run of digits that starts at `j`.
pub open spec fn digits_end(t: Seq<char>, j: int) -> int
    decreases t.len() - j,
{
    if 0 <= j < t.len() && is_digit(t[j]) {
        digits_end(t, j + 1)
    } else {
        j
    }
}

/// `c` is the lowercase letter `lower` or its uppercase form.
pub open spec fn same_letter(c: char, lower: char) -> bool {
    c == lower || c as u32 + 32 == lower as u32
}

/// `t` spells the lowercase word `w`, letters in either case.
pub open spec fn spells(t: Seq<char>, w: Seq<char>) -> bool {
    t.len() == w.len() && forall|k: int| 0 <= k < t.len() ==> same_letter(#[trigger] t[k], w[k])
}

/// `Exp ::= ('e' | 'E') Sign? Digit+`
pub open spec fn exponent(e: Seq<char>) -> bool {
    let x0: int = if e.len() > 1 && (e[1] == '+' || e[1] == '-') {
        2
    } else {
        1
    };
    e.len() > 0 && (e[0] == 'e' || e[0] == 'E') && x0 < e.len() && digits_end(e, x0) == e.len()
}

/// `Number ::= (Digit+ | Digit+ '.' Digit* | Digit* '.' Digit+) Exp?`
pub open spec fn decimal_number(u: Seq<char>) -> bool {
    let d1 = digits_end(u, 0);
    let has_dot = d1 < u.len() && u[d1] == '.';
    let m_end = if has_dot {
        digits_end(u, d1 + 1)
    } else {
        d1
    };
    let mantissa = d1 > 0 || (has_dot && m_end > d1 + 1);
    mantissa && (m_end == u.len() || exponent(u.skip(m_end)))
}

/// The text that a decimal floating-point reading accepts:
/// `Sign? ('inf' | 'infinity' | 'nan' | Number)`, letters in either case.
pub open spec fn float_literal(t: Seq<char>) -> bool {
    let i0: int = if t.len() > 0 && (t[0] == '+' || t[0] == '-') {
        1
    } else {
        0
    };
    let u = t.skip(i0);
    spells(u, seq!['i', 'n', 'f']) || spells(u, seq!['i', 'n', 'f', 'i', 'n', 'i', 't', 'y'])
        || spells(u, seq!['n', 'a', 'n']) || decimal_number(u)
}

fn skip_digits(t: &Vec<char>, j: usize) -> (r: usize)
    requires
        j <= t.len(),
    ensures
        r as int == digits_end(t@, j as int),
        j <= r <= t.len(),
{
    let mut k = j;
    while k < t.len() && '0' <= t[k] && t[k] <= '9'
        invariant
            j <= k <= t.len(),
            digits_end(t@, k as int) == digits_end(t@, j as int),
        decreases t.len() - k,
    {
        k = k + 1;
    }
    k
}

fn spells_word(t: &Vec<char>, w: &Vec<char>) -> (r: bool)
    ensures
        r == spells(t@, w@),
{
    if t.len() != w.len() {
        return false;
    }
    let mut k: usize = 0;
    while k < t.len()
        invariant
            t.len() == w.len(),
            k <= t.len(),
            forall|q: int| 0 <= q < k ==> same_letter(#[trigger] t@[q], w@[q]),
        decreases t.len() - k,
    {
        let c = t[k];
        let l = w[k];
        if !(c == l || (l as u32 >= 32 && c as u32 == l as u32 - 32)) {
            return false;
        }
        k = k + 1;
    }
    true
}

fn is_exponent(e: &Vec<char>) -> (r: bool)
    ensures
        r == exponent(e@),
{
    let n = e.len();
    if n == 0 || !(e[0] == 'e' || e[0] == 'E') {
        return false;
    }
    let x0: usize = if n > 1 && (e[1] == '+' || e[1] == '-') { 2 } else { 1 };
    x0 < n && skip_digits(e, x0) == n
}

fn is_decimal_number(u: &Vec<char>) -> (r: bool)
    ensures
        r == decimal_number(u@),
{
    let n = u.len();
    let d1 = skip_digits(u, 0);
    let has_dot = d1 < n && u[d1] == '.';
    let m_end = if has_dot { skip_digits(u, d1 + 1) } else { d1 };
    let mantissa = d1 > 0 || (has_dot && m_end > d1 + 1);
    if !mantissa {
        return false;
    }
    if m_end == n {
        return true;
    }
    let rest = slice_chars(u, m_end, n);
    assert(rest@ =~= u@.skip(m_end as int));
    is_exponent(&rest)
}

/// Whether `t` reads as a decimal floating-point number, as `f64::from_str` does.
pub fn is_float_literal(t: &Vec<char>) -> (r: bool)
    ensures
        r == float_literal(t@),
{
    let n = t.len();
    let i0: usize = if n > 0 && (t[0] == '+' || t[0] == '-') { 1 } else { 0 };
    let u = slice_chars(t, i0, n);
    assert(u@ =~= t@.skip(i0 as int));
    spells_word(&u, &vec!['i', 'n', 'f']) || spells_word(&u, &vec!['i', 'n', 'f', 'i', 'n', 'i', 't', 'y'])
        || spells_word(&u, &vec!['n', 'a', 'n']) || is_decimal_number(&u)
}

} // verus!
