//! The class-number value, kept as decimal text.
//!
//! A classification number is a non-negative decimal such as `224` or
//! `1695.55`. It is held in canonical text form: no leading zeros in the
//! integer part (a lone `0` where the integer part would be empty), no
//! trailing zeros in the fraction, and no decimal point when the fraction is
//! empty. Canonical form is the shortest rendering that preserves the value,
//! so equal values have equal text.

use vstd::prelude::*;
use vstd::string::StringExecFns;

use crate::text::is_digit_char;

verus! {

/// First position at or after `i` that holds a decimal point, or the end.
pub open spec fn first_dot_from(t: Seq<char>, i: int) -> int
    decreases t.len() - i,
{
    if i < 0 || i >= t.len() {
        i
    } else if t[i] == '.' {
        i
    } else {
        first_dot_from(t, i + 1)
    }
}

pub proof fn lemma_first_dot_from_bounds(t: Seq<char>, i: int)
    requires
        0 <= i <= t.len(),
    ensures
        i <= first_dot_from(t, i) <= t.len(),
        forall|m: int| i <= m < first_dot_from(t, i) ==> t[m] != '.',
        first_dot_from(t, i) < t.len() ==> t[first_dot_from(t, i)] == '.',
    decreases t.len() - i,
{
    if i < t.len() && t[i] != '.' {
        lemma_first_dot_from_bounds(t, i + 1);
    }
}

pub proof fn lemma_first_dot_from_is(t: Seq<char>, i: int, k: int)
    requires
        0 <= i <= k <= t.len(),
        forall|m: int| i <= m < k ==> t[m] != '.',
        k == t.len() || t[k] == '.',
    ensures
        first_dot_from(t, i) == k,
    decreases k - i,
{
    if i < k {
        lemma_first_dot_from_is(t, i + 1, k);
    }
}

/// First position at or after `i` that holds something besides `'0'`, or the end.
pub open spec fn first_non_zero_from(t: Seq<char>, i: int) -> int
    decreases t.len() - i,
{
    if i < 0 || i >= t.len() {
        i
    } else if t[i] == '0' {
        first_non_zero_from(t, i + 1)
    } else {
        i
    }
}

pub proof fn lemma_first_non_zero_from_bounds(t: Seq<char>, i: int)
    requires
        0 <= i <= t.len(),
    ensures
        i <= first_non_zero_from(t, i) <= t.len(),
        forall|m: int| i <= m < first_non_zero_from(t, i) ==> t[m] == '0',
        first_non_zero_from(t, i) < t.len() ==> t[first_non_zero_from(t, i)] != '0',
    decreases t.len() - i,
{
    if i < t.len() && t[i] == '0' {
        lemma_first_non_zero_from_bounds(t, i + 1);
    }
}

pub proof fn lemma_first_non_zero_from_is(t: Seq<char>, i: int, k: int)
    requires
        0 <= i <= k <= t.len(),
        forall|m: int| i <= m < k ==> t[m] == '0',
        k == t.len() || t[k] != '0',
    ensures
        first_non_zero_from(t, i) == k,
    decreases k - i,
{
    if i < k {
        lemma_first_non_zero_from_is(t, i + 1, k);
    }
}

/// Position just past the last fraction digit worth keeping: trailing zeros
/// are dropped.
pub open spec fn frac_end_idx(f: Seq<char>) -> int
    decreases f.len(),
{
    if f.len() > 0 && f.last() == '0' {
        frac_end_idx(f.drop_last())
    } else {
        f.len() as int
    }
}

pub proof fn lemma_frac_end_idx_bounds(f: Seq<char>)
    ensures
        0 <= frac_end_idx(f) <= f.len(),
        forall|m: int| frac_end_idx(f) <= m < f.len() ==> f[m] == '0',
        frac_end_idx(f) > 0 ==> f[frac_end_idx(f) - 1] != '0',
    decreases f.len(),
{
    if f.len() > 0 && f.last() == '0' {
        lemma_frac_end_idx_bounds(f.drop_last());
        assert forall|m: int| frac_end_idx(f) <= m < f.len() implies f[m] == '0' by {
            if m < f.len() - 1 {
                assert(f.drop_last()[m] == f[m]);
            }
        }
    }
}

pub proof fn lemma_frac_end_idx_is(f: Seq<char>, k: int)
    requires
        0 <= k <= f.len(),
        forall|m: int| k <= m < f.len() ==> f[m] == '0',
        k == 0 || f[k - 1] != '0',
    ensures
        frac_end_idx(f) == k,
    decreases f.len(),
{
    if f.len() > 0 && f.last() == '0' {
        assert(f.drop_last() =~= f.subrange(0, f.len() - 1));
        lemma_frac_end_idx_is(f.drop_last(), k);
    }
}

/// Text that denotes one non-negative decimal number: only digits and at most
/// one decimal point, with at least one digit.
pub open spec fn valid_decimal_text(t: Seq<char>) -> bool {
    &&& forall|m: int| 0 <= m < t.len() ==> is_digit_char(t[m]) || t[m] == '.'
    &&& {
        let d = first_dot_from(t, 0);
        if d == t.len() {
            t.len() >= 1
        } else {
            first_dot_from(t, d + 1) == t.len() && t.len() >= 2
        }
    }
}

/// The integer part in canonical form: leading zeros dropped, a lone `0`
/// where nothing would remain.
pub open spec fn canon_int(w: Seq<char>) -> Seq<char> {
    let j = first_non_zero_from(w, 0);
    if j == w.len() {
        seq!['0']
    } else {
        w.skip(j)
    }
}

/// The canonical text of the decimal that `t` denotes.
pub open spec fn canon(t: Seq<char>) -> Seq<char> {
    let d = first_dot_from(t, 0);
    if d == t.len() {
        canon_int(t)
    } else {
        let f = t.skip(d + 1);
        let frac = f.take(frac_end_idx(f));
        if frac.len() == 0 {
            canon_int(t.take(d))
        } else {
            canon_int(t.take(d)) + seq!['.'] + frac
        }
    }
}

/// Decimal text already in canonical form.
pub open spec fn is_canonical(t: Seq<char>) -> bool {
    valid_decimal_text(t) && canon(t) == t
}

proof fn lemma_canon_int_canonical(w: Seq<char>)
    requires
        forall|m: int| 0 <= m < w.len() ==> is_digit_char(w[m]),
    ensures
        canon_int(w).len() >= 1,
        forall|m: int| 0 <= m < canon_int(w).len() ==> is_digit_char(#[trigger] canon_int(w)[m]),
        canon_int(canon_int(w)) == canon_int(w),
{
    lemma_first_non_zero_from_bounds(w, 0);
    let j = first_non_zero_from(w, 0);
    let c = canon_int(w);
    if j == w.len() {
        assert(is_digit_char('0'));
        assert(c[0] == '0');
        lemma_first_non_zero_from_is(c, 0, 1);
        assert(canon_int(c) =~= c);
    } else {
        assert(c =~= w.subrange(j, w.len() as int));
        assert(c[0] != '0');
        lemma_first_non_zero_from_is(c, 0, 0);
        assert(canon_int(c) =~= c);
    }
}

/// Canonicalizing valid decimal text yields canonical text; canonical text is
/// its own canonical form, so canonicalization is idempotent.
pub proof fn lemma_canon_canonical(t: Seq<char>)
    requires
        valid_decimal_text(t),
    ensures
        is_canonical(canon(t)),
{
    lemma_first_dot_from_bounds(t, 0);
    let d = first_dot_from(t, 0);
    if d == t.len() {
        let c = canon_int(t);
        assert(forall|m: int| 0 <= m < t.len() ==> is_digit_char(t[m]));
        lemma_canon_int_canonical(t);
        assert forall|m: int| 0 <= m < c.len() implies c[m] != '.' by {
            assert(is_digit_char(c[m]));
            assert(!is_digit_char('.'));
        }
        lemma_first_dot_from_is(c, 0, c.len() as int);
        assert(canon(c) == canon_int(c));
        assert(canon(c) == c);
    } else {
        lemma_first_dot_from_bounds(t, d + 1);
        let w = t.take(d);
        let f = t.skip(d + 1);
        assert forall|m: int| 0 <= m < w.len() implies is_digit_char(w[m]) by {
            assert(w[m] == t[m]);
            assert(t[m] != '.');
        }
        assert forall|m: int| 0 <= m < f.len() implies is_digit_char(f[m]) by {
            assert(f[m] == t[d + 1 + m]);
            assert(first_dot_from(t, d + 1) == t.len());
            assert(t[d + 1 + m] != '.');
        }
        lemma_canon_int_canonical(w);
        lemma_frac_end_idx_bounds(f);
        let fe = frac_end_idx(f);
        let frac = f.take(fe);
        let ci = canon_int(w);
        if frac.len() == 0 {
            let c = ci;
            assert forall|m: int| 0 <= m < c.len() implies c[m] != '.' by {
                assert(is_digit_char(c[m]));
                assert(!is_digit_char('.'));
            }
            lemma_first_dot_from_is(c, 0, c.len() as int);
            assert(canon(c) == canon_int(c));
            assert(canon(c) == c);
        } else {
            let c = ci + seq!['.'] + frac;
            assert(!is_digit_char('.'));
            assert forall|m: int| 0 <= m < c.len() implies is_digit_char(c[m]) || c[m] == '.' by {
                if m < ci.len() {
                    assert(c[m] == ci[m]);
                } else if m == ci.len() {
                } else {
                    assert(c[m] == frac[m - ci.len() - 1]);
                    assert(is_digit_char(f[m - ci.len() - 1]));
                }
            }
            assert forall|m: int| 0 <= m < ci.len() implies c[m] != '.' by {
                assert(c[m] == ci[m]);
                assert(is_digit_char(ci[m]));
            }
            assert(c[ci.len() as int] == '.');
            lemma_first_dot_from_is(c, 0, ci.len() as int);
            assert forall|m: int| ci.len() + 1 <= m < c.len() implies c[m] != '.' by {
                assert(c[m] == frac[m - ci.len() - 1]);
                assert(is_digit_char(f[m - ci.len() - 1]));
            }
            lemma_first_dot_from_is(c, ci.len() as int + 1, c.len() as int);
            assert(valid_decimal_text(c));
            // canon(c) keeps every part unchanged
            let d2 = ci.len() as int;
            assert(c.take(d2) =~= ci);
            let f2 = c.skip(d2 + 1);
            assert(f2 =~= frac);
            assert(frac.last() == f[fe - 1]);
            assert(frac.last() != '0');
            lemma_frac_end_idx_is(frac, frac.len() as int);
            assert(f2.take(frac_end_idx(f2)) =~= frac);
            assert(canon(c) == canon_int(ci) + seq!['.'] + frac);
            assert(canon(c) == c);
        }
    }
}

/// Turns decimal text into its canonical form; refuses text that does not
/// denote one non-negative decimal number.
pub fn canonicalize_decimal(t: &str) -> (r: Option<String>)
    ensures
        match r {
            Some(c) => valid_decimal_text(t@) && c@ == canon(t@),
            None => !valid_decimal_text(t@),
        },
{
    let n = t.unicode_len();
    let mut dot: Option<usize> = None;
    let mut i: usize = 0;
    while i < n
        invariant
            i <= n,
            n == t@.len(),
            forall|m: int| 0 <= m < i ==> is_digit_char(t@[m]) || t@[m] == '.',
            match dot {
                None => forall|m: int| 0 <= m < i ==> t@[m] != '.',
                Some(d) => d < i && t@[d as int] == '.' && (forall|m: int|
                    0 <= m < i && m != d ==> t@[m] != '.'),
            },
        decreases n - i,
    {
        let c = t.get_char(i);
        if crate::text::digit(c) {
            proof {
                assert(!is_digit_char('.'));
            }
        } else if c == '.' {
            match dot {
                Some(d) => {
                    proof {
                        lemma_first_dot_from_is(t@, 0, d as int);
                        lemma_first_dot_from_is(t@, d as int + 1, i as int);
                    }
                    return None;
                },
                None => {
                    dot = Some(i);
                },
            }
        } else {
            return None;
        }
        i = i + 1;
    }
    let w_end: usize = match dot {
        None => {
            proof {
                lemma_first_dot_from_is(t@, 0, n as int);
            }
            if n == 0 {
                return None;
            }
            n
        },
        Some(d) => {
            proof {
                lemma_first_dot_from_is(t@, 0, d as int);
                lemma_first_dot_from_is(t@, d as int + 1, n as int);
            }
            if n == 1 {
                return None;
            }
            d
        },
    };
    let mut j: usize = 0;
    while j < w_end && t.get_char(j) == '0'
        invariant
            j <= w_end <= n,
            n == t@.len(),
            forall|m: int| 0 <= m < j ==> t@[m] == '0',
        decreases w_end - j,
    {
        j = j + 1;
    }
    proof {
        let w = t@.take(w_end as int);
        lemma_first_non_zero_from_is(w, 0, j as int);
    }
    let mut out = String::new();
    if j == w_end {
        out.append("0");
        proof {
            reveal_strlit("0");
            assert(out@ =~= canon_int(t@.take(w_end as int)));
        }
    } else {
        let piece = t.substring_char(j, w_end);
        out.append(piece);
        proof {
            assert(out@ =~= canon_int(t@.take(w_end as int)));
        }
    }
    if let Some(d) = dot {
        let f_start = d + 1;
        let mut e = n;
        while e > f_start && t.get_char(e - 1) == '0'
            invariant
                f_start <= e <= n,
                n == t@.len(),
                forall|m: int| e <= m < n ==> t@[m] == '0',
            decreases e,
        {
            e = e - 1;
        }
        proof {
            let f = t@.skip(f_start as int);
            lemma_frac_end_idx_is(f, e - f_start);
        }
        if e > f_start {
            out.append(".");
            let piece = t.substring_char(f_start, e);
            out.append(piece);
            proof {
                reveal_strlit(".");
                let f = t@.skip(f_start as int);
                assert(piece@ =~= f.take(frac_end_idx(f)));
                assert(out@ =~= canon(t@));
            }
        } else {
            proof {
                let f = t@.skip(f_start as int);
                assert(f.take(frac_end_idx(f)).len() == 0);
                assert(out@ =~= canon(t@));
            }
        }
    } else {
        proof {
            assert(t@.take(n as int) =~= t@);
            assert(out@ =~= canon(t@));
        }
    }
    Some(out)
}

} // verus!

