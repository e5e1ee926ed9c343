//! ASCII-oriented character classes and text-scanning helpers shared by the
//! field recognizers.

use vstd::prelude::*;
use vstd::string::StringExecFns;

verus! {

/// An ASCII letter, either case.
pub open spec fn is_alpha_char(c: char) -> bool {
    ('a' as u32 <= c as u32 && c as u32 <= 'z' as u32) || ('A' as u32 <= c as u32 && c as u32
        <= 'Z' as u32)
}

/// An ASCII uppercase letter.
pub open spec fn is_upper_char(c: char) -> bool {
    'A' as u32 <= c as u32 && c as u32 <= 'Z' as u32
}

/// An ASCII decimal digit.
pub open spec fn is_digit_char(c: char) -> bool {
    '0' as u32 <= c as u32 && c as u32 <= '9' as u32
}

/// An ASCII letter or digit.
pub open spec fn is_alnum_char(c: char) -> bool {
    is_alpha_char(c) || is_digit_char(c)
}

/// ASCII whitespace, as trimming understands it.
pub open spec fn is_ws_char(c: char) -> bool {
    c == ' ' || c == '\t' || c == '\n' || c == '\r'
}

/// First position at or after `i` that does not hold a space, or the end.
pub open spec fn skip_spaces_from(s: Seq<char>, i: int) -> int
    decreases s.len() - i,
{
    if i < 0 || i >= s.len() {
        i
    } else if s[i] == ' ' {
        skip_spaces_from(s, i + 1)
    } else {
        i
    }
}

pub proof fn lemma_skip_spaces_from_bounds(s: Seq<char>, i: int)
    requires
        0 <= i <= s.len(),
    ensures
        i <= skip_spaces_from(s, i) <= s.len(),
        forall|m: int| i <= m < skip_spaces_from(s, i) ==> s[m] == ' ',
        skip_spaces_from(s, i) < s.len() ==> s[skip_spaces_from(s, i)] != ' ',
    decreases s.len() - i,
{
    if i < s.len() && s[i] == ' ' {
        lemma_skip_spaces_from_bounds(s, i + 1);
    }
}

pub proof fn lemma_skip_spaces_from_is(s: Seq<char>, i: int, k: int)
    requires
        0 <= i <= k <= s.len(),
        forall|m: int| i <= m < k ==> s[m] == ' ',
        k == s.len() || s[k] != ' ',
    ensures
        skip_spaces_from(s, i) == k,
    decreases k - i,
{
    if i < k {
        lemma_skip_spaces_from_is(s, i + 1, k);
    }
}

/// First position at or after `i` that does not hold a letter or digit, or the end.
pub open spec fn alnum_end_from(s: Seq<char>, i: int) -> int
    decreases s.len() - i,
{
    if i < 0 || i >= s.len() {
        i
    } else if is_alnum_char(s[i]) {
        alnum_end_from(s, i + 1)
    } else {
        i
    }
}

pub proof fn lemma_alnum_end_from_bounds(s: Seq<char>, i: int)
    requires
        0 <= i <= s.len(),
    ensures
        i <= alnum_end_from(s, i) <= s.len(),
        forall|m: int| i <= m < alnum_end_from(s, i) ==> is_alnum_char(s[m]),
        alnum_end_from(s, i) < s.len() ==> !is_alnum_char(s[alnum_end_from(s, i)]),
    decreases s.len() - i,
{
    if i < s.len() && is_alnum_char(s[i]) {
        lemma_alnum_end_from_bounds(s, i + 1);
    }
}

pub proof fn lemma_alnum_end_from_is(s: Seq<char>, i: int, k: int)
    requires
        0 <= i <= k <= s.len(),
        forall|m: int| i <= m < k ==> is_alnum_char(s[m]),
        k == s.len() || !is_alnum_char(s[k]),
    ensures
        alnum_end_from(s, i) == k,
    decreases k - i,
{
    if i < k {
        lemma_alnum_end_from_is(s, i + 1, k);
    }
}

/// First position at or after `i` that holds something besides whitespace, or the end.
pub open spec fn first_non_ws_from(s: Seq<char>, i: int) -> int
    decreases s.len() - i,
{
    if i < 0 || i >= s.len() {
        i
    } else if is_ws_char(s[i]) {
        first_non_ws_from(s, i + 1)
    } else {
        i
    }
}

pub proof fn lemma_first_non_ws_from_bounds(s: Seq<char>, i: int)
    requires
        0 <= i <= s.len(),
    ensures
        i <= first_non_ws_from(s, i) <= s.len(),
        forall|m: int| i <= m < first_non_ws_from(s, i) ==> is_ws_char(s[m]),
        first_non_ws_from(s, i) < s.len() ==> !is_ws_char(s[first_non_ws_from(s, i)]),
    decreases s.len() - i,
{
    if i < s.len() && is_ws_char(s[i]) {
        lemma_first_non_ws_from_bounds(s, i + 1);
    }
}

pub proof fn lemma_first_non_ws_from_is(s: Seq<char>, i: int, k: int)
    requires
        0 <= i <= k <= s.len(),
        forall|m: int| i <= m < k ==> is_ws_char(s[m]),
        k == s.len() || !is_ws_char(s[k]),
    ensures
        first_non_ws_from(s, i) == k,
    decreases k - i,
{
    if i < k {
        lemma_first_non_ws_from_is(s, i + 1, k);
    }
}

/// Position just past the last character that is not whitespace, or zero.
pub open spec fn trim_end_idx(s: Seq<char>) -> int
    decreases s.len(),
{
    if s.len() > 0 && is_ws_char(s.last()) {
        trim_end_idx(s.drop_last())
    } else {
        s.len() as int
    }
}

pub proof fn lemma_trim_end_idx_bounds(s: Seq<char>)
    ensures
        0 <= trim_end_idx(s) <= s.len(),
        forall|m: int| trim_end_idx(s) <= m < s.len() ==> is_ws_char(s[m]),
        trim_end_idx(s) > 0 ==> !is_ws_char(s[trim_end_idx(s) - 1]),
    decreases s.len(),
{
    if s.len() > 0 && is_ws_char(s.last()) {
        lemma_trim_end_idx_bounds(s.drop_last());
        assert forall|m: int| trim_end_idx(s) <= m < s.len() implies is_ws_char(s[m]) by {
            if m < s.len() - 1 {
                assert(s.drop_last()[m] == s[m]);
            }
        }
    }
}

pub proof fn lemma_trim_end_idx_is(s: Seq<char>, k: int)
    requires
        0 <= k <= s.len(),
        forall|m: int| k <= m < s.len() ==> is_ws_char(s[m]),
        k == 0 || !is_ws_char(s[k - 1]),
    ensures
        trim_end_idx(s) == k,
    decreases s.len(),
{
    if s.len() > 0 && is_ws_char(s.last()) {
        assert(s.drop_last() =~= s.subrange(0, s.len() - 1));
        lemma_trim_end_idx_is(s.drop_last(), k);
    }
}

/// The text with leading and trailing whitespace removed.
pub open spec fn spec_trim(s: Seq<char>) -> Seq<char> {
    let a = first_non_ws_from(s, 0);
    let b = trim_end_idx(s);
    if a >= b {
        Seq::empty()
    } else {
        s.subrange(a, b)
    }
}

/// When something besides whitespace stands in the text, the trimmed text
/// keeps exactly the span from its first to its last occurrence.
pub proof fn lemma_spec_trim(s: Seq<char>)
    ensures
        spec_trim(s).len() == 0 <==> (forall|m: int| 0 <= m < s.len() ==> is_ws_char(s[m])),
        spec_trim(s).len() > 0 ==> !is_ws_char(spec_trim(s)[0]) && !is_ws_char(
            spec_trim(s).last(),
        ),
{
    lemma_first_non_ws_from_bounds(s, 0);
    lemma_trim_end_idx_bounds(s);
    let a = first_non_ws_from(s, 0);
    let b = trim_end_idx(s);
    if a >= b {
        assert forall|m: int| 0 <= m < s.len() implies is_ws_char(s[m]) by {
            if m < a {
            } else {
            }
        }
    } else {
        assert(!is_ws_char(s[a]));
        assert(!is_ws_char(s[b - 1]));
    }
}

pub fn alpha(c: char) -> (r: bool)
    ensures
        r == is_alpha_char(c),
{
    let u = c as u32;
    ('a' as u32 <= u && u <= 'z' as u32) || ('A' as u32 <= u && u <= 'Z' as u32)
}

pub fn upper(c: char) -> (r: bool)
    ensures
        r == is_upper_char(c),
{
    let u = c as u32;
    'A' as u32 <= u && u <= 'Z' as u32
}

pub fn digit(c: char) -> (r: bool)
    ensures
        r == is_digit_char(c),
{
    let u = c as u32;
    '0' as u32 <= u && u <= '9' as u32
}

pub fn alnum(c: char) -> (r: bool)
    ensures
        r == is_alnum_char(c),
{
    alpha(c) || digit(c)
}

pub fn ws(c: char) -> (r: bool)
    ensures
        r == is_ws_char(c),
{
    c == ' ' || c == '\t' || c == '\n' || c == '\r'
}

/// Walks past a run of spaces, starting at `from`.
pub fn skip_spaces(i: &str, from: usize) -> (j: usize)
    requires
        from <= i@.len(),
    ensures
        j == skip_spaces_from(i@, from as int),
        from <= j <= i@.len(),
{
    let n = i.unicode_len();
    let mut j = from;
    while j < n && i.get_char(j) == ' '
        invariant
            from <= j <= n,
            n == i@.len(),
            forall|m: int| from <= m < j ==> i@[m] == ' ',
        decreases n - j,
    {
        j = j + 1;
    }
    proof {
        lemma_skip_spaces_from_is(i@, from as int, j as int);
    }
    j
}

/// Walks past a run of letters and digits, starting at `from`.
pub fn alnum_end(i: &str, from: usize) -> (j: usize)
    requires
        from <= i@.len(),
    ensures
        j == alnum_end_from(i@, from as int),
        from <= j <= i@.len(),
{
    let n = i.unicode_len();
    let mut j = from;
    while j < n && alnum(i.get_char(j))
        invariant
            from <= j <= n,
            n == i@.len(),
            forall|m: int| from <= m < j ==> is_alnum_char(i@[m]),
        decreases n - j,
    {
        j = j + 1;
    }
    proof {
        lemma_alnum_end_from_is(i@, from as int, j as int);
    }
    j
}

/// Relies on `String::push`: it appends exactly the one character.
#[verifier::external_body]
pub(crate) fn push_char(s: &mut String, c: char)
    ensures
        final(s)@ == old(s)@.push(c),
{
    s.push(c);
}

/// The text with every space dropped.
pub open spec fn spec_remove_spaces(s: Seq<char>) -> Seq<char> {
    s.filter(|c: char| c != ' ')
}

/// Copies the text, dropping every space.
pub fn remove_spaces(i: &str) -> (r: String)
    ensures
        r@ == spec_remove_spaces(i@),
{
    let n = i.unicode_len();
    let mut out = String::new();
    let mut k: usize = 0;
    while k < n
        invariant
            k <= n,
            n == i@.len(),
            out@ == spec_remove_spaces(i@.take(k as int)),
        decreases n - k,
    {
        let c = i.get_char(k);
        if c != ' ' {
            push_char(&mut out, c);
        }
        proof {
            reveal_with_fuel(Seq::<char>::filter, 2);
            let tk1 = i@.take(k as int + 1);
            assert(tk1.drop_last() =~= i@.take(k as int));
            assert(tk1.last() == c);
        }
        k = k + 1;
    }
    proof {
        assert(i@.take(n as int) =~= i@);
    }
    out
}

/// Removes leading and trailing whitespace.
pub fn trim(i: &str) -> (r: &str)
    ensures
        r@ == spec_trim(i@),
{
    let n = i.unicode_len();
    let mut a: usize = 0;
    while a < n && ws(i.get_char(a))
        invariant
            a <= n,
            n == i@.len(),
            forall|m: int| 0 <= m < a ==> is_ws_char(i@[m]),
        decreases n - a,
    {
        a = a + 1;
    }
    proof {
        lemma_first_non_ws_from_is(i@, 0, a as int);
    }
    let mut b: usize = n;
    while b > 0 && ws(i.get_char(b - 1))
        invariant
            b <= n,
            n == i@.len(),
            forall|m: int| b <= m < n ==> is_ws_char(i@[m]),
        decreases b,
    {
        b = b - 1;
    }
    proof {
        lemma_trim_end_idx_is(i@, b as int);
    }
    if a >= b {
        let r = i.substring_char(0, 0);
        proof {
            assert(r@ =~= spec_trim(i@));
        }
        r
    } else {
        let r = i.substring_char(a, b);
        proof {
            assert(r@ =~= spec_trim(i@));
        }
        r
    }
}

} // verus!
