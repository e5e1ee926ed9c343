//! The five field recognizers.
//!
//! Each recognizer consumes a prefix of the remaining input and hands back
//! the unconsumed remainder together with the typed field, or a positioned
//! failure. Each executable recognizer is specified against a mathematical
//! recognizer over the input's character sequence.

use vstd::prelude::*;
use vstd::string::StringExecFns;

use crate::decimal::{canon, valid_decimal_text};
use crate::parse::{CauseV, Error, ErrorV, Kind};
use crate::record::{wf_genre, wf_note, wf_second, wf_third, wf_year};
use crate::record::{Genre, Note, Second, Third, ThirdV, Year};
use crate::text::{alnum_end_from, skip_spaces_from, spec_remove_spaces, spec_trim};
use crate::text::{alnum_end, alpha, digit, remove_spaces, skip_spaces, trim, upper};
use crate::text::{is_alnum_char, is_alpha_char, is_digit_char, is_upper_char};
use crate::text::lemma_alnum_end_from_bounds;

verus! {

/// How many letters the prefix takes: up to two, greedily.
pub open spec fn genre_len(s: Seq<char>) -> int {
    if s.len() >= 2 && is_alpha_char(s[0]) && is_alpha_char(s[1]) {
        2
    } else if s.len() >= 1 && is_alpha_char(s[0]) {
        1
    } else {
        0
    }
}

/// The prefix recognizer: one or two leading letters; fails on anything
/// else, with the whole remaining input as the position.
pub open spec fn spec_parse_genre(s: Seq<char>) -> Result<(Seq<char>, Seq<char>), ErrorV> {
    if genre_len(s) == 0 {
        Err(
            ErrorV {
                at: s,
                kind: if s.len() == 0 {
                    Kind::UnexpectedEnd
                } else {
                    Kind::UnexpectedCharacter
                },
                causes: Seq::<CauseV>::empty(),
            },
        )
    } else {
        Ok((s.skip(genre_len(s)), s.take(genre_len(s))))
    }
}

/// The note recognizer: the whole remainder, trimmed; fails when nothing but
/// whitespace remains.
pub open spec fn spec_parse_note(s: Seq<char>) -> Result<(Seq<char>, Seq<char>), ErrorV> {
    let t = spec_trim(s);
    if t.len() == 0 {
        Err(ErrorV { at: t, kind: Kind::UnexpectedEnd, causes: Seq::<CauseV>::empty() })
    } else {
        Ok((Seq::<char>::empty(), t))
    }
}

impl Genre {
    /// Reads the subject prefix: one or two leading letters, greedily.
    pub fn parse_genre<'a>(i: &'a str) -> (r: Result<(&'a str, Genre), Error>)
        ensures
            match spec_parse_genre(i@) {
                Ok((srest, sg)) => r matches Ok(p) && p.0@ == srest && p.1@ == sg && wf_genre(
                    sg,
                ),
                Err(ev) => r matches Err(e) && e@ == ev,
            },
    {
        let n = i.unicode_len();
        if n >= 1 && alpha(i.get_char(0)) {
            let len: usize = if n >= 2 && alpha(i.get_char(1)) {
                2
            } else {
                1
            };
            let g = i.substring_char(0, len);
            let rest = i.substring_char(len, n);
            proof {
                assert(genre_len(i@) == len as int);
                assert(g@ =~= i@.take(genre_len(i@)));
                assert(rest@ =~= i@.skip(genre_len(i@)));
            }
            Ok((rest, Genre(String::from_str(g))))
        } else {
            let kind = if n == 0 {
                Kind::UnexpectedEnd
            } else {
                Kind::UnexpectedCharacter
            };
            let e = Error::new(String::from_str(i), kind);
            proof {
                assert(e@ =~= spec_parse_genre(i@)->Err_0);
            }
            Err(e)
        }
    }
}

impl Note {
    /// Reads the trailing note: the whole remainder, trimmed; a call number
    /// that ends after its other fields has no note.
    pub fn parse_note<'a>(i: &'a str) -> (r: Result<(&'a str, Note), Error>)
        ensures
            match spec_parse_note(i@) {
                Ok((srest, st)) => r matches Ok(p) && p.0@ == srest && p.1@ == st && wf_note(
                    st,
                ),
                Err(ev) => r matches Err(e) && e@ == ev,
            },
    {
        let t = trim(i);
        let n = t.unicode_len();
        if n == 0 {
            let e = Error::new(String::new(), Kind::UnexpectedEnd);
            proof {
                assert(e@ =~= spec_parse_note(i@)->Err_0);
            }
            Err(e)
        } else {
            let rest = t.substring_char(n, n);
            proof {
                assert(rest@ =~= Seq::<char>::empty());
                crate::text::lemma_spec_trim(i@);
                lemma_trim_twice(i@);
            }
            Ok((rest, Note(String::from_str(t))))
        }
    }
}

/// A dot stands somewhere before position `i`.
pub open spec fn dot_before(s: Seq<char>, i: int) -> bool {
    exists|j: int| 0 <= j < i && s[j] == '.'
}

/// The class-number scan stops at position `i`: a second dot, or an
/// uppercase letter.
pub open spec fn stop_at(s: Seq<char>, i: int) -> bool {
    (s[i] == '.' && dot_before(s, i)) || is_upper_char(s[i])
}

/// First position at or after `i` where the class-number scan stops, or the
/// end.
pub open spec fn first_stop_from(s: Seq<char>, i: int) -> int
    decreases s.len() - i,
{
    if i < 0 || i >= s.len() {
        i
    } else if stop_at(s, i) {
        i
    } else {
        first_stop_from(s, i + 1)
    }
}

pub proof fn lemma_first_stop_from_is(s: Seq<char>, i: int, k: int)
    requires
        0 <= i <= k <= s.len(),
        forall|m: int| i <= m < k ==> !stop_at(s, m),
        k == s.len() || stop_at(s, k),
    ensures
        first_stop_from(s, i) == k,
    decreases k - i,
{
    if i < k {
        lemma_first_stop_from_is(s, i + 1, k);
    }
}

/// The boundary of the class-number field: where the scan stops — one
/// position earlier when an uppercase letter directly follows a dot, which
/// then belongs to the cutter — or the end of the input.
pub open spec fn second_end(s: Seq<char>) -> int {
    let k = first_stop_from(s, 0);
    if k == s.len() {
        k
    } else if is_upper_char(s[k]) && k > 0 && s[k - 1] == '.' {
        k - 1
    } else {
        k
    }
}

/// The class-number recognizer: everything up to the boundary, spaces
/// dropped, read as one decimal number and canonicalized; text that does not
/// denote one decimal number is a malformed-number failure carrying that
/// text.
pub open spec fn spec_parse_second(s: Seq<char>) -> Result<(Seq<char>, Seq<char>), ErrorV> {
    let e = second_end(s);
    let digits = spec_remove_spaces(s.take(e));
    if valid_decimal_text(digits) {
        Ok((s.skip(e), canon(digits)))
    } else {
        Err(ErrorV { at: digits, kind: Kind::MalformedNumber, causes: Seq::<CauseV>::empty() })
    }
}

impl Second {
    /// Reads the classification number.
    pub fn parse_second<'a>(i: &'a str) -> (r: Result<(&'a str, Second), Error>)
        ensures
            match spec_parse_second(i@) {
                Ok((srest, st)) => r matches Ok(p) && p.0@ == srest && p.1@ == st && wf_second(
                    st,
                ),
                Err(ev) => r matches Err(e) && e@ == ev,
            },
    {
        let n = i.unicode_len();
        let mut k: usize = 0;
        let mut seen_dot = false;
        let mut stop: Option<usize> = None;
        while k < n && stop.is_none()
            invariant
                k <= n,
                n == i@.len(),
                stop is None ==> seen_dot == dot_before(i@, k as int),
                stop is None ==> forall|m: int| 0 <= m < k ==> !stop_at(i@, m),
                stop matches Some(e) ==> e == second_end(i@) && e <= n,
            decreases n - k, (if stop is None { 1int } else { 0int }),
        {
            let c = i.get_char(k);
            if c == '.' {
                if seen_dot {
                    proof {
                        assert(stop_at(i@, k as int));
                        lemma_first_stop_from_is(i@, 0, k as int);
                        assert(!is_upper_char('.'));
                    }
                    stop = Some(k);
                } else {
                    seen_dot = true;
                    proof {
                        assert(i@[k as int] == '.');
                        assert(dot_before(i@, k as int + 1));
                    }
                    k = k + 1;
                }
            } else if upper(c) {
                proof {
                    assert(stop_at(i@, k as int));
                    lemma_first_stop_from_is(i@, 0, k as int);
                }
                if k >= 1 && i.get_char(k - 1) == '.' {
                    stop = Some(k - 1);
                } else {
                    stop = Some(k);
                }
            } else {
                proof {
                    assert(!stop_at(i@, k as int));
                    if seen_dot {
                        assert(dot_before(i@, k as int + 1));
                    } else {
                        assert forall|j: int| 0 <= j < k as int + 1 implies i@[j] != '.' by {
                            if j < k as int {
                                assert(!dot_before(i@, k as int));
                            }
                        }
                    }
                }
                k = k + 1;
            }
        }
        let end: usize = match stop {
            Some(e) => e,
            None => {
                proof {
                    lemma_first_stop_from_is(i@, 0, n as int);
                }
                n
            },
        };
        let src = i.substring_char(0, end);
        let digits = remove_spaces(src);
        proof {
            assert(src@ =~= i@.take(second_end(i@)));
        }
        match crate::decimal::canonicalize_decimal(digits.as_str()) {
            Some(c) => {
                let rest = i.substring_char(end, n);
                proof {
                    assert(rest@ =~= i@.skip(second_end(i@)));
                    crate::decimal::lemma_canon_canonical(digits@);
                }
                Ok((rest, Second(c)))
            },
            None => {
                let e = Error::new(digits, Kind::MalformedNumber);
                proof {
                    assert(e@ =~= spec_parse_second(i@)->Err_0);
                }
                Err(e)
            },
        }
    }
}

/// The cutter recognizer: an optional run of spaces, an optional dot, an
/// optional further run of spaces, then a maximal run of letters and digits
/// as the body. The body must be non-empty and open with a letter: a bare
/// numeric run is not a cutter code.
pub open spec fn spec_parse_third(s: Seq<char>) -> Result<(Seq<char>, ThirdV), ErrorV> {
    let j0 = skip_spaces_from(s, 0);
    let has_dot = j0 < s.len() && s[j0] == '.';
    let j1 = if has_dot {
        skip_spaces_from(s, j0 + 1)
    } else {
        j0
    };
    let j2 = alnum_end_from(s, j1);
    if j2 > j1 && is_alpha_char(s[j1]) {
        Ok((s.skip(j2), ThirdV { has_dot, body: s.subrange(j1, j2) }))
    } else {
        Err(
            ErrorV {
                at: s.skip(j1),
                kind: if j1 == s.len() {
                    Kind::UnexpectedEnd
                } else {
                    Kind::UnexpectedCharacter
                },
                causes: Seq::<CauseV>::empty(),
            },
        )
    }
}

/// Numeric value of a digit character.
pub open spec fn digit_val(c: char) -> int {
    c as u32 - 48
}

/// The year recognizer: an optional run of spaces, exactly four digits, then
/// one more character only when it is a letter.
pub open spec fn spec_parse_year(s: Seq<char>) -> Result<(Seq<char>, Year), ErrorV> {
    let j = skip_spaces_from(s, 0);
    if s.len() - j < 4 {
        Err(ErrorV { at: s.skip(j), kind: Kind::UnexpectedEnd, causes: Seq::<CauseV>::empty() })
    } else if !(is_digit_char(s[j]) && is_digit_char(s[j + 1]) && is_digit_char(s[j + 2])
        && is_digit_char(s[j + 3])) {
        Err(
            ErrorV {
                at: s.skip(j),
                kind: Kind::UnexpectedCharacter,
                causes: Seq::<CauseV>::empty(),
            },
        )
    } else {
        let v = digit_val(s[j]) * 1000 + digit_val(s[j + 1]) * 100 + digit_val(s[j + 2]) * 10
            + digit_val(s[j + 3]);
        let has_suffix = j + 4 < s.len() && is_alpha_char(s[j + 4]);
        if has_suffix {
            Ok((s.skip(j + 5), Year { year: v as u16, suffix: Some(s[j + 4]) }))
        } else {
            Ok((s.skip(j + 4), Year { year: v as u16, suffix: None }))
        }
    }
}

impl Third {
    /// Reads a cutter code.
    pub fn parse_third<'a>(i: &'a str) -> (r: Result<(&'a str, Third), Error>)
        ensures
            match spec_parse_third(i@) {
                Ok((srest, st)) => r matches Ok(p) && p.0@ == srest && p.1@ == st && wf_third(
                    st,
                ),
                Err(ev) => r matches Err(e) && e@ == ev,
            },
    {
        let n = i.unicode_len();
        let j0 = skip_spaces(i, 0);
        let has_dot = j0 < n && i.get_char(j0) == '.';
        let j1 = if has_dot {
            skip_spaces(i, j0 + 1)
        } else {
            j0
        };
        let j2 = alnum_end(i, j1);
        if j2 > j1 && alpha(i.get_char(j1)) {
            let body = i.substring_char(j1, j2);
            let rest = i.substring_char(j2, n);
            proof {
                lemma_alnum_end_from_bounds(i@, j1 as int);
                assert(body@ =~= i@.subrange(j1 as int, j2 as int));
                assert(rest@ =~= i@.skip(j2 as int));
            }
            Ok((rest, Third { has_dot, body: String::from_str(body) }))
        } else {
            let kind = if j1 == n {
                Kind::UnexpectedEnd
            } else {
                Kind::UnexpectedCharacter
            };
            let e = Error::new(String::from_str(i.substring_char(j1, n)), kind);
            proof {
                assert(e@.at =~= i@.skip(j1 as int));
                assert(e@ =~= spec_parse_third(i@)->Err_0);
            }
            Err(e)
        }
    }
}

impl Year {
    /// Reads the publication year and its optional suffix letter.
    pub fn parse_year<'a>(i: &'a str) -> (r: Result<(&'a str, Year), Error>)
        ensures
            match spec_parse_year(i@) {
                Ok((srest, sy)) => r matches Ok(p) && p.0@ == srest && p.1 == sy && wf_year(sy),
                Err(ev) => r matches Err(e) && e@ == ev,
            },
    {
        let n = i.unicode_len();
        let j = skip_spaces(i, 0);
        if n - j < 4 {
            let e = Error::new(String::from_str(i.substring_char(j, n)), Kind::UnexpectedEnd);
            proof {
                assert(e@.at =~= i@.skip(j as int));
                assert(e@ =~= spec_parse_year(i@)->Err_0);
            }
            return Err(e);
        }
        let c0 = i.get_char(j);
        let c1 = i.get_char(j + 1);
        let c2 = i.get_char(j + 2);
        let c3 = i.get_char(j + 3);
        if !(digit(c0) && digit(c1) && digit(c2) && digit(c3)) {
            let e = Error::new(
                String::from_str(i.substring_char(j, n)),
                Kind::UnexpectedCharacter,
            );
            proof {
                assert(e@.at =~= i@.skip(j as int));
                assert(e@ =~= spec_parse_year(i@)->Err_0);
            }
            return Err(e);
        }
        let v: u16 = ((c0 as u32 - 48) * 1000 + (c1 as u32 - 48) * 100 + (c2 as u32 - 48) * 10 + (
        c3 as u32 - 48)) as u16;
        if j + 4 < n {
            let sc = i.get_char(j + 4);
            if alpha(sc) {
                let rest = i.substring_char(j + 5, n);
                proof {
                    assert(rest@ =~= i@.skip(j as int + 5));
                }
                return Ok((rest, Year { year: v, suffix: Some(sc) }));
            }
        }
        let rest = i.substring_char(j + 4, n);
        proof {
            assert(rest@ =~= i@.skip(j as int + 4));
        }
        Ok((rest, Year { year: v, suffix: None }))
    }
}

/// Trimming leaves nothing more to trim.
proof fn lemma_trim_twice(s: Seq<char>)
    ensures
        spec_trim(spec_trim(s)) == spec_trim(s),
{
    crate::text::lemma_spec_trim(s);
    let t = spec_trim(s);
    if t.len() == 0 {
        crate::text::lemma_first_non_ws_from_bounds(t, 0);
        crate::text::lemma_trim_end_idx_bounds(t);
        assert(spec_trim(t) =~= t);
    } else {
        crate::text::lemma_first_non_ws_from_is(t, 0, 0);
        crate::text::lemma_trim_end_idx_is(t, t.len() as int);
        assert(spec_trim(t) =~= t);
    }
}

} // verus!
