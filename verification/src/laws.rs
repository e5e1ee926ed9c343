//! Idempotence of rendering.
//!
//! A successfully parsed record, rendered in canonical form and parsed
//! again, comes back as exactly the same record — for every record whose
//! rendering the grammar can read back at all ([`render_reparses`]). The
//! grammar has genuine blind spots, recorded there; inside them rendering
//! still succeeds but the canonical text does not parse back to the record.

use vstd::prelude::*;

use crate::assemble::spec_parse_lc;
use crate::decimal::{canon, first_dot_from, lemma_first_dot_from_bounds};
use crate::fields::{dot_before, second_end, stop_at};
use crate::fields::{lemma_first_stop_from_is, spec_parse_genre, spec_parse_note,
    spec_parse_second, spec_parse_third, spec_parse_year};
use crate::fields::{digit_val, genre_len};
use crate::record::{digit_char, render_third_v, render_year_v, spec_render, year_digits};
use crate::record::{wf_lc, wf_third, LCV, ThirdV, Year};
use crate::text::{alnum_end_from, first_non_ws_from, skip_spaces_from, spec_remove_spaces,
    spec_trim, trim_end_idx};
use crate::text::{is_alnum_char, is_alpha_char, is_digit_char, is_upper_char, is_ws_char};
use crate::text::{lemma_alnum_end_from_bounds, lemma_alnum_end_from_is,
    lemma_first_non_ws_from_is, lemma_skip_spaces_from_bounds, lemma_skip_spaces_from_is,
    lemma_spec_trim, lemma_trim_end_idx_is};

verus! {

/// What follows the first cutter in the rendering: the optional second
/// cutter, year and note, each preceded by one space.
pub open spec fn fourth_part(v: LCV) -> Seq<char> {
    match v.fourth {
        Some(t) => seq![' '] + render_third_v(t),
        None => Seq::<char>::empty(),
    }
}

pub open spec fn year_part(v: LCV) -> Seq<char> {
    match v.year {
        Some(y) => seq![' '] + render_year_v(y),
        None => Seq::<char>::empty(),
    }
}

pub open spec fn note_part(v: LCV) -> Seq<char> {
    match v.note {
        Some(n) => seq![' '] + n,
        None => Seq::<char>::empty(),
    }
}

/// The rendering after the prefix.
pub open spec fn rest1(v: LCV) -> Seq<char> {
    seq![' '] + v.second + seq![' '] + render_third_v(v.third) + fourth_part(v) + year_part(v)
        + note_part(v)
}

/// The rendering after the class number.
pub open spec fn rest2(v: LCV) -> Seq<char> {
    render_third_v(v.third) + fourth_part(v) + year_part(v) + note_part(v)
}

/// The rendering after the first cutter.
pub open spec fn rest3(v: LCV) -> Seq<char> {
    fourth_part(v) + year_part(v) + note_part(v)
}

/// The rendering after the second cutter was attempted.
pub open spec fn rest4(v: LCV) -> Seq<char> {
    year_part(v) + note_part(v)
}

/// The rendering after the year was attempted.
pub open spec fn rest5(v: LCV) -> Seq<char> {
    note_part(v)
}

/// The grammar can read the rendering of `v` back. Outside these conditions
/// the rendering is still produced, but parsing it gives another record or a
/// failure:
///
/// - The class-number scan must stop exactly where the first cutter begins.
///   It stops at an uppercase letter, or at a second dot. So the first
///   cutter's body must open with an uppercase letter, or the cutter must
///   carry its dot while the class number itself has a fraction — a
///   lowercase cutter after a whole class number is absorbed into the
///   class-number text when read back.
/// - A note that directly follows the first cutter must not itself read as a
///   cutter code, and a note that directly follows a cutter must not open
///   like a year — four digits — else it is read as the field it imitates.
pub open spec fn render_reparses(v: LCV) -> bool {
    &&& is_upper_char(v.third.body[0]) || (v.third.has_dot && first_dot_from(v.second, 0)
        < v.second.len())
    &&& match v.note {
        Some(t) => {
            &&& (v.fourth is None && v.year is None ==> spec_parse_third(t) is Err)
            &&& (v.year is None ==> spec_parse_year(t) is Err)
        },
        None => true,
    }
}

/// Text with nothing to drop passes through space removal unchanged.
proof fn lemma_remove_spaces_keep_all(s: Seq<char>)
    requires
        forall|m: int| 0 <= m < s.len() ==> s[m] != ' ',
    ensures
        spec_remove_spaces(s) == s,
    decreases s.len(),
{
    reveal_with_fuel(Seq::<char>::filter, 2);
    if s.len() == 0 {
        assert(spec_remove_spaces(s) =~= s);
    } else {
        lemma_remove_spaces_keep_all(s.drop_last());
        assert(spec_remove_spaces(s) =~= s);
    }
}

/// Space removal distributes over concatenation.
proof fn lemma_remove_spaces_concat(a: Seq<char>, b: Seq<char>)
    ensures
        spec_remove_spaces(a + b) == spec_remove_spaces(a) + spec_remove_spaces(b),
    decreases b.len(),
{
    reveal_with_fuel(Seq::<char>::filter, 2);
    if b.len() == 0 {
        assert(a + b =~= a);
        assert(spec_remove_spaces(b) =~= Seq::<char>::empty());
        assert(spec_remove_spaces(a) + spec_remove_spaces(b) =~= spec_remove_spaces(a));
    } else {
        lemma_remove_spaces_concat(a, b.drop_last());
        assert((a + b).drop_last() =~= a + b.drop_last());
        assert((a + b).last() == b.last());
        if b.last() != ' ' {
            assert(spec_remove_spaces(a + b) == spec_remove_spaces(a + b.drop_last()).push(
                b.last(),
            ));
            assert(spec_remove_spaces(b) == spec_remove_spaces(b.drop_last()).push(b.last()));
            assert(spec_remove_spaces(a) + spec_remove_spaces(b) =~= (spec_remove_spaces(a)
                + spec_remove_spaces(b.drop_last())).push(b.last()));
        } else {
            assert(spec_remove_spaces(a + b) == spec_remove_spaces(a + b.drop_last()));
            assert(spec_remove_spaces(b) == spec_remove_spaces(b.drop_last()));
        }
    }
}

/// Space removal on text wrapped in one space on each side gives the text
/// back, when the text itself holds no space.
proof fn lemma_remove_spaces_padded(s: Seq<char>)
    requires
        forall|m: int| 0 <= m < s.len() ==> s[m] != ' ',
    ensures
        spec_remove_spaces(seq![' '] + s + seq![' ']) == s,
{
    reveal_with_fuel(Seq::<char>::filter, 2);
    let sp = seq![' '];
    assert(spec_remove_spaces(sp) =~= Seq::<char>::empty()) by {
        assert(sp.drop_last() =~= Seq::<char>::empty());
    }
    lemma_remove_spaces_concat(seq![' '] + s, sp);
    lemma_remove_spaces_concat(sp, s);
    lemma_remove_spaces_keep_all(s);
    assert(spec_remove_spaces(seq![' '] + s + seq![' ']) =~= s);
}

proof fn lemma_digit_char_val(d: int)
    requires
        0 <= d <= 9,
    ensures
        is_digit_char(digit_char(d)),
        digit_val(digit_char(d)) == d,
        !is_ws_char(digit_char(d)),
        digit_char(d) != '.',
        digit_char(d) != ' ',
        !is_alpha_char(digit_char(d)),
{
}

proof fn lemma_year_digits_facts(y: u16)
    requires
        y <= 9999,
    ensures
        year_digits(y).len() == 4,
        forall|m: int| 0 <= m < 4 ==> is_digit_char(#[trigger] year_digits(y)[m]),
        forall|m: int| 0 <= m < 4 ==> #[trigger] year_digits(y)[m] != ' ',
        digit_val(year_digits(y)[0]) * 1000 + digit_val(year_digits(y)[1]) * 100 + digit_val(
            year_digits(y)[2],
        ) * 10 + digit_val(year_digits(y)[3]) == y,
{
    let yi = y as int;
    let q1 = yi / 10;
    let q2 = yi / 100;
    let q3 = yi / 1000;
    vstd::arithmetic::div_mod::lemma_fundamental_div_mod(yi, 10);
    vstd::arithmetic::div_mod::lemma_fundamental_div_mod(q1, 10);
    vstd::arithmetic::div_mod::lemma_fundamental_div_mod(q2, 10);
    vstd::arithmetic::div_mod::lemma_div_denominator(yi, 10, 10);
    vstd::arithmetic::div_mod::lemma_div_denominator(yi, 100, 10);
    assert(q1 / 10 == q2);
    assert(q2 / 10 == q3);
    assert(0 <= q3 <= 9) by {
        vstd::arithmetic::div_mod::lemma_div_is_ordered(yi, 9999, 1000);
        vstd::arithmetic::div_mod::lemma_div_pos_is_pos(yi, 1000);
    }
    assert(q3 % 10 == q3) by {
        vstd::arithmetic::div_mod::lemma_small_mod(q3 as nat, 10);
    }
    lemma_digit_char_val(yi / 1000 % 10);
    lemma_digit_char_val(yi / 100 % 10);
    lemma_digit_char_val(yi / 10 % 10);
    lemma_digit_char_val(yi % 10);
    assert(yi == q3 * 1000 + (q2 % 10) * 100 + (q1 % 10) * 10 + yi % 10);
}

/// A cutter rendering, after up to one space and followed by anything that
/// does not extend its body, reads back as exactly the cutter.
proof fn lemma_parse_third_ok(s: Seq<char>, sp: int, t: ThirdV, tail: Seq<char>)
    requires
        wf_third(t),
        0 <= sp <= 1,
        s =~= (if sp == 1 {
            seq![' ']
        } else {
            Seq::<char>::empty()
        }) + render_third_v(t) + tail,
        tail.len() > 0 ==> !is_alnum_char(tail[0]),
    ensures
        spec_parse_third(s) == Ok::<(Seq<char>, ThirdV), crate::parse::ErrorV>((tail, t)),
{
    let dotn: int = if t.has_dot {
        1
    } else {
        0
    };
    let b = t.body;
    let bl = b.len() as int;
    assert(s.len() == sp + dotn + bl + tail.len());
    assert(forall|m: int| 0 <= m < bl ==> s[sp + dotn + m] == b[m]);
    assert(s[sp + dotn] == b[0]);
    if t.has_dot {
        assert(s[sp] == '.');
    }
    lemma_skip_spaces_from_is(s, 0, sp);
    assert(skip_spaces_from(s, 0) == sp);
    assert((s[sp] == '.') == t.has_dot);
    let j1 = sp + dotn;
    if t.has_dot {
        lemma_skip_spaces_from_is(s, sp + 1, j1);
    }
    assert((if s[sp] == '.' {
        skip_spaces_from(s, sp + 1)
    } else {
        sp
    }) == j1);
    assert forall|m: int| j1 <= m < j1 + bl implies is_alnum_char(s[m]) by {
        assert(s[m] == b[m - j1]);
    }
    lemma_alnum_end_from_is(s, j1, j1 + bl);
    assert(s.subrange(j1, j1 + bl) =~= b);
    assert(s.skip(j1 + bl) =~= tail);
    assert(spec_parse_third(s) == Ok::<(Seq<char>, ThirdV), crate::parse::ErrorV>(
        (tail, ThirdV { has_dot: t.has_dot, body: s.subrange(j1, j1 + bl) }),
    ));
    assert(ThirdV { has_dot: t.has_dot, body: s.subrange(j1, j1 + bl) } =~= t);
}

/// One leading space changes nothing about whether a cutter can be read.
proof fn lemma_parse_third_shift(t: Seq<char>)
    requires
        t.len() > 0,
        !is_ws_char(t[0]),
    ensures
        spec_parse_third(seq![' '] + t) is Err <==> spec_parse_third(t) is Err,
{
    let s = seq![' '] + t;
    assert(forall|m: int| 0 <= m < t.len() ==> s[m + 1] == t[m]);
    lemma_skip_spaces_from_is(t, 0, 0);
    lemma_skip_spaces_from_is(s, 0, 1);
    assert(s[1] == t[0]);
    let hd = t[0] == '.';
    let j1t: int = if hd {
        skip_spaces_from(t, 1)
    } else {
        0
    };
    let j1s: int = if hd {
        skip_spaces_from(s, 2)
    } else {
        1
    };
    if hd {
        lemma_skip_spaces_from_bounds(t, 1);
        lemma_skip_spaces_from_is(s, 2, j1t + 1);
    }
    assert(j1s == j1t + 1);
    lemma_alnum_end_from_bounds(t, j1t);
    let j2t = alnum_end_from(t, j1t);
    lemma_alnum_end_from_is(s, j1s, j2t + 1);
    if j2t > j1t {
        assert(s[j1s] == t[j1t]);
    }
}

/// One leading space changes nothing about whether a year can be read.
proof fn lemma_parse_year_shift(t: Seq<char>)
    requires
        t.len() > 0,
        !is_ws_char(t[0]),
    ensures
        spec_parse_year(seq![' '] + t) is Err <==> spec_parse_year(t) is Err,
{
    let s = seq![' '] + t;
    assert(forall|m: int| 0 <= m < t.len() ==> s[m + 1] == t[m]);
    lemma_skip_spaces_from_is(t, 0, 0);
    lemma_skip_spaces_from_is(s, 0, 1);
    if t.len() >= 4 {
        assert(s[1] == t[0] && s[2] == t[1] && s[3] == t[2] && s[4] == t[3]);
    }
}

proof fn lemma_step_genre(v: LCV)
    requires
        wf_lc(v),
    ensures
        spec_parse_genre(spec_render(v)) == Ok::<(Seq<char>, Seq<char>), crate::parse::ErrorV>(
            (rest1(v), v.genre),
        ),
{
    let u = spec_render(v);
    let g = v.genre.len() as int;
    assert(u =~= v.genre + rest1(v));
    assert(u[g] == ' ');
    assert(!is_alpha_char(' '));
    if g == 2 {
        assert(is_alpha_char(u[0]) && is_alpha_char(u[1]));
        assert(genre_len(u) == 2);
    } else {
        assert(is_alpha_char(u[0]));
        assert(u[1] == ' ');
        assert(genre_len(u) == 1);
    }
    assert(u.take(g) =~= v.genre);
    assert(u.skip(g) =~= rest1(v));
}

#[verifier::rlimit(60)]
proof fn lemma_step_second(v: LCV)
    requires
        wf_lc(v),
        render_reparses(v),
    ensures
        spec_parse_second(rest1(v)) == Ok::<(Seq<char>, Seq<char>), crate::parse::ErrorV>(
            (rest2(v), v.second),
        ),
{
    let s = rest1(v);
    let sec = v.second;
    let sl = sec.len() as int;
    let bnd = sl + 2;
    assert(s =~= seq![' '] + sec + seq![' '] + rest2(v));
    assert(s[0] == ' ');
    assert(forall|m: int| 1 <= m <= sl ==> s[m] == sec[m - 1]);
    assert(s[sl + 1] == ' ');
    lemma_first_dot_from_bounds(sec, 0);
    let dp = first_dot_from(sec, 0);
    if dp < sl {
        lemma_first_dot_from_bounds(sec, dp + 1);
        assert(first_dot_from(sec, dp + 1) == sl);
    }
    // every class-number character is a digit, except the one dot
    assert(forall|m: int| 0 <= m < sl && m != dp ==> is_digit_char(sec[m]));
    // nothing up to the boundary stops the scan
    assert forall|m: int| 0 <= m < bnd implies !stop_at(s, m) by {
        if m == 0 || m == sl + 1 {
            assert(s[m] == ' ');
        } else if m - 1 == dp {
            assert(s[m] == '.');
            assert(forall|j: int| 0 <= j < m ==> s[j] != '.');
            assert(!dot_before(s, m));
        } else {
            assert(is_digit_char(s[m]));
        }
    }
    let t3 = render_third_v(v.third);
    assert(t3.len() > 0);
    assert(s[bnd] == t3[0]);
    if v.third.has_dot && dp < sl {
        // a second dot stops the scan exactly at the cutter's dot
        assert(s[bnd] == '.');
        assert(0 <= dp + 1 < bnd && s[dp + 1] == '.');
        assert(dot_before(s, bnd));
        assert(stop_at(s, bnd));
        lemma_first_stop_from_is(s, 0, bnd);
        assert(!is_upper_char('.'));
        assert(second_end(s) == bnd);
    } else if v.third.has_dot {
        // no dot in the class number: the scan passes the cutter's dot and
        // stops at the uppercase letter behind it, stepping back over the dot
        assert(is_upper_char(v.third.body[0]));
        assert(s[bnd] == '.');
        assert(forall|j: int| 0 <= j < bnd ==> s[j] != '.');
        assert(!dot_before(s, bnd));
        assert(!stop_at(s, bnd));
        assert(s[bnd + 1] == t3[1]);
        assert(t3[1] == v.third.body[0]);
        assert(stop_at(s, bnd + 1));
        lemma_first_stop_from_is(s, 0, bnd + 1);
        assert(second_end(s) == bnd);
    } else {
        // the scan stops at the uppercase letter that opens the cutter
        assert(is_upper_char(v.third.body[0]));
        assert(s[bnd] == v.third.body[0]);
        assert(stop_at(s, bnd));
        lemma_first_stop_from_is(s, 0, bnd);
        assert(s[bnd - 1] == ' ');
        assert(second_end(s) == bnd);
    }
    assert(s.take(bnd) =~= seq![' '] + sec + seq![' ']);
    assert(forall|m: int| 0 <= m < sl ==> sec[m] != ' ');
    lemma_remove_spaces_padded(sec);
    assert(spec_remove_spaces(s.take(bnd)) == sec);
    assert(canon(sec) == sec);
    assert(s.skip(bnd) =~= rest2(v));
}

proof fn lemma_step_third(v: LCV)
    requires
        wf_lc(v),
    ensures
        spec_parse_third(rest2(v)) == Ok::<(Seq<char>, ThirdV), crate::parse::ErrorV>(
            (rest3(v), v.third),
        ),
{
    assert(rest3(v).len() > 0 ==> rest3(v)[0] == ' ');
    assert(!is_alnum_char(' '));
    lemma_parse_third_ok(rest2(v), 0, v.third, rest3(v));
}

proof fn lemma_step_fourth(v: LCV)
    requires
        wf_lc(v),
        render_reparses(v),
    ensures
        match v.fourth {
            Some(t) => spec_parse_third(rest3(v)) == Ok::<
                (Seq<char>, ThirdV),
                crate::parse::ErrorV,
            >((rest4(v), t)),
            None => spec_parse_third(rest3(v)) is Err,
        },
{
    let s = rest3(v);
    match v.fourth {
        Some(t) => {
            assert(rest4(v).len() > 0 ==> rest4(v)[0] == ' ');
            assert(!is_alnum_char(' '));
            assert(s =~= seq![' '] + render_third_v(t) + rest4(v));
            lemma_parse_third_ok(s, 1, t, rest4(v));
        },
        None => {
            match v.year {
                Some(y) => {
                    lemma_year_digits_facts(y.year);
                    assert(s[0] == ' ');
                    assert(s[1] == year_digits(y.year)[0]);
                    assert(is_digit_char(s[1]));
                    lemma_skip_spaces_from_is(s, 0, 1);
                    assert(s[1] != '.');
                    assert(!is_alpha_char(s[1]));
                },
                None => {
                    match v.note {
                        Some(t) => {
                            lemma_spec_trim(t);
                            assert(spec_trim(t) == t);
                            assert(!is_ws_char(t[0]));
                            assert(s =~= seq![' '] + t);
                            lemma_parse_third_shift(t);
                        },
                        None => {
                            assert(s.len() == 0);
                            assert(skip_spaces_from(s, 0) == 0);
                            assert(alnum_end_from(s, 0) == 0);
                        },
                    }
                },
            }
        },
    }
}

proof fn lemma_step_year(v: LCV)
    requires
        wf_lc(v),
        render_reparses(v),
    ensures
        match v.year {
            Some(y) => spec_parse_year(rest4(v)) == Ok::<(Seq<char>, Year), crate::parse::ErrorV>(
                (rest5(v), y),
            ),
            None => spec_parse_year(rest4(v)) is Err,
        },
{
    let s = rest4(v);
    match v.year {
        Some(y) => {
            lemma_year_digits_facts(y.year);
            let ds = year_digits(y.year);
            assert(s[0] == ' ');
            assert(s[1] == ds[0] && s[2] == ds[1] && s[3] == ds[2] && s[4] == ds[3]);
            assert(s[1] != ' ');
            lemma_skip_spaces_from_is(s, 0, 1);
            assert(digit_val(s[1]) * 1000 + digit_val(s[2]) * 100 + digit_val(s[3]) * 10
                + digit_val(s[4]) == y.year);
            match y.suffix {
                Some(c) => {
                    assert(s[5] == c);
                    assert(is_alpha_char(c));
                    assert(s.skip(6) =~= rest5(v));
                    assert(spec_parse_year(s)->Ok_0.1 == y);
                },
                None => {
                    match v.note {
                        Some(t) => {
                            assert(s[5] == ' ');
                            assert(!is_alpha_char(' '));
                        },
                        None => {
                            assert(s.len() == 5);
                        },
                    }
                    assert(s.skip(5) =~= rest5(v));
                    assert(spec_parse_year(s)->Ok_0.1 == y);
                },
            }
        },
        None => {
            match v.note {
                Some(t) => {
                    lemma_spec_trim(t);
                    assert(spec_trim(t) == t);
                    assert(!is_ws_char(t[0]));
                    assert(s =~= seq![' '] + t);
                    lemma_parse_year_shift(t);
                },
                None => {
                    assert(s.len() == 0);
                    assert(skip_spaces_from(s, 0) == 0);
                },
            }
        },
    }
}

proof fn lemma_step_note(v: LCV)
    requires
        wf_lc(v),
    ensures
        match v.note {
            Some(t) => spec_parse_note(rest5(v)) == Ok::<(Seq<char>, Seq<char>), crate::parse::ErrorV>(
                (Seq::<char>::empty(), t),
            ),
            None => spec_parse_note(rest5(v)) is Err,
        },
{
    let s = rest5(v);
    match v.note {
        Some(t) => {
            lemma_spec_trim(t);
            assert(spec_trim(t) == t);
            let tl = t.len() as int;
            assert(s =~= seq![' '] + t);
            assert(!is_ws_char(t[0]));
            assert(s[1] == t[0]);
            lemma_first_non_ws_from_is(s, 0, 1);
            assert(s[tl] == t[tl - 1]);
            assert(t[tl - 1] == t.last());
            assert(!is_ws_char(s[tl]));
            lemma_trim_end_idx_is(s, tl + 1);
            assert(spec_trim(s) =~= t);
        },
        None => {
            assert(s.len() == 0);
            assert(first_non_ws_from(s, 0) == 0);
            assert(trim_end_idx(s) == 0);
            assert(spec_trim(s).len() == 0);
        },
    }
}

/// Idempotence of rendering: a well-formed record whose rendering the
/// grammar can read back ([`render_reparses`]) parses, from its canonical
/// text, back to exactly itself — no failure, nothing left over, every field
/// equal. Since every successfully parsed record is well formed, parsing a
/// parsed record's rendering gives the record again.
#[verifier::rlimit(60)]
pub proof fn lemma_render_parse_round_trip(v: LCV)
    requires
        wf_lc(v),
        render_reparses(v),
    ensures
        spec_parse_lc(spec_render(v)) == Ok::<(Seq<char>, LCV), crate::parse::ErrorV>(
            (Seq::<char>::empty(), v),
        ),
{
    lemma_step_genre(v);
    lemma_step_second(v);
    lemma_step_third(v);
    lemma_step_fourth(v);
    lemma_step_year(v);
    lemma_step_note(v);
    if v.fourth is None {
        assert(rest3(v) =~= rest4(v));
    }
    if v.year is None {
        assert(rest4(v) =~= rest5(v));
    }
    if v.note is None {
        assert(rest5(v) =~= Seq::<char>::empty());
        assert(first_non_ws_from(Seq::<char>::empty(), 0) == 0);
        assert(trim_end_idx(Seq::<char>::empty()) == 0);
    }
    assert(spec_trim(Seq::<char>::empty()).len() == 0);
    let r = spec_parse_lc(spec_render(v));
    assert(r is Ok);
    assert(r->Ok_0.0 =~= Seq::<char>::empty());
    assert(r->Ok_0.1 =~= v);
}

} // verus!

