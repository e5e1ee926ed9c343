//! The call-number record and its canonical rendering.
//!
//! An [`LC`] record holds the fields of one Library-of-Congress call number
//! in their fixed order: subject prefix, class number, one or two cutter
//! codes, then an optional year and an optional free-text note. The record is
//! built once by the parser and rendered back in a single normalized form by
//! [`LC::render`].

use vstd::prelude::*;
use vstd::string::StringExecFns;

use crate::decimal::is_canonical;
use crate::text::push_char;
use crate::text::{is_alnum_char, is_alpha_char, spec_trim};

verus! {

/// Top-level subject class: a code of one or two letters, such as `HD`.
#[derive(Debug, PartialEq, Clone)]
pub struct Genre(pub String);

/// Numeric subclass, held as canonical decimal text, such as `1695.55`.
#[derive(Debug, PartialEq, Clone)]
pub struct Second(pub String);

/// Author or subject cutter code, such as `K55`; `has_dot` records whether a
/// dot stood before the body in the source, so the source can be rendered
/// back exactly.
#[derive(Debug, PartialEq, Clone)]
pub struct Third {
    pub has_dot: bool,
    pub body: String,
}

/// Publication year, with the single letter that may follow it directly, as
/// in `1988b`.
#[derive(Debug, PartialEq, Clone, Copy)]
pub struct Year {
    pub year: u16,
    pub suffix: Option<char>,
}

/// Trailing free text, such as a volume or copy annotation; never empty.
#[derive(Debug, PartialEq, Clone)]
pub struct Note(pub String);

/// One complete call number.
#[derive(Debug, PartialEq, Clone)]
pub struct LC {
    pub genre: Genre,
    pub second: Second,
    pub third: Third,
    pub fourth: Option<Third>,
    pub year: Option<Year>,
    pub note: Option<Note>,
}

/// Mathematical value of a cutter code.
#[verifier::ext_equal]
pub struct ThirdV {
    pub has_dot: bool,
    pub body: Seq<char>,
}

/// Mathematical value of a whole record.
#[verifier::ext_equal]
pub struct LCV {
    pub genre: Seq<char>,
    pub second: Seq<char>,
    pub third: ThirdV,
    pub fourth: Option<ThirdV>,
    pub year: Option<Year>,
    pub note: Option<Seq<char>>,
}

impl View for Genre {
    type V = Seq<char>;

    open spec fn view(&self) -> Seq<char> {
        self.0@
    }
}

impl View for Second {
    type V = Seq<char>;

    open spec fn view(&self) -> Seq<char> {
        self.0@
    }
}

impl View for Note {
    type V = Seq<char>;

    open spec fn view(&self) -> Seq<char> {
        self.0@
    }
}

impl View for Third {
    type V = ThirdV;

    open spec fn view(&self) -> ThirdV {
        ThirdV { has_dot: self.has_dot, body: self.body@ }
    }
}

impl View for LC {
    type V = LCV;

    open spec fn view(&self) -> LCV {
        LCV {
            genre: self.genre@,
            second: self.second@,
            third: self.third@,
            fourth: match self.fourth {
                Some(t) => Some(t@),
                None => None,
            },
            year: self.year,
            note: match self.note {
                Some(n) => Some(n@),
                None => None,
            },
        }
    }
}

/// A prefix is one or two letters.
pub open spec fn wf_genre(g: Seq<char>) -> bool {
    1 <= g.len() <= 2 && forall|i: int| 0 <= i < g.len() ==> is_alpha_char(g[i])
}

/// A class number is canonical decimal text.
pub open spec fn wf_second(s: Seq<char>) -> bool {
    is_canonical(s)
}

/// A cutter body is a non-empty run of letters and digits opening with a
/// letter.
pub open spec fn wf_third(t: ThirdV) -> bool {
    &&& t.body.len() >= 1
    &&& is_alpha_char(t.body[0])
    &&& forall|i: int| 0 <= i < t.body.len() ==> is_alnum_char(t.body[i])
}

/// A year was read from exactly four digits; its suffix is a single letter.
pub open spec fn wf_year(y: Year) -> bool {
    &&& y.year <= 9999
    &&& match y.suffix {
        Some(c) => is_alpha_char(c),
        None => true,
    }
}

/// A note is non-empty text with no leading or trailing whitespace.
pub open spec fn wf_note(n: Seq<char>) -> bool {
    n.len() >= 1 && spec_trim(n) == n
}

/// Every field of the record is well formed.
pub open spec fn wf_lc(v: LCV) -> bool {
    &&& wf_genre(v.genre)
    &&& wf_second(v.second)
    &&& wf_third(v.third)
    &&& match v.fourth {
        Some(t) => wf_third(t),
        None => true,
    }
    &&& match v.year {
        Some(y) => wf_year(y),
        None => true,
    }
    &&& match v.note {
        Some(n) => wf_note(n),
        None => true,
    }
}

/// The character for one decimal digit.
pub open spec fn digit_char(d: int) -> char {
    if d == 0 {
        '0'
    } else if d == 1 {
        '1'
    } else if d == 2 {
        '2'
    } else if d == 3 {
        '3'
    } else if d == 4 {
        '4'
    } else if d == 5 {
        '5'
    } else if d == 6 {
        '6'
    } else if d == 7 {
        '7'
    } else if d == 8 {
        '8'
    } else {
        '9'
    }
}

/// A year value as exactly four digits, zero-padded.
pub open spec fn year_digits(y: u16) -> Seq<char> {
    seq![
        digit_char(y as int / 1000 % 10),
        digit_char(y as int / 100 % 10),
        digit_char(y as int / 10 % 10),
        digit_char(y as int % 10),
    ]
}

/// A cutter code as rendered: the dot, where the source had one, then the
/// body.
pub open spec fn render_third_v(t: ThirdV) -> Seq<char> {
    if t.has_dot {
        seq!['.'] + t.body
    } else {
        t.body
    }
}

/// A year as rendered: four digits, then the suffix letter if there is one.
pub open spec fn render_year_v(y: Year) -> Seq<char> {
    year_digits(y.year) + match y.suffix {
        Some(c) => seq![c],
        None => Seq::<char>::empty(),
    }
}

/// The canonical text of a whole record: the fields in their fixed order,
/// one space between any two.
pub open spec fn spec_render(v: LCV) -> Seq<char> {
    v.genre + seq![' '] + v.second + seq![' '] + render_third_v(v.third) + (match v.fourth {
        Some(t) => seq![' '] + render_third_v(t),
        None => Seq::<char>::empty(),
    }) + (match v.year {
        Some(y) => seq![' '] + render_year_v(y),
        None => Seq::<char>::empty(),
    }) + (match v.note {
        Some(n) => seq![' '] + n,
        None => Seq::<char>::empty(),
    })
}

impl Third {
    /// Renders this cutter code alone.
    pub fn render(&self) -> (r: String)
        ensures
            r@ == render_third_v(self@),
    {
        let mut s = String::new();
        if self.has_dot {
            s.append(".");
        }
        s.append(self.body.as_str());
        proof {
            reveal_strlit(".");
            assert(s@ =~= render_third_v(self@));
        }
        s
    }
}

fn digit_to_char(d: u16) -> (c: char)
    requires
        d <= 9,
    ensures
        c == digit_char(d as int),
{
    match d {
        0 => '0',
        1 => '1',
        2 => '2',
        3 => '3',
        4 => '4',
        5 => '5',
        6 => '6',
        7 => '7',
        8 => '8',
        _ => '9',
    }
}

fn push_year(s: &mut String, y: Year)
    requires
        wf_year(y),
    ensures
        final(s)@ == old(s)@ + render_year_v(y),
{
    let v = y.year;
    push_char(s, digit_to_char(v / 1000));
    push_char(s, digit_to_char(v / 100 % 10));
    push_char(s, digit_to_char(v / 10 % 10));
    push_char(s, digit_to_char(v % 10));
    proof {
        assert(v as int / 1000 % 10 == v as int / 1000);
    }
    match y.suffix {
        Some(c) => {
            push_char(s, c);
        },
        None => {},
    }
    proof {
        assert(final(s)@ =~= old(s)@ + render_year_v(y));
    }
}

impl LC {
    /// Renders the whole record in canonical form.
    pub fn render(&self) -> (r: String)
        requires
            wf_lc(self@),
        ensures
            r@ == spec_render(self@),
    {
        let mut s = String::new();
        s.append(self.genre.0.as_str());
        s.append(" ");
        s.append(self.second.0.as_str());
        s.append(" ");
        let t = self.third.render();
        s.append(t.as_str());
        match &self.fourth {
            Some(f) => {
                s.append(" ");
                let ft = f.render();
                s.append(ft.as_str());
            },
            None => {},
        }
        match self.year {
            Some(y) => {
                s.append(" ");
                push_year(&mut s, y);
            },
            None => {},
        }
        match &self.note {
            Some(n) => {
                s.append(" ");
                s.append(n.0.as_str());
            },
            None => {},
        }
        proof {
            reveal_strlit(" ");
            assert(s@ =~= spec_render(self@));
        }
        s
    }
}

} // verus!
