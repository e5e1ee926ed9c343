//! The record assembler.
//!
//! Runs the field recognizers in their fixed order: prefix, class number and
//! first cutter are mandatory — their failures abort the parse — while the
//! second cutter, the year and the note are optional: their failures are
//! absorbed, the field is recorded as absent, and the absorbed failure is
//! kept as a cause in case a later failure ends the parse. After every field
//! has been attempted, anything besides whitespace still unconsumed is a
//! trailing-content failure carrying the absorbed causes.

use vstd::prelude::*;
use vstd::string::StringExecFns;

use crate::fields::{spec_parse_genre, spec_parse_note, spec_parse_second, spec_parse_third,
    spec_parse_year};
use crate::parse::{causev_of, Cause, CauseV, Error, ErrorV, Kind};
use crate::record::{wf_lc, Genre, Note, Second, Third, ThirdV, Year, LC, LCV};
use crate::text::{spec_trim, trim};

verus! {

/// The whole-record recognizer, composed of the five field recognizers.
pub open spec fn spec_parse_lc(s: Seq<char>) -> Result<(Seq<char>, LCV), ErrorV> {
    match spec_parse_genre(s) {
        Err(e) => Err(e),
        Ok((s1, genre)) => match spec_parse_second(s1) {
            Err(e) => Err(e),
            Ok((s2, second)) => match spec_parse_third(s2) {
                Err(e) => Err(e),
                Ok((s3, third)) => {
                    let (s4, fourth, c4) = match spec_parse_third(s3) {
                        Ok((r, t)) => (r, Some(t), Seq::<CauseV>::empty()),
                        Err(e) => (s3, None, seq![causev_of(e)]),
                    };
                    let (s5, year, c5) = match spec_parse_year(s4) {
                        Ok((r, y)) => (r, Some(y), Seq::<CauseV>::empty()),
                        Err(e) => (s4, None, seq![causev_of(e)]),
                    };
                    let (s6, note, c6) = match spec_parse_note(s5) {
                        Ok((r, t)) => (r, Some(t), Seq::<CauseV>::empty()),
                        Err(e) => (s5, None, seq![causev_of(e)]),
                    };
                    let causes = c4 + c5 + c6;
                    if spec_trim(s6).len() > 0 {
                        Err(ErrorV { at: s6, kind: Kind::TrailingContent, causes })
                    } else {
                        Ok((s6, LCV { genre, second, third, fourth, year, note }))
                    }
                },
            },
        },
    }
}

impl LC {
    /// Parses one line as a complete call number.
    pub fn parse_lc<'a>(i: &'a str) -> (r: Result<(&'a str, LC), Error>)
        ensures
            match spec_parse_lc(i@) {
                Ok((srest, sv)) => r matches Ok(p) && p.0@ == srest && p.1@ == sv && wf_lc(sv),
                Err(ev) => r matches Err(e) && e@ == ev,
            },
    {
        let (i1, genre) = match Genre::parse_genre(i) {
            Ok(p) => p,
            Err(e) => {
                return Err(e);
            },
        };
        let (i2, second) = match Second::parse_second(i1) {
            Ok(p) => p,
            Err(e) => {
                return Err(e);
            },
        };
        let (i3, third) = match Third::parse_third(i2) {
            Ok(p) => p,
            Err(e) => {
                return Err(e);
            },
        };
        let mut causes: Vec<Cause> = Vec::new();
        let (i4, fourth) = match Third::parse_third(i3) {
            Ok((r, t)) => (r, Some(t)),
            Err(e) => {
                causes.push(e.into_cause());
                (i3, None)
            },
        };
        let (i5, year) = match Year::parse_year(i4) {
            Ok((r, y)) => (r, Some(y)),
            Err(e) => {
                causes.push(e.into_cause());
                (i4, None)
            },
        };
        let (i6, note) = match Note::parse_note(i5) {
            Ok((r, t)) => (r, Some(t)),
            Err(e) => {
                causes.push(e.into_cause());
                (i5, None)
            },
        };
        let t6 = trim(i6);
        if !t6.is_empty() {
            let e = Error { at: String::from_str(i6), kind: Kind::TrailingContent, causes };
            proof {
                assert(e@ =~= spec_parse_lc(i@)->Err_0);
            }
            return Err(e);
        }
        let lc = LC { genre, second, third, fourth, year, note };
        proof {
            assert(lc@ =~= spec_parse_lc(i@)->Ok_0.1);
        }
        Ok((i6, lc))
    }

    /// Parses one catalog cell. A cell that holds nothing but whitespace
    /// carries no call number — that is no failure — and yields `Ok(None)`;
    /// anything else is parsed as a call number.
    pub fn maybe_parse<'a>(i: &'a str) -> (r: Result<Option<LC>, Error>)
        ensures
            spec_trim(i@).len() == 0 ==> (r matches Ok(o) && o is None),
            spec_trim(i@).len() > 0 ==> match spec_parse_lc(i@) {
                Ok((srest, sv)) => r matches Ok(o) && o matches Some(lc) && lc@ == sv && wf_lc(
                    sv,
                ),
                Err(ev) => r matches Err(e) && e@ == ev,
            },
    {
        let t = trim(i);
        if t.is_empty() {
            Ok(None)
        } else {
            match LC::parse_lc(i) {
                Ok((_, lc)) => Ok(Some(lc)),
                Err(e) => Err(e),
            }
        }
    }
}

} // verus!
