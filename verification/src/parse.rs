//! Failure values.
//!
//! A failed parse yields an [`Error`]: the fatal positioned failure — the
//! unconsumed text where matching stopped, and what went wrong there — along
//! with the failures of optional fields that were absorbed on the way,
//! innermost first, kept for diagnostics.

use vstd::prelude::*;

verus! {

/// What went wrong at one point of the input.
#[derive(Debug, PartialEq, Eq, Structural, Clone, Copy)]
pub enum Kind {
    /// The input ended before a mandatory field could be read.
    UnexpectedEnd,
    /// A required character class was not matched.
    UnexpectedCharacter,
    /// The class-number text does not denote one decimal number.
    MalformedNumber,
    /// Something besides whitespace remained after every field was attempted.
    TrailingContent,
}

/// One positioned failure that was absorbed while an optional field was
/// attempted: the unconsumed text at that point, and what went wrong.
#[derive(Debug, PartialEq, Clone)]
pub struct Cause {
    pub at: String,
    pub kind: Kind,
}

/// Mathematical value of a positioned failure.
#[verifier::ext_equal]
pub struct CauseV {
    pub at: Seq<char>,
    pub kind: Kind,
}

/// A parse failure: the fatal positioned failure, and the ordered absorbed
/// failures that preceded it.
#[derive(Debug, PartialEq, Clone)]
pub struct Error {
    pub at: String,
    pub kind: Kind,
    pub causes: Vec<Cause>,
}

/// Mathematical value of a parse failure.
#[verifier::ext_equal]
pub struct ErrorV {
    pub at: Seq<char>,
    pub kind: Kind,
    pub causes: Seq<CauseV>,
}

impl View for Cause {
    type V = CauseV;

    open spec fn view(&self) -> CauseV {
        CauseV { at: self.at@, kind: self.kind }
    }
}

impl View for Error {
    type V = ErrorV;

    open spec fn view(&self) -> ErrorV {
        ErrorV { at: self.at@, kind: self.kind, causes: self.causes@.map_values(|c: Cause| c@) }
    }
}

/// The positioned part of a failure, as a cause for a later failure's chain.
pub open spec fn causev_of(e: ErrorV) -> CauseV {
    CauseV { at: e.at, kind: e.kind }
}

impl Error {
    /// A single positioned failure, with no absorbed attempts.
    pub fn new(at: String, kind: Kind) -> (e: Error)
        ensures
            e@ == (ErrorV { at: at@, kind, causes: Seq::<CauseV>::empty() }),
    {
        let e = Error { at, kind, causes: Vec::new() };
        proof {
            assert(e@.causes =~= Seq::<CauseV>::empty());
            assert(e@ =~= ErrorV { at: e.at@, kind, causes: Seq::<CauseV>::empty() });
        }
        e
    }

    /// This failure, reduced to its positioned part.
    pub fn into_cause(self) -> (c: Cause)
        ensures
            c@ == causev_of(self@),
    {
        Cause { at: self.at, kind: self.kind }
    }
}

} // verus!
