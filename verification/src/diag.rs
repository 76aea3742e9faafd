//! The boundary-stable handle for one parse diagnostic: its byte range and
//! its human-readable message, both passed through from the external parser
//! unmodified.

use vstd::prelude::*;
use crate::text_range::TextRange;
use ra_ap_syntax::SyntaxError;

verus! {

#[verifier::external_type_specification]
#[verifier::external_body]
pub struct ExSyntaxError(SyntaxError);

/// The diagnostic's message, as the external `SyntaxError`'s `Display`
/// prints it.
pub uninterp spec fn msg_of(d: SyntaxError) -> Seq<char>;

/// The start of the diagnostic's byte range, from the external `range`.
pub uninterp spec fn err_start_of(d: SyntaxError) -> u32;

/// The end of the diagnostic's byte range, from the external `range`.
pub uninterp spec fn err_end_of(d: SyntaxError) -> u32;

/// The diagnostic `d` matches the model `m`: same message and range.
pub open spec fn diag_matches(m: (Seq<char>, u32, u32), d: SyntaxError) -> bool {
    &&& msg_of(d) == m.0
    &&& err_start_of(d) == m.1
    &&& err_end_of(d) == m.2
}

/// Relies on the external `SyntaxError::range`, whose `TextRange` type
/// keeps `start <= end` by construction.
#[verifier::external_body]
fn err_range(d: &SyntaxError) -> (r: (u32, u32))
    ensures
        r.0 == err_start_of(*d),
        r.1 == err_end_of(*d),
        r.0 <= r.1,
{
    let tr = d.range();
    (tr.start().into(), tr.end().into())
}

/// Relies on the external `SyntaxError`'s `Display`: it prints the stored
/// message and nothing else.
#[verifier::external_body]
fn err_message(d: &SyntaxError) -> (r: String)
    ensures
        r@ == msg_of(*d),
{
    d.to_string()
}

/// Relies on the external `SyntaxError`'s derived `Clone`: the copy is the
/// same value as the original.
pub assume_specification[ <SyntaxError as Clone>::clone ](d: &SyntaxError) -> (r: SyntaxError)
    ensures
        r == *d,
;

/// The projection of one parse diagnostic.
pub struct SynErr {
    pub err: SyntaxError,
}

impl SynErr {
    pub fn new(err: &SyntaxError) -> (r: Self)
        ensures
            r.err == *err,
    {
        Self { err: err.clone() }
    }

    /// The diagnostic's half-open byte range; its start never exceeds its
    /// end.
    pub fn range(&self) -> (r: TextRange)
        ensures
            r.start == err_start_of(self.err),
            r.end == err_end_of(self.err),
            r.start <= r.end,
    {
        let p = err_range(&self.err);
        TextRange { start: p.0, end: p.1 }
    }

    /// The diagnostic's message, exactly as the external parser worded it.
    pub fn to_string(&self) -> (r: String)
        ensures
            r@ == msg_of(self.err),
    {
        err_message(&self.err)
    }
}

} // verus!
