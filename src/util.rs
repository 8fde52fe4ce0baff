//! Helpers for callers that only want to look at each record in turn.

use vstd::prelude::*;
use vstd::utf8::{decode_utf8, valid_utf8};
use crate::grammar::parse_text_spec;
use crate::parser::parse_report;
use crate::record::LCOVRecord;

verus! {

/// Relies on `std::str::from_utf8`: the bytes are decoded exactly when they
/// are valid UTF-8.
#[verifier::external_body]
fn utf8_text(b: &[u8]) -> (r: Option<&str>)
    ensures
        r is Some <==> valid_utf8(b@),
        r is Some ==> r->Some_0@ == decode_utf8(b@),
{
    std::str::from_utf8(b).ok()
}

/// Hands each record of a trace, in order, to `callback`. The trace must be
/// valid UTF-8 and follow the grammar.
pub fn each_records<F>(input: &[u8], callback: F)
    where
        F: Fn(&LCOVRecord),
    requires
        valid_utf8(input@),
        parse_text_spec(decode_utf8(input@)) is Ok,
        forall|r: &LCOVRecord| callback.requires((r,)),
{
    let text = match utf8_text(input) {
        Some(t) => t,
        None => {
            return;
        },
    };
    let records = match parse_report(text) {
        Ok(records) => records,
        Err(_) => {
            return;
        },
    };
    let mut i: usize = 0;
    while i < records.len()
        invariant
            forall|r: &LCOVRecord| callback.requires((r,)),
        decreases records@.len() - i,
    {
        callback(&records[i]);
        i = i + 1;
    }
}

} // verus!
