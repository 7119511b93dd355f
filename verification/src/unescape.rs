//! Decoding of HTML-entity-escaped text. The decoding itself is done by an
//! outside crate; its result is given a name that the aggregation contracts
//! speak of.

use vstd::prelude::*;

verus! {

/// The text with its HTML entity references decoded. What the decoding does
/// in detail is the outside crate's business; the pipeline only needs that it
/// is a function of the text alone.
pub uninterp spec fn decoded_of(s: Seq<char>) -> Seq<char>;

/// Relies on html_escape::decode_html_entities: decodes the HTML entity
/// references of the text, a function of the text alone; text without any
/// reference, the empty string among it, comes back unchanged.
#[verifier::external_body]
pub(crate) fn decode_entities(s: &str) -> (r: String)
    ensures
        r@ == decoded_of(s@),
        s@.len() == 0 ==> r@.len() == 0,
{
    html_escape::decode_html_entities(s).into_owned()
}

} // verus!
