//! The values that fallible operations yield, as mathematical results.

use vstd::prelude::*;

verus! {

/// What an operation yields: octets, or the text of its error.
pub open spec fn octets_outcome(r: Result<Vec<u8>, String>) -> Result<Seq<u8>, Seq<char>> {
    match r {
        Ok(octets) => Ok(octets@),
        Err(message) => Err(message@),
    }
}

/// What an operation yields: a text, or the text of its error.
pub open spec fn text_outcome(r: Result<String, String>) -> Result<Seq<char>, Seq<char>> {
    match r {
        Ok(text) => Ok(text@),
        Err(message) => Err(message@),
    }
}

} // verus!
