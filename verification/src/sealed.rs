//! The sealing trait for parser states.

use vstd::prelude::*;

verus! {

/// Seals the set of parser states: only the states this crate declares
/// can implement [`crate::parser::RequestParserState`], so no caller can
/// introduce a state of their own.
pub trait SealedRequestParserState {

}

} // verus!
