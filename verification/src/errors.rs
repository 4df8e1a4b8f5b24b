//! The bridge's own error values for requests it must reject.

use vstd::prelude::*;

verus! {

/// Why an incoming request cannot be transcoded.
#[derive(Clone, Copy, Debug, PartialEq, Eq, Structural)]
pub enum BridgeError {
    /// The request has no string `model` field.
    MissingModel,
    /// A Responses-API request has no `input` array.
    MissingInput,
    /// A Chat-API request has no `messages` array.
    MissingMessages,
}

/// The text of each error.
pub open spec fn error_text_of(e: BridgeError) -> Seq<char> {
    match e {
        BridgeError::MissingModel => "missing `model`"@,
        BridgeError::MissingInput => "missing `input` array"@,
        BridgeError::MissingMessages => "missing `messages` array"@,
    }
}

impl BridgeError {
    /// The error as a line of text.
    pub fn message(&self) -> (r: String)
        ensures
            r@ == error_text_of(*self),
    {
        match self {
            BridgeError::MissingModel => "missing `model`".to_owned(),
            BridgeError::MissingInput => "missing `input` array".to_owned(),
            BridgeError::MissingMessages => "missing `messages` array".to_owned(),
        }
    }
}

} // verus!
