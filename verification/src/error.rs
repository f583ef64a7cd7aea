//! What can be wrong with the text or the bytes of an address.

use crate::decimal::{decimal_digits, decimal_string};
use vstd::prelude::*;

verus! {

/// Why a text or a run of bytes is not an address.
#[derive(Clone, Copy, Debug, PartialEq, Eq, Structural)]
pub enum MacAddressErrors {
    /// The number of components, or of bytes, is not six. Holds the number
    /// that was found.
    InvalidLength(usize),
    /// A component is not the text of a byte in hexadecimal.
    InvalidComponent,
}

impl MacAddressErrors {
    /// The text of the error.
    pub open spec fn message(self) -> Seq<char> {
        match self {
            MacAddressErrors::InvalidLength(n) => "Expected 6 components but found "@
                + decimal_digits(n as nat),
            MacAddressErrors::InvalidComponent => "Invalid component in a MAC address string"@,
        }
    }

    /// Renders the error as text.
    pub fn to_string(&self) -> (s: String)
        ensures
            s@ == self.message(),
    {
        match self {
            MacAddressErrors::InvalidLength(n) => {
                let mut s: String = String::from_str("Expected 6 components but found ");
                let count: String = decimal_string(*n);
                s.append(count.as_str());
                s
            },
            MacAddressErrors::InvalidComponent => String::from_str(
                "Invalid component in a MAC address string",
            ),
        }
    }
}

} // verus!
