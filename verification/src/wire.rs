//! The two-mode wire encoding. A data format either is human-readable, and
//! then carries an address as its text, or is not, and then carries the six
//! raw bytes. Reading accepts whichever of the two the source presents,
//! whatever the mode of its format.

use crate::address::MacAddress;
use crate::error::MacAddressErrors;
use crate::text::{format_spec, lemma_parse_format, parse_spec};
use vstd::prelude::*;

verus! {

/// The two primitive forms in which a data format can carry an address.
#[derive(Clone, Copy, Debug, PartialEq, Eq, Structural)]
pub enum Form {
    /// A string.
    Str,
    /// A run of bytes, with no length in front.
    Bytes,
}

/// An address as a data format carries it, or whatever a source presents in
/// the place of one.
#[derive(Clone, Debug, PartialEq, Eq)]
pub enum Encoded {
    /// A string.
    Str(String),
    /// A run of bytes.
    Bytes(Vec<u8>),
}

/// What an `Encoded` holds.
pub enum EncodedView {
    Str(Seq<char>),
    Bytes(Seq<u8>),
}

impl View for Encoded {
    type V = EncodedView;

    open spec fn view(&self) -> EncodedView {
        match self {
            Encoded::Str(s) => EncodedView::Str(s@),
            Encoded::Bytes(b) => EncodedView::Bytes(b@),
        }
    }
}

/// Why what a source presented is not an address.
#[derive(Clone, Debug, PartialEq, Eq)]
pub enum DeserializeError {
    /// The string is not the text of an address. Holds the text of the parse
    /// error.
    Custom(String),
    /// The run of bytes has not the fixed length of six. Holds the length
    /// that was found.
    InvalidLength(usize),
}

/// What a `DeserializeError` holds.
pub enum DeserializeErrorView {
    Custom(Seq<char>),
    InvalidLength(usize),
}

impl View for DeserializeError {
    type V = DeserializeErrorView;

    open spec fn view(&self) -> DeserializeErrorView {
        match self {
            DeserializeError::Custom(message) => DeserializeErrorView::Custom(message@),
            DeserializeError::InvalidLength(len) => DeserializeErrorView::InvalidLength(*len),
        }
    }
}

/// The form that a format of the given mode carries an address in.
pub open spec fn form_for(human_readable: bool) -> Form {
    if human_readable {
        Form::Str
    } else {
        Form::Bytes
    }
}

/// What the six bytes are written as for a format of the given mode.
pub open spec fn serialize_spec(bytes: Seq<u8>, human_readable: bool) -> EncodedView {
    if human_readable {
        EncodedView::Str(format_spec(bytes))
    } else {
        EncodedView::Bytes(bytes)
    }
}

/// What is read from a string: the address it parses to, or the text of the
/// parse error.
pub open spec fn visit_str_spec(value: Seq<char>) -> Result<Seq<u8>, DeserializeErrorView> {
    match parse_spec(value) {
        Ok(bytes) => Ok(bytes),
        Err(e) => Err(DeserializeErrorView::Custom(e.message())),
    }
}

/// What is read from a run of bytes: the bytes themselves if there are six,
/// else their number.
pub open spec fn visit_bytes_spec(v: Seq<u8>) -> Result<Seq<u8>, DeserializeErrorView> {
    if v.len() == 6 {
        Ok(v)
    } else {
        Err(DeserializeErrorView::InvalidLength(v.len() as usize))
    }
}

/// What is read from whatever the source presents.
pub open spec fn deserialize_spec(presented: EncodedView) -> Result<
    Seq<u8>,
    DeserializeErrorView,
> {
    match presented {
        EncodedView::Str(value) => visit_str_spec(value),
        EncodedView::Bytes(v) => visit_bytes_spec(v),
    }
}

/// The result of reading, with the address and the error by their views.
pub open spec fn outcome_view(r: Result<MacAddress, DeserializeError>) -> Result<
    Seq<u8>,
    DeserializeErrorView,
> {
    match r {
        Ok(m) => Ok(m@),
        Err(e) => Err(e@),
    }
}

/// What the reader tells a source that it expects.
pub open spec fn expecting_spec() -> Seq<char> {
    "either a string representation of a MAC address or 6-element byte array"@
}

/// Round trip: what an address is written as, in either mode, reads back as
/// that address.
pub proof fn lemma_deserialize_serialize(bytes: Seq<u8>, human_readable: bool)
    requires
        bytes.len() == 6,
    ensures
        deserialize_spec(serialize_spec(bytes, human_readable)) == Ok::<
            Seq<u8>,
            DeserializeErrorView,
        >(bytes),
{
    lemma_parse_format(bytes);
}

/// A run of bytes of any length but six is refused, with its length.
pub proof fn lemma_deserialize_wrong_length(v: Seq<u8>)
    requires
        v.len() != 6,
    ensures
        deserialize_spec(EncodedView::Bytes(v)) == Err::<Seq<u8>, DeserializeErrorView>(
            DeserializeErrorView::InvalidLength(v.len() as usize),
        ),
{
}

impl MacAddress {
    /// Writes the address for a format of the given mode: as its text for a
    /// human-readable one, as its six bytes for any other.
    pub fn serialize(&self, human_readable: bool) -> (r: Encoded)
        ensures
            r@ == serialize_spec(self@, human_readable),
    {
        if human_readable {
            Encoded::Str(self.to_string())
        } else {
            let bytes: [u8; 6] = self.to_byte_array();
            let mut v: Vec<u8> = Vec::with_capacity(6);
            let mut i: usize = 0;
            while i < 6
                invariant
                    i <= 6,
                    v@ == bytes@.take(i as int),
                decreases 6 - i,
            {
                v.push(bytes[i]);
                assert(v@ =~= bytes@.take(i + 1));
                i += 1;
            }
            assert(v@ =~= self@);
            Encoded::Bytes(v)
        }
    }

    /// The form to ask a source for, by the mode of its format. The source
    /// may still present the other.
    pub fn deserialize_hint(human_readable: bool) -> (r: Form)
        ensures
            r == form_for(human_readable),
    {
        if human_readable {
            Form::Str
        } else {
            Form::Bytes
        }
    }

    /// Reads an address from a string that a source presented.
    pub fn visit_str(value: &str) -> (r: Result<MacAddress, DeserializeError>)
        ensures
            outcome_view(r) == visit_str_spec(value@),
    {
        match <MacAddress as core::str::FromStr>::from_str(value) {
            Ok(m) => Ok(m),
            Err(e) => Err(DeserializeError::Custom(e.to_string())),
        }
    }

    /// Reads an address from a run of bytes that a source presented.
    pub fn visit_bytes(v: &[u8]) -> (r: Result<MacAddress, DeserializeError>)
        ensures
            outcome_view(r) == visit_bytes_spec(v@),
    {
        match MacAddress::from_byte_slice(v) {
            Ok(m) => Ok(m),
            Err(_) => Err(DeserializeError::InvalidLength(v.len())),
        }
    }

    /// What to tell a source that was expected, for its own error messages.
    pub fn expecting() -> (s: String)
        ensures
            s@ == expecting_spec(),
    {
        String::from_str("either a string representation of a MAC address or 6-element byte array")
    }

    /// Reads an address from whatever the source presented, a string or a
    /// run of bytes, whichever form was asked for.
    pub fn deserialize(presented: &Encoded) -> (r: Result<MacAddress, DeserializeError>)
        ensures
            outcome_view(r) == deserialize_spec(presented@),
    {
        match presented {
            Encoded::Str(value) => MacAddress::visit_str(value.as_str()),
            Encoded::Bytes(v) => MacAddress::visit_bytes(v.as_slice()),
        }
    }
}

} // verus!
