//! A six-byte hardware (MAC) address: construction, parsing from and formatting
//! to the colon-separated hexadecimal form, and a two-mode wire encoding.

pub mod address;
pub mod decimal;
pub mod error;
pub mod hex;
pub mod text;
pub mod wire;

pub use address::{MacAddress, MacByteTuple};
pub use error::MacAddressErrors;
pub use wire::{DeserializeError, Encoded, Form};
