//! Tools for handling TLV data objects as defined in ISO/IEC 7816-4:
//! BER-TLV (nested, variable-length tags and lengths) and SIMPLE-TLV.
//!
//! Every executable function is verified against a mathematical model of
//! the wire format: byte sequences, and trees of tags and values.

pub mod ber;
pub mod error;
pub mod hex;
pub mod reader;
pub mod simple;

pub use error::TlvError;
pub use untrusted::Reader;
