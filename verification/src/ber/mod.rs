//! BER-TLV data objects: tags of one to three bytes, short and long length
//! fields, and values that are either raw bytes or nested data objects.

pub mod iso7816_tag;
pub mod laws;
pub mod length;
pub mod model;
pub mod tag;
pub mod tlv;
pub mod value;

pub use iso7816_tag::{Class, Tag};

use vstd::prelude::*;

verus! {

/// BER-TLV data object with the tags of ISO/IEC 7816-4.
pub type Tlv = tlv::Tlv<Tag>;

/// Value of a BER-TLV data object with the tags of ISO/IEC 7816-4.
pub type Value = value::Value<Tag>;

} // verus!
