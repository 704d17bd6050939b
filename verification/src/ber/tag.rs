//! What a type must offer to serve as the tag of BER-TLV data objects.

use vstd::prelude::*;
use untrusted::Reader;
use crate::error::TlvError;
use crate::reader::unread;

verus! {

/// Whether reading a tag of type `T` from `bytes` followed by anything
/// gives `bytes` and `constructed` and leaves what followed, and `bytes`
/// is not empty. This is what makes a tag one that decoding gives back.
pub open spec fn reads_back<T: Tag>(bytes: Seq<u8>, constructed: bool) -> bool {
    &&& bytes.len() >= 1
    &&& forall|rest: Seq<u8>| #[trigger]
        T::spec_read(bytes + rest) == (
            Ok::<(Seq<u8>, bool), TlvError>((bytes, constructed)),
            rest,
        )
}

/// A tag of BER-TLV data objects.
///
/// The data objects are generic over this trait, so that a deployment can
/// wrap the tag of ISO/IEC 7816-4 and decide for itself which tags carry a
/// constructed value, without touching the bytes of the tag.
///
/// The three specification functions say what the tag is to proofs. Their
/// default bodies describe a type whose reading always fails: a type that
/// keeps them can stand in for a tag in compiled code, but nothing that is
/// proved here then speaks of what it does.
pub trait Tag: Sized + PartialEq {
    /// The bytes of the tag on the wire.
    open spec fn spec_bytes(&self) -> Seq<u8> {
        Seq::empty()
    }

    /// Whether a data object with this tag holds nested data objects.
    open spec fn spec_is_constructed(&self) -> bool {
        false
    }

    /// What reading a tag from `input` gives, as the tag's bytes and its
    /// constructed flag, and the bytes left after the attempt.
    open spec fn spec_read(input: Seq<u8>) -> (Result<(Seq<u8>, bool), TlvError>, Seq<u8>) {
        (Err(TlvError::InvalidInput), input)
    }

    /// Serializes the tag as a byte slice.
    fn to_bytes(&self) -> (b: &[u8])
        ensures
            b@ == self.spec_bytes(),
    ;

    /// Length of the tag in bytes.
    fn len_as_bytes(&self) -> (n: usize)
        ensures
            n == self.spec_bytes().len(),
    ;

    /// Whether the tag announces a constructed value.
    fn is_constructed(&self) -> (c: bool)
        ensures
            c == self.spec_is_constructed(),
    ;

    /// Reads a tag from the reader. The tag that comes out is made of the
    /// bytes that were consumed, and would be read back from them.
    fn read(r: &mut Reader) -> (res: Result<Self, TlvError>)
        ensures
            unread(*final(r)) == Self::spec_read(unread(*old(r))).1,
            match Self::spec_read(unread(*old(r))).0 {
                Ok(t) => {
                    &&& res matches Ok(tag) && tag.spec_bytes() == t.0 && tag.spec_is_constructed()
                        == t.1
                    &&& t.0.len() >= 1
                    &&& forall|rest: Seq<u8>| #[trigger]
                        Self::spec_read(t.0 + rest) == (
                            Ok::<(Seq<u8>, bool), TlvError>((t.0, t.1)),
                            rest,
                        )
                    &&& unread(*old(r)) == t.0 + unread(*final(r))
                },
                Err(e) => res matches Err(err) && err == e,
            },
    ;
}

} // verus!
