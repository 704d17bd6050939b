//! The byte cursor that decoding runs on: `untrusted::Reader`, with what its
//! methods do stated over the bytes that it has not handed out yet.

use vstd::prelude::*;
use untrusted::{EndOfInput, Input, Reader};

verus! {

/// The cursor type of the `untrusted` crate. Its position and buffer are
/// not visible to proofs; [`unread`] names what is left in it.
#[verifier::external_type_specification]
#[verifier::external_body]
pub struct ExReader<'a>(Reader<'a>);

/// The bytes that a reader has not handed out yet, in order.
pub uninterp spec fn unread(r: Reader) -> Seq<u8>;

/// `Reader::new` on `Input::from`: a reader positioned at the start of
/// `input`, so that all of `input` is unread.
#[verifier::external_body]
pub(crate) fn reader_new<'a>(input: &'a [u8]) -> (r: Reader<'a>)
    ensures
        unread(r) == input@,
{
    Reader::new(Input::from(input))
}

/// `Reader::at_end`: whether no byte is left.
#[verifier::external_body]
pub(crate) fn at_end(r: &Reader) -> (b: bool)
    ensures
        b == (unread(*r).len() == 0),
{
    r.at_end()
}

/// `Reader::read_byte`: hands out the first unread byte and steps over it;
/// with nothing left it fails and the reader stays as it was. The reader
/// runs over a slice, so what is unread has a length that fits in `usize`.
#[verifier::external_body]
pub(crate) fn read_byte(r: &mut Reader) -> (res: Result<u8, EndOfInput>)
    ensures
        unread(*old(r)).len() <= usize::MAX,
        match res {
            Ok(b) => unread(*old(r)).len() > 0 && b == unread(*old(r))[0] && unread(*final(r))
                == unread(*old(r)).skip(1),
            Err(_) => unread(*old(r)).len() == 0 && unread(*final(r)) == unread(*old(r)),
        },
{
    r.read_byte()
}

/// `Reader::read_bytes`, copied out of the `Input` it returns: hands out
/// the first `n` unread bytes and steps over them; with fewer than `n`
/// left it fails and the reader stays as it was.
#[verifier::external_body]
pub(crate) fn read_bytes(r: &mut Reader, n: usize) -> (res: Result<Vec<u8>, EndOfInput>)
    ensures
        match res {
            Ok(v) => n <= unread(*old(r)).len() && v@ == unread(*old(r)).take(n as int) && unread(
                *final(r),
            ) == unread(*old(r)).skip(n as int),
            Err(_) => n > unread(*old(r)).len() && unread(*final(r)) == unread(*old(r)),
        },
{
    match r.read_bytes(n) {
        Ok(bytes) => Ok(bytes.as_slice_less_safe().to_vec()),
        Err(e) => Err(e),
    }
}

/// `Reader::read_bytes_to_end`, as the slice behind the `Input` it
/// returns: hands out every unread byte and leaves none.
#[verifier::external_body]
pub(crate) fn read_to_end<'a>(r: &mut Reader<'a>) -> (rest: &'a [u8])
    ensures
        rest@ == unread(*old(r)),
        unread(*final(r)).len() == 0,
{
    r.read_bytes_to_end().as_slice_less_safe()
}

} // verus!
