//! What holds between serializing and decoding.

use vstd::prelude::*;
use crate::ber::iso7816_tag::{
    constructed_bit, last_tag_byte, spec_read_tag, spec_tag_from_int,
};
use crate::ber::length::{be_value, lemma_read_len_field, len_field, MAX_LENGTH};
use crate::ber::model::{
    concat_bytes, spec_decode, spec_decode_children, spec_decode_exact, TlvView, ValueView,
};
use crate::ber::tag::Tag;
use crate::ber::tlv::{clone_keeps_tag, Tlv};
use crate::error::TlvError;

verus! {

/// The serialized children are the first child's bytes followed by those
/// of the others.
pub proof fn lemma_concat_front(c: Seq<TlvView>)
    requires
        c.len() > 0,
    ensures
        concat_bytes(c) == c[0].bytes() + concat_bytes(c.skip(1)),
    decreases c.len(),
{
    if c.len() == 1 {
        assert(c.drop_last() =~= Seq::<TlvView>::empty());
        assert(c.skip(1) =~= Seq::<TlvView>::empty());
        assert(concat_bytes(c) =~= c[0].bytes() + concat_bytes(c.skip(1)));
    } else {
        lemma_concat_front(c.drop_last());
        assert(c.skip(1).drop_last() =~= c.drop_last().skip(1));
        assert(c.skip(1).last() == c.last());
        assert(concat_bytes(c) =~= c[0].bytes() + concat_bytes(c.skip(1)));
    }
}

/// Decoding the serialized form of a well-formed data object, followed by
/// any bytes, gives the data object back and leaves exactly those bytes.
/// The value must not be longer than a length field can say.
pub proof fn lemma_decode_encoded<T: Tag>(v: TlvView, rest: Seq<u8>)
    requires
        v.wf::<T>(),
        v.value.bytes().len() <= MAX_LENGTH,
    ensures
        spec_decode::<T>(v.bytes() + rest) == (Ok::<TlvView, TlvError>(v), rest),
    decreases v.bytes().len(), 0nat,
{
    let body = v.value.bytes();
    let field = len_field(body.len());
    let input = v.bytes() + rest;
    let after_tag = field + (body + rest);
    let after_len = body + rest;
    assert(input =~= v.tag + after_tag);
    assert(T::spec_read(v.tag + after_tag) == (
        Ok::<(Seq<u8>, bool), TlvError>((v.tag, v.constructed)),
        after_tag,
    ));
    lemma_read_len_field(body.len(), after_len);
    match v.value {
        ValueView::Primitive(b) => {
            assert(after_len.take(body.len() as int) =~= b);
            assert(after_len.skip(body.len() as int) =~= rest);
        },
        ValueView::Constructed(c) => {
            lemma_decode_encoded_children::<T>(c, rest);
        },
    }
}

/// Decoding the children of a constructed value from their serialized
/// forms, with their total length owed, gives the children back in order
/// and leaves what follows them.
pub proof fn lemma_decode_encoded_children<T: Tag>(c: Seq<TlvView>, rest: Seq<u8>)
    requires
        forall|i: int| 0 <= i < c.len() ==> (#[trigger] c[i]).wf::<T>(),
        concat_bytes(c).len() <= MAX_LENGTH,
    ensures
        spec_decode_children::<T>(concat_bytes(c) + rest, concat_bytes(c).len()) == (
            Ok::<Seq<TlvView>, TlvError>(c),
            rest,
        ),
    decreases concat_bytes(c).len(), 1nat,
{
    if c.len() == 0 {
        assert(concat_bytes(c) + rest =~= rest);
        assert(c =~= Seq::<TlvView>::empty());
    } else {
        let first = c[0];
        let tail = c.skip(1);
        lemma_concat_front(c);
        let input = concat_bytes(c) + rest;
        let after = concat_bytes(tail) + rest;
        assert(input =~= first.bytes() + after);
        assert(first.wf::<T>());
        assert(len_field(first.value.bytes().len()).len() >= 1);
        lemma_decode_encoded::<T>(first, after);
        assert forall|i: int| 0 <= i < tail.len() implies (#[trigger] tail[i]).wf::<T>() by {
            assert(tail[i] == c[i + 1]);
        }
        lemma_decode_encoded_children::<T>(tail, rest);
        assert(seq![first] + tail =~= c);
    }
}

/// Round trip: a well-formed data object whose value is not longer than a
/// length field can say is decoded from its own serialized form, with
/// nothing left over.
pub proof fn lemma_round_trip<T: Tag>(v: TlvView)
    requires
        v.wf::<T>(),
        v.value.bytes().len() <= MAX_LENGTH,
    ensures
        spec_decode_exact::<T>(v.bytes()) == Ok::<TlvView, TlvError>(v),
        spec_decode::<T>(v.bytes()) == (Ok::<TlvView, TlvError>(v), Seq::<u8>::empty()),
{
    lemma_decode_encoded::<T>(v, Seq::empty());
    assert(v.bytes() + Seq::<u8>::empty() =~= v.bytes());
}

/// Round trip, for a data object in hand: parsing what `to_vec` returns
/// gives a data object with the same tag and value at every level.
pub proof fn lemma_round_trip_tlv<T: Tag>(tlv: Tlv<T>)
    requires
        tlv.wf(),
        tlv@.value.bytes().len() <= MAX_LENGTH,
    ensures
        spec_decode_exact::<T>(tlv@.bytes()) == Ok::<TlvView, TlvError>(tlv@),
{
    lemma_round_trip::<T>(tlv@);
}

/// Tags and integers: an integer that needs four bytes or more is
/// reserved for future use; the bytes of a tag made from an integer spell
/// that integer, and reading them gives the same tag back and leaves what
/// follows.
pub proof fn lemma_tag_from_int(v: nat, rest: Seq<u8>)
    ensures
        v > 0xFF_FFFF ==> spec_tag_from_int(v) == Err::<Seq<u8>, TlvError>(TlvError::TagIsRFU),
        spec_tag_from_int(v) matches Ok(b) ==> {
            &&& 1 <= b.len() <= 3
            &&& be_value(b) == v
            &&& spec_read_tag(b + rest) == (
                Ok::<(Seq<u8>, bool), TlvError>((b, constructed_bit(b[0]))),
                rest,
            )
        },
{
    if let Ok(b) = spec_tag_from_int(v) {
        let input = b + rest;
        reveal_with_fuel(be_value, 4);
        reveal_with_fuel(last_tag_byte, 3);
        assert(input.take(b.len() as int) =~= b);
        assert(input.skip(b.len() as int) =~= rest);
        assert(forall|i: int| 0 <= i < b.len() ==> input[i] == b[i]);
        if b.len() == 2 {
            assert(b.drop_last() =~= seq![b[0]]);
        } else if b.len() == 3 {
            assert(b.drop_last() =~= seq![b[0], b[1]]);
            assert(b.drop_last().drop_last() =~= seq![b[0]]);
        }
    }
}

/// A clone of a tag of ISO/IEC 7816-4 is the same tag, so that a copy of
/// a data object with such tags is the same data object.
pub proof fn lemma_clone_keeps_iso_tag()
    ensures
        clone_keeps_tag::<crate::ber::iso7816_tag::Tag>(),
{
}

} // verus!
