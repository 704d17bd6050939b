//! The mathematical model of BER-TLV data objects: trees of tag bytes and
//! values, the bytes that such a tree is serialized to, and the result of
//! decoding a byte sequence.

use vstd::prelude::*;
use crate::ber::length::{lemma_read_len_field_len, len_field, spec_read_len};
use crate::ber::tag::{reads_back, Tag};
use crate::error::TlvError;

verus! {

/// A data object as contracts see it: the bytes of its tag, whether the
/// tag announces a constructed value, and the value.
pub struct TlvView {
    pub tag: Seq<u8>,
    pub constructed: bool,
    pub value: ValueView,
}

/// A value as contracts see it: raw bytes, or nested data objects in order.
pub enum ValueView {
    Primitive(Seq<u8>),
    Constructed(Seq<TlvView>),
}

/// The serialized data objects of `children`, one after the other.
pub open spec fn concat_bytes(children: Seq<TlvView>) -> Seq<u8>
    decreases children,
{
    if children.len() == 0 {
        Seq::empty()
    } else {
        concat_bytes(children.drop_last()) + children.last().bytes()
    }
}

impl ValueView {
    /// Whether the value holds nested data objects.
    pub open spec fn is_constructed(self) -> bool {
        self is Constructed
    }

    /// The value field on the wire: the raw bytes, or the serialized
    /// children in order.
    pub open spec fn bytes(self) -> Seq<u8>
        decreases self,
    {
        match self {
            ValueView::Primitive(b) => b,
            ValueView::Constructed(c) => concat_bytes(c),
        }
    }
}

impl TlvView {
    /// The data object on the wire: the tag, the length field of the value
    /// field, and the value field.
    pub open spec fn bytes(self) -> Seq<u8>
        decreases self,
    {
        self.tag + len_field(self.value.bytes().len()) + self.value.bytes()
    }

    /// Whether the data object is one that building or decoding with tags
    /// of type `T` can produce: at every level the tag is read back from
    /// its own bytes with its own flag, and the flag says what the value is.
    pub open spec fn wf<T: Tag>(self) -> bool
        decreases self,
    {
        &&& reads_back::<T>(self.tag, self.constructed)
        &&& self.constructed == self.value.is_constructed()
        &&& match self.value {
            ValueView::Primitive(_) => true,
            ValueView::Constructed(c) => forall|i: int|
                0 <= i < c.len() ==> (#[trigger] c[i]).wf::<T>(),
        }
    }
}

/// The children `done`, decoded already, in front of the result `more` of
/// decoding the rest.
pub open spec fn prepend(done: Seq<TlvView>, more: (Result<Seq<TlvView>, TlvError>, Seq<u8>)) -> (
    Result<Seq<TlvView>, TlvError>,
    Seq<u8>,
) {
    match more.0 {
        Ok(m) => (Ok(done + m), more.1),
        Err(e) => (Err(e), more.1),
    }
}

/// The serialized form of the first children is no longer than that of all.
pub proof fn lemma_concat_take(s: Seq<TlvView>, i: int)
    requires
        0 <= i <= s.len(),
    ensures
        concat_bytes(s.take(i)).len() <= concat_bytes(s).len(),
        i < s.len() ==> concat_bytes(s.take(i)).len() + s[i].bytes().len() <= concat_bytes(s).len(),
        i < s.len() ==> concat_bytes(s.take(i + 1)) == concat_bytes(s.take(i)) + s[i].bytes(),
    decreases s.len(),
{
    if i == s.len() {
        assert(s.take(i) == s);
    } else {
        assert(s.take(i + 1).drop_last() == s.take(i));
        if i == s.len() - 1 {
            assert(s.take(i + 1) == s);
        } else {
            lemma_concat_take(s.drop_last(), i);
            assert(s.drop_last().take(i) == s.take(i));
        }
    }
}

/// What decoding one data object from `input` gives, with tags of type
/// `T`, and the bytes left after the attempt.
///
/// The tag is read, then the length field. Under a primitive tag the value
/// is the next bytes, as many as the length says; with fewer left the input
/// is truncated and nothing more is consumed. Under a constructed tag the
/// value is the data objects decoded one after the other until their
/// serialized lengths add up to the length. A tag that claims to have been
/// read from no bytes at all is refused as invalid.
pub open spec fn spec_decode<T: Tag>(input: Seq<u8>) -> (Result<TlvView, TlvError>, Seq<u8>)
    decreases input.len(), 0nat,
{
    let (tag, after_tag) = T::spec_read(input);
    match tag {
        Err(e) => (Err(e), after_tag),
        Ok(t) => if after_tag.len() >= input.len() {
            (Err(TlvError::InvalidInput), after_tag)
        } else {
            let (len, after_len) = spec_read_len(after_tag);
            match len {
                Err(e) => (Err(e), after_len),
                Ok(n) => if t.1 {
                    let (children, rest) = spec_decode_children::<T>(after_len, n);
                    match children {
                        Err(e) => (Err(e), rest),
                        Ok(c) => (
                            Ok(
                                TlvView {
                                    tag: t.0,
                                    constructed: true,
                                    value: ValueView::Constructed(c),
                                },
                            ),
                            rest,
                        ),
                    }
                } else if after_len.len() < n {
                    (Err(TlvError::TruncatedInput), after_len)
                } else {
                    (
                        Ok(
                            TlvView {
                                tag: t.0,
                                constructed: false,
                                value: ValueView::Primitive(after_len.take(n as int)),
                            },
                        ),
                        after_len.skip(n as int),
                    )
                },
            }
        },
    }
}

/// What decoding the children of a constructed value gives, when
/// `remaining` bytes of serialized children are still owed.
///
/// With nothing owed there are no more children. Otherwise one data object
/// is decoded; a failure there is the failure of the whole, and a child
/// whose serialized length exceeds what is owed is an inconsistency.
/// A decoded child always leaves fewer bytes than it found (see
/// `lemma_decode_consumes`), so the last case never decides.
pub open spec fn spec_decode_children<T: Tag>(input: Seq<u8>, remaining: nat) -> (
    Result<Seq<TlvView>, TlvError>,
    Seq<u8>,
)
    decreases input.len(), 1nat,
{
    if remaining == 0 {
        (Ok(Seq::empty()), input)
    } else {
        let (child, rest) = spec_decode::<T>(input);
        match child {
            Err(e) => (Err(e), rest),
            Ok(c) => if c.bytes().len() > remaining {
                (Err(TlvError::Inconsistant), rest)
            } else if rest.len() < input.len() {
                let (more, end) = spec_decode_children::<T>(
                    rest,
                    (remaining - c.bytes().len()) as nat,
                );
                match more {
                    Err(e) => (Err(e), end),
                    Ok(m) => (Ok(seq![c] + m), end),
                }
            } else {
                (Err(TlvError::Inconsistant), rest)
            },
        }
    }
}

/// What decoding gives when `input` must hold exactly one data object:
/// bytes left over are an `InvalidInput` failure, whatever came before them.
pub open spec fn spec_decode_exact<T: Tag>(input: Seq<u8>) -> Result<TlvView, TlvError> {
    if spec_decode::<T>(input).1.len() != 0 {
        Err(TlvError::InvalidInput)
    } else {
        spec_decode::<T>(input).0
    }
}

/// The data objects that `input` starts with, one after the other, up to
/// its end or to the first that cannot be decoded.
pub open spec fn spec_decode_all<T: Tag>(input: Seq<u8>) -> Seq<TlvView>
    decreases input.len(),
{
    if input.len() == 0 {
        Seq::empty()
    } else {
        match spec_decode::<T>(input) {
            (Ok(v), rest) => {
                if rest.len() < input.len() {
                    seq![v] + spec_decode_all::<T>(rest)
                } else {
                    seq![v]
                }
            },
            (Err(_), _) => Seq::empty(),
        }
    }
}

/// Decoding a data object consumes at least one byte.
pub proof fn lemma_decode_consumes<T: Tag>(input: Seq<u8>)
    ensures
        spec_decode::<T>(input).0 is Ok ==> spec_decode::<T>(input).1.len() < input.len(),
    decreases input.len(), 0nat,
{
    let (tag, after_tag) = T::spec_read(input);
    if let Ok(t) = tag {
        if after_tag.len() < input.len() {
            let (len, after_len) = spec_read_len(after_tag);
            lemma_read_len_field_len(after_tag);
            if let Ok(n) = len {
                if t.1 {
                    lemma_decode_children_consumes::<T>(after_len, n);
                }
            }
        }
    }
}

/// Decoding the children of a constructed value never leaves more bytes
/// than it found.
pub proof fn lemma_decode_children_consumes<T: Tag>(input: Seq<u8>, remaining: nat)
    ensures
        spec_decode_children::<T>(input, remaining).0 is Ok ==> spec_decode_children::<T>(
            input,
            remaining,
        ).1.len() <= input.len(),
    decreases input.len(), 1nat,
{
    if remaining > 0 {
        lemma_decode_consumes::<T>(input);
        let (child, rest) = spec_decode::<T>(input);
        if let Ok(c) = child {
            if c.bytes().len() <= remaining && rest.len() < input.len() {
                lemma_decode_children_consumes::<T>(rest, (remaining - c.bytes().len()) as nat);
            }
        }
    }
}

} // verus!
