//! BER-TLV data objects: building, serializing and decoding them.

use vstd::prelude::*;
use untrusted::Reader;
use crate::ber::length::{
    lemma_read_len_field_len, len_field, len_length, len_to_vec, read_len, spec_read_len,
    MAX_LENGTH,
};
use crate::ber::model::{
    concat_bytes, lemma_concat_take, lemma_decode_consumes, prepend, spec_decode, spec_decode_all,
    spec_decode_children, spec_decode_exact, TlvView, ValueView,
};
use crate::ber::tag::{reads_back, Tag};
use crate::ber::value::Value;
use crate::error::TlvError;
use crate::reader::{at_end, read_bytes, read_to_end, reader_new, unread};

verus! {

/// BER-TLV data object: a tag and a value that agree on whether the value
/// is constructed.
#[derive(PartialEq, Debug)]
pub struct Tlv<T: Tag> {
    tag: T,
    value: Value<T>,
}

/// The models of the data objects of `c`, in order.
pub open spec fn views<T: Tag>(c: Seq<Tlv<T>>) -> Seq<TlvView> {
    Seq::new(c.len(), |i: int| c[i]@)
}

impl<T: Tag> View for Tlv<T> {
    type V = TlvView;

    closed spec fn view(&self) -> TlvView {
        tlv_view(*self)
    }
}

spec fn tlv_view<T: Tag>(t: Tlv<T>) -> TlvView
    decreases t,
{
    TlvView {
        tag: t.tag.spec_bytes(),
        constructed: t.tag.spec_is_constructed(),
        value: match t.value {
            Value::Primitive(b) => ValueView::Primitive(b@),
            Value::Constructed(c) => ValueView::Constructed(
                Seq::new(
                    c@.len(),
                    |i: int|
                        if 0 <= i < c@.len() {
                            tlv_view(c@[i])
                        } else {
                            arbitrary()
                        },
                ),
            ),
        },
    }
}

/// Whether every clone of a tag of type `T` has the bytes and the
/// constructed flag of the tag it was made from.
pub open spec fn clone_keeps_tag<T: Tag + Clone>() -> bool {
    forall|a: T, b: T| #[trigger]
        cloned(a, b) ==> a.spec_bytes() == b.spec_bytes() && a.spec_is_constructed()
            == b.spec_is_constructed()
}

impl<T: Tag + Clone> Tlv<T> {
    /// A copy of the data object, children included. Where cloning a tag
    /// keeps its bytes and its flag, the copy is the same data object.
    pub fn duplicate(&self) -> (res: Self)
        ensures
            clone_keeps_tag::<T>() ==> res@ == self@,
        decreases self,
    {
        proof {
            self.lemma_view();
        }
        let value = match &self.value {
            Value::Primitive(v) => {
                let bytes = v.clone();
                assert(bytes@ =~= v@);
                Value::Primitive(bytes)
            },
            Value::Constructed(c) => {
                let mut copies: Vec<Tlv<T>> = Vec::new();
                let mut i: usize = 0;
                while i < c.len()
                    invariant
                        i <= c.len(),
                        self.value == Value::Constructed(*c),
                        copies@.len() == i,
                        clone_keeps_tag::<T>() ==> views(copies@) == views(c@).take(i as int),
                    decreases c.len() - i,
                {
                    assert(decreases_to!(*c => c[i as int]));
                    assert(self.value->Constructed_0 == *c);
                    let copy = c[i].duplicate();
                    proof {
                        if clone_keeps_tag::<T>() {
                            assert(views(copies@.push(copy)) =~= views(c@).take(i + 1));
                        }
                    }
                    copies.push(copy);
                    i = i + 1;
                }
                proof {
                    assert(views(c@).take(i as int) =~= views(c@));
                }
                Value::Constructed(copies)
            },
        };
        let tag = self.tag.clone();
        assert(cloned(self.tag, tag));
        let res = Tlv { tag, value };
        proof {
            res.lemma_view();
        }
        res
    }
}

impl<T: Tag + Clone> Clone for Tlv<T> {
    fn clone(&self) -> (res: Self)
        ensures
            clone_keeps_tag::<T>() ==> res@ == self@,
    {
        self.duplicate()
    }
}

impl<T: Tag> Tlv<T> {
    /// Whether the data object is well formed at every level.
    pub open spec fn wf(&self) -> bool {
        self@.wf::<T>()
    }

    proof fn lemma_view(&self)
        ensures
            self@.tag == self.tag.spec_bytes(),
            self@.constructed == self.tag.spec_is_constructed(),
            self@.value == self.value@,
    {
        match self.value {
            Value::Primitive(b) => {},
            Value::Constructed(c) => {
                assert(self@.value->Constructed_0 =~= views(c@));
            },
        }
    }

    /// Creates a data object from a tag and a value.
    ///
    /// Fails with `Inconsistant` when the tag announces a constructed value
    /// and the value is primitive, or the other way round.
    pub fn new(tag: T, value: Value<T>) -> (res: Result<Self, TlvError>)
        ensures
            match res {
                Ok(t) => {
                    &&& tag.spec_is_constructed() == value@.is_constructed()
                    &&& t@.tag == tag.spec_bytes()
                    &&& t@.constructed == tag.spec_is_constructed()
                    &&& t@.value == value@
                    &&& reads_back::<T>(tag.spec_bytes(), tag.spec_is_constructed()) && value.wf()
                        ==> t.wf()
                },
                Err(e) => tag.spec_is_constructed() != value@.is_constructed() && e
                    == TlvError::Inconsistant,
            },
    {
        if tag.is_constructed() != value.is_constructed() {
            return Err(TlvError::Inconsistant);
        }
        let t = Tlv { tag, value };
        proof {
            t.lemma_view();
        }
        Ok(t)
    }

    /// The tag of the data object.
    pub fn tag(&self) -> (t: &T)
        ensures
            t.spec_bytes() == self@.tag,
            t.spec_is_constructed() == self@.constructed,
    {
        proof {
            self.lemma_view();
        }
        &self.tag
    }

    /// The value of the data object.
    pub fn value(&self) -> (v: &Value<T>)
        ensures
            v@ == self@.value,
    {
        proof {
            self.lemma_view();
        }
        &self.value
    }

    /// Length of the data object once serialized.
    pub fn len(&self) -> (n: usize)
        requires
            self@.bytes().len() <= usize::MAX,
        ensures
            n == self@.bytes().len(),
        decreases self, 1nat,
    {
        proof {
            self.lemma_view();
        }
        let inner_len = self.value.len_as_bytes();
        let field = if inner_len > MAX_LENGTH {
            5
        } else {
            len_length(inner_len as u32)
        };
        self.tag.len_as_bytes() + field + inner_len
    }

    /// Serializes the length field of the value.
    pub fn inner_len_to_vec(&self) -> (ret: Vec<u8>)
        requires
            self@.value.bytes().len() <= usize::MAX,
        ensures
            ret@ == len_field(self@.value.bytes().len()),
    {
        proof {
            self.lemma_view();
        }
        len_to_vec(self.value.len_as_bytes())
    }

    /// Serializes the data object into a byte vector: the tag, the length
    /// field, then the raw bytes or the serialized children in order.
    pub fn to_vec(&self) -> (ret: Vec<u8>)
        ensures
            ret@ == self@.bytes(),
        decreases self,
    {
        proof {
            self.lemma_view();
        }
        let mut body: Vec<u8> = Vec::new();
        match &self.value {
            Value::Primitive(v) => {
                let mut i: usize = 0;
                while i < v.len()
                    invariant
                        i <= v.len(),
                        body@ == v@.take(i as int),
                    decreases v.len() - i,
                {
                    body.push(v[i]);
                    assert(body@ =~= v@.take(i + 1));
                    i = i + 1;
                }
                assert(body@ =~= v@);
            },
            Value::Constructed(c) => {
                let ghost all = views(c@);
                let mut i: usize = 0;
                proof {
                    assert(all.take(0) =~= Seq::<TlvView>::empty());
                }
                while i < c.len()
                    invariant
                        i <= c.len(),
                        all == views(c@),
                        body@ == concat_bytes(all.take(i as int)),
                        self.value == Value::Constructed(*c),
                    decreases c.len() - i,
                {
                    proof {
                        lemma_concat_take(all, i as int);
                        assert(decreases_to!(*c => c[i as int]));
                        assert(self.value->Constructed_0 == *c);
                    }
                    let mut child = c[i].to_vec();
                    body.append(&mut child);
                    i = i + 1;
                }
                assert(all.take(i as int) =~= all);
            },
        }
        let tag_bytes = self.tag.to_bytes();
        let mut ret: Vec<u8> = Vec::new();
        let mut i: usize = 0;
        while i < tag_bytes.len()
            invariant
                i <= tag_bytes.len(),
                ret@ == tag_bytes@.take(i as int),
            decreases tag_bytes.len() - i,
        {
            ret.push(tag_bytes[i]);
            assert(ret@ =~= tag_bytes@.take(i + 1));
            i = i + 1;
        }
        assert(ret@ =~= tag_bytes@);
        let mut field = len_to_vec(body.len());
        ret.append(&mut field);
        ret.append(&mut body);
        ret
    }

    /// Reads one data object from the reader.
    ///
    /// The tag is read, then the length field. Under a primitive tag the
    /// value is the next bytes, as many as the length says. Under a
    /// constructed tag data objects are read one after the other until
    /// their serialized lengths add up to the length; going beyond it is
    /// an `Inconsistant` failure. Any failure on the way is the failure of
    /// the whole, and the reader stays where the failure left it.
    pub fn read(r: &mut Reader) -> (res: Result<Self, TlvError>)
        ensures
            unread(*final(r)) == spec_decode::<T>(unread(*old(r))).1,
            match spec_decode::<T>(unread(*old(r))).0 {
                Ok(v) => res matches Ok(t) && t@ == v && t.wf() && v.bytes().len() + unread(
                    *final(r),
                ).len() <= unread(*old(r)).len(),
                Err(e) => res matches Err(err) && err == e,
            },
        decreases unread(*old(r)).len(),
    {
        let ghost input = unread(*r);
        let tag = match T::read(r) {
            Ok(t) => t,
            Err(e) => {
                return Err(e);
            },
        };
        let ghost after_tag = unread(*r);
        let len = match read_len(r) {
            Ok(l) => l,
            Err(e) => {
                return Err(e);
            },
        };
        let ghost after_len = unread(*r);
        proof {
            lemma_read_len_field_len(after_tag);
        }
        let value = if tag.is_constructed() {
            let mut children: Vec<Tlv<T>> = Vec::new();
            let mut acc: usize = 0;
            proof {
                assert(views(children@) =~= Seq::<TlvView>::empty());
                let first = spec_decode_children::<T>(after_len, len as nat);
                match first.0 {
                    Ok(m) => {
                        assert(Seq::<TlvView>::empty() + m =~= m);
                    },
                    Err(_) => {},
                }
            }
            while acc < len
                invariant
                    acc <= len,
                    acc == concat_bytes(views(children@)).len(),
                    forall|i: int| 0 <= i < children.len() ==> (#[trigger] children[i]).wf(),
                    unread(*r).len() + acc <= after_len.len(),
                    after_len.len() <= usize::MAX,
                    after_len.len() < input.len(),
                    input == unread(*old(r)),
                    T::spec_read(input).0 matches Ok(t) && t.1,
                    T::spec_read(input).1 == after_tag,
                    after_tag.len() < input.len(),
                    spec_read_len(after_tag) == (Ok::<nat, TlvError>(len as nat), after_len),
                    prepend(
                        views(children@),
                        spec_decode_children::<T>(unread(*r), (len - acc) as nat),
                    ) == spec_decode_children::<T>(after_len, len as nat),
                decreases len - acc,
            {
                let ghost done = views(children@);
                let child = match Self::read(r) {
                    Ok(c) => c,
                    Err(e) => {
                        return Err(e);
                    },
                };
                let child_len = child.len();
                if child_len > len - acc {
                    return Err(TlvError::Inconsistant);
                }
                proof {
                    let rem = (len - acc) as nat;
                    let more = spec_decode_children::<T>(unread(*r), (rem - child_len) as nat);
                    assert(views(children@.push(child)) =~= done.push(child@));
                    assert(done.push(child@).drop_last() =~= done);
                    match more.0 {
                        Ok(m) => {
                            assert(done + (seq![child@] + m) =~= done.push(child@) + m);
                        },
                        Err(_) => {},
                    }
                }
                acc = acc + child_len;
                children.push(child);
            }
            Value::Constructed(children)
        } else {
            let content = match read_bytes(r, len) {
                Ok(c) => c,
                Err(e) => {
                    return Err(TlvError::from(e));
                },
            };
            Value::Primitive(content)
        };
        let ret = match Tlv::new(tag, value) {
            Ok(t) => t,
            Err(e) => {
                return Err(e);
            },
        };
        Ok(ret)
    }

    /// Parses a byte slice into a data object, and returns with it the
    /// bytes that were not consumed, also where parsing failed.
    pub fn parse(input: &[u8]) -> (res: (Result<Self, TlvError>, &[u8]))
        ensures
            res.1@ == spec_decode::<T>(input@).1,
            match spec_decode::<T>(input@).0 {
                Ok(v) => res.0 matches Ok(t) && t@ == v && t.wf() && v.bytes().len() + res.1@.len()
                    <= input@.len(),
                Err(e) => res.0 matches Err(err) && err == e,
            },
    {
        let mut r = reader_new(input);
        let tlv = Self::read(&mut r);
        let rest = read_to_end(&mut r);
        (tlv, rest)
    }

    /// Parses a byte slice into the data objects that it starts with.
    /// Parsing stops at the end of the input or at the first failure,
    /// which is not reported.
    pub fn parse_all(input: &[u8]) -> (ret: Vec<Self>)
        ensures
            views(ret@) == spec_decode_all::<T>(input@),
            forall|i: int| 0 <= i < ret@.len() ==> (#[trigger] ret@[i]).wf(),
    {
        let mut ret: Vec<Tlv<T>> = Vec::new();
        let mut r = reader_new(input);
        proof {
            assert(views(ret@) + spec_decode_all::<T>(unread(r)) =~= spec_decode_all::<T>(input@));
        }
        while !at_end(&r)
            invariant
                forall|i: int| 0 <= i < ret@.len() ==> (#[trigger] ret@[i]).wf(),
                views(ret@) + spec_decode_all::<T>(unread(r)) == spec_decode_all::<T>(input@),
            decreases unread(r).len(),
        {
            let ghost done = views(ret@);
            proof {
                lemma_decode_consumes::<T>(unread(r));
            }
            match Self::read(&mut r) {
                Ok(elem) => {
                    proof {
                        let tail = spec_decode_all::<T>(unread(r));
                        assert(done + (seq![elem@] + tail) =~= done.push(elem@) + tail);
                        assert(views(ret@.push(elem)) =~= done.push(elem@));
                    }
                    ret.push(elem);
                },
                Err(_) => {
                    proof {
                        assert(done + Seq::<TlvView>::empty() =~= done);
                    }
                    return ret;
                },
            }
        }
        proof {
            assert(views(ret@) + Seq::<TlvView>::empty() =~= views(ret@));
        }
        ret
    }

    /// Parses a byte slice that must hold exactly one data object.
    ///
    /// Fails with `InvalidInput` when bytes are left over, whatever came
    /// before them, and otherwise as [`Tlv::parse`] does.
    pub fn from_bytes(input: &[u8]) -> (res: Result<Self, TlvError>)
        ensures
            match spec_decode_exact::<T>(input@) {
                Ok(v) => res matches Ok(t) && t@ == v && t.wf() && v.bytes().len() <= input@.len(),
                Err(e) => res matches Err(err) && err == e,
            },
    {
        let (r, n) = Self::parse(input);
        if n.len() != 0 {
            Err(TlvError::InvalidInput)
        } else {
            r
        }
    }
}

} // verus!
