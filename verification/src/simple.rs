//! SIMPLE-TLV data objects: a tag of one byte, a length field of one or
//! three bytes, and a value of raw bytes. There is no nesting.

use vstd::prelude::*;
use vstd::std_specs::convert::{FromSpecImpl, TryFromSpecImpl};
use untrusted::Reader;
use crate::error::TlvError;
use crate::hex::{hex_u8, u8_from_hex};
use crate::reader::{at_end, read_byte, read_bytes, read_to_end, reader_new, unread};

verus! {

/// The longest value that a SIMPLE-TLV data object can hold: what two
/// length bytes can say.
pub const MAX_VALUE_LENGTH: usize = 65_535;

/// Tag of a SIMPLE-TLV data object: one byte that encodes a tag number
/// from 1 to 254. The values `0x00` and `0xFF` are invalid.
#[derive(PartialEq, Eq, Structural, Debug, Clone, Copy)]
pub struct Tag(pub u8);

/// Value of a SIMPLE-TLV data object: raw bytes, possibly none.
pub type Value = Vec<u8>;

/// Whether `v` is a valid tag byte.
pub open spec fn valid_tag(v: u8) -> bool {
    v != 0x00 && v != 0xFF
}

/// The tag that the byte `v` stands for, if it is valid.
pub open spec fn spec_tag_from_u8(v: u8) -> Result<Tag, TlvError> {
    if valid_tag(v) {
        Ok(Tag(v))
    } else {
        Err(TlvError::InvalidInput)
    }
}

/// The tag that a hexadecimal text stands for, given the number that the
/// text spells.
pub open spec fn spec_tag_from_hex(s: Seq<char>) -> Result<Tag, TlvError> {
    match hex_u8(s) {
        Some(v) => spec_tag_from_u8(v),
        None => Err(TlvError::ParseIntError),
    }
}

impl TryFrom<u8> for Tag {
    type Error = TlvError;

    fn try_from(v: u8) -> (res: Result<Self, TlvError>) {
        if v == 0x00 || v == 0xFF {
            Err(TlvError::InvalidInput)
        } else {
            Ok(Tag(v))
        }
    }
}

impl TryFromSpecImpl<u8> for Tag {
    open spec fn obeys_try_from_spec() -> bool {
        true
    }

    open spec fn try_from_spec(v: u8) -> Result<Self, TlvError> {
        spec_tag_from_u8(v)
    }
}

impl<'a> TryFrom<&'a str> for Tag {
    type Error = TlvError;

    fn try_from(s: &'a str) -> (res: Result<Self, TlvError>) {
        match u8_from_hex(s) {
            Ok(x) => Tag::try_from(x),
            Err(e) => Err(TlvError::from(e)),
        }
    }
}

impl<'a> TryFromSpecImpl<&'a str> for Tag {
    open spec fn obeys_try_from_spec() -> bool {
        true
    }

    open spec fn try_from_spec(s: &'a str) -> Result<Self, TlvError> {
        spec_tag_from_hex(s@)
    }
}

impl From<Tag> for u8 {
    fn from(t: Tag) -> (res: u8) {
        t.0
    }
}

impl FromSpecImpl<Tag> for u8 {
    open spec fn obeys_from_spec() -> bool {
        true
    }

    open spec fn from_spec(t: Tag) -> u8 {
        t.0
    }
}

impl Tag {
    /// The tag as a byte.
    pub fn to_u8(&self) -> (v: u8)
        ensures
            v == self.0,
    {
        self.0
    }
}

/// A SIMPLE-TLV data object as contracts see it.
pub struct TlvView {
    pub tag: u8,
    pub value: Seq<u8>,
}

/// The length field of a value of `n` bytes: one byte below 255, else the
/// marker `0xFF` and two bytes, most significant first.
pub open spec fn len_field(n: nat) -> Seq<u8> {
    if n < 255 {
        seq![n as u8]
    } else {
        seq![0xFFu8, (n / 0x100 % 0x100) as u8, (n % 0x100) as u8]
    }
}

/// What reading a length field from `input` gives, and the bytes left
/// after it. Input that ends inside the field is truncated and used up.
pub open spec fn spec_read_len(input: Seq<u8>) -> (Result<nat, TlvError>, Seq<u8>) {
    if input.len() == 0 {
        (Err(TlvError::TruncatedInput), input)
    } else if input[0] != 0xFF {
        (Ok(input[0] as nat), input.skip(1))
    } else if input.len() < 3 {
        (Err(TlvError::TruncatedInput), Seq::empty())
    } else {
        (Ok((input[1] * 0x100 + input[2]) as nat), input.skip(3))
    }
}

impl TlvView {
    /// The data object on the wire: the tag, the length field, the value.
    pub open spec fn bytes(self) -> Seq<u8> {
        seq![self.tag] + len_field(self.value.len()) + self.value
    }

    /// Whether the data object can be read back: its tag is valid and
    /// its value is not longer than two length bytes can say.
    pub open spec fn wf(self) -> bool {
        valid_tag(self.tag) && self.value.len() <= MAX_VALUE_LENGTH
    }
}

/// What decoding one data object from `input` gives, and the bytes left
/// after the attempt: the tag byte, which must be valid, the length field,
/// and as many value bytes as the length says. With fewer value bytes
/// left the input is truncated and the reader stays after the length field.
pub open spec fn spec_decode(input: Seq<u8>) -> (Result<TlvView, TlvError>, Seq<u8>) {
    if input.len() == 0 {
        (Err(TlvError::TruncatedInput), input)
    } else if !valid_tag(input[0]) {
        (Err(TlvError::InvalidInput), input.skip(1))
    } else {
        let (len, after_len) = spec_read_len(input.skip(1));
        match len {
            Err(e) => (Err(e), after_len),
            Ok(n) => if after_len.len() < n {
                (Err(TlvError::TruncatedInput), after_len)
            } else {
                (
                    Ok(TlvView { tag: input[0], value: after_len.take(n as int) }),
                    after_len.skip(n as int),
                )
            },
        }
    }
}

/// What decoding gives when `input` must hold exactly one data object:
/// bytes left over are an `InvalidInput` failure, whatever came before them.
pub open spec fn spec_decode_exact(input: Seq<u8>) -> Result<TlvView, TlvError> {
    if spec_decode(input).1.len() != 0 {
        Err(TlvError::InvalidInput)
    } else {
        spec_decode(input).0
    }
}

/// The data objects that `input` starts with, one after the other, up to
/// its end or to the first that cannot be decoded.
pub open spec fn spec_parse_all(input: Seq<u8>) -> Seq<TlvView>
    decreases input.len(),
{
    if input.len() == 0 {
        Seq::empty()
    } else {
        match spec_decode(input) {
            (Ok(v), rest) => {
                if rest.len() < input.len() {
                    seq![v] + spec_parse_all(rest)
                } else {
                    seq![v]
                }
            },
            (Err(_), _) => Seq::empty(),
        }
    }
}

/// Decoding never leaves more than it found, and a decoded data object
/// took at least its tag and one length byte.
pub proof fn lemma_decode_consumes(input: Seq<u8>)
    ensures
        spec_decode(input).1.len() <= input.len(),
        spec_decode(input).0 is Ok ==> spec_decode(input).1.len() + 2 <= input.len(),
{
}

/// Round trip: decoding the serialized form of a well-formed data object,
/// followed by any bytes, gives the data object back and leaves exactly
/// those bytes.
pub proof fn lemma_decode_encoded(v: TlvView, rest: Seq<u8>)
    requires
        v.wf(),
    ensures
        spec_decode(v.bytes() + rest) == (Ok::<TlvView, TlvError>(v), rest),
        spec_decode_exact(v.bytes()) == Ok::<TlvView, TlvError>(v),
{
    let field = len_field(v.value.len());
    let input = v.bytes() + rest;
    assert(input.skip(1) =~= field + (v.value + rest));
    let after_len = spec_read_len(input.skip(1)).1;
    assert(after_len =~= v.value + rest);
    assert(after_len.take(v.value.len() as int) =~= v.value);
    assert(after_len.skip(v.value.len() as int) =~= rest);
    let alone = v.bytes();
    assert(alone.skip(1) =~= field + v.value);
    let after = spec_read_len(alone.skip(1)).1;
    assert(after =~= v.value);
    assert(after.take(v.value.len() as int) =~= v.value);
    assert(after.skip(v.value.len() as int) =~= Seq::<u8>::empty());
}

/// The models of the data objects of `c`, in order.
pub open spec fn views(c: Seq<Tlv>) -> Seq<TlvView> {
    Seq::new(c.len(), |i: int| c[i]@)
}

/// SIMPLE-TLV data object: a tag and a value of at most
/// [`MAX_VALUE_LENGTH`] bytes.
#[derive(PartialEq, Debug)]
pub struct Tlv {
    tag: Tag,
    value: Value,
}

impl Clone for Tlv {
    fn clone(&self) -> (res: Self)
        ensures
            res@ == self@,
    {
        proof {
            use_type_invariant(self);
        }
        let value = self.value.clone();
        assert(value@ =~= self.value@);
        Tlv { tag: self.tag, value }
    }
}

impl View for Tlv {
    type V = TlvView;

    closed spec fn view(&self) -> TlvView {
        TlvView { tag: self.tag.0, value: self.value@ }
    }
}

impl Tlv {
    #[verifier::type_invariant]
    closed spec fn inv(&self) -> bool {
        self.value@.len() <= MAX_VALUE_LENGTH
    }

    /// Creates a data object from a tag and a value.
    ///
    /// Fails with `InvalidLength` if the value is longer than
    /// [`MAX_VALUE_LENGTH`] bytes.
    pub fn new(tag: Tag, value: Value) -> (res: Result<Self, TlvError>)
        ensures
            match res {
                Ok(t) => value@.len() <= MAX_VALUE_LENGTH && t@ == (TlvView {
                    tag: tag.0,
                    value: value@,
                }),
                Err(e) => value@.len() > MAX_VALUE_LENGTH && e == TlvError::InvalidLength,
            },
    {
        if value.len() > MAX_VALUE_LENGTH {
            Err(TlvError::InvalidLength)
        } else {
            Ok(Tlv { tag, value })
        }
    }

    /// The tag of the data object.
    pub fn tag(&self) -> (t: Tag)
        ensures
            t.0 == self@.tag,
    {
        self.tag
    }

    /// The length of the value.
    pub fn length(&self) -> (n: usize)
        ensures
            n == self@.value.len(),
            n <= MAX_VALUE_LENGTH,
    {
        proof {
            use_type_invariant(self);
        }
        self.value.len()
    }

    /// The value of the data object.
    pub fn value(&self) -> (v: &[u8])
        ensures
            v@ == self@.value,
    {
        self.value.as_slice()
    }

    /// Serializes the data object into a byte vector.
    pub fn to_vec(&self) -> (ret: Vec<u8>)
        ensures
            ret@ == self@.bytes(),
    {
        proof {
            use_type_invariant(self);
        }
        let mut ret: Vec<u8> = Vec::new();
        ret.push(self.tag.0);
        let len = self.value.len();
        if len >= 255 {
            ret.push(0xFF);
            ret.push((len / 0x100) as u8);
        }
        ret.push((len % 0x100) as u8);
        let ghost head = ret@;
        assert(head =~= seq![self.tag.0] + len_field(len as nat));
        let mut i: usize = 0;
        while i < len
            invariant
                i <= len,
                len == self.value.len(),
                ret@ == head + self.value@.take(i as int),
            decreases len - i,
        {
            ret.push(self.value[i]);
            assert(ret@ =~= head + self.value@.take(i + 1));
            i = i + 1;
        }
        assert(self.value@.take(len as int) =~= self.value@);
        ret
    }

    /// Reads a length field from the reader.
    pub fn read_len(r: &mut Reader) -> (res: Result<usize, TlvError>)
        ensures
            unread(*final(r)) == spec_read_len(unread(*old(r))).1,
            match spec_read_len(unread(*old(r))).0 {
                Ok(n) => res matches Ok(v) && v == n && n <= MAX_VALUE_LENGTH,
                Err(e) => res matches Err(err) && err == e,
            },
    {
        let ghost input = unread(*r);
        let x = match read_byte(r) {
            Ok(x) => x,
            Err(e) => {
                return Err(TlvError::from(e));
            },
        };
        if x != 0xFF {
            return Ok(x as usize);
        }
        let hi = match read_byte(r) {
            Ok(x) => x,
            Err(e) => {
                assert(unread(*r) =~= Seq::<u8>::empty());
                return Err(TlvError::from(e));
            },
        };
        assert(unread(*r) =~= input.skip(2));
        let lo = match read_byte(r) {
            Ok(x) => x,
            Err(e) => {
                assert(unread(*r) =~= Seq::<u8>::empty());
                return Err(TlvError::from(e));
            },
        };
        assert(unread(*r) =~= input.skip(3));
        Ok(hi as usize * 0x100 + lo as usize)
    }

    /// Reads one data object from the reader. Any failure on the way is
    /// the failure of the whole, and the reader stays where it left it.
    pub fn read(r: &mut Reader) -> (res: Result<Self, TlvError>)
        ensures
            unread(*final(r)) == spec_decode(unread(*old(r))).1,
            match spec_decode(unread(*old(r))).0 {
                Ok(v) => res matches Ok(t) && t@ == v && v.wf(),
                Err(e) => res matches Err(err) && err == e,
            },
    {
        let first = match read_byte(r) {
            Ok(x) => x,
            Err(e) => {
                return Err(TlvError::from(e));
            },
        };
        let tag = match Tag::try_from(first) {
            Ok(t) => t,
            Err(e) => {
                return Err(e);
            },
        };
        let len = match Self::read_len(r) {
            Ok(l) => l,
            Err(e) => {
                return Err(e);
            },
        };
        let content = match read_bytes(r, len) {
            Ok(c) => c,
            Err(e) => {
                return Err(TlvError::from(e));
            },
        };
        Ok(Tlv { tag, value: content })
    }

    /// Parses a byte slice into a data object, and returns with it the
    /// bytes that were not consumed, also where parsing failed.
    pub fn parse(input: &[u8]) -> (res: (Result<Self, TlvError>, &[u8]))
        ensures
            res.1@ == spec_decode(input@).1,
            match spec_decode(input@).0 {
                Ok(v) => res.0 matches Ok(t) && t@ == v && v.wf(),
                Err(e) => res.0 matches Err(err) && err == e,
            },
    {
        let mut r = reader_new(input);
        let tlv = Self::read(&mut r);
        let rest = read_to_end(&mut r);
        (tlv, rest)
    }

    /// Parses a byte slice into the data objects that it starts with.
    /// Parsing stops at the end of the input or at the first failure,
    /// which is not reported.
    pub fn parse_all(input: &[u8]) -> (ret: Vec<Self>)
        ensures
            views(ret@) == spec_parse_all(input@),
    {
        let mut ret: Vec<Tlv> = Vec::new();
        let mut r = reader_new(input);
        proof {
            assert(views(ret@) + spec_parse_all(unread(r)) =~= spec_parse_all(input@));
        }
        while !at_end(&r)
            invariant
                views(ret@) + spec_parse_all(unread(r)) == spec_parse_all(input@),
            decreases unread(r).len(),
        {
            let ghost done = views(ret@);
            proof {
                lemma_decode_consumes(unread(r));
            }
            match Self::read(&mut r) {
                Ok(elem) => {
                    proof {
                        let tail = spec_parse_all(unread(r));
                        assert(done + (seq![elem@] + tail) =~= done.push(elem@) + tail);
                        assert(views(ret@.push(elem)) =~= done.push(elem@));
                    }
                    ret.push(elem);
                },
                Err(_) => {
                    proof {
                        assert(done + Seq::<TlvView>::empty() =~= done);
                    }
                    return ret;
                },
            }
        }
        proof {
            assert(views(ret@) + Seq::<TlvView>::empty() =~= views(ret@));
        }
        ret
    }

    /// Parses a byte slice that must hold exactly one data object.
    ///
    /// Fails with `InvalidInput` when bytes are left over, whatever came
    /// before them, and otherwise as [`Tlv::parse`] does.
    pub fn from_bytes(input: &[u8]) -> (res: Result<Self, TlvError>)
        ensures
            match spec_decode_exact(input@) {
                Ok(v) => res matches Ok(t) && t@ == v && v.wf(),
                Err(e) => res matches Err(err) && err == e,
            },
    {
        let (r, n) = Self::parse(input);
        if n.len() == 0 {
            r
        } else {
            Err(TlvError::InvalidInput)
        }
    }
}

} // verus!
