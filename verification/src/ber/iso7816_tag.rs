//! The tag of BER-TLV data objects as ISO/IEC 7816-4 defines it: one to
//! three bytes that carry a class, a constructed flag and a tag number.

use vstd::prelude::*;
use vstd::std_specs::convert::{FromSpecImpl, TryFromSpecImpl};
use untrusted::Reader;
use crate::error::TlvError;
use crate::hex::{hex_u64, u64_from_hex};
use crate::ber::tag::reads_back;
use crate::reader::{read_byte, unread};

verus! {

/// Class of a BER-TLV tag, from the two top bits of its first byte.
#[derive(PartialEq, Eq, Structural, Clone, Copy, Debug)]
pub enum Class {
    /// Universal class, top bits `00`.
    Universal,
    /// Application class, top bits `01`.
    Application,
    /// Context-specific class, top bits `10`.
    ContextSpecific,
    /// Private class, top bits `11`.
    Private,
}

/// The class that the first byte of a tag announces.
pub open spec fn spec_class(b0: u8) -> Class {
    if b0 < 0x40 {
        Class::Universal
    } else if b0 < 0x80 {
        Class::Application
    } else if b0 < 0xC0 {
        Class::ContextSpecific
    } else {
        Class::Private
    }
}

impl From<u8> for Class {
    fn from(b0: u8) -> (res: Self) {
        if b0 < 0x40 {
            Class::Universal
        } else if b0 < 0x80 {
            Class::Application
        } else if b0 < 0xC0 {
            Class::ContextSpecific
        } else {
            Class::Private
        }
    }
}

impl FromSpecImpl<u8> for Class {
    open spec fn obeys_from_spec() -> bool {
        true
    }

    open spec fn from_spec(b0: u8) -> Self {
        spec_class(b0)
    }
}

/// Whether the first byte of a tag has its constructed bit (`0x20`) set.
pub open spec fn constructed_bit(b0: u8) -> bool {
    (b0 / 0x20) % 2 == 1
}

/// Whether the first byte of a tag announces more tag bytes: its low five
/// bits are all set.
pub open spec fn long_form(b0: u8) -> bool {
    b0 % 0x20 == 0x1F
}

/// The tag grammar. A tag of one byte is not zero and does not announce
/// more bytes. A longer tag announces more bytes in its first byte, has the
/// top bit set in every byte between the first and the last, and clear in
/// the last. No tag is longer than three bytes.
pub open spec fn valid_tag_bytes(b: Seq<u8>) -> bool {
    ||| b.len() == 1 && b[0] != 0 && !long_form(b[0])
    ||| b.len() == 2 && long_form(b[0]) && b[1] < 0x80
    ||| b.len() == 3 && long_form(b[0]) && b[1] >= 0x80 && b[2] < 0x80
}

/// The bytes of `v` in base 256, most significant first, with no leading
/// zero byte; for `v` up to three bytes.
pub open spec fn minimal_bytes(v: nat) -> Seq<u8> {
    if v == 0 {
        Seq::empty()
    } else if v <= 0xFF {
        seq![v as u8]
    } else if v <= 0xFFFF {
        seq![(v / 0x100) as u8, (v % 0x100) as u8]
    } else {
        seq![(v / 0x1_0000 % 0x100) as u8, (v / 0x100 % 0x100) as u8, (v % 0x100) as u8]
    }
}

/// The tag bytes that an integer stands for, or why it stands for none:
/// zero is no tag, a number of four bytes or more is reserved for future
/// use, and a shorter one must obey the tag grammar.
pub open spec fn spec_tag_from_int(v: nat) -> Result<Seq<u8>, TlvError> {
    if v > 0xFF_FFFF {
        Err(TlvError::TagIsRFU)
    } else if valid_tag_bytes(minimal_bytes(v)) {
        Ok(minimal_bytes(v))
    } else {
        Err(TlvError::InvalidInput)
    }
}

/// The first position from `from` on whose byte has the top bit clear, or
/// the length of `input` where there is none.
pub open spec fn last_tag_byte(input: Seq<u8>, from: int) -> int
    decreases input.len() - from,
{
    if from >= input.len() {
        input.len() as int
    } else if input[from] < 0x80 {
        from
    } else {
        last_tag_byte(input, from + 1)
    }
}

/// What reading a tag from `input` gives, and the bytes left after it.
///
/// A first byte that announces no further byte is the whole tag, unless it
/// is zero. Otherwise bytes are consumed up to the first one with the top
/// bit clear: without one the input is truncated and used up; with one
/// beyond the third byte the tag is reserved for future use.
pub open spec fn spec_read_tag(input: Seq<u8>) -> (Result<(Seq<u8>, bool), TlvError>, Seq<u8>) {
    if input.len() == 0 {
        (Err(TlvError::TruncatedInput), input)
    } else if !long_form(input[0]) {
        if input[0] == 0 {
            (Err(TlvError::InvalidInput), input.skip(1))
        } else {
            (Ok((input.take(1), constructed_bit(input[0]))), input.skip(1))
        }
    } else {
        let last = last_tag_byte(input, 1);
        if last >= input.len() {
            (Err(TlvError::TruncatedInput), Seq::empty())
        } else if last >= 3 {
            (Err(TlvError::TagIsRFU), input.skip(last + 1))
        } else {
            (Ok((input.take(last + 1), constructed_bit(input[0]))), input.skip(last + 1))
        }
    }
}

/// Bounds of [`last_tag_byte`]: it lies between `from` and the end, every
/// byte before it has the top bit set, and the byte at it, if any, has not.
pub proof fn lemma_last_tag_byte(input: Seq<u8>, from: int)
    requires
        0 <= from <= input.len(),
    ensures
        from <= last_tag_byte(input, from) <= input.len(),
        last_tag_byte(input, from) < input.len() ==> input[last_tag_byte(input, from)] < 0x80,
        forall|i: int| from <= i < last_tag_byte(input, from) ==> input[i] >= 0x80,
    decreases input.len() - from,
{
    if from < input.len() && input[from] >= 0x80 {
        lemma_last_tag_byte(input, from + 1);
    }
}

/// A tag that was read is made of the bytes consumed, at least one, and
/// obeys the tag grammar.
pub proof fn lemma_read_tag_consumes(input: Seq<u8>)
    ensures
        spec_read_tag(input).1.len() <= input.len(),
        spec_read_tag(input).0 matches Ok(t) ==> valid_tag_bytes(t.0) && t.1 == constructed_bit(
            t.0[0],
        ) && input == t.0 + spec_read_tag(input).1,
{
    if input.len() > 0 && long_form(input[0]) {
        lemma_last_tag_byte(input, 1);
    }
    let (res, rest) = spec_read_tag(input);
    if let Ok(t) = res {
        assert(input =~= t.0 + rest);
    }
}

/// Reading bytes that obey the tag grammar gives them back as the tag,
/// whatever follows them.
pub proof fn lemma_valid_read_tag(b: Seq<u8>)
    requires
        valid_tag_bytes(b),
    ensures
        forall|rest: Seq<u8>| #[trigger]
            spec_read_tag(b + rest) == (
                Ok::<(Seq<u8>, bool), TlvError>((b, constructed_bit(b[0]))),
                rest,
            ),
{
    reveal_with_fuel(last_tag_byte, 3);
    assert forall|rest: Seq<u8>| #[trigger]
        spec_read_tag(b + rest) == (
            Ok::<(Seq<u8>, bool), TlvError>((b, constructed_bit(b[0]))),
            rest,
        ) by {
        let input = b + rest;
        assert(input.take(b.len() as int) =~= b);
        assert(input.skip(b.len() as int) =~= rest);
        assert(forall|i: int| 0 <= i < b.len() ==> input[i] == b[i]);
    }
}

/// Bytes that obey the tag grammar are a tag that decoding gives back.
pub proof fn lemma_valid_reads_back(b: Seq<u8>)
    requires
        valid_tag_bytes(b),
    ensures
        reads_back::<Tag>(b, constructed_bit(b[0])),
{
    lemma_valid_read_tag(b);
}

/// Tag of a BER-TLV data object, following ISO/IEC 7816-4.
///
/// A tag is made from an integer or a hexadecimal string, or read from a
/// reader, and always obeys the tag grammar.
#[derive(PartialEq, Eq, Clone, Copy, Debug)]
pub struct Tag {
    raw: [u8; 3],
    len: usize,
}

impl View for Tag {
    type V = Seq<u8>;

    /// The bytes of the tag on the wire.
    closed spec fn view(&self) -> Seq<u8> {
        self.raw@.subrange(3 - self.len, 3)
    }
}

impl Tag {
    #[verifier::type_invariant]
    closed spec fn inv(&self) -> bool {
        &&& 1 <= self.len <= 3
        &&& valid_tag_bytes(self.raw@.subrange(3 - self.len, 3))
    }

    /// The tag whose bytes are `b`.
    pub closed spec fn of_bytes(b: Seq<u8>) -> Tag {
        Tag {
            raw: [
                if b.len() >= 3 { b[b.len() - 3] } else { 0u8 },
                if b.len() >= 2 { b[b.len() - 2] } else { 0u8 },
                if b.len() >= 1 { b[b.len() - 1] } else { 0u8 },
            ],
            len: b.len() as usize,
        }
    }

    /// The tag that an integer stands for, or why it stands for none.
    pub open spec fn spec_from_int(v: nat) -> Result<Tag, TlvError> {
        match spec_tag_from_int(v) {
            Ok(b) => Ok(Tag::of_bytes(b)),
            Err(e) => Err(e),
        }
    }

    /// The tag that a hexadecimal text stands for, or why it stands for
    /// none, given the number that the text spells.
    pub open spec fn spec_from_hex(s: Seq<char>) -> Result<Tag, TlvError> {
        match hex_u64(s) {
            Some(v) => Tag::spec_from_int(v as nat),
            None => Err(TlvError::ParseIntError),
        }
    }

    /// Builds the tag of the integer `v`, whose bytes in base 256 without
    /// leading zeros are the bytes of the tag.
    pub fn from_u64(v: u64) -> (res: Result<Tag, TlvError>)
        ensures
            res == Tag::spec_from_int(v as nat),
            match spec_tag_from_int(v as nat) {
                Ok(b) => res matches Ok(t) && t@ == b && t.valid(),
                Err(e) => res matches Err(err) && err == e,
            },
    {
        if v > 0xFF_FFFF {
            return Err(TlvError::TagIsRFU);
        }
        let b0: u8 = (v / 0x1_0000 % 0x100) as u8;
        let b1: u8 = (v / 0x100 % 0x100) as u8;
        let b2: u8 = (v % 0x100) as u8;
        let raw: [u8; 3] = [b0, b1, b2];
        let len: usize = if v == 0 {
            0
        } else if v <= 0xFF {
            1
        } else if v <= 0xFFFF {
            2
        } else {
            3
        };
        assert(raw@.subrange(3 - len, 3) =~= minimal_bytes(v as nat));
        let valid = if len == 1 {
            b2 % 0x20 != 0x1F
        } else if len == 2 {
            b1 % 0x20 == 0x1F && b2 < 0x80
        } else if len == 3 {
            b0 % 0x20 == 0x1F && b1 >= 0x80 && b2 < 0x80
        } else {
            false
        };
        if valid {
            assert(raw =~= Tag::of_bytes(minimal_bytes(v as nat)).raw);
            Ok(Tag { raw, len })
        } else {
            Err(TlvError::InvalidInput)
        }
    }

    /// Builds the tag that the hexadecimal text `s` spells.
    ///
    /// Fails with `ParseIntError` where `s` is no hexadecimal number, and
    /// otherwise as [`Tag::from_u64`] does on the number.
    pub fn from_hex(s: &str) -> (res: Result<Tag, TlvError>)
        ensures
            res == Tag::spec_from_hex(s@),
            match hex_u64(s@) {
                Some(v) => match spec_tag_from_int(v as nat) {
                    Ok(b) => res matches Ok(t) && t@ == b,
                    Err(e) => res matches Err(err) && err == e,
                },
                None => res matches Err(err) && err == TlvError::ParseIntError,
            },
    {
        match u64_from_hex(s) {
            Ok(v) => Tag::from_u64(v),
            Err(e) => Err(TlvError::from(e)),
        }
    }

    /// The class of the tag.
    pub fn class(&self) -> (c: Class)
        ensures
            c == spec_class(self@[0]),
            self.valid(),
    {
        proof {
            use_type_invariant(self);
        }
        Class::from(self.raw[3 - self.len])
    }

    /// The tag made of valid tag bytes has these bytes and is well formed.
    pub proof fn lemma_of_bytes(b: Seq<u8>)
        requires
            valid_tag_bytes(b),
        ensures
            Tag::of_bytes(b)@ == b,
    {
        assert(Tag::of_bytes(b)@ =~= b);
    }

    /// Whether the tag obeys the tag grammar, as every tag in hand does.
    pub open spec fn valid(&self) -> bool {
        valid_tag_bytes(self@)
    }
}

impl TryFrom<u64> for Tag {
    type Error = TlvError;

    fn try_from(v: u64) -> (res: Result<Self, TlvError>) {
        Tag::from_u64(v)
    }
}

impl TryFromSpecImpl<u64> for Tag {
    open spec fn obeys_try_from_spec() -> bool {
        true
    }

    open spec fn try_from_spec(v: u64) -> Result<Self, TlvError> {
        Tag::spec_from_int(v as nat)
    }
}

impl<'a> TryFrom<&'a str> for Tag {
    type Error = TlvError;

    fn try_from(s: &'a str) -> (res: Result<Self, TlvError>) {
        Tag::from_hex(s)
    }
}

impl<'a> TryFromSpecImpl<&'a str> for Tag {
    open spec fn obeys_try_from_spec() -> bool {
        true
    }

    open spec fn try_from_spec(s: &'a str) -> Result<Self, TlvError> {
        Tag::spec_from_hex(s@)
    }
}

impl TryFrom<u32> for Tag {
    type Error = TlvError;

    fn try_from(v: u32) -> (res: Result<Self, TlvError>) {
        Tag::from_u64(v as u64)
    }
}

impl TryFromSpecImpl<u32> for Tag {
    open spec fn obeys_try_from_spec() -> bool {
        true
    }

    open spec fn try_from_spec(v: u32) -> Result<Self, TlvError> {
        Tag::spec_from_int(v as nat)
    }
}

impl TryFrom<u16> for Tag {
    type Error = TlvError;

    fn try_from(v: u16) -> (res: Result<Self, TlvError>) {
        Tag::from_u64(v as u64)
    }
}

impl TryFromSpecImpl<u16> for Tag {
    open spec fn obeys_try_from_spec() -> bool {
        true
    }

    open spec fn try_from_spec(v: u16) -> Result<Self, TlvError> {
        Tag::spec_from_int(v as nat)
    }
}

impl TryFrom<u8> for Tag {
    type Error = TlvError;

    fn try_from(v: u8) -> (res: Result<Self, TlvError>) {
        Tag::from_u64(v as u64)
    }
}

impl TryFromSpecImpl<u8> for Tag {
    open spec fn obeys_try_from_spec() -> bool {
        true
    }

    open spec fn try_from_spec(v: u8) -> Result<Self, TlvError> {
        Tag::spec_from_int(v as nat)
    }
}

impl TryFrom<usize> for Tag {
    type Error = TlvError;

    fn try_from(v: usize) -> (res: Result<Self, TlvError>) {
        Tag::from_u64(v as u64)
    }
}

impl TryFromSpecImpl<usize> for Tag {
    open spec fn obeys_try_from_spec() -> bool {
        true
    }

    open spec fn try_from_spec(v: usize) -> Result<Self, TlvError> {
        Tag::spec_from_int(v as nat)
    }
}

impl TryFrom<i32> for Tag {
    type Error = TlvError;

    /// A negative number has all its high bits set and so needs more than
    /// three bytes.
    fn try_from(v: i32) -> (res: Result<Self, TlvError>) {
        if v < 0 {
            Err(TlvError::TagIsRFU)
        } else {
            Tag::from_u64(v as u64)
        }
    }
}

impl TryFromSpecImpl<i32> for Tag {
    open spec fn obeys_try_from_spec() -> bool {
        true
    }

    open spec fn try_from_spec(v: i32) -> Result<Self, TlvError> {
        if v < 0 {
            Err(TlvError::TagIsRFU)
        } else {
            Tag::spec_from_int(v as nat)
        }
    }
}

impl crate::ber::tag::Tag for Tag {
    open spec fn spec_bytes(&self) -> Seq<u8> {
        self@
    }

    open spec fn spec_is_constructed(&self) -> bool {
        constructed_bit(self@[0])
    }

    open spec fn spec_read(input: Seq<u8>) -> (Result<(Seq<u8>, bool), TlvError>, Seq<u8>) {
        spec_read_tag(input)
    }

    fn to_bytes(&self) -> (b: &[u8])
        ensures
            self.valid(),
    {
        proof {
            use_type_invariant(self);
        }
        vstd::slice::slice_subrange(self.raw.as_slice(), 3 - self.len, 3)
    }

    fn len_as_bytes(&self) -> (n: usize)
        ensures
            self.valid(),
            1 <= n <= 3,
    {
        proof {
            use_type_invariant(self);
        }
        self.len
    }

    fn is_constructed(&self) -> (c: bool) {
        proof {
            use_type_invariant(self);
        }
        (self.raw[3 - self.len] / 0x20) % 2 == 1
    }

    fn read(r: &mut Reader) -> (res: Result<Self, TlvError>) {
        let ghost input = unread(*r);
        proof {
            lemma_read_tag_consumes(input);
            if let Ok(t) = spec_read_tag(input).0 {
                lemma_valid_read_tag(t.0);
            }
        }
        let first = match read_byte(r) {
            Ok(x) => x,
            Err(e) => {
                return Err(TlvError::from(e));
            },
        };
        if first % 0x20 != 0x1F {
            if first == 0 {
                return Err(TlvError::InvalidInput);
            }
            let raw: [u8; 3] = [0, 0, first];
            assert(raw@.subrange(2, 3) =~= input.take(1));
            return Ok(Tag { raw, len: 1 });
        }
        let mut count: usize = 1;
        let ghost mut pos: int = 1;
        let mut b1: u8 = 0;
        let mut b2: u8 = 0;
        loop
            invariant_except_break
                last_tag_byte(input, 1) == last_tag_byte(input, pos),
            invariant
                input == unread(*old(r)),
                1 <= pos <= input.len(),
                count == if pos < 4 { pos } else { 4 },
                input[0] == first,
                long_form(first),
                unread(*r) == input.skip(pos),
                pos >= 2 ==> b1 == input[1],
                pos >= 3 ==> b2 == input[2],
            ensures
                last_tag_byte(input, 1) == pos - 1,
                pos >= 2,
            decreases input.len() - pos,
        {
            assert(input.skip(pos).len() == input.len() - pos);
            let x = match read_byte(r) {
                Ok(x) => x,
                Err(e) => {
                    assert(unread(*r) =~= Seq::<u8>::empty());
                    return Err(TlvError::from(e));
                },
            };
            assert(x == input[pos]);
            assert(unread(*r) == input.skip(pos + 1));
            if count == 1 {
                b1 = x;
            } else if count == 2 {
                b2 = x;
            }
            if count < 4 {
                count = count + 1;
            }
            proof {
                pos = pos + 1;
            }
            if x < 0x80 {
                break ;
            }
        }
        proof {
            lemma_last_tag_byte(input, 1);
        }
        if count >= 4 {
            Err(TlvError::TagIsRFU)
        } else if count == 2 {
            let raw: [u8; 3] = [0, first, b1];
            assert(raw@.subrange(1, 3) =~= input.take(2));
            Ok(Tag { raw, len: 2 })
        } else {
            let raw: [u8; 3] = [first, b1, b2];
            assert(raw@.subrange(0, 3) =~= input.take(3));
            Ok(Tag { raw, len: 3 })
        }
    }
}

} // verus!
