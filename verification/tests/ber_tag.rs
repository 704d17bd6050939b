use iso7816_tlv::ber::tag::Tag as TagTrait;
use iso7816_tlv::ber::{Class, Tag};
use iso7816_tlv::TlvError;
use untrusted::{Input, Reader};

fn read_tag(bytes: &[u8]) -> (Result<Tag, TlvError>, usize) {
    let mut r = Reader::new(Input::from(bytes));
    let tag = Tag::read(&mut r);
    (tag, r.read_bytes_to_end().len())
}

#[test]
fn tag_one_byte() {
    let tag = Tag::try_from(0x01u64).unwrap();
    assert_eq!(&[0x01], tag.to_bytes());
    assert_eq!(1, tag.len_as_bytes());
    assert!(!tag.is_constructed());
    assert_eq!(Class::Universal, tag.class());
    assert_eq!((Ok(tag), 2), read_tag(&[0x01, 0xAA, 0xBB]));

    let tag = Tag::try_from(0x34).unwrap();
    assert_eq!(&[0x34], tag.to_bytes());
    assert!(tag.is_constructed());

    let tag = Tag::try_from(0xDEu8).unwrap();
    assert_eq!(&[0xDE], tag.to_bytes());
    assert_eq!(Class::Private, tag.class());
    assert!(!tag.is_constructed());
}

#[test]
fn tag_two_bytes() {
    let tag = Tag::try_from(0x7F22u64).unwrap();
    assert_eq!(&[0x7F, 0x22], tag.to_bytes());
    assert_eq!(2, tag.len_as_bytes());
    assert!(tag.is_constructed());
    assert_eq!(Class::Application, tag.class());
    assert_eq!((Ok(tag), 1), read_tag(&[0x7F, 0x22, 0x09]));
    assert_eq!(Ok(tag), Tag::try_from(0x7F22u16));
    assert_eq!(Ok(tag), Tag::try_from(0x7F22u32));
    assert_eq!(Ok(tag), Tag::try_from(0x7F22usize));
    assert_eq!(Ok(tag), Tag::try_from(0x7F22i32));
    assert_eq!(Ok(tag), Tag::from_u64(0x7F22));

    let tag = Tag::try_from(0x9F7Fu32).unwrap();
    assert_eq!(&[0x9F, 0x7F], tag.to_bytes());
    assert_eq!(Class::ContextSpecific, tag.class());
    assert!(!tag.is_constructed());
}

#[test]
fn tag_three_bytes() {
    let tag = Tag::try_from(0x5F8122u64).unwrap();
    assert_eq!(&[0x5F, 0x81, 0x22], tag.to_bytes());
    assert_eq!(3, tag.len_as_bytes());
    assert!(!tag.is_constructed());
    assert_eq!(Class::Application, tag.class());
    assert_eq!((Ok(tag), 0), read_tag(&[0x5F, 0x81, 0x22]));

    let tag = Tag::try_from(0xFFFF7Fu32).unwrap();
    assert_eq!(&[0xFF, 0xFF, 0x7F], tag.to_bytes());
    assert!(tag.is_constructed());
    assert_eq!(Class::Private, tag.class());
}

#[test]
fn tag_four_bytes_is_reserved() {
    assert_eq!(Err(TlvError::TagIsRFU), Tag::try_from(0x7F80_8000u64));
    assert_eq!(Err(TlvError::TagIsRFU), Tag::try_from(0x0100_0000u32));
    assert_eq!(Err(TlvError::TagIsRFU), Tag::try_from(u64::MAX));
    assert_eq!(Err(TlvError::TagIsRFU), Tag::try_from(-1i32));
    assert_eq!(Err(TlvError::TagIsRFU), Tag::try_from("7f808000"));
    assert_eq!((Err(TlvError::TagIsRFU), 1), read_tag(&[0x7F, 0x80, 0x80, 0x00, 0x55]));
    assert_eq!(
        (Err(TlvError::TagIsRFU), 0),
        read_tag(&[0x1F, 0x80, 0x80, 0x80, 0x80, 0x80, 0x80, 0x80, 0x80, 0x80, 0x01])
    );
}

#[test]
fn tag_outside_the_grammar() {
    assert_eq!(Err(TlvError::InvalidInput), Tag::try_from(0u64));
    assert_eq!(Err(TlvError::InvalidInput), Tag::try_from(0x1Fu8));
    assert_eq!(Err(TlvError::InvalidInput), Tag::try_from(0x7Fu8));
    assert_eq!(Err(TlvError::InvalidInput), Tag::try_from(0x7F80u16));
    assert_eq!(Err(TlvError::InvalidInput), Tag::try_from(0x0122u16));
    assert_eq!(Err(TlvError::InvalidInput), Tag::try_from(0x7F2222u32));
    assert_eq!(Err(TlvError::InvalidInput), Tag::try_from(0x7F8080u32));
    assert_eq!(Err(TlvError::InvalidInput), Tag::try_from(0x018000u32));
    assert_eq!((Err(TlvError::InvalidInput), 2), read_tag(&[0x00, 0x01, 0x02]));
}

#[test]
fn tag_truncated() {
    assert_eq!((Err(TlvError::TruncatedInput), 0), read_tag(&[]));
    assert_eq!((Err(TlvError::TruncatedInput), 0), read_tag(&[0x7F]));
    assert_eq!((Err(TlvError::TruncatedInput), 0), read_tag(&[0x7F, 0xFF]));
    assert_eq!((Err(TlvError::TruncatedInput), 0), read_tag(&[0x7F, 0xFF, 0xFF, 0xFF]));
}

#[test]
fn tag_from_hex() {
    let tag = Tag::try_from("7f22").unwrap();
    assert_eq!(&[0x7F, 0x22], tag.to_bytes());
    assert_eq!(Ok(tag), Tag::from_hex("7F22"));
    assert_eq!(&[0x80], Tag::try_from("80").unwrap().to_bytes());
    assert_eq!(&[0x3F, 0x32], Tag::try_from("3F32").unwrap().to_bytes());
    assert_eq!(Err(TlvError::ParseIntError), Tag::try_from("er"));
    assert_eq!(Err(TlvError::ParseIntError), Tag::try_from(""));
    assert_eq!(Err(TlvError::ParseIntError), Tag::try_from("7f 22"));
    assert_eq!(Err(TlvError::ParseIntError), Tag::try_from("11223344556677889"));
    assert_eq!(Err(TlvError::InvalidInput), Tag::try_from("00"));
    assert_eq!(Err(TlvError::InvalidInput), Tag::try_from("1f"));
}

#[test]
fn class_of_first_byte() {
    assert_eq!(Class::Universal, Class::from(0x00));
    assert_eq!(Class::Universal, Class::from(0x3F));
    assert_eq!(Class::Application, Class::from(0x40));
    assert_eq!(Class::Application, Class::from(0x7F));
    assert_eq!(Class::ContextSpecific, Class::from(0x80));
    assert_eq!(Class::ContextSpecific, Class::from(0xBF));
    assert_eq!(Class::Private, Class::from(0xC0));
    assert_eq!(Class::Private, Class::from(0xFF));
}

#[test]
fn error_messages() {
    assert_eq!("Invalid tag encountered", TlvError::InvalidInput.message());
    assert_eq!("Tag is reserved for future usage", TlvError::TagIsRFU.message());
    assert_eq!("Error parsing input as int", TlvError::ParseIntError.message());
    assert_eq!("Error input too short", TlvError::TruncatedInput.message());
    assert_eq!("Inconsistant (tag, value) pair", TlvError::Inconsistant.message());
    assert_eq!("Read invalid length value", TlvError::InvalidLength.message());
    assert_eq!(TlvError::TruncatedInput, TlvError::from(untrusted::EndOfInput));
    let parse_error = u8::from_str_radix("zz", 16).unwrap_err();
    assert_eq!(TlvError::ParseIntError, TlvError::from(parse_error));
}
