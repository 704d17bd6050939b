use iso7816_tlv::simple::{Tag, Tlv, Value, MAX_VALUE_LENGTH};
use iso7816_tlv::TlvError;
use rand_core::{RngCore, SeedableRng};

#[test]
fn simple_tag_match() {
    let tlv = Tlv::new(Tag::try_from(10).unwrap(), vec![0x0, 0x1]).unwrap();

    let m = match tlv.tag().to_u8() {
        10 => true,
        _ => false,
    };
    assert_eq!(m, true);
}

#[test]
fn simple_tag_match_with_public_member() {
    let tlv = Tlv::new(Tag::try_from(10).unwrap(), vec![0x0, 0x1]).unwrap();

    let m = match tlv.tag() {
        Tag(10) => true,
        _ => false,
    };
    assert_eq!(m, true);
}

#[test]
fn tag_import() {
    assert!(Tag::try_from("80").is_ok());
    assert!(Tag::try_from(8_u8).is_ok());
    assert_eq!(0x8_u8, Tag::try_from(8_u8).unwrap().into());

    assert!(Tag::try_from(0x80).is_ok());
    assert_eq!(0x80_u8, Tag::try_from(0x80_u8).unwrap().into());

    assert!(Tag::try_from(127).is_ok());
    assert_eq!(127_u8, Tag::try_from(127_u8).unwrap().into());

    assert!(Tag::try_from("er").is_err());
    assert!(Tag::try_from("00").is_err());
    assert!(Tag::try_from("ff").is_err());
}

#[test]
fn parse_1() {
    let in_data = [
        0x84_u8, 0x01, 0x2C, 0x97, 0x00, 0x84, 0x01, 0x24, 0x9E, 0x01, 0x42,
    ];

    let (r, in_data) = Tlv::parse(&in_data);
    assert_eq!(8, in_data.len());
    assert!(r.is_ok());

    let t = r.unwrap();
    assert_eq!(0x84_u8, t.tag().into());
    assert_eq!(1, t.length());
    assert_eq!(&[0x2C], t.value());

    let (r, in_data) = Tlv::parse(in_data);
    assert_eq!(6, in_data.len());
    assert!(r.is_ok());

    let t = r.unwrap();
    assert_eq!(0x97_u8, t.tag().into());
    assert_eq!(0, t.length());

    let (r, in_data) = Tlv::parse(in_data);
    assert_eq!(3, in_data.len());
    assert!(r.is_ok());

    let t = r.unwrap();
    assert_eq!(0x84_u8, t.tag().into());
    assert_eq!(1, t.length());
    assert_eq!(&[0x24], t.value());

    let (r, in_data) = Tlv::parse(in_data);
    assert_eq!(0, in_data.len());
    assert!(r.is_ok());

    let t = r.unwrap();
    assert_eq!(0x9E_u8, t.tag().into());
    assert_eq!(1, t.length());
    assert_eq!(&[0x42], t.value());
}

#[test]
fn parse_multiple() {
    let in_data: [u8; 28] = [
        0x03, 0x01, 0x01, 0x04, 0x01, 0x04, 0x07, 0x07, 0x85, 0x66, 0xC9, 0x6A, 0x14, 0x49, 0x04,
        0x01, 0x08, 0x57, 0x5F, 0x93, 0x6E, 0x01, 0x00, 0x00, 0x00, 0x09, 0x01, 0x00,
    ];
    let mut buf: &[u8] = &in_data;
    let mut parsed_manual = Vec::new();
    while !buf.is_empty() {
        let (r, remaining) = Tlv::parse(buf);
        buf = remaining;
        let pushed = r.map(|res| parsed_manual.push(res));
        if pushed.is_err() {
            break;
        }
    }
    let parsed_at_once = Tlv::parse_all(&in_data);
    assert_eq!(parsed_manual, parsed_at_once);
    assert_eq!(5, parsed_at_once.len());
    assert_eq!(&[0x85, 0x66, 0xC9, 0x6A, 0x14, 0x49, 0x04], parsed_at_once[2].value());
}

#[test]
fn serialize_parse() {
    let mut rng = rand_xorshift::XorShiftRng::seed_from_u64(10);
    for r in 1_u8..0xFF {
        let v_len = rng.next_u32() % 0xFFFF;
        let v: Value = (0..v_len).map(|_| rng.next_u32() as u8).collect();
        let tlv = Tlv::new(Tag::try_from(r).unwrap(), v.clone()).unwrap();
        let ser = tlv.to_vec();
        let tlv_2 = Tlv::from_bytes(&*ser).unwrap();
        assert_eq!(tlv, tlv_2);

        assert_eq!(r, tlv.tag().into());
        assert_eq!(v, tlv.value());
    }
}

#[test]
fn simple_tag_bounds() {
    assert_eq!(Err(TlvError::InvalidInput), Tag::try_from(0x00_u8));
    assert_eq!(Err(TlvError::InvalidInput), Tag::try_from(0xFF_u8));
    assert_eq!(Ok(Tag(1)), Tag::try_from(0x01_u8));
    assert_eq!(Ok(Tag(254)), Tag::try_from(0xFE_u8));
    assert_eq!(Ok(Tag(0x80)), Tag::try_from("80"));
    assert_eq!(Ok(Tag(0x0a)), Tag::try_from("A"));
    assert_eq!(Err(TlvError::ParseIntError), Tag::try_from("er"));
    assert_eq!(Err(TlvError::ParseIntError), Tag::try_from(""));
    assert_eq!(Err(TlvError::ParseIntError), Tag::try_from("100"));
    assert_eq!(Err(TlvError::InvalidInput), Tag::try_from("00"));
    assert_eq!(Err(TlvError::InvalidInput), Tag::try_from("ff"));
}

#[test]
fn simple_value_length_bound() {
    assert_eq!(65_535, MAX_VALUE_LENGTH);
    let longest = Tlv::new(Tag(1), vec![7u8; 65_535]).unwrap();
    assert_eq!(65_535, longest.length());
    let ser = longest.to_vec();
    assert_eq!(&[1u8, 0xFF, 0xFF, 0xFF], &ser[..4]);
    assert_eq!(65_539, ser.len());
    assert_eq!(longest, Tlv::from_bytes(&ser).unwrap());
    assert_eq!(Err(TlvError::InvalidLength), Tlv::new(Tag(1), vec![7u8; 65_536]));
}

#[test]
fn simple_length_forms() {
    let short = Tlv::new(Tag(2), vec![9u8; 254]).unwrap().to_vec();
    assert_eq!(&[2u8, 254, 9], &short[..3]);
    assert_eq!(256, short.len());
    let long = Tlv::new(Tag(2), vec![9u8; 255]).unwrap().to_vec();
    assert_eq!(&[2u8, 0xFF, 0x00, 0xFF, 9], &long[..5]);
    assert_eq!(259, long.len());
    let longer = Tlv::new(Tag(2), vec![9u8; 256]).unwrap().to_vec();
    assert_eq!(&[2u8, 0xFF, 0x01, 0x00, 9], &longer[..5]);
    let empty = Tlv::new(Tag(2), vec![]).unwrap().to_vec();
    assert_eq!(vec![2u8, 0], empty);
}

#[test]
fn simple_parse_failures() {
    let (r, rest) = Tlv::parse(&[]);
    assert_eq!(Err(TlvError::TruncatedInput), r);
    assert_eq!(0, rest.len());

    let (r, rest) = Tlv::parse(&[0x00, 0x01, 0x02]);
    assert_eq!(Err(TlvError::InvalidInput), r);
    assert_eq!(&[0x01, 0x02], rest);

    let (r, rest) = Tlv::parse(&[0xFF, 0x01, 0x02]);
    assert_eq!(Err(TlvError::InvalidInput), r);
    assert_eq!(&[0x01, 0x02], rest);

    let (r, rest) = Tlv::parse(&[0x05]);
    assert_eq!(Err(TlvError::TruncatedInput), r);
    assert_eq!(0, rest.len());

    let (r, rest) = Tlv::parse(&[0x05, 0xFF, 0x01]);
    assert_eq!(Err(TlvError::TruncatedInput), r);
    assert_eq!(0, rest.len());

    let (r, rest) = Tlv::parse(&[0x05, 0x03, 0x01, 0x02]);
    assert_eq!(Err(TlvError::TruncatedInput), r);
    assert_eq!(&[0x01, 0x02], rest);
}

#[test]
fn simple_strict_and_lenient() {
    let bytes = [0x05u8, 0x01, 0xAA, 0xFF, 0xFF];
    let (r, rest) = Tlv::parse(&bytes);
    let tlv = r.unwrap();
    assert_eq!(Tag(5), tlv.tag());
    assert_eq!(&[0xAA], tlv.value());
    assert_eq!(&[0xFF, 0xFF], rest);
    assert_eq!(Err(TlvError::InvalidInput), Tlv::from_bytes(&bytes));
    assert_eq!(Ok(tlv.clone()), Tlv::from_bytes(&bytes[..3]));
    assert_eq!(Err(TlvError::InvalidInput), Tlv::from_bytes(&[0x00, 0x01, 0x02]));
    assert_eq!(Err(TlvError::InvalidInput), Tlv::from_bytes(&[0x05, 0x02, 0x01]));
    assert_eq!(Err(TlvError::TruncatedInput), Tlv::from_bytes(&[0x05]));
    assert_eq!(Err(TlvError::TruncatedInput), Tlv::from_bytes(&[0x05, 0xFF, 0x00]));
}

#[test]
fn simple_parse_all_stops_at_failure() {
    let all = Tlv::parse_all(&[0x03, 0x01, 0x01, 0x04, 0x00, 0x00, 0x01, 0x01]);
    assert_eq!(2, all.len());
    assert_eq!(Tag(3), all[0].tag());
    assert_eq!(&[0x01], all[0].value());
    assert_eq!(Tag(4), all[1].tag());
    assert_eq!(0, all[1].length());
    assert_eq!(0, Tlv::parse_all(&[]).len());
    assert_eq!(1, Tlv::parse_all(&[0x03, 0x01, 0x01, 0x04, 0x02, 0x00]).len());
}

#[test]
fn simple_long_length_decodes() {
    let mut bytes = vec![0x10u8, 0xFF, 0x01, 0x02];
    bytes.extend(vec![0x55u8; 0x0102]);
    bytes.push(0x77);
    let (r, rest) = Tlv::parse(&bytes);
    let tlv = r.unwrap();
    assert_eq!(0x0102, tlv.length());
    assert_eq!(&[0x77], rest);
}
