use iso7816_tlv::ber::{Tag, Tlv, Value};
use untrusted::{Input, Reader};

#[test]
fn tlv_to_from_vec_primitive() {
    let tlv = Tlv::new(Tag::try_from(1u32).unwrap(), Value::Primitive(vec![0])).unwrap();
    assert_eq!(vec![1, 1, 0], tlv.to_vec());
    {
        let mut data = vec![0u8; 255];
        let tlv = Tlv::new(Tag::try_from(1u32).unwrap(), Value::Primitive(data.clone())).unwrap();
        let mut expected = vec![1u8, 0x81, 0xFF];
        expected.append(&mut data);
        assert_eq!(expected, tlv.to_vec());

        let mut r = Reader::new(Input::from(&expected));
        let read = Tlv::read(&mut r).unwrap();
        assert_eq!(tlv, read);
    }
    {
        let mut data = vec![0u8; 256];
        let tlv = Tlv::new(Tag::try_from(1u32).unwrap(), Value::Primitive(data.clone())).unwrap();
        let mut expected = vec![1u8, 0x82, 0x01, 0x00];
        expected.append(&mut data);
        assert_eq!(expected, tlv.to_vec());

        let mut r = Reader::new(Input::from(&expected));
        let read = Tlv::read(&mut r).unwrap();
        assert_eq!(tlv, read);
    }
    {
        let mut data = vec![0u8; 65_536];
        let tlv = Tlv::new(Tag::try_from(1u32).unwrap(), Value::Primitive(data.clone())).unwrap();
        let mut expected = vec![1u8, 0x83, 0x01, 0x00, 0x00];
        expected.append(&mut data);
        assert_eq!(expected, tlv.to_vec());

        let mut r = Reader::new(Input::from(&expected));
        let read = Tlv::read(&mut r).unwrap();
        assert_eq!(tlv, read);
    }
}

#[test]
fn tlv_to_from_vec_constructed() {
    let base = Tlv::new(Tag::try_from(1u32).unwrap(), Value::Primitive(vec![0])).unwrap();
    let mut construct = Value::Constructed(vec![base.clone(), base.clone(), base.clone()]);

    let tlv = Tlv::new(Tag::try_from("7f22").unwrap(), construct.clone()).unwrap();
    let mut expected = vec![0x7fu8, 0x22, 9];
    expected.append(&mut base.to_vec());
    expected.append(&mut base.to_vec());
    expected.append(&mut base.to_vec());
    assert_eq!(expected, tlv.to_vec());

    let mut r = Reader::new(Input::from(&expected));
    let read = Tlv::read(&mut r).unwrap();
    assert_eq!(tlv, read);

    construct.push(base.clone()).unwrap();
    expected[2] += base.len() as u8;
    expected.append(&mut base.to_vec());
    let tlv = Tlv::new(Tag::try_from("7f22").unwrap(), construct).unwrap();
    assert_eq!(expected, tlv.to_vec());

    let mut r = Reader::new(Input::from(&expected));
    let read = Tlv::read(&mut r).unwrap();
    assert_eq!(tlv, read);

    println!("{:?}", tlv)
}

#[test]
fn parse() {
    let primitive_bytes = vec![1, 1, 0];
    let more_bytes = vec![1u8; 10];
    let mut input = vec![0x7fu8, 0x22, 9];
    input.extend(&primitive_bytes);
    input.extend(&primitive_bytes);
    input.extend(&primitive_bytes);
    let expected = input.clone();
    input.extend(&more_bytes);
    let (tlv, left) = Tlv::parse(&input);
    assert_eq!(expected, tlv.unwrap().to_vec());
    assert_eq!(more_bytes, left);
}

#[test]
fn display() {
    let base = Tlv::new(Tag::try_from(0x80u32).unwrap(), Value::Primitive(vec![0])).unwrap();
    let construct = Value::Constructed(vec![base.clone(), base.clone()]);
    let tlv = Tlv::new(Tag::try_from("7f22").unwrap(), construct.clone()).unwrap();

    let mut construct2 = construct.clone();
    construct2.push(tlv).unwrap();
    construct2.push(base).unwrap();
    let t = Tag::try_from("3F32").unwrap();
    let tlv = Tlv::new(t, construct2).unwrap();
    println!("{:?}", tlv)
}
