use rave::nbt::{
    Error, Parser, Payload, TAGByteArray, TAGCompound, TAGIArray, TAGLArray, TAGList, TAGString,
    NBT,
};

fn decode(bytes: Vec<u8>) -> Result<NBT, Error> {
    let mut root = NBT::default();
    Parser::new(bytes).parse(&mut root)?;
    Ok(root)
}

fn named(id: u8, name: &str) -> Vec<u8> {
    let mut out = vec![id];
    out.extend_from_slice(&(name.len() as u16).to_be_bytes());
    out.extend_from_slice(name.as_bytes());
    out
}

fn text(s: &str) -> TAGString {
    TAGString { str: s.as_bytes().to_vec() }
}

fn end() -> NBT {
    NBT { name: TAGString { str: vec![] }, payload: Payload::End }
}

#[test]
fn bare_end_is_an_end_tag_with_empty_name() {
    let root = decode(vec![0x00]).unwrap();
    assert_eq!(root, end());
    assert!(root.name.str.is_empty());
}

#[test]
fn default_tag_is_end() {
    assert_eq!(NBT::default(), end());
}

#[test]
fn empty_buffer_is_invalid_type() {
    assert_eq!(decode(vec![]), Err(Error::InvalidType));
}

#[test]
fn type_id_above_twelve_is_invalid_type() {
    assert_eq!(decode(vec![13, 0, 0]), Err(Error::InvalidType));
    assert_eq!(decode(vec![0xff]), Err(Error::InvalidType));
}

#[test]
fn byte_is_signed() {
    let mut bytes = named(1, "b");
    bytes.push(0xfe);
    assert_eq!(decode(bytes).unwrap(), NBT { name: text("b"), payload: Payload::Byte(-2) });
}

#[test]
fn short_is_big_endian_and_signed() {
    let mut bytes = named(2, "s");
    bytes.extend_from_slice(&[0x01, 0x02]);
    assert_eq!(decode(bytes).unwrap().payload, Payload::Short(0x0102));
    let mut bytes = named(2, "s");
    bytes.extend_from_slice(&[0xff, 0xfe]);
    assert_eq!(decode(bytes).unwrap().payload, Payload::Short(-2));
}

#[test]
fn int_is_big_endian_and_signed() {
    let mut bytes = named(3, "i");
    bytes.extend_from_slice(&[0x01, 0x02, 0x03, 0x04]);
    assert_eq!(decode(bytes).unwrap().payload, Payload::Int(0x01020304));
    let mut bytes = named(3, "i");
    bytes.extend_from_slice(&[0x80, 0x00, 0x00, 0x00]);
    assert_eq!(decode(bytes).unwrap().payload, Payload::Int(i32::MIN));
}

#[test]
fn long_is_big_endian_and_signed() {
    let mut bytes = named(4, "l");
    bytes.extend_from_slice(&[1, 2, 3, 4, 5, 6, 7, 8]);
    assert_eq!(decode(bytes).unwrap().payload, Payload::Long(0x0102030405060708));
    let mut bytes = named(4, "l");
    bytes.extend_from_slice(&[0xff; 8]);
    assert_eq!(decode(bytes).unwrap().payload, Payload::Long(-1));
}

#[test]
fn float_keeps_its_bits() {
    let mut bytes = named(5, "f");
    bytes.extend_from_slice(&1.5f32.to_be_bytes());
    match decode(bytes).unwrap().payload {
        Payload::Float(bits) => assert_eq!(f32::from_bits(bits), 1.5f32),
        other => panic!("{:?}", other),
    }
}

#[test]
fn double_keeps_its_bits() {
    let mut bytes = named(6, "d");
    bytes.extend_from_slice(&(-2.25f64).to_be_bytes());
    match decode(bytes).unwrap().payload {
        Payload::Double(bits) => assert_eq!(f64::from_bits(bits), -2.25f64),
        other => panic!("{:?}", other),
    }
}

#[test]
fn byte_array_is_copied() {
    let mut bytes = named(7, "a");
    bytes.extend_from_slice(&[0, 0, 0, 3, 9, 8, 7]);
    assert_eq!(
        decode(bytes).unwrap().payload,
        Payload::BArray(TAGByteArray { body: vec![9, 8, 7] })
    );
}

#[test]
fn string_payload_is_copied() {
    let mut bytes = named(8, "Name");
    bytes.extend_from_slice(&[0, 5]);
    bytes.extend_from_slice(b"hello");
    assert_eq!(
        decode(bytes).unwrap(),
        NBT { name: text("Name"), payload: Payload::String(text("hello")) }
    );
}

#[test]
fn int_array_reads_each_element() {
    let mut bytes = named(11, "a");
    bytes.extend_from_slice(&[0, 0, 0, 2, 0, 0, 0, 1, 0xff, 0xff, 0xff, 0xff]);
    assert_eq!(decode(bytes).unwrap().payload, Payload::IArray(TAGIArray { ints: vec![1, -1] }));
}

#[test]
fn long_array_reads_each_element() {
    let mut bytes = named(12, "a");
    bytes.extend_from_slice(&[0, 0, 0, 2]);
    bytes.extend_from_slice(&5i64.to_be_bytes());
    bytes.extend_from_slice(&(-7i64).to_be_bytes());
    assert_eq!(decode(bytes).unwrap().payload, Payload::LArray(TAGLArray { longs: vec![5, -7] }));
}

#[test]
fn empty_list_with_element_id_zero_decodes() {
    let mut bytes = named(9, "l");
    bytes.extend_from_slice(&[0, 0, 0, 0, 0]);
    assert_eq!(
        decode(bytes).unwrap().payload,
        Payload::List(TAGList { id: 0, tags: vec![] })
    );
}

#[test]
fn list_elements_are_of_the_list_kind() {
    let mut bytes = named(9, "l");
    bytes.extend_from_slice(&[3, 0, 0, 0, 2, 0, 0, 0, 7, 0, 0, 0, 8]);
    let root = decode(bytes).unwrap();
    assert_eq!(
        root.payload,
        Payload::List(TAGList { id: 3, tags: vec![Payload::Int(7), Payload::Int(8)] })
    );
}

#[test]
fn list_of_compounds_decodes() {
    let mut bytes = named(9, "l");
    bytes.extend_from_slice(&[10, 0, 0, 0, 2]);
    bytes.extend_from_slice(&named(1, "a"));
    bytes.push(1);
    bytes.push(0);
    bytes.push(0);
    let root = decode(bytes).unwrap();
    let first = TAGCompound {
        tags: vec![NBT { name: text("a"), payload: Payload::Byte(1) }, end()],
    };
    let second = TAGCompound { tags: vec![end()] };
    assert_eq!(
        root.payload,
        Payload::List(TAGList {
            id: 10,
            tags: vec![Payload::Compound(first), Payload::Compound(second)]
        })
    );
}

#[test]
fn list_with_bad_element_id_is_rejected() {
    let mut bytes = named(9, "l");
    bytes.extend_from_slice(&[13, 0, 0, 0, 0]);
    assert_eq!(decode(bytes), Err(Error::InvalidListType(13)));
    let mut bytes = named(9, "l");
    bytes.extend_from_slice(&[0, 0, 0, 0, 1, 0]);
    assert_eq!(decode(bytes), Err(Error::InvalidListType(0)));
}

#[test]
fn list_longer_than_the_bound_is_rejected() {
    let mut bytes = named(9, "l");
    bytes.extend_from_slice(&[1, 0, 0, 2, 1]);
    bytes.extend_from_slice(&[0u8; 513]);
    assert_eq!(decode(bytes), Err(Error::ExceedsMaxNestingDepth(513)));
    let mut bytes = named(9, "l");
    bytes.extend_from_slice(&[1, 0, 0, 2, 0]);
    bytes.extend_from_slice(&[0u8; 512]);
    assert!(decode(bytes).is_ok());
}

#[test]
fn negative_length_is_rejected() {
    let mut bytes = named(7, "a");
    bytes.extend_from_slice(&[0xff, 0xff, 0xff, 0xff]);
    assert_eq!(decode(bytes), Err(Error::NegativeLength(-1)));
    let mut bytes = named(9, "l");
    bytes.extend_from_slice(&[1, 0x80, 0, 0, 0]);
    assert_eq!(decode(bytes), Err(Error::NegativeLength(i32::MIN)));
}

#[test]
fn array_longer_than_the_buffer_is_end_of_bytes() {
    let mut bytes = named(7, "a");
    bytes.extend_from_slice(&[0, 0, 0, 3, 1, 2]);
    assert_eq!(decode(bytes), Err(Error::EndOfBytes));
    let mut bytes = named(11, "a");
    bytes.extend_from_slice(&[0, 0, 0, 2, 0, 0, 0, 1, 0, 0, 0]);
    assert_eq!(decode(bytes), Err(Error::EndOfBytes));
    let mut bytes = named(12, "a");
    bytes.extend_from_slice(&[0, 0, 0, 1, 0, 0, 0, 1, 0, 0, 0]);
    assert_eq!(decode(bytes), Err(Error::EndOfBytes));
}

#[test]
fn string_one_byte_short_is_end_of_bytes() {
    let mut bytes = named(8, "s");
    bytes.extend_from_slice(&[0, 5]);
    bytes.extend_from_slice(b"hell");
    assert_eq!(decode(bytes), Err(Error::EndOfBytes));
}

#[test]
fn string_length_ffff_is_end_of_bytes() {
    assert_eq!(decode(vec![0x08, 0x00, 0x00, 0xFF, 0xFF]), Err(Error::EndOfBytes));
}

#[test]
fn cut_string_length_is_truncated_string() {
    assert_eq!(decode(vec![0x08, 0x00]), Err(Error::TruncatedString));
    assert_eq!(decode(vec![0x08, 0x00, 0x00, 0x00]), Err(Error::TruncatedString));
}

#[test]
fn cut_primitive_is_truncated_primitive() {
    let mut bytes = named(3, "i");
    bytes.extend_from_slice(&[0, 0, 0]);
    assert_eq!(decode(bytes), Err(Error::TruncatedPrimitive));
    assert_eq!(decode(named(1, "b")), Err(Error::TruncatedPrimitive));
    let mut bytes = named(7, "a");
    bytes.extend_from_slice(&[0, 0]);
    assert_eq!(decode(bytes), Err(Error::TruncatedPrimitive));
    assert_eq!(decode(named(9, "l")), Err(Error::TruncatedPrimitive));
}

#[test]
fn compound_ends_with_its_one_end_tag() {
    let mut bytes = named(10, "");
    bytes.extend_from_slice(&named(8, "Name"));
    bytes.extend_from_slice(&[0, 5]);
    bytes.extend_from_slice(b"hello");
    bytes.push(0);
    let root = decode(bytes).unwrap();
    match root.payload {
        Payload::Compound(c) => {
            assert_eq!(c.tags.len(), 2);
            assert_eq!(
                c.tags[0],
                NBT { name: text("Name"), payload: Payload::String(text("hello")) }
            );
            assert_eq!(c.tags[1], end());
            let ends = c.tags.iter().filter(|t| t.payload == Payload::End).count();
            assert_eq!(ends, 1);
        }
        other => panic!("{:?}", other),
    }
}

#[test]
fn compound_without_end_is_invalid_type() {
    let mut bytes = named(10, "");
    bytes.extend_from_slice(&named(1, "a"));
    bytes.push(1);
    assert_eq!(decode(bytes), Err(Error::InvalidType));
}

#[test]
fn compound_of_513_members_exceeds_the_bound() {
    let mut bytes = named(10, "");
    for _ in 0..512 {
        bytes.extend_from_slice(&named(1, "a"));
        bytes.push(1);
    }
    bytes.push(0);
    assert_eq!(decode(bytes), Err(Error::ExceedsMaxNestingDepth(513)));
}

#[test]
fn compound_of_512_members_decodes() {
    let mut bytes = named(10, "");
    for _ in 0..511 {
        bytes.extend_from_slice(&named(1, "a"));
        bytes.push(1);
    }
    bytes.push(0);
    match decode(bytes).unwrap().payload {
        Payload::Compound(c) => assert_eq!(c.tags.len(), 512),
        other => panic!("{:?}", other),
    }
}

#[test]
fn compound_nested_513_deep_exceeds_the_bound() {
    let mut bytes = Vec::new();
    for _ in 0..513 {
        bytes.extend_from_slice(&named(10, ""));
    }
    for _ in 0..513 {
        bytes.push(0);
    }
    assert_eq!(decode(bytes), Err(Error::ExceedsMaxNestingDepth(513)));
}

#[test]
fn compound_nested_512_deep_decodes() {
    let mut bytes = Vec::new();
    for _ in 0..512 {
        bytes.extend_from_slice(&named(10, ""));
    }
    for _ in 0..512 {
        bytes.push(0);
    }
    let mut depth = 0;
    let mut at = decode(bytes).unwrap();
    loop {
        match at.payload {
            Payload::Compound(mut c) => {
                depth += 1;
                at = c.tags.remove(0);
            }
            _ => break,
        }
    }
    assert_eq!(depth, 512);
}

#[test]
fn lists_nested_513_deep_exceed_the_bound() {
    let mut bytes = named(9, "");
    for _ in 0..512 {
        bytes.extend_from_slice(&[9, 0, 0, 0, 1]);
    }
    bytes.extend_from_slice(&[0, 0, 0, 0, 0]);
    assert_eq!(decode(bytes), Err(Error::ExceedsMaxNestingDepth(513)));
}

#[test]
fn parse_moves_on_and_a_failed_parse_stays() {
    let mut bytes = named(1, "a");
    bytes.push(5);
    bytes.extend_from_slice(&named(1, "b"));
    bytes.push(6);
    bytes.push(9);
    bytes.push(13);
    let mut parser = Parser::new(bytes);
    let mut root = NBT::default();
    assert_eq!(parser.parse(&mut root), Ok(()));
    assert_eq!(root, NBT { name: text("a"), payload: Payload::Byte(5) });
    assert!(!parser.at_end());
    assert_eq!(parser.parse(&mut root), Ok(()));
    assert_eq!(root, NBT { name: text("b"), payload: Payload::Byte(6) });
    assert_eq!(parser.parse(&mut root), Err(Error::TruncatedString));
    assert_eq!(root, NBT { name: text("b"), payload: Payload::Byte(6) });
    assert_eq!(parser.parse(&mut root), Err(Error::TruncatedString));
    assert!(!parser.at_end());
}

#[test]
fn trailing_bytes_are_left_alone() {
    let mut parser = Parser::new(vec![0, 1, 2, 3]);
    let mut root = NBT::default();
    assert_eq!(parser.parse(&mut root), Ok(()));
    assert_eq!(root, end());
    assert!(!parser.at_end());
    let mut parser = Parser::new(vec![0]);
    assert_eq!(parser.parse(&mut root), Ok(()));
    assert!(parser.at_end());
}

#[test]
fn clone_copies_the_whole_tree() {
    let mut bytes = named(10, "root");
    bytes.extend_from_slice(&named(9, "l"));
    bytes.extend_from_slice(&[10, 0, 0, 0, 1]);
    bytes.extend_from_slice(&named(11, "ints"));
    bytes.extend_from_slice(&[0, 0, 0, 1, 0, 0, 0, 9]);
    bytes.push(0);
    bytes.push(0);
    let root = decode(bytes).unwrap();
    let copy = root.clone();
    assert_eq!(copy, root);
}
