use asn1_decoder::error::Error;
use asn1_decoder::integer::Integer;
use asn1_decoder::{Asn1Value, Parser};

#[test]
fn integer() {
    let xs = [0x02, 0x01, 0x03];
    let mut p = Parser::new(&xs[..]);

    match p.next() {
        Ok(Asn1Value::Integer(x)) => {
            assert_eq!(x.as_u8(), Some(3));
        },
        _ => {
            assert!(false);
        },
    }
}

#[test]
fn width_limits() {
    // five bytes are too wide for a u32 but fine for a u64
    let wide = Integer::new(&[0x01, 0x02, 0x03, 0x04, 0x05]);
    assert_eq!(wide.as_u8(), None);
    assert_eq!(wide.as_u32(), None);
    assert_eq!(wide.as_u64(), Some(0x0102030405));

    let one = Integer::new(&[0x03]);
    assert_eq!(one.as_u8(), Some(3));
    assert_eq!(one.as_u32(), Some(3));
    assert_eq!(one.as_u64(), Some(3));

    let four = Integer::new(&[0x01, 0x02, 0x03, 0x04]);
    assert_eq!(four.as_u8(), None);
    assert_eq!(four.as_u32(), Some(0x01020304));

    let nine = Integer::new(&[0x01, 0x02, 0x03, 0x04, 0x05, 0x06, 0x07, 0x08, 0x09]);
    assert_eq!(nine.as_u64(), None);
    assert_eq!(nine.as_bytes().len(), 9);
}

#[test]
fn empty_capture() {
    // an empty slice folds to zero at every width
    let empty = Integer::new(&[]);
    assert_eq!(empty.as_u8(), Some(0));
    assert_eq!(empty.as_u32(), Some(0));
    assert_eq!(empty.as_u64(), Some(0));
    assert_eq!(empty.as_bytes(), &[] as &[u8]);
}

#[test]
fn integer_content_is_untouched() {
    // content is captured raw, whatever it holds
    let xs = [0x02, 0x02, 0xff, 0xfe];
    let mut p = Parser::new(&xs[..]);
    match p.next() {
        Ok(Asn1Value::Integer(x)) => {
            assert_eq!(x.as_bytes(), &[0xff, 0xfe]);
            assert_eq!(x.as_u32(), Some(0xfffe));
        },
        _ => {
            panic!("Expected an integer");
        },
    }
    assert!(matches!(p.next(), Err(Error::EOF)));
}
