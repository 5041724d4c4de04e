use asn1_decoder::error::Error;
use asn1_decoder::{Asn1Value, Parser};

#[test]
fn sequence() {
    let bs = [0x30, 0x06, 0x01, 0x01, 0x00, 0x01, 0x01, 0xff];
    let mut parser = Parser::new(&bs);
    match parser.next().unwrap() {
        Asn1Value::SequenceStart => {},
        _ => {
            panic!("Expected sequence start");
        },
    };

    match parser.next().unwrap() {
        Asn1Value::Boolean(false) => {},
        _ => {
            panic!("Expected a 'false'");
        },
    };

    match parser.next().unwrap() {
        Asn1Value::Boolean(true) => {},
        _ => {
            panic!("Expected a 'true'");
        },
    };

    match parser.next().unwrap() {
        Asn1Value::SequenceEnd => {},
        _ => {
            panic!("Expected sequence end");
        },
    }

    match parser.next() {
        Err(Error::EOF) => {},
        _ => {
            panic!("Expected EOF")
        },
    }
}

#[test]
fn set_nesting() {
    let bs = [0x31, 0x02, 0x05, 0x00];
    let mut parser = Parser::new(&bs);
    assert!(matches!(parser.next(), Ok(Asn1Value::SetStart)));
    assert!(matches!(parser.next(), Ok(Asn1Value::Null)));
    assert!(matches!(parser.next(), Ok(Asn1Value::SetEnd)));
    assert!(matches!(parser.next(), Err(Error::EOF)));
}

#[test]
fn nested_sequences() {
    let bs = [0x30, 0x06, 0x30, 0x02, 0x05, 0x00, 0x05, 0x00];
    let mut parser = Parser::new(&bs);
    assert!(matches!(parser.next(), Ok(Asn1Value::SequenceStart)));
    assert!(matches!(parser.next(), Ok(Asn1Value::SequenceStart)));
    assert!(matches!(parser.next(), Ok(Asn1Value::Null)));
    assert!(matches!(parser.next(), Ok(Asn1Value::SequenceEnd)));
    assert!(matches!(parser.next(), Ok(Asn1Value::Null)));
    assert!(matches!(parser.next(), Ok(Asn1Value::SequenceEnd)));
    assert!(matches!(parser.next(), Err(Error::EOF)));
}

#[test]
fn truncated_values_fail_with_eof() {
    // an octet string declaring more content than the buffer holds
    let mut parser = Parser::new(&[0x04, 0x05, 0x01]);
    assert!(matches!(parser.next(), Err(Error::EOF)));
    // a sequence declaring more content than the buffer holds
    let mut parser = Parser::new(&[0x30, 0x03, 0x01]);
    assert!(matches!(parser.next(), Err(Error::EOF)));
    // a boolean whose single content byte is missing
    let mut parser = Parser::new(&[0x01, 0x01]);
    assert!(matches!(parser.next(), Err(Error::EOF)));
    // an empty buffer has no tag at all
    let mut parser = Parser::new(&[]);
    assert!(matches!(parser.next(), Err(Error::EOF)));
}

#[test]
fn short_form_consumes_exactly() {
    // a short-form value of length 2 takes tag + length + 2 bytes; the
    // following value is found right after
    let bs = [0x04, 0x02, 0xaa, 0xbb, 0x05, 0x00];
    let mut parser = Parser::new(&bs);
    match parser.next() {
        Ok(Asn1Value::OctetString(s)) => {
            assert_eq!(s, &[0xaa, 0xbb]);
        },
        _ => {
            panic!("Expected an octet string");
        },
    }
    assert!(matches!(parser.next(), Ok(Asn1Value::Null)));
    assert!(matches!(parser.next(), Err(Error::EOF)));
}

#[test]
fn long_form_non_canonical_is_rejected() {
    // long form carrying a value below 128
    let mut parser = Parser::new(&[0x04, 0x81, 0x05, 0x00, 0x00, 0x00, 0x00, 0x00]);
    assert!(matches!(parser.next(), Err(Error::InvalidLengthEncoding)));
    // long form with a wasted leading zero byte
    let mut parser = Parser::new(&[0x04, 0x82, 0x00, 0x80, 0x00, 0x00]);
    assert!(matches!(parser.next(), Err(Error::InvalidLengthEncoding)));
    // the indefinite-length sentinel reads as long form with no length bytes
    let mut parser = Parser::new(&[0x04, 0x80, 0x00, 0x00]);
    assert!(matches!(parser.next(), Err(Error::InvalidLengthEncoding)));
}

#[test]
fn long_form_canonical_is_accepted() {
    let mut bs = vec![0x04, 0x81, 0x80];
    for i in 0..128u32 {
        bs.push(i as u8);
    }
    let mut parser = Parser::new(&bs);
    match parser.next() {
        Ok(Asn1Value::OctetString(s)) => {
            assert_eq!(s.len(), 128);
            assert_eq!(s[127], 127);
        },
        _ => {
            panic!("Expected an octet string");
        },
    }
    assert!(matches!(parser.next(), Err(Error::EOF)));
}

#[test]
fn overlong_length_field() {
    let bs = [0x04, 0x89, 0x01, 0x01, 0x01, 0x01, 0x01, 0x01, 0x01, 0x01, 0x01];
    let mut parser = Parser::new(&bs);
    assert!(matches!(parser.next(), Err(Error::OverlongLength)));
}

#[test]
fn fixed_shape_length_errors() {
    // a boolean must have length one
    let mut parser = Parser::new(&[0x01, 0x02, 0x00, 0x00]);
    assert!(matches!(parser.next(), Err(Error::IncorrectLength)));
    // a null must have length zero
    let mut parser = Parser::new(&[0x05, 0x01, 0x00]);
    assert!(matches!(parser.next(), Err(Error::IncorrectLength)));
}

#[test]
fn malformed_boolean_byte() {
    let mut parser = Parser::new(&[0x01, 0x01, 0x2a]);
    assert!(matches!(parser.next(), Err(Error::Malformed)));
}

#[test]
fn unrecognized_and_unimplemented_tags() {
    let mut parser = Parser::new(&[0x1f, 0x00]);
    assert!(matches!(parser.next(), Err(Error::UnrecognizedType)));
    let mut parser = Parser::new(&[0x03, 0x01, 0x00]);
    assert!(matches!(parser.next(), Err(Error::NotImplemented)));
    let mut parser = Parser::new(&[0x16, 0x01, 0x41]);
    assert!(matches!(parser.next(), Err(Error::NotImplemented)));
    let mut parser = Parser::new(&[0x1e, 0x01, 0x41]);
    assert!(matches!(parser.next(), Err(Error::NotImplemented)));
}

#[test]
fn utf8_strings() {
    // a two-byte encoding decodes to one character
    let mut parser = Parser::new(&[0x0c, 0x02, 0xc3, 0xa9]);
    match parser.next() {
        Ok(Asn1Value::Utf8String(s)) => {
            assert_eq!(s, "\u{e9}");
        },
        _ => {
            panic!("Expected a UTF-8 string");
        },
    }
    // a lone continuation byte is not valid UTF-8
    let mut parser = Parser::new(&[0x0c, 0x01, 0xff]);
    assert!(matches!(parser.next(), Err(Error::InvalidUTF8)));
}

#[test]
fn printable_strings_through_parser() {
    let mut parser = Parser::new(&[0x13, 0x02, 0x48, 0x69]);
    match parser.next() {
        Ok(Asn1Value::PrintableString(s)) => {
            assert_eq!(s, "Hi");
        },
        _ => {
            panic!("Expected a printable string");
        },
    }
    // '*' is outside the printable repertoire
    let mut parser = Parser::new(&[0x13, 0x01, 0x2a]);
    assert!(matches!(parser.next(), Err(Error::InvalidPrintableString)));
}

#[test]
fn object_identifier_through_parser() {
    let mut parser = Parser::new(&[0x06, 0x03, 0x2a, 0x03, 0x04]);
    match parser.next() {
        Ok(Asn1Value::ObjectIdentifier(oid)) => {
            let mut it = oid.iter();
            assert_eq!(it.next(), Some(1));
            assert_eq!(it.next(), Some(2));
            assert_eq!(it.next(), Some(3));
            assert_eq!(it.next(), Some(4));
            assert_eq!(it.next(), None);
        },
        _ => {
            panic!("Expected an object identifier");
        },
    }
    let mut parser = Parser::new(&[0x06, 0x01, 0xff]);
    assert!(matches!(parser.next(), Err(Error::MalformedObjectIdentifier)));
}

#[test]
fn inner_value_crossing_container_is_an_overrun() {
    // the inner octet string's content runs past the sequence's end
    let bs = [0x30, 0x04, 0x04, 0x03, 0xaa, 0xaa, 0xaa, 0x00];
    let mut parser = Parser::new(&bs);
    assert!(matches!(parser.next(), Ok(Asn1Value::SequenceStart)));
    assert!(matches!(parser.next(), Ok(Asn1Value::OctetString(_))));
    assert!(matches!(parser.next(), Err(Error::StructureOverrun)));
}

#[test]
fn decoding_twice_gives_identical_values() {
    let bs = [
        0x30, 0x0d, 0x01, 0x01, 0xff, 0x02, 0x02, 0x01, 0x02, 0x13, 0x02, 0x41, 0x42, 0x05,
        0x00,
    ];
    let mut first_run: Vec<Result<Asn1Value, Error>> = Vec::new();
    let mut parser = Parser::new(&bs);
    loop {
        let outcome = parser.next();
        let stop = outcome.is_err();
        first_run.push(outcome);
        if stop {
            break;
        }
    }
    let mut second_run: Vec<Result<Asn1Value, Error>> = Vec::new();
    let mut parser = Parser::new(&bs);
    loop {
        let outcome = parser.next();
        let stop = outcome.is_err();
        second_run.push(outcome);
        if stop {
            break;
        }
    }
    assert_eq!(first_run, second_run);
    assert_eq!(first_run.len(), 7);
}
