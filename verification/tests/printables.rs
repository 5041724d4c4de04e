use asn1_decoder::error::Error;
use asn1_decoder::printable_string::{is_printable_char, to_printable_string};

fn should_be_printable(x: u8) -> bool {
    (x >= b'A' && x <= b'Z')
        || (x >= b'a' && x <= b'z')
        || (x >= b'0' && x <= b'9')
        || x == b' '
        || x == b'\''
        || x == b'('
        || x == b')'
        || x == b'+'
        || x == b','
        || x == b'-'
        || x == b'.'
        || x == b'/'
        || x == b':'
        || x == b'='
        || x == b'?'
}

#[test]
fn printable_chars() {
    for i in 0..256u32 {
        let buf = [i as u8];
        if should_be_printable(i as u8) {
            let s = to_printable_string(&buf[..]).unwrap();
            let chars: Vec<char> = s.chars().collect();
            assert_eq!(chars, [i as u8 as char].to_vec());
        } else {
            assert!(to_printable_string(&buf[..]).is_err());
        }
    }
}

#[test]
fn classifier_matches_repertoire() {
    for i in 0..256u32 {
        assert_eq!(is_printable_char(i as u8), should_be_printable(i as u8));
    }
}

#[test]
fn whole_strings() {
    assert_eq!(to_printable_string(b"Hello world?"), Ok("Hello world?"));
    assert_eq!(to_printable_string(b""), Ok(""));
    assert_eq!(
        to_printable_string(b"not*printable"),
        Err(Error::InvalidPrintableString)
    );
}
