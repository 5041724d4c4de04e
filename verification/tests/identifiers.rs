use asn1_decoder::object_identifier::ObjectIdentifier;

fn collect_digits(oid: &ObjectIdentifier) -> Vec<u32> {
    let mut digits: Vec<u32> = Vec::new();
    let mut it = oid.iter();
    loop {
        match it.next() {
            Some(d) => digits.push(d),
            None => break,
        }
    }
    digits
}

fn good_oid(bytes: &[u8], expected_digits: &[u32]) {
    let oid = ObjectIdentifier::new(bytes).unwrap();
    let digits: Vec<u32> = collect_digits(&oid);
    assert_eq!(digits, expected_digits.to_vec());
}

fn bad_oid(bytes: &[u8]) {
    assert!(ObjectIdentifier::new(bytes).is_err());
}

#[test]
fn oids() {
    good_oid(
        &[0x2B, 0x06, 0x01, 0x04, 0x01, 0x82, 0x37, 0x15, 0x14],
        &[1, 3, 6, 1, 4, 1, 311, 21, 20],
    );
    good_oid(
        &[0x2a, 0x86, 0x48, 0x86, 0xf7, 0x0d, 0x01, 0x01, 0x01],
        &[1, 2, 840, 113549, 1, 1, 1],
    );

    bad_oid(&[]);

    bad_oid(&[0xff]);
    bad_oid(&[3 * 40]);
    good_oid(&[2 * 40 + 39], &[2, 39]);

    bad_oid(&[0x00, 0x81]); // Ends with a high-bit-set byte

    good_oid(&[0x00, 0x85, 0x01], &[0, 0, (5 << 7) + 1]);
    bad_oid(&[0x00, 0x80, 0x01]); // The 0x80 is unnecessary
}

#[test]
fn oid_rejection_shapes() {
    // the first byte must pack a first digit below three
    bad_oid(&[120]);
    bad_oid(&[121, 0x01]);
    // a digit of more than four continuation bytes
    bad_oid(&[0x2b, 0x81, 0x82, 0x83, 0x84, 0x85, 0x01]);
    // four continuation bytes are still accepted: five 7-bit groups of
    // 0000001 give 0x10204081
    good_oid(&[0x2b, 0x81, 0x81, 0x81, 0x81, 0x01], &[1, 3, 0x10204081]);
    // a padding byte in the middle of the digits
    bad_oid(&[0x2b, 0x05, 0x80, 0x01]);
}

#[test]
fn oid_iteration_restarts() {
    let bytes = [0x2a, 0x03];
    let oid = ObjectIdentifier::new(&bytes).unwrap();
    let first_pass = collect_digits(&oid);
    let second_pass = collect_digits(&oid);
    assert_eq!(first_pass, vec![1, 2, 3]);
    assert_eq!(first_pass, second_pass);
}
