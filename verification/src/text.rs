use vstd::prelude::*;
use vstd::utf8::{
    decode_utf8, is_leading_byte_width_1, length_of_first_scalar, pop_first_scalar,
    valid_first_scalar, valid_utf8,
};

verus! {

/// Relies on `std::str::from_utf8`: it succeeds exactly when the bytes are a
/// valid UTF-8 encoding, and the returned string is their decoding.
#[verifier::external_body]
pub(crate) fn bytes_as_utf8(bytes: &[u8]) -> (r: Option<&str>)
    ensures
        r matches Some(s) ==> valid_utf8(bytes@) && s@ == decode_utf8(bytes@),
        r is None ==> !valid_utf8(bytes@),
{
    core::str::from_utf8(bytes).ok()
}

/// Bytes below 0x80 are one-byte UTF-8 scalars: such a sequence is valid
/// UTF-8 and decodes to one character per byte.
pub proof fn lemma_ascii_utf8(s: Seq<u8>)
    requires
        forall|i: int| 0 <= i < s.len() ==> s[i] < 0x80,
    ensures
        valid_utf8(s),
        decode_utf8(s) == s.map_values(|b: u8| b as char),
    decreases s.len(),
{
    if s.len() == 0 {
        assert(decode_utf8(s) =~= s.map_values(|b: u8| b as char));
    } else {
        let b = s[0];
        assert(is_leading_byte_width_1(b));
        assert(b & 0x7f == b) by (bit_vector)
            requires
                b < 0x80,
        ;
        assert(valid_first_scalar(s));
        assert(length_of_first_scalar(s) == 1);
        assert(pop_first_scalar(s) =~= s.skip(1));
        lemma_ascii_utf8(s.skip(1));
        assert((b as u32) as char == b as char);
        assert(decode_utf8(s) =~= s.map_values(|b: u8| b as char));
    }
}

} // verus!
