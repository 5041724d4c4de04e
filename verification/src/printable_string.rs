use vstd::prelude::*;
use vstd::slice::slice_index_get;
use crate::error::Error;
use crate::text::{bytes_as_utf8, lemma_ascii_utf8};

verus! {

/// The printable repertoire: letters, digits, space, and the punctuation
/// set ' ( ) + , - . / : = ?
pub open spec fn is_printable(b: u8) -> bool {
    ||| 0x41 <= b <= 0x5a  // A-Z
    ||| 0x61 <= b <= 0x7a  // a-z
    ||| 0x30 <= b <= 0x39  // 0-9
    ||| b == 0x20  // space
    ||| 0x27 <= b <= 0x29  // ' ( )
    ||| 0x2b <= b <= 0x2f  // + , - . /
    ||| b == 0x3a  // :
    ||| b == 0x3d  // =
    ||| b == 0x3f  // ?
}

pub open spec fn all_printable(s: Seq<u8>) -> bool {
    forall|i: int| 0 <= i < s.len() ==> is_printable(#[trigger] s[i])
}

/// Membership in the printable repertoire, byte by byte.
pub fn is_printable_char(b: u8) -> (r: bool)
    ensures
        r == is_printable(b),
{
    (b >= 0x41 && b <= 0x5a) || (b >= 0x61 && b <= 0x7a) || (b >= 0x30 && b <= 0x39) || b == 0x20
        || (b >= 0x27 && b <= 0x29) || (b >= 0x2b && b <= 0x2f) || b == 0x3a || b == 0x3d
        || b == 0x3f
}

/// True exactly when every byte belongs to the printable repertoire.
pub fn is_printable_string(bs: &[u8]) -> (r: bool)
    ensures
        r == all_printable(bs@),
{
    let mut i: usize = 0;
    while i < bs.len()
        invariant
            i <= bs@.len(),
            forall|j: int| 0 <= j < i ==> is_printable(#[trigger] bs@[j]),
        decreases bs@.len() - i,
    {
        if !is_printable_char(*slice_index_get(bs, i)) {
            return false;
        }
        i = i + 1;
    }
    true
}

/// Every printable byte is below 0x80, so printable content is ASCII.
pub proof fn lemma_printable_ascii(s: Seq<u8>)
    requires
        all_printable(s),
    ensures
        forall|i: int| 0 <= i < s.len() ==> s[i] < 0x80,
{
}

/// Checks the bytes against the printable repertoire and views them as a
/// string; fails with `InvalidPrintableString` on any byte outside it.
pub fn to_printable_string(bs: &[u8]) -> (r: Result<&str, Error>)
    ensures
        match r {
            Ok(s) => all_printable(bs@) && s@ == bs@.map_values(|b: u8| b as char),
            Err(e) => !all_printable(bs@) && e == Error::InvalidPrintableString,
        },
{
    if !is_printable_string(bs) {
        return Err(Error::InvalidPrintableString);
    }
    proof {
        lemma_printable_ascii(bs@);
        lemma_ascii_utf8(bs@);
    }
    match bytes_as_utf8(bs) {
        Some(s) => Ok(s),
        None => Err(Error::InvalidUTF8),  // proven unreachable: printable bytes are valid UTF-8
    }
}

} // verus!
