use vstd::prelude::*;
use vstd::slice::{slice_index_get, slice_subrange};
use crate::error::Error;

verus! {

/// The continuation-byte scan over the bytes after the first: `cont` counts
/// the continuation bytes (high bit set) seen since the last digit boundary.
/// A digit may not start with the padding byte 0x80, may not use more than
/// four continuation bytes, and must end with a byte whose high bit is clear.
pub open spec fn oid_scan(s: Seq<u8>, cont: int) -> Result<(), Error>
    decreases s.len(),
{
    if s.len() == 0 {
        if cont != 0 {
            Err(Error::MalformedObjectIdentifier)
        } else {
            Ok(())
        }
    } else if s[0] & 0x80 == 0 {
        oid_scan(s.skip(1), 0)
    } else if cont == 0 && s[0] == 0x80 {
        Err(Error::MalformedObjectIdentifier)
    } else if cont >= 4 {
        Err(Error::ObjectIdentifierTooLarge)
    } else {
        oid_scan(s.skip(1), cont + 1)
    }
}

/// The whole validity check made at construction: the content must be
/// non-empty, its first byte must pack two digits as x*40 + y with x < 3,
/// and the remaining bytes must pass the continuation scan.
pub open spec fn oid_check(s: Seq<u8>) -> Result<(), Error> {
    if s.len() == 0 {
        Err(Error::MalformedObjectIdentifier)
    } else if s[0] >= 120 {
        Err(Error::MalformedObjectIdentifier)
    } else {
        oid_scan(s.skip(1), 0)
    }
}

/// How many bytes the first digit of `s` occupies: everything up to and
/// including the first byte whose high bit is clear.
pub open spec fn digit_len(s: Seq<u8>) -> int
    decreases s.len(),
{
    if s.len() == 0 {
        0
    } else if s[0] & 0x80 == 0 {
        1
    } else {
        1 + digit_len(s.skip(1))
    }
}

/// The value of the first digit of `s`, accumulated seven bits per byte as
/// the decoder computes it. Validation bounds a digit to four continuation
/// bytes, which still admits up to 35 data bits: the shifts here discard
/// what falls beyond 32, so such a digit wraps rather than fails.
pub open spec fn digit_value(s: Seq<u8>, acc: u32) -> u32
    decreases s.len(),
{
    if s.len() == 0 {
        acc
    } else {
        let acc2 = (acc << 7) | ((s[0] as u32) & 0x7f);
        if s[0] & 0x80 == 0 {
            acc2
        } else {
            digit_value(s.skip(1), acc2)
        }
    }
}

/// A validated object identifier: a borrowed byte slice whose shape was
/// checked once at construction; digits are decoded lazily on demand.
#[derive(Debug, PartialEq)]
pub struct ObjectIdentifier<'a> {
    content: &'a [u8],
}

impl<'a> View for ObjectIdentifier<'a> {
    type V = Seq<u8>;

    closed spec fn view(&self) -> Seq<u8> {
        self.content@
    }
}

impl<'a> ObjectIdentifier<'a> {
    pub open spec fn wf(&self) -> bool {
        oid_check(self@) is Ok
    }

    /// Validates the packed first byte and the digit continuation structure;
    /// an identifier is only ever constructed from content that passes.
    pub fn new(content: &'a [u8]) -> (r: Result<ObjectIdentifier<'a>, Error>)
        ensures
            match r {
                Ok(o) => oid_check(content@) is Ok && o@ == content@ && o.wf(),
                Err(e) => oid_check(content@) == Err::<(), Error>(e),
            },
    {
        if content.len() == 0 {
            return Err(Error::MalformedObjectIdentifier);
        }
        // The initial byte encodes the first two digits as x*40 + y, where x<3 and y<40
        let first = *slice_index_get(content, 0);
        if first >= 3 * 40 {
            return Err(Error::MalformedObjectIdentifier);
        }
        let mut cont: usize = 0;
        let mut i: usize = 1;
        while i < content.len()
            invariant
                1 <= i <= content@.len(),
                cont <= 4,
                oid_scan(content@.skip(1), 0) == oid_scan(content@.skip(i as int), cont as int),
            decreases content@.len() - i,
        {
            let x = *slice_index_get(content, i);
            proof {
                assert(content@.skip(i as int)[0] == content@[i as int]);
                assert(content@.skip(i as int).skip(1) =~= content@.skip(i as int + 1));
            }
            if x & 0x80 == 0 {
                cont = 0;
            } else {
                if cont == 0 && x == 0x80 {
                    return Err(Error::MalformedObjectIdentifier);  // this byte was not needed
                }
                if cont >= 4 {
                    return Err(Error::ObjectIdentifierTooLarge);
                }
                cont = cont + 1;
            }
            i = i + 1;
        }
        proof {
            assert(content@.skip(content@.len() as int) =~= Seq::<u8>::empty());
        }
        if cont != 0 {
            // the content ends in the middle of a digit
            return Err(Error::MalformedObjectIdentifier);
        }
        Ok(ObjectIdentifier { content })
    }

    /// A fresh pass over the digits; the identifier itself is not consumed
    /// and can be iterated again.
    pub fn iter(&self) -> (r: ObjectIdentifierIterator<'a>)
        requires
            self.wf(),
        ensures
            r.wf(),
            r@.content == self@,
            r@.state is First,
    {
        ObjectIdentifierIterator {
            content: self.content,
            state: ObjectIdentifierIteratorState::First,
        }
    }
}

/// Which of the three decoding phases the iterator is in: the two packed
/// digits of the first byte, then the ordinary base-128 digits.
#[derive(Debug, Copy, Clone)]
pub enum ObjectIdentifierIteratorState {
    First,
    Second,
    Later,
}

pub ghost struct OidIterView {
    pub content: Seq<u8>,
    pub state: ObjectIdentifierIteratorState,
}

/// Walks the digits of a validated identifier, decoding one digit per call.
pub struct ObjectIdentifierIterator<'a> {
    content: &'a [u8],
    state: ObjectIdentifierIteratorState,
}

impl<'a> View for ObjectIdentifierIterator<'a> {
    type V = OidIterView;

    closed spec fn view(&self) -> OidIterView {
        OidIterView { content: self.content@, state: self.state }
    }
}

impl<'a> ObjectIdentifierIterator<'a> {
    pub open spec fn wf(&self) -> bool {
        match self@.state {
            ObjectIdentifierIteratorState::First => self@.content.len() > 0
                && self@.content[0] < 120 && oid_scan(self@.content.skip(1), 0) is Ok,
            ObjectIdentifierIteratorState::Second => self@.content.len() > 0
                && self@.content[0] < 120 && oid_scan(self@.content.skip(1), 0) is Ok,
            ObjectIdentifierIteratorState::Later => oid_scan(self@.content, 0) is Ok,
        }
    }

    /// The next digit: the first byte yields its quotient and then its
    /// remainder by 40; afterwards each digit is the 7-bit accumulation of
    /// the bytes up to the next clear high bit. Validation guarantees a
    /// digit never ends mid-buffer, so decoding itself cannot fail.
    pub fn next(&mut self) -> (r: Option<u32>)
        requires
            old(self).wf(),
        ensures
            final(self).wf(),
            match old(self)@.state {
                ObjectIdentifierIteratorState::First => {
                    &&& r == Some((old(self)@.content[0] / 40) as u32)
                    &&& final(self)@.content == old(self)@.content
                    &&& final(self)@.state is Second
                },
                ObjectIdentifierIteratorState::Second => {
                    &&& r == Some((old(self)@.content[0] % 40) as u32)
                    &&& final(self)@.content == old(self)@.content.skip(1)
                    &&& final(self)@.state is Later
                },
                ObjectIdentifierIteratorState::Later => {
                    if old(self)@.content.len() == 0 {
                        r is None && final(self)@.content == old(self)@.content && final(self)@.state is Later
                    } else {
                        &&& r == Some(digit_value(old(self)@.content, 0))
                        &&& final(self)@.content == old(self)@.content.skip(
                            digit_len(old(self)@.content),
                        )
                        &&& final(self)@.state is Later
                    }
                },
            },
    {
        if self.content.len() == 0 {
            return None;
        }
        let first = *slice_index_get(self.content, 0);
        match self.state {
            ObjectIdentifierIteratorState::First => {
                self.state = ObjectIdentifierIteratorState::Second;
                Some((first / 40) as u32)
            },
            ObjectIdentifierIteratorState::Second => {
                self.state = ObjectIdentifierIteratorState::Later;
                let rest = slice_subrange(self.content, 1, self.content.len());
                proof {
                    assert(self.content@.subrange(1, self.content@.len() as int)
                        =~= self.content@.skip(1));
                }
                self.content = rest;
                Some((first % 40) as u32)
            },
            ObjectIdentifierIteratorState::Later => {
                let ghost orig = self.content@;
                let mut accumulator: u32 = 0;
                let mut idx: usize = 0;
                proof {
                    assert(orig.skip(0) =~= orig);
                }
                while idx < self.content.len()
                    invariant
                        self.content@ == orig,
                        self@.state is Later,
                        idx <= orig.len(),
                        idx <= 4,
                        forall|j: int| 0 <= j < idx ==> orig[j] & 0x80 != 0,
                        oid_scan(orig.skip(idx as int), idx as int) is Ok,
                        digit_value(orig, 0) == digit_value(orig.skip(idx as int), accumulator),
                    decreases orig.len() - idx,
                {
                    let byte = *slice_index_get(self.content, idx);
                    proof {
                        assert(orig.skip(idx as int)[0] == orig[idx as int]);
                        assert(orig.skip(idx as int).skip(1) =~= orig.skip(idx as int + 1));
                    }
                    accumulator = (accumulator << 7) | ((byte as u32) & 0x7f);
                    if byte & 0x80 == 0 {
                        proof {
                            lemma_digit_len_at(orig, idx as int);
                        }
                        let rest = slice_subrange(self.content, idx + 1, self.content.len());
                        proof {
                            assert(orig.subrange(idx as int + 1, orig.len() as int)
                                =~= orig.skip(idx as int + 1));
                        }
                        self.content = rest;
                        return Some(accumulator);
                    }
                    idx = idx + 1;
                }
                proof {
                    assert(orig.skip(orig.len() as int) =~= Seq::<u8>::empty());
                    assert(false);
                }
                None  // proven unreachable: a digit always ends in a clear high bit
            },
        }
    }
}

/// A scan over bytes whose last byte still has its high bit set always
/// fails: the content ends in the middle of a digit.
proof fn lemma_scan_trailing(s: Seq<u8>, cont: int)
    requires
        s.len() > 0,
        s.last() & 0x80 != 0,
        cont >= 0,
    ensures
        oid_scan(s, cont) is Err,
    decreases s.len(),
{
    if s.len() == 1 {
        let b = s[0];
        assert(b & 0x80 != 0);
        if !(cont == 0 && b == 0x80) && cont < 4 {
            assert(s.skip(1).len() == 0);
            assert(oid_scan(s.skip(1), cont + 1) is Err);
        }
    } else {
        assert(s.skip(1).last() == s.last());
        if s[0] & 0x80 == 0 {
            lemma_scan_trailing(s.skip(1), 0);
        } else if cont == 0 && s[0] == 0x80 {
        } else if cont >= 4 {
        } else {
            lemma_scan_trailing(s.skip(1), cont + 1);
        }
    }
}

/// A scan that meets the padding byte 0x80 where a digit starts always
/// fails: the byte contributes nothing and the encoding is not minimal.
/// `j` points at the padding byte; a digit starts there when the byte
/// before it ended a digit, or at the very beginning of a scan that is not
/// inside a digit.
proof fn lemma_scan_padding(s: Seq<u8>, cont: int, j: int)
    requires
        0 <= j < s.len(),
        s[j] == 0x80,
        j == 0 ==> cont == 0,
        j > 0 ==> s[j - 1] & 0x80 == 0,
        cont >= 0,
    ensures
        oid_scan(s, cont) is Err,
    decreases s.len(),
{
    if j == 0 {
        let b = s[0];
        assert(b == 0x80 ==> b & 0x80 != 0) by (bit_vector);
    } else if s[0] & 0x80 == 0 {
        lemma_scan_padding(s.skip(1), 0, j - 1);
    } else if cont == 0 && s[0] == 0x80 {
    } else if cont >= 4 {
    } else {
        lemma_scan_padding(s.skip(1), cont + 1, j - 1);
    }
}

/// The malformed shapes named by the format are all refused when the
/// identifier is constructed, never later during digit decoding: empty
/// content, a first byte packing a first digit of three or more, a
/// trailing continuation byte, and a digit that begins with the padding
/// byte 0x80.
pub proof fn lemma_oid_rejection(s: Seq<u8>)
    ensures
        s.len() == 0 ==> oid_check(s) is Err,
        s.len() > 0 && s[0] >= 120 ==> oid_check(s) is Err,
        s.len() > 1 && s.last() & 0x80 != 0 ==> oid_check(s) is Err,
        (exists|i: int| 1 <= i < s.len() && #[trigger] s[i] == 0x80 && (i == 1 || s[i - 1] & 0x80 == 0))
            ==> oid_check(s) is Err,
{
    if s.len() > 1 && s[0] < 120 && s.last() & 0x80 != 0 {
        assert(s.skip(1).last() == s.last());
        lemma_scan_trailing(s.skip(1), 0);
    }
    if exists|i: int| 1 <= i < s.len() && #[trigger] s[i] == 0x80 && (i == 1 || s[i - 1] & 0x80 == 0) {
        let i = choose|i: int| 1 <= i < s.len() && #[trigger] s[i] == 0x80 && (i == 1 || s[i - 1] & 0x80 == 0);
        if s[0] < 120 {
            assert(s.skip(1)[i - 1] == s[i]);
            if i > 1 {
                assert(s.skip(1)[i - 2] == s[i - 1]);
            }
            lemma_scan_padding(s.skip(1), 0, i - 1);
        }
    }
}

/// A prefix of `k` continuation bytes followed by a terminator makes the
/// first digit exactly `k + 1` bytes long.
proof fn lemma_digit_len_at(s: Seq<u8>, k: int)
    requires
        0 <= k < s.len(),
        forall|j: int| 0 <= j < k ==> s[j] & 0x80 != 0,
        s[k] & 0x80 == 0,
    ensures
        digit_len(s) == k + 1,
    decreases k,
{
    if k > 0 {
        assert(s.skip(1)[k - 1] == s[k]);
        assert(forall|j: int| 0 <= j < k - 1 ==> s.skip(1)[j] == s[j + 1]);
        lemma_digit_len_at(s.skip(1), k - 1);
    }
}

} // verus!
