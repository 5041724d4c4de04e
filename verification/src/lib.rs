#![verifier::loop_isolation(false)]

pub mod error;
pub mod integer;
pub mod object_identifier;
pub mod printable_string;
mod text;

use vstd::prelude::*;
use vstd::arithmetic::div_mod::{lemma_div_basics, lemma_div_denominator, lemma_fundamental_div_mod};
use vstd::arithmetic::mul::lemma_mul_inequality;
use vstd::slice::{slice_index_get, slice_subrange};
use vstd::utf8::{decode_utf8, valid_utf8};
use crate::error::Error;
use crate::integer::{
    be_value, lemma_be_value_bound, lemma_be_value_push, lemma_pow256_mono, lemma_pow256_pos,
    lemma_pow256_strict, pow256, Integer,
};
use crate::object_identifier::{oid_check, ObjectIdentifier};
use crate::printable_string::{all_printable, to_printable_string};
use crate::text::bytes_as_utf8;

verus! {

/// One decoded value. Every payload borrows from the input buffer; the four
/// structural markers carry none, since a composite's content is delivered
/// by the calls that follow its start marker.
#[derive(Debug, PartialEq)]
pub enum Asn1Value<'a> {
    Null,
    Boolean(bool),
    Integer(Integer<'a>),
    ObjectIdentifier(ObjectIdentifier<'a>),
    OctetString(&'a [u8]),
    PrintableString(&'a str),
    Utf8String(&'a str),
    SequenceStart,
    SequenceEnd,
    SetStart,
    SetEnd,
}

/// The mathematical shape of a decoded value: payloads as byte or character
/// sequences.
pub ghost enum ValueView {
    Null,
    Boolean(bool),
    Integer(Seq<u8>),
    ObjectIdentifier(Seq<u8>),
    OctetString(Seq<u8>),
    PrintableString(Seq<char>),
    Utf8String(Seq<char>),
    SequenceStart,
    SequenceEnd,
    SetStart,
    SetEnd,
}

impl<'a> View for Asn1Value<'a> {
    type V = ValueView;

    open spec fn view(&self) -> ValueView {
        match self {
            Asn1Value::Null => ValueView::Null,
            Asn1Value::Boolean(b) => ValueView::Boolean(*b),
            Asn1Value::Integer(i) => ValueView::Integer(i@),
            Asn1Value::ObjectIdentifier(o) => ValueView::ObjectIdentifier(o@),
            Asn1Value::OctetString(s) => ValueView::OctetString(s@),
            Asn1Value::PrintableString(s) => ValueView::PrintableString(s@),
            Asn1Value::Utf8String(s) => ValueView::Utf8String(s@),
            Asn1Value::SequenceStart => ValueView::SequenceStart,
            Asn1Value::SequenceEnd => ValueView::SequenceEnd,
            Asn1Value::SetStart => ValueView::SetStart,
            Asn1Value::SetEnd => ValueView::SetEnd,
        }
    }
}

/// Which kind of composite a nesting frame belongs to.
#[derive(Debug, Copy, Clone)]
pub enum StructureKind {
    Ordered,
    Unordered,
}

/// A pending nesting frame: the composite's kind and the absolute offset at
/// which its content must end.
#[derive(Debug, Copy, Clone)]
pub struct Structure {
    pub kind: StructureKind,
    pub end_position: usize,
}

/// The decoder's abstract state: the whole input, the cursor, and the stack
/// of open composites, innermost last.
pub ghost struct ParserView {
    pub input: Seq<u8>,
    pub position: int,
    pub structures: Seq<Structure>,
}

/// The cursor never leaves the buffer, every frame ends within it, and
/// frames are nested: each ends no later than its container.
pub open spec fn parser_wf(v: ParserView) -> bool {
    &&& 0 <= v.position <= v.input.len()
    &&& forall|i: int|
        0 <= i < v.structures.len() ==> (#[trigger] v.structures[i]).end_position <= v.input.len()
    &&& forall|i: int|
        0 <= i < v.structures.len() - 1 ==> (#[trigger] v.structures[i + 1]).end_position
            <= v.structures[i].end_position
}

/// The length field as read at `pos`: a byte below 0x80 is the length
/// itself; otherwise its low seven bits count the big-endian length bytes
/// that follow. Long form must not claim more bytes than a `usize` holds,
/// must not waste a leading zero byte, and must not encode a value the
/// short form could carry. Returns the length and the offset after it.
pub open spec fn spec_read_length(input: Seq<u8>, pos: int) -> Result<(int, int), Error> {
    if pos >= input.len() {
        Err(Error::EOF)
    } else {
        let initial = input[pos];
        if initial < 0x80 {
            Ok((initial as int, pos + 1))
        } else {
            let count = (initial & 0x7f) as int;
            if pow256(count as nat) > usize::MAX as int + 1 {
                Err(Error::OverlongLength)
            } else if pos + 1 + count > input.len() {
                Err(Error::EOF)
            } else if count == 0 {
                Err(Error::InvalidLengthEncoding)
            } else if input[pos + 1] == 0 {
                Err(Error::InvalidLengthEncoding)
            } else {
                let v = be_value(input.subrange(pos + 1, pos + 1 + count));
                if v < 128 {
                    Err(Error::InvalidLengthEncoding)
                } else {
                    Ok((v, pos + 1 + count))
                }
            }
        }
    }
}

/// What one call of `next` produces: the value or error, and on success the
/// cursor and stack afterwards.
pub ghost struct StepResult {
    pub result: Result<ValueView, Error>,
    pub position: int,
    pub structures: Seq<Structure>,
}

pub open spec fn step_fail(
    input: Seq<u8>,
    structures: Seq<Structure>,
    pos: int,
    e: Error,
) -> StepResult {
    StepResult { result: Err(e), position: pos, structures }
}

/// Opening a composite: its declared content must fit inside the innermost
/// open frame (or the whole buffer); a new frame is pushed and no content
/// byte is consumed yet.
pub open spec fn spec_read_structure(
    input: Seq<u8>,
    structures: Seq<Structure>,
    kind: StructureKind,
    len: int,
    pos: int,
) -> StepResult {
    let max_end = if structures.len() > 0 {
        structures.last().end_position as int
    } else {
        input.len() as int
    };
    if len > max_end || pos > max_end - len {
        step_fail(input, structures, pos, Error::EOF)
    } else {
        StepResult {
            result: Ok(
                match kind {
                    StructureKind::Ordered => ValueView::SequenceStart,
                    StructureKind::Unordered => ValueView::SetStart,
                },
            ),
            position: pos,
            structures: structures.push(Structure { kind, end_position: (pos + len) as usize }),
        }
    }
}

/// The per-tag readers: given the tag, the declared length and the offset
/// of the content, which value is produced and where the cursor lands.
pub open spec fn spec_read_value(
    input: Seq<u8>,
    structures: Seq<Structure>,
    tag: u8,
    len: int,
    pos: int,
) -> StepResult {
    if tag == 0x01 {
        if len != 1 {
            step_fail(input, structures, pos, Error::IncorrectLength)
        } else if pos >= input.len() {
            step_fail(input, structures, pos, Error::EOF)
        } else if input[pos] == 0x00 {
            StepResult { result: Ok(ValueView::Boolean(false)), position: pos + 1, structures }
        } else if input[pos] == 0xff {
            StepResult { result: Ok(ValueView::Boolean(true)), position: pos + 1, structures }
        } else {
            step_fail(input, structures, pos, Error::Malformed)
        }
    } else if tag == 0x02 {
        if pos + len > input.len() {
            step_fail(input, structures, pos, Error::EOF)
        } else {
            StepResult {
                result: Ok(ValueView::Integer(input.subrange(pos, pos + len))),
                position: pos + len,
                structures,
            }
        }
    } else if tag == 0x04 {
        if pos + len > input.len() {
            step_fail(input, structures, pos, Error::EOF)
        } else {
            StepResult {
                result: Ok(ValueView::OctetString(input.subrange(pos, pos + len))),
                position: pos + len,
                structures,
            }
        }
    } else if tag == 0x05 {
        if len != 0 {
            step_fail(input, structures, pos, Error::IncorrectLength)
        } else {
            StepResult { result: Ok(ValueView::Null), position: pos, structures }
        }
    } else if tag == 0x06 {
        if pos + len > input.len() {
            step_fail(input, structures, pos, Error::EOF)
        } else {
            let content = input.subrange(pos, pos + len);
            match oid_check(content) {
                Ok(_) => StepResult {
                    result: Ok(ValueView::ObjectIdentifier(content)),
                    position: pos + len,
                    structures,
                },
                Err(e) => step_fail(input, structures, pos, e),
            }
        }
    } else if tag == 0x0C {
        if pos + len > input.len() {
            step_fail(input, structures, pos, Error::EOF)
        } else {
            let content = input.subrange(pos, pos + len);
            if valid_utf8(content) {
                StepResult {
                    result: Ok(ValueView::Utf8String(decode_utf8(content))),
                    position: pos + len,
                    structures,
                }
            } else {
                step_fail(input, structures, pos, Error::InvalidUTF8)
            }
        }
    } else if tag == 0x13 {
        if pos + len > input.len() {
            step_fail(input, structures, pos, Error::EOF)
        } else {
            let content = input.subrange(pos, pos + len);
            if all_printable(content) {
                StepResult {
                    result: Ok(ValueView::PrintableString(content.map_values(|b: u8| b as char))),
                    position: pos + len,
                    structures,
                }
            } else {
                step_fail(input, structures, pos, Error::InvalidPrintableString)
            }
        }
    } else if tag == 0x03 || tag == 0x16 || tag == 0x1E {
        step_fail(input, structures, pos, Error::NotImplemented)
    } else if tag == 0x30 {
        spec_read_structure(input, structures, StructureKind::Ordered, len, pos)
    } else if tag == 0x31 {
        spec_read_structure(input, structures, StructureKind::Unordered, len, pos)
    } else {
        step_fail(input, structures, pos, Error::UnrecognizedType)
    }
}

/// One whole step of the decoder. A cursor standing at the end of the
/// innermost open composite closes it; past that end is an overrun; below
/// it, one tag and one length field are read and the tag's reader decides.
pub open spec fn spec_step(v: ParserView) -> StepResult {
    if v.structures.len() > 0 && v.structures.last().end_position <= v.position {
        if v.structures.last().end_position != v.position {
            step_fail(v.input, v.structures, v.position, Error::StructureOverrun)
        } else {
            StepResult {
                result: Ok(
                    match v.structures.last().kind {
                        StructureKind::Ordered => ValueView::SequenceEnd,
                        StructureKind::Unordered => ValueView::SetEnd,
                    },
                ),
                position: v.position,
                structures: v.structures.drop_last(),
            }
        }
    } else if v.position >= v.input.len() {
        step_fail(v.input, v.structures, v.position, Error::EOF)
    } else {
        let tag = v.input[v.position];
        match spec_read_length(v.input, v.position + 1) {
            Err(e) => step_fail(v.input, v.structures, v.position, e),
            Ok((len, pos)) => spec_read_value(v.input, v.structures, tag, len, pos),
        }
    }
}

/// The view of an executable outcome.
pub open spec fn res_view<'a>(r: Result<Asn1Value<'a>, Error>) -> Result<ValueView, Error> {
    match r {
        Ok(v) => Ok(v@),
        Err(e) => Err(e),
    }
}

/// How an executable call relates to a predicted `StepResult`: the same
/// value or error; on success the predicted cursor and stack, on failure an
/// untouched stack and a cursor that only moved forward.
pub open spec fn conforms(
    pre: ParserView,
    post: ParserView,
    s: StepResult,
    r: Result<ValueView, Error>,
) -> bool {
    &&& post.input == pre.input
    &&& match r {
        Ok(vv) => s.result == Ok::<ValueView, Error>(vv) && post.position == s.position
            && post.structures == s.structures,
        Err(e) => s.result == Err::<ValueView, Error>(e) && post.structures == pre.structures
            && pre.position <= post.position <= post.input.len(),
    }
}

/// A value declared longer than the input that remains is refused with
/// `EOF`, whatever its tag asks of the content: this holds for every tag
/// that consumes its declared content outright, for a boolean of the
/// correct declared length, and for both composites.
pub proof fn lemma_truncated_value_eof(v: ParserView)
    requires
        parser_wf(v),
        v.structures.len() == 0 || v.structures.last().end_position > v.position,
        v.position < v.input.len(),
        spec_read_length(v.input, v.position + 1) matches Ok(t) && t.1 + t.0 > v.input.len() && ({
            let tag = v.input[v.position];
            ||| tag == 0x02
            ||| tag == 0x04
            ||| tag == 0x06
            ||| tag == 0x0C
            ||| tag == 0x13
            ||| tag == 0x30
            ||| tag == 0x31
            ||| (tag == 0x01 && t.0 == 1)
        }),
    ensures
        spec_step(v).result == Err::<ValueView, Error>(Error::EOF),
{
}

/// Short-form round trip: a value whose length byte is below 0x80 declares
/// length L and, when its reader consumes content outright and the content
/// is present, ends with the cursor exactly 1 + 1 + L bytes further on.
pub proof fn lemma_short_form_consumes(v: ParserView)
    requires
        parser_wf(v),
        v.structures.len() == 0 || v.structures.last().end_position > v.position,
        v.position + 2 <= v.input.len(),
        v.input[v.position] == 0x02 || v.input[v.position] == 0x04,
        v.input[v.position + 1] < 0x80,
        v.position + 2 + v.input[v.position + 1] <= v.input.len(),
    ensures
        spec_step(v).result is Ok,
        spec_step(v).position == v.position + 2 + v.input[v.position + 1],
        spec_step(v).structures == v.structures,
{
}

/// Every successful read of a non-composite value declared with a
/// short-form length L lands the cursor exactly 1 + 1 + L bytes further
/// on: one tag byte, one length byte, and the declared content.
pub proof fn lemma_short_form_success_position(v: ParserView)
    requires
        parser_wf(v),
        v.structures.len() == 0 || v.structures.last().end_position > v.position,
        v.position + 2 <= v.input.len(),
        ({
            let tag = v.input[v.position];
            ||| tag == 0x01
            ||| tag == 0x02
            ||| tag == 0x04
            ||| tag == 0x05
            ||| tag == 0x06
            ||| tag == 0x0C
            ||| tag == 0x13
        }),
        v.input[v.position + 1] < 0x80,
        spec_step(v).result is Ok,
    ensures
        spec_step(v).position == v.position + 2 + v.input[v.position + 1],
        spec_step(v).structures == v.structures,
{
}

/// Long-form canonical rule: a long-form length whose first length byte is
/// zero, or whose accumulated value would have fit the short form, is
/// refused as a non-canonical encoding, whatever else the buffer holds.
pub proof fn lemma_long_form_non_canonical(input: Seq<u8>, pos: int)
    requires
        0 <= pos < input.len(),
        input[pos] >= 0x80,
        pow256((input[pos] & 0x7f) as nat) <= usize::MAX as int + 1,
        pos + 1 + (input[pos] & 0x7f) <= input.len(),
        (input[pos] & 0x7f) == 0 || input[pos + 1] == 0 || be_value(
            input.subrange(pos + 1, pos + 1 + (input[pos] & 0x7f)),
        ) < 128,
    ensures
        spec_read_length(input, pos) == Err::<(int, int), Error>(Error::InvalidLengthEncoding),
{
}

/// The first `n` outcomes of a decode session started in state `v`; a
/// failure is terminal, so the sequence ends at the first error.
pub open spec fn spec_outcomes(v: ParserView, n: nat) -> Seq<Result<ValueView, Error>>
    decreases n,
{
    if n == 0 {
        Seq::empty()
    } else {
        let s = spec_step(v);
        match s.result {
            Ok(value) => seq![Ok(value)] + spec_outcomes(
                ParserView { input: v.input, position: s.position, structures: s.structures },
                (n - 1) as nat,
            ),
            Err(e) => seq![Err(e)],
        }
    }
}

/// Decoding is deterministic: two sessions that stand over the same buffer
/// at the same offset with the same open composites produce the same
/// outcomes, however many values are pulled. In particular, decoding one
/// buffer twice from the start yields identical value sequences.
pub proof fn lemma_decoding_deterministic(a: ParserView, b: ParserView, n: nat)
    requires
        a.input == b.input,
        a.position == b.position,
        a.structures == b.structures,
    ensures
        spec_outcomes(a, n) == spec_outcomes(b, n),
{
    assert(a =~= b);
}

/// The number of bytes in a `usize`, measured by shrinking its largest
/// value byte by byte; the ensures pins it against `usize::MAX` itself.
fn usize_bytes() -> (n: usize)
    ensures
        1 <= n <= 8,
        pow256(n as nat) == usize::MAX as int + 1,
{
    let mut surviving: usize = usize::MAX;
    let mut count: usize = 0;
    proof {
        assert(pow256(0) == 1);
        lemma_div_basics(usize::MAX as int);
    }
    while surviving != 0
        invariant
            0 <= count <= 8,
            surviving as int == usize::MAX as int / pow256(count as nat),
            count > 0 ==> usize::MAX as int >= pow256((count - 1) as nat),
        decreases surviving,
    {
        proof {
            lemma_pow256_pos(count as nat);
            lemma_fundamental_div_mod(usize::MAX as int, pow256(count as nat));
            lemma_mul_inequality(
                1,
                usize::MAX as int / pow256(count as nat),
                pow256(count as nat),
            );
            assert(usize::MAX as int >= pow256(count as nat));
            assert(pow256(0) == 1);
            assert(pow256(1) == 256);
            assert(pow256(2) == 0x10000);
            assert(pow256(3) == 0x1000000);
            assert(pow256(4) == 0x100000000);
            assert(pow256(5) == 0x10000000000);
            assert(pow256(6) == 0x1000000000000);
            assert(pow256(7) == 0x100000000000000);
            assert(pow256(8) == 0x10000000000000000);
            if count >= 8 {
                lemma_pow256_mono(8, count as nat);
                assert(false);
            }
            lemma_div_denominator(usize::MAX as int, pow256(count as nat), 256);
        }
        surviving = surviving / 256;
        count = count + 1;
    }
    proof {
        assert(pow256(0) == 1);
        lemma_div_basics(usize::MAX as int);
        assert(count > 0);
        lemma_pow256_pos(count as nat);
        lemma_fundamental_div_mod(usize::MAX as int, pow256(count as nat));
        assert((usize::MAX as int) < pow256(count as nat));
        assert(pow256(1) == 256);
        assert(pow256(2) == 0x10000);
        assert(pow256(3) == 0x1000000);
        assert(pow256(4) == 0x100000000);
        assert(pow256(5) == 0x10000000000);
        assert(pow256(6) == 0x1000000000000);
        assert(pow256(7) == 0x100000000000000);
        assert(pow256(8) == 0x10000000000000000);
        assert(usize::MAX == u32::MAX || usize::MAX == u64::MAX);
        if usize::MAX == u32::MAX {
            if count <= 3 {
                lemma_pow256_mono(count as nat, 3);
                assert(false);
            }
            if count >= 5 {
                lemma_pow256_mono(4, (count - 1) as nat);
                assert(false);
            }
        } else {
            if count <= 7 {
                lemma_pow256_mono(count as nat, 7);
                assert(false);
            }
            if count >= 9 {
                lemma_pow256_mono(8, (count - 1) as nat);
                assert(false);
            }
        }
    }
    count
}

/// The streaming decoder: an immutable input buffer, a cursor, and the
/// stack of composites whose ends are still pending.
pub struct Parser<'a> {
    input: &'a [u8],
    position: usize,
    structures: Vec<Structure>,
}

impl<'a> View for Parser<'a> {
    type V = ParserView;

    closed spec fn view(&self) -> ParserView {
        ParserView {
            input: self.input@,
            position: self.position as int,
            structures: self.structures@,
        }
    }
}

impl<'a> Parser<'a> {
    /// A fresh decode session over `input`, at its start, with no open
    /// composite.
    pub fn new(input: &'a [u8]) -> (r: Parser<'a>)
        ensures
            r@.input == input@,
            r@.position == 0,
            r@.structures == Seq::<Structure>::empty(),
            parser_wf(r@),
    {
        Parser { input, position: 0, structures: Vec::new() }
    }

    /// The byte under the cursor, advancing past it; `EOF` when none is left.
    fn consume_one(&mut self) -> (r: Result<u8, Error>)
        requires
            parser_wf(old(self)@),
        ensures
            parser_wf(final(self)@),
            final(self)@.input == old(self)@.input,
            final(self)@.structures == old(self)@.structures,
            match r {
                Ok(b) => old(self)@.position < old(self)@.input.len() && b == old(self)@.input[old(self)@.position] && final(self)@.position == old(self)@.position + 1,
                Err(e) => e == Error::EOF && old(self)@.position >= old(self)@.input.len() && final(self)@.position == old(self)@.position,
            },
    {
        match self.input.get(self.position) {
            Some(x) => {
                let b = *x;
                self.position = self.position + 1;
                Ok(b)
            },
            None => Err(Error::EOF),
        }
    }

    /// The next `count` bytes as a slice, advancing past them; `EOF` when
    /// fewer remain.
    fn consume(&mut self, count: usize) -> (r: Result<&'a [u8], Error>)
        requires
            parser_wf(old(self)@),
        ensures
            parser_wf(final(self)@),
            final(self)@.input == old(self)@.input,
            final(self)@.structures == old(self)@.structures,
            match r {
                Ok(s) => old(self)@.position + count <= old(self)@.input.len() && s@ == old(self)@.input.subrange(old(self)@.position, old(self)@.position + count) && final(self)@.position == old(self)@.position + count,
                Err(e) => e == Error::EOF && old(self)@.position + count > old(self)@.input.len() && final(self)@.position == old(self)@.position,
            },
    {
        // The somewhat strange test avoids overflow on an absurd count.
        if count > self.input.len() || self.input.len() - count < self.position {
            return Err(Error::EOF);
        }
        let result = slice_subrange(self.input, self.position, self.position + count);
        self.position = self.position + count;
        Ok(result)
    }

    /// Reads one length field, in the short or the canonical long form.
    fn read_length(&mut self) -> (r: Result<usize, Error>)
        requires
            parser_wf(old(self)@),
        ensures
            parser_wf(final(self)@),
            final(self)@.input == old(self)@.input,
            final(self)@.structures == old(self)@.structures,
            match r {
                Ok(l) => spec_read_length(old(self)@.input, old(self)@.position) == Ok::<
                    (int, int),
                    Error,
                >((l as int, final(self)@.position)),
                Err(e) => spec_read_length(old(self)@.input, old(self)@.position) == Err::<
                    (int, int),
                    Error,
                >(e) && old(self)@.position <= final(self)@.position,
            },
    {
        let initial = match self.consume_one() {
            Ok(x) => x,
            Err(e) => {
                return Err(e);
            },
        };
        if initial < 0x80 {
            return Ok(initial as usize);
        }
        let length_byte_count = (initial & 0x7f) as usize;
        let n = usize_bytes();
        if length_byte_count > n {
            proof {
                lemma_pow256_strict(n as nat, length_byte_count as nat);
            }
            return Err(Error::OverlongLength);
        }
        proof {
            lemma_pow256_mono(length_byte_count as nat, n as nat);
        }
        let length_bytes = match self.consume(length_byte_count) {
            Ok(s) => s,
            Err(e) => {
                return Err(e);
            },
        };
        if length_bytes.len() == 0 {
            return Err(Error::InvalidLengthEncoding);
        }
        let msb = *slice_index_get(length_bytes, 0);
        if msb == 0 {
            // The most significant byte being 0 means this uses needlessly many bytes.
            return Err(Error::InvalidLengthEncoding);
        }
        let mut accumulator: usize = 0;
        let mut i: usize = 0;
        proof {
            assert(length_bytes@.take(0) =~= Seq::<u8>::empty());
        }
        while i < length_bytes.len()
            invariant
                i <= length_bytes@.len(),
                accumulator == be_value(length_bytes@.take(i as int)),
            decreases length_bytes@.len() - i,
        {
            proof {
                lemma_be_value_bound(length_bytes@.take(i as int));
                assert(pow256(i as nat + 1) == 256 * pow256(i as nat));
                lemma_pow256_mono(i as nat + 1, length_bytes@.len() as nat);
                lemma_pow256_mono(length_bytes@.len() as nat, n as nat);
                assert(length_bytes@.take(i as int).push(length_bytes@[i as int])
                    =~= length_bytes@.take(i as int + 1));
                lemma_be_value_push(length_bytes@.take(i as int), length_bytes@[i as int]);
            }
            let b = *slice_index_get(length_bytes, i);
            accumulator = accumulator * 256 + (b as usize);
            i = i + 1;
        }
        proof {
            assert(length_bytes@.take(length_bytes@.len() as int) =~= length_bytes@);
        }
        if accumulator < 128 {
            return Err(Error::InvalidLengthEncoding);  // should have used the one-byte form
        }
        Ok(accumulator)
    }

    /// A boolean is exactly one content byte: 0x00 or 0xff.
    fn read_boolean(&mut self, length: usize) -> (r: Result<Asn1Value<'a>, Error>)
        requires
            parser_wf(old(self)@),
        ensures
            parser_wf(final(self)@),
            conforms(
                old(self)@,
                final(self)@,
                spec_read_value(
                    old(self)@.input,
                    old(self)@.structures,
                    0x01,
                    length as int,
                    old(self)@.position,
                ),
                res_view(r),
            ),
    {
        if length != 1 {
            return Err(Error::IncorrectLength);
        }
        match self.consume_one() {
            Ok(0x00) => Ok(Asn1Value::Boolean(false)),
            Ok(0xff) => Ok(Asn1Value::Boolean(true)),
            Ok(_) => Err(Error::Malformed),
            Err(e) => Err(e),
        }
    }

    /// An integer's content bytes are captured as they stand.
    fn read_integer(&mut self, length: usize) -> (r: Result<Asn1Value<'a>, Error>)
        requires
            parser_wf(old(self)@),
        ensures
            parser_wf(final(self)@),
            conforms(
                old(self)@,
                final(self)@,
                spec_read_value(
                    old(self)@.input,
                    old(self)@.structures,
                    0x02,
                    length as int,
                    old(self)@.position,
                ),
                res_view(r),
            ),
    {
        match self.consume(length) {
            Ok(bytes) => Ok(Asn1Value::Integer(Integer::new(bytes))),
            Err(e) => Err(e),
        }
    }

    /// Bit strings are deliberately not decoded.
    fn read_bit_string(&mut self, length: usize) -> (r: Result<Asn1Value<'a>, Error>)
        requires
            parser_wf(old(self)@),
        ensures
            parser_wf(final(self)@),
            conforms(
                old(self)@,
                final(self)@,
                spec_read_value(
                    old(self)@.input,
                    old(self)@.structures,
                    0x03,
                    length as int,
                    old(self)@.position,
                ),
                res_view(r),
            ),
    {
        Err(Error::NotImplemented)
    }

    /// An octet string is the raw content slice.
    fn read_octet_string(&mut self, length: usize) -> (r: Result<Asn1Value<'a>, Error>)
        requires
            parser_wf(old(self)@),
        ensures
            parser_wf(final(self)@),
            conforms(
                old(self)@,
                final(self)@,
                spec_read_value(
                    old(self)@.input,
                    old(self)@.structures,
                    0x04,
                    length as int,
                    old(self)@.position,
                ),
                res_view(r),
            ),
    {
        match self.consume(length) {
            Ok(bytes) => Ok(Asn1Value::OctetString(bytes)),
            Err(e) => Err(e),
        }
    }

    /// A null value carries no content at all.
    fn read_null(&mut self, length: usize) -> (r: Result<Asn1Value<'a>, Error>)
        requires
            parser_wf(old(self)@),
        ensures
            parser_wf(final(self)@),
            conforms(
                old(self)@,
                final(self)@,
                spec_read_value(
                    old(self)@.input,
                    old(self)@.structures,
                    0x05,
                    length as int,
                    old(self)@.position,
                ),
                res_view(r),
            ),
    {
        if length != 0 {
            return Err(Error::IncorrectLength);
        }
        Ok(Asn1Value::Null)
    }

    /// The content bytes are validated by the object identifier's own
    /// constructor.
    fn read_object_identifier(&mut self, length: usize) -> (r: Result<Asn1Value<'a>, Error>)
        requires
            parser_wf(old(self)@),
        ensures
            parser_wf(final(self)@),
            conforms(
                old(self)@,
                final(self)@,
                spec_read_value(
                    old(self)@.input,
                    old(self)@.structures,
                    0x06,
                    length as int,
                    old(self)@.position,
                ),
                res_view(r),
            ),
    {
        let oid_bytes = match self.consume(length) {
            Ok(bytes) => bytes,
            Err(e) => {
                return Err(e);
            },
        };
        match ObjectIdentifier::new(oid_bytes) {
            Ok(oid) => Ok(Asn1Value::ObjectIdentifier(oid)),
            Err(e) => Err(e),
        }
    }

    /// The content bytes must be valid UTF-8.
    fn read_utf8_string(&mut self, length: usize) -> (r: Result<Asn1Value<'a>, Error>)
        requires
            parser_wf(old(self)@),
        ensures
            parser_wf(final(self)@),
            conforms(
                old(self)@,
                final(self)@,
                spec_read_value(
                    old(self)@.input,
                    old(self)@.structures,
                    0x0C,
                    length as int,
                    old(self)@.position,
                ),
                res_view(r),
            ),
    {
        let utf8_bytes = match self.consume(length) {
            Ok(bytes) => bytes,
            Err(e) => {
                return Err(e);
            },
        };
        match bytes_as_utf8(utf8_bytes) {
            Some(s) => Ok(Asn1Value::Utf8String(s)),
            None => Err(Error::InvalidUTF8),
        }
    }

    /// The content bytes must pass the printable repertoire, and are then a
    /// string as well.
    fn read_printable_string(&mut self, length: usize) -> (r: Result<Asn1Value<'a>, Error>)
        requires
            parser_wf(old(self)@),
        ensures
            parser_wf(final(self)@),
            conforms(
                old(self)@,
                final(self)@,
                spec_read_value(
                    old(self)@.input,
                    old(self)@.structures,
                    0x13,
                    length as int,
                    old(self)@.position,
                ),
                res_view(r),
            ),
    {
        let bs = match self.consume(length) {
            Ok(bytes) => bytes,
            Err(e) => {
                return Err(e);
            },
        };
        match to_printable_string(bs) {
            Ok(s) => Ok(Asn1Value::PrintableString(s)),
            Err(e) => Err(e),
        }
    }

    /// IA5 strings are deliberately not decoded.
    fn read_ia5_string(&mut self, length: usize) -> (r: Result<Asn1Value<'a>, Error>)
        requires
            parser_wf(old(self)@),
        ensures
            parser_wf(final(self)@),
            conforms(
                old(self)@,
                final(self)@,
                spec_read_value(
                    old(self)@.input,
                    old(self)@.structures,
                    0x16,
                    length as int,
                    old(self)@.position,
                ),
                res_view(r),
            ),
    {
        Err(Error::NotImplemented)
    }

    /// Wide strings are deliberately not decoded.
    fn read_bmp_string(&mut self, length: usize) -> (r: Result<Asn1Value<'a>, Error>)
        requires
            parser_wf(old(self)@),
        ensures
            parser_wf(final(self)@),
            conforms(
                old(self)@,
                final(self)@,
                spec_read_value(
                    old(self)@.input,
                    old(self)@.structures,
                    0x1E,
                    length as int,
                    old(self)@.position,
                ),
                res_view(r),
            ),
    {
        Err(Error::NotImplemented)
    }

    /// Validates that the declared content fits the innermost open frame (or
    /// the buffer) and pushes the new frame; the content itself is consumed
    /// by the calls that follow.
    fn read_structure(&mut self, length: usize, kind: StructureKind) -> (r: Result<
        Asn1Value<'a>,
        Error,
    >)
        requires
            parser_wf(old(self)@),
        ensures
            parser_wf(final(self)@),
            conforms(
                old(self)@,
                final(self)@,
                spec_read_structure(
                    old(self)@.input,
                    old(self)@.structures,
                    kind,
                    length as int,
                    old(self)@.position,
                ),
                res_view(r),
            ),
    {
        let maximum_allowed_end = if self.structures.len() > 0 {
            self.structures[self.structures.len() - 1].end_position
        } else {
            self.input.len()
        };
        if length > maximum_allowed_end || self.position > maximum_allowed_end - length {
            return Err(Error::EOF);
        }
        self.structures.push(Structure { kind, end_position: self.position + length });
        Ok(
            match kind {
                StructureKind::Ordered => Asn1Value::SequenceStart,
                StructureKind::Unordered => Asn1Value::SetStart,
            },
        )
    }

    fn read_sequence(&mut self, length: usize) -> (r: Result<Asn1Value<'a>, Error>)
        requires
            parser_wf(old(self)@),
        ensures
            parser_wf(final(self)@),
            conforms(
                old(self)@,
                final(self)@,
                spec_read_value(
                    old(self)@.input,
                    old(self)@.structures,
                    0x30,
                    length as int,
                    old(self)@.position,
                ),
                res_view(r),
            ),
    {
        self.read_structure(length, StructureKind::Ordered)
    }

    fn read_set(&mut self, length: usize) -> (r: Result<Asn1Value<'a>, Error>)
        requires
            parser_wf(old(self)@),
        ensures
            parser_wf(final(self)@),
            conforms(
                old(self)@,
                final(self)@,
                spec_read_value(
                    old(self)@.input,
                    old(self)@.structures,
                    0x31,
                    length as int,
                    old(self)@.position,
                ),
                res_view(r),
            ),
    {
        self.read_structure(length, StructureKind::Unordered)
    }

    /// One decoding step, exactly as `spec_step` predicts from the state
    /// before the call: closes a composite whose end the cursor has reached,
    /// or reads one tag, one length field, and one value.
    pub fn next(&mut self) -> (r: Result<Asn1Value<'a>, Error>)
        requires
            parser_wf(old(self)@),
        ensures
            parser_wf(final(self)@),
            conforms(old(self)@, final(self)@, spec_step(old(self)@), res_view(r)),
    {
        if self.structures.len() > 0 {
            let innermost = self.structures[self.structures.len() - 1];
            if innermost.end_position <= self.position {
                if innermost.end_position != self.position {
                    return Err(Error::StructureOverrun);
                }
                let _closed = self.structures.pop();
                return Ok(
                    match innermost.kind {
                        StructureKind::Ordered => Asn1Value::SequenceEnd,
                        StructureKind::Unordered => Asn1Value::SetEnd,
                    },
                );
            }
        }
        let value_type = match self.consume_one() {
            Ok(x) => x,
            Err(e) => {
                return Err(e);
            },
        };
        let length = match self.read_length() {
            Ok(x) => x,
            Err(e) => {
                return Err(e);
            },
        };
        match value_type {
            0x01 => self.read_boolean(length),
            0x02 => self.read_integer(length),
            0x03 => self.read_bit_string(length),
            0x04 => self.read_octet_string(length),
            0x05 => self.read_null(length),
            0x06 => self.read_object_identifier(length),
            0x0C => self.read_utf8_string(length),
            0x13 => self.read_printable_string(length),
            0x16 => self.read_ia5_string(length),
            0x1E => self.read_bmp_string(length),
            0x30 => self.read_sequence(length),
            0x31 => self.read_set(length),
            _ => Err(Error::UnrecognizedType),
        }
    }
}

} // verus!
