use vstd::prelude::*;
use vstd::slice::slice_index_get;

verus! {

/// The big-endian value of a byte sequence: each byte shifts the accumulated
/// value up by eight bits and contributes its own value below it.
pub open spec fn be_value(s: Seq<u8>) -> int
    decreases s.len(),
{
    if s.len() == 0 {
        0
    } else {
        256 * be_value(s.drop_last()) + s.last()
    }
}

/// `256^n`: bounds the big-endian value of a sequence of `n` bytes.
pub open spec fn pow256(n: nat) -> int
    decreases n,
{
    if n == 0 {
        1
    } else {
        256 * pow256((n - 1) as nat)
    }
}

pub proof fn lemma_pow256_pos(n: nat)
    ensures
        pow256(n) > 0,
    decreases n,
{
    if n > 0 {
        lemma_pow256_pos((n - 1) as nat);
    }
}

pub proof fn lemma_pow256_mono(a: nat, b: nat)
    requires
        a <= b,
    ensures
        0 < pow256(a) <= pow256(b),
    decreases b,
{
    if a == b {
        lemma_pow256_pos(a);
    } else {
        lemma_pow256_mono(a, (b - 1) as nat);
    }
}

pub proof fn lemma_pow256_strict(a: nat, b: nat)
    requires
        a < b,
    ensures
        pow256(a) < pow256(b),
    decreases b,
{
    if a + 1 == b {
        lemma_pow256_pos(a);
    } else {
        lemma_pow256_strict(a, (b - 1) as nat);
        lemma_pow256_pos((b - 1) as nat);
    }
}

/// A big-endian byte sequence of length `n` is always below `256^n`.
pub proof fn lemma_be_value_bound(s: Seq<u8>)
    ensures
        0 <= be_value(s) < pow256(s.len()),
    decreases s.len(),
{
    if s.len() > 0 {
        lemma_be_value_bound(s.drop_last());
    }
}

/// Extending a big-endian byte sequence by one byte multiplies its value by
/// 256 and adds the new byte.
pub proof fn lemma_be_value_push(s: Seq<u8>, b: u8)
    ensures
        be_value(s.push(b)) == 256 * be_value(s) + b,
{
    assert(s.push(b).drop_last() =~= s);
}

/// A zero-copy capture of the content bytes of an integer value. No
/// interpretation happens at construction; the fixed-width accessors fold the
/// bytes big-endian on demand and refuse slices wider than the target.
#[derive(Debug, PartialEq)]
pub struct Integer<'a>(&'a [u8]);

impl<'a> View for Integer<'a> {
    type V = Seq<u8>;

    closed spec fn view(&self) -> Seq<u8> {
        self.0@
    }
}

impl<'a> Integer<'a> {
    pub fn new(bytes: &'a [u8]) -> (r: Integer<'a>)
        ensures
            r@ == bytes@,
    {
        Integer(bytes)
    }

    /// The big-endian value of at most one byte; `None` on a wider capture.
    /// As with the wider accessors, an empty capture folds to zero.
    pub fn as_u8(&self) -> (r: Option<u8>)
        ensures
            r is Some <==> self@.len() <= 1,
            r matches Some(v) ==> v == be_value(self@),
    {
        if self.0.len() > 1 {
            return None;
        }
        if self.0.len() == 0 {
            Some(0)
        } else {
            proof {
                assert(be_value(Seq::<u8>::empty()) == 0);
                assert(self.0@.drop_last() =~= Seq::<u8>::empty());
                assert(be_value(self.0@) == self.0@.last());
            }
            Some(*slice_index_get(self.0, 0))
        }
    }

    /// The big-endian value of at most four bytes; `None` on a wider capture.
    pub fn as_u32(&self) -> (r: Option<u32>)
        ensures
            r is Some <==> self@.len() <= 4,
            r matches Some(v) ==> v == be_value(self@),
    {
        if self.0.len() > 4 {
            return None;
        }
        let mut acc: u32 = 0;
        let mut i: usize = 0;
        while i < self.0.len()
            invariant
                i <= self.0@.len() <= 4,
                acc == be_value(self.0@.take(i as int)),
            decreases self.0@.len() - i,
        {
            proof {
                lemma_be_value_bound(self.0@.take(i as int));
                lemma_pow256_mono(i as nat, 3);
                assert(pow256(1) == 256 * pow256(0));
                assert(pow256(2) == 256 * pow256(1));
                assert(pow256(3) == 256 * pow256(2));
                assert(self.0@.take(i as int).push(self.0@[i as int]) =~= self.0@.take(
                    i as int + 1,
                ));
                lemma_be_value_push(self.0@.take(i as int), self.0@[i as int]);
            }
            let b = *slice_index_get(self.0, i);
            acc = acc * 256 + (b as u32);
            i = i + 1;
        }
        proof {
            assert(self.0@.take(self.0@.len() as int) =~= self.0@);
        }
        Some(acc)
    }

    /// The big-endian value of at most eight bytes; `None` on a wider capture.
    pub fn as_u64(&self) -> (r: Option<u64>)
        ensures
            r is Some <==> self@.len() <= 8,
            r matches Some(v) ==> v == be_value(self@),
    {
        if self.0.len() > 8 {
            return None;
        }
        let mut acc: u64 = 0;
        let mut i: usize = 0;
        while i < self.0.len()
            invariant
                i <= self.0@.len() <= 8,
                acc == be_value(self.0@.take(i as int)),
            decreases self.0@.len() - i,
        {
            proof {
                lemma_be_value_bound(self.0@.take(i as int));
                lemma_pow256_mono(i as nat, 7);
                assert(pow256(1) == 256 * pow256(0));
                assert(pow256(2) == 256 * pow256(1));
                assert(pow256(3) == 256 * pow256(2));
                assert(pow256(4) == 256 * pow256(3));
                assert(pow256(5) == 256 * pow256(4));
                assert(pow256(6) == 256 * pow256(5));
                assert(pow256(7) == 256 * pow256(6));
                assert(self.0@.take(i as int).push(self.0@[i as int]) =~= self.0@.take(
                    i as int + 1,
                ));
                lemma_be_value_push(self.0@.take(i as int), self.0@[i as int]);
            }
            let b = *slice_index_get(self.0, i);
            acc = acc * 256 + (b as u64);
            i = i + 1;
        }
        proof {
            assert(self.0@.take(self.0@.len() as int) =~= self.0@);
        }
        Some(acc)
    }

    /// The raw content bytes, available whatever their width.
    pub fn as_bytes(&self) -> (r: &'a [u8])
        ensures
            r@ == self@,
    {
        self.0
    }
}

} // verus!
