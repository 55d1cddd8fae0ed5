//! Identifiers and amounts shared by the ledger structures.
use vstd::prelude::*;

verus! {

/// A 256-bit value, held as four big-endian 64-bit words: `w0` is the most
/// significant, so the derived order is the order of the 32 bytes.
#[derive(Clone, Copy, Debug, PartialOrd, Ord, Hash)]
pub struct H256 {
    pub w0: u64,
    pub w1: u64,
    pub w2: u64,
    pub w3: u64,
}

impl PartialEq for H256 {
    fn eq(&self, o: &H256) -> (r: bool) {
        let r = self.w0 == o.w0 && self.w1 == o.w1 && self.w2 == o.w2 && self.w3 == o.w3;
        proof {
            if r {
                assert(*self == *o);
            }
        }
        r
    }
}

impl Eq for H256 {
}

impl vstd::std_specs::cmp::PartialEqSpecImpl for H256 {
    open spec fn obeys_eq_spec() -> bool {
        true
    }

    open spec fn eq_spec(&self, o: &H256) -> bool {
        *self == *o
    }
}

pub open spec fn u64_be_bytes(x: u64) -> Seq<u8> {
    seq![
        (x >> 56u64) as u8,
        (x >> 48u64) as u8,
        (x >> 40u64) as u8,
        (x >> 32u64) as u8,
        (x >> 24u64) as u8,
        (x >> 16u64) as u8,
        (x >> 8u64) as u8,
        x as u8,
    ]
}

pub open spec fn u64_from_be(b: Seq<u8>) -> u64 {
    ((b[0] as u64) << 56u64) | ((b[1] as u64) << 48u64) | ((b[2] as u64) << 40u64) | ((b[3] as u64)
        << 32u64) | ((b[4] as u64) << 24u64) | ((b[5] as u64) << 16u64) | ((b[6] as u64) << 8u64)
        | (b[7] as u64)
}

fn push_u64_be(out: &mut Vec<u8>, x: u64)
    ensures
        final(out)@ == old(out)@ + u64_be_bytes(x),
{
    out.push((x >> 56u64) as u8);
    out.push((x >> 48u64) as u8);
    out.push((x >> 40u64) as u8);
    out.push((x >> 32u64) as u8);
    out.push((x >> 24u64) as u8);
    out.push((x >> 16u64) as u8);
    out.push((x >> 8u64) as u8);
    out.push(x as u8);
    assert(final(out)@ =~= old(out)@ + u64_be_bytes(x));
}

fn read_u64_be(b: &[u8; 32], start: usize) -> (r: u64)
    requires
        start + 8 <= 32,
    ensures
        r == u64_from_be(b@.subrange(start as int, start + 8)),
{
    ((b[start] as u64) << 56u64) | ((b[start + 1] as u64) << 48u64) | ((b[start + 2] as u64)
        << 40u64) | ((b[start + 3] as u64) << 32u64) | ((b[start + 4] as u64) << 24u64) | ((
    b[start + 5] as u64) << 16u64) | ((b[start + 6] as u64) << 8u64) | (b[start + 7] as u64)
}

/// An `H256` as an ordered key: its four words, most significant first, so
/// keys order as the values' bytes do.
pub type H256Key = (u64, u64, u64, u64);

pub open spec fn key_of_h256(h: H256) -> H256Key {
    (h.w0, h.w1, h.w2, h.w3)
}

impl H256 {
    pub fn ordered_key(&self) -> (k: H256Key)
        ensures
            k == key_of_h256(*self),
    {
        (self.w0, self.w1, self.w2, self.w3)
    }

    /// The 32 bytes of the value, most significant first.
    pub open spec fn spec_bytes(self) -> Seq<u8> {
        u64_be_bytes(self.w0) + u64_be_bytes(self.w1) + u64_be_bytes(self.w2) + u64_be_bytes(
            self.w3,
        )
    }

    pub fn zero() -> (r: H256)
        ensures
            r == (H256 { w0: 0, w1: 0, w2: 0, w3: 0 }),
    {
        H256 { w0: 0, w1: 0, w2: 0, w3: 0 }
    }

    /// The value `x`: zero in the upper 24 bytes, `x` big-endian in the lower 8.
    pub fn from_low_u64_be(x: u64) -> (r: H256)
        ensures
            r == (H256 { w0: 0, w1: 0, w2: 0, w3: x }),
    {
        H256 { w0: 0, w1: 0, w2: 0, w3: x }
    }

    /// The value whose bytes, most significant first, are `b`.
    pub fn from_bytes(b: [u8; 32]) -> (r: H256)
        ensures
            r.w0 == u64_from_be(b@.subrange(0, 8)),
            r.w1 == u64_from_be(b@.subrange(8, 16)),
            r.w2 == u64_from_be(b@.subrange(16, 24)),
            r.w3 == u64_from_be(b@.subrange(24, 32)),
    {
        H256 {
            w0: read_u64_be(&b, 0),
            w1: read_u64_be(&b, 8),
            w2: read_u64_be(&b, 16),
            w3: read_u64_be(&b, 24),
        }
    }

    /// Appends the 32 bytes of the value, most significant first, to `out`.
    pub fn write_bytes(&self, out: &mut Vec<u8>)
        ensures
            final(out)@ == old(out)@ + self.spec_bytes(),
    {
        push_u64_be(out, self.w0);
        push_u64_be(out, self.w1);
        push_u64_be(out, self.w2);
        push_u64_be(out, self.w3);
        assert(final(out)@ =~= old(out)@ + self.spec_bytes());
    }

    pub fn to_bytes(&self) -> (r: Vec<u8>)
        ensures
            r@ == self.spec_bytes(),
            r@.len() == 32,
    {
        let mut out: Vec<u8> = Vec::new();
        self.write_bytes(&mut out);
        assert(out@ =~= self.spec_bytes());
        out
    }
}

} // verus!
