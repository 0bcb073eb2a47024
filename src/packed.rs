use vstd::prelude::*;

verus! {

/// Four bytes laid out one after the other, read by the renderer as one integer.
#[allow(non_camel_case_types)]
#[derive(Copy, Clone, Debug, PartialEq, Eq, Structural)]
pub struct u8_u8_u8_u8 {
    pub d0: u8,
    pub d1: u8,
    pub d2: u8,
    pub d3: u8,
}

/// The integer whose little-endian bytes are d0, d1, d2, d3.
pub open spec fn pack_bytes(d0: u8, d1: u8, d2: u8, d3: u8) -> int {
    d0 + 256 * d1 + 65536 * d2 + 16777216 * d3
}

proof fn lemma_base_256_digit(a: int, p: int, b: int, q: int)
    requires
        0 <= a < 256,
        0 <= b < 256,
        a + 256 * p == b + 256 * q,
    ensures
        a == b,
        p == q,
{
}

/// Packing four bytes into one integer loses nothing.
pub proof fn lemma_pack_injective(a: u8_u8_u8_u8, b: u8_u8_u8_u8)
    requires
        pack_bytes(a.d0, a.d1, a.d2, a.d3) == pack_bytes(b.d0, b.d1, b.d2, b.d3),
    ensures
        a == b,
{
    let ha = a.d2 + 256 * (a.d3 as int);
    let hb = b.d2 + 256 * (b.d3 as int);
    let ma = a.d1 + 256 * ha;
    let mb = b.d1 + 256 * hb;
    assert(pack_bytes(a.d0, a.d1, a.d2, a.d3) == a.d0 + 256 * ma);
    assert(pack_bytes(b.d0, b.d1, b.d2, b.d3) == b.d0 + 256 * mb);
    lemma_base_256_digit(a.d0 as int, ma, b.d0 as int, mb);
    lemma_base_256_digit(a.d1 as int, ha, b.d1 as int, hb);
    lemma_base_256_digit(a.d2 as int, a.d3 as int, b.d2 as int, b.d3 as int);
}

impl u8_u8_u8_u8 {
    pub fn new(d0: u8, d1: u8, d2: u8, d3: u8) -> (r: u8_u8_u8_u8)
        ensures
            r == (u8_u8_u8_u8 { d0, d1, d2, d3 }),
    {
        u8_u8_u8_u8 { d0, d1, d2, d3 }
    }

    /// The four bytes as one integer, the first byte lowest.
    pub fn as_u32(&self) -> (r: u32)
        ensures
            r == pack_bytes(self.d0, self.d1, self.d2, self.d3),
    {
        self.d0 as u32 + (self.d1 as u32) * 256 + (self.d2 as u32) * 65536 + (self.d3 as u32)
            * 16777216
    }
}

} // verus!
