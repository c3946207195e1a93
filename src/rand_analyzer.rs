use crate::rng_lc::draw;
use crate::types::{IVGroup, Rand, Seed, IV};
use vstd::prelude::*;

verus! {

/// Three individual values packed into one 16-bit output: `a | b << 5 | c << 10`.
pub open spec fn pack_ivs(a: u8, b: u8, c: u8) -> u16 {
    (a as u16) | ((b as u16) << 5u16) | ((c as u16) << 10u16)
}

/// The three individual values that a 16-bit output carries, lowest bits first.
pub open spec fn unpack_ivs(r: u16) -> Seq<u8> {
    seq![(r % 32) as u8, ((r / 32) % 32) as u8, ((r / 1024) % 32) as u8]
}

/// The 32-bit state whose high half is `hi` and low half `lo`.
pub open spec fn join_rands(hi: u16, lo: u16) -> u32 {
    (hi as int * 0x10000 + lo as int) as u32
}

/// Packing three values of five bits each is the sum of their weighted digits.
pub proof fn lemma_pack_ivs_value(a: u8, b: u8, c: u8)
    requires
        a < 32,
        b < 32,
        c < 32,
    ensures
        pack_ivs(a, b, c) == a as int + 32 * (b as int) + 1024 * (c as int),
{
    assert(pack_ivs(a, b, c) == a as int + 32 * (b as int) + 1024 * (c as int)) by (bit_vector)
        requires
            a < 32,
            b < 32,
            c < 32,
    ;
}

/// Unpacking a packed triple of values below 32 gives the triple back.
pub proof fn lemma_unpack_pack(a: u8, b: u8, c: u8)
    requires
        a < 32,
        b < 32,
        c < 32,
    ensures
        unpack_ivs(pack_ivs(a, b, c)) == seq![a, b, c],
{
    lemma_pack_ivs_value(a, b, c);
    let r = pack_ivs(a, b, c);
    assert(r / 32 == b as int + 32 * (c as int));
    assert(r / 1024 == c as int);
    assert(unpack_ivs(r) =~= seq![a, b, c]);
}

/// A 16-bit output is its three packed values plus its top bit.
pub proof fn lemma_pack_unpack(r: u16)
    ensures
        pack_ivs(unpack_ivs(r)[0], unpack_ivs(r)[1], unpack_ivs(r)[2]) + (r / 0x8000) * 0x8000
            == r,
{
    let a = (r % 32) as u8;
    let b = ((r / 32) % 32) as u8;
    let c = ((r / 1024) % 32) as u8;
    lemma_pack_ivs_value(a, b, c);
}

/// The extraction of 16-bit outputs and packed values from generator states.
pub struct RandAnalyzer {}

impl RandAnalyzer {
    pub fn new() -> Self {
        RandAnalyzer {  }
    }

    pub fn extract_rand(&self, seed: Seed) -> (r: Rand)
        ensures
            r == draw(seed),
    {
        assert(seed >> 16 == seed / 0x10000) by (bit_vector);
        (seed >> 16) as Rand
    }

    pub fn rands_to_seed(&self, rand_high: Rand, rand_low: Rand) -> (r: Seed)
        ensures
            r == join_rands(rand_high, rand_low),
            r as int == rand_high as int * 0x10000 + rand_low as int,
    {
        let r: u32 = (rand_high as Seed) << 16 | (rand_low as Seed);
        assert(((rand_high as u32) << 16 | (rand_low as u32)) == rand_high as int * 0x10000
            + rand_low as int) by (bit_vector);
        r
    }

    pub fn iv_group_to_rand(&self, iv_group: IVGroup) -> (r: Rand)
        ensures
            r == pack_ivs(iv_group[0], iv_group[1], iv_group[2]),
    {
        let rand: u16 = (iv_group[0] as u16) | (iv_group[1] as u16) << 5 | (iv_group[2] as u16)
            << 10;
        assert(rand & 0xffff == rand) by (bit_vector);
        rand & 0xffff
    }

    pub fn rand_to_iv_group(&self, rand: Rand) -> (r: IVGroup)
        ensures
            r@ == unpack_ivs(rand),
    {
        assert(rand & 0x1f == rand % 32) by (bit_vector);
        assert((rand >> 5) & 0x1f == (rand / 32) % 32) by (bit_vector);
        assert((rand >> 10) & 0x1f == (rand / 1024) % 32) by (bit_vector);
        let r: IVGroup = [
            (rand & 0x1f) as IV,
            ((rand >> 5) & 0x1f) as IV,
            ((rand >> 10) & 0x1f) as IV,
        ];
        assert(r@ =~= unpack_ivs(rand));
        r
    }
}

} // verus!
