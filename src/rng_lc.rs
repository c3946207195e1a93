use crate::types::Seed;
use vstd::arithmetic::div_mod::{
    lemma_add_mod_noop, lemma_mod_multiples_vanish, lemma_mul_mod_noop_left,
    lemma_mul_mod_noop_right, lemma_small_mod,
};
use vstd::prelude::*;

verus! {

pub const LC_MULTIPLIER: u32 = 0x41c64e6d;

pub const LC_INCREMENT: u32 = 0x6073;

pub const LC_INVERSE_MULTIPLIER: u32 = 0xeeb9eb65;

/// One forward step of the generator: `s * m + c` modulo 2^32.
#[verifier::opaque]
pub open spec fn lc_next(s: u32) -> u32 {
    ((s as int * LC_MULTIPLIER as int + LC_INCREMENT as int) % 0x1_0000_0000) as u32
}

/// One backward step: `inv_m * (s - c)` modulo 2^32.
#[verifier::opaque]
pub open spec fn lc_prev(s: u32) -> u32 {
    ((LC_INVERSE_MULTIPLIER as int * ((s as int + 0x1_0000_0000 - LC_INCREMENT as int)
        % 0x1_0000_0000))
        % 0x1_0000_0000) as u32
}

/// The state reached from `s` after `n` forward steps.
pub open spec fn lc_advance(s: u32, n: nat) -> u32
    decreases n,
{
    if n == 0 {
        s
    } else {
        lc_next(lc_advance(s, (n - 1) as nat))
    }
}

/// The state reached from `s` after `n` backward steps.
pub open spec fn lc_retreat(s: u32, n: nat) -> u32
    decreases n,
{
    if n == 0 {
        s
    } else {
        lc_prev(lc_retreat(s, (n - 1) as nat))
    }
}

/// The 16-bit output of a state: its high half.
pub open spec fn draw(s: u32) -> u16 {
    (s / 0x10000) as u16
}

/// Stepping backwards undoes stepping forwards, and the other way round.
pub proof fn lemma_next_prev_inverse(s: u32)
    ensures
        lc_prev(lc_next(s)) == s,
        lc_next(lc_prev(s)) == s,
{
    reveal(lc_next);
    reveal(lc_prev);
    let md: int = 0x1_0000_0000;
    let m: int = LC_MULTIPLIER as int;
    let c: int = LC_INCREMENT as int;
    let inv: int = LC_INVERSE_MULTIPLIER as int;
    let k: int = 1029054899;
    let x: int = s as int;
    assert(inv * m == 1 + k * md);
    // backward after forward
    let n: int = (x * m + c) % md;
    lemma_add_mod_noop(x * m + c, md - c, md);
    lemma_small_mod((md - c) as nat, md as nat);
    lemma_mod_multiples_vanish(1, x * m, md);
    assert((n + md - c) % md == (x * m) % md);
    lemma_mul_mod_noop_right(inv, x * m, md);
    assert(inv * (x * m) == x + md * (x * k)) by (nonlinear_arith)
        requires
            inv * m == 1 + k * md,
    ;
    lemma_mod_multiples_vanish(x * k, x, md);
    lemma_small_mod(x as nat, md as nat);
    // forward after backward
    let d: int = (x + md - c) % md;
    let p: int = (inv * d) % md;
    lemma_mul_mod_noop_left(inv * d, m, md);
    lemma_add_mod_noop(p * m, c, md);
    lemma_add_mod_noop(inv * d * m, c, md);
    lemma_small_mod(c as nat, md as nat);
    assert(inv * d * m == d + md * (d * k)) by (nonlinear_arith)
        requires
            inv * m == 1 + k * md,
    ;
    lemma_mod_multiples_vanish(d * k, d + c, md);
    lemma_add_mod_noop(x + md - c, c, md);
    lemma_mod_multiples_vanish(1, x, md);
    assert((p * m + c) % md == x);
}

proof fn lemma_advance_unfold(y: u32, n: nat)
    requires
        n > 0,
    ensures
        lc_advance(y, n) == lc_advance(lc_next(y), (n - 1) as nat),
    decreases n,
{
    if n > 1 {
        lemma_advance_unfold(y, (n - 1) as nat);
        assert(lc_advance(lc_next(y), (n - 1) as nat) == lc_next(
            lc_advance(lc_next(y), (n - 2) as nat),
        ));
    } else {
        assert(lc_advance(y, 1) == lc_next(lc_advance(y, 0)));
    }
}

/// Walking forward `n` steps from the state `n` steps back returns to the start.
pub proof fn lemma_advance_retreat(x: u32, n: nat)
    ensures
        lc_advance(lc_retreat(x, n), n) == x,
    decreases n,
{
    if n > 0 {
        let z = lc_retreat(x, (n - 1) as nat);
        lemma_advance_unfold(lc_prev(z), n);
        lemma_next_prev_inverse(z);
        lemma_advance_retreat(x, (n - 1) as nat);
    }
}

/// Backward walks add up.
pub proof fn lemma_retreat_add(x: u32, m: nat, n: nat)
    ensures
        lc_retreat(lc_retreat(x, m), n) == lc_retreat(x, m + n),
    decreases n,
{
    if n > 0 {
        lemma_retreat_add(x, m, (n - 1) as nat);
    }
}

/// The 32-bit linear-congruential generator.
pub struct RngLC {
    multiplier: u32,
    increment: u32,
    inverse_multiplier: u32,
}

impl RngLC {
    #[verifier::type_invariant]
    spec fn constants_fixed(&self) -> bool {
        &&& self.multiplier == LC_MULTIPLIER
        &&& self.increment == LC_INCREMENT
        &&& self.inverse_multiplier == LC_INVERSE_MULTIPLIER
    }

    pub fn new() -> Self {
        RngLC {
            multiplier: LC_MULTIPLIER,
            increment: LC_INCREMENT,
            inverse_multiplier: LC_INVERSE_MULTIPLIER,
        }
    }

    pub fn next(&self, seed: Seed) -> (r: Seed)
        ensures
            r == lc_next(seed),
    {
        proof {
            use_type_invariant(self);
        }
        assert((seed as u64) * (self.multiplier as u64) <= 0xffff_ffff * 0xffff_ffff) by {
            vstd::arithmetic::mul::lemma_mul_upper_bound(
                seed as int,
                0xffff_ffff,
                self.multiplier as int,
                0xffff_ffff,
            );
        };
        reveal(lc_next);
        let next_seed: u64 = (seed as u64) * (self.multiplier as u64) + (self.increment as u64);
        assert((next_seed & 0xffffffff) == next_seed % 0x1_0000_0000) by (bit_vector);
        (next_seed & 0xffffffff) as Seed
    }

    pub fn prev(&self, seed: Seed) -> (r: Seed)
        ensures
            r == lc_prev(seed),
    {
        proof {
            use_type_invariant(self);
        }
        reveal(lc_prev);
        let diff: u32 = seed.wrapping_sub(self.increment);
        assert(diff as int == (seed as int + 0x1_0000_0000 - LC_INCREMENT as int) % 0x1_0000_0000);
        assert((diff as u64) * (self.inverse_multiplier as u64) <= 0xffff_ffff * 0xffff_ffff) by {
            vstd::arithmetic::mul::lemma_mul_upper_bound(
                diff as int,
                0xffff_ffff,
                self.inverse_multiplier as int,
                0xffff_ffff,
            );
        };
        let product: u64 = self.inverse_multiplier as u64 * diff as u64;
        let prev_seed: u64 = product & 0xffffffff;
        assert(product & 0xffffffff == product % 0x1_0000_0000) by (bit_vector);
        prev_seed as Seed
    }
}

} // verus!
