use crate::types::{InitialSeed, Pid, Seed};
use vstd::prelude::*;

verus! {

pub const N: usize = 624;

pub const M: usize = 397;

pub const MATRIX_A: u32 = 0x9908b0df;

pub const UPPER_MASK: u32 = 0x80000000;

pub const LOWER_MASK: u32 = 0x7fffffff;

/// Word `i` of the table before the first twist: the seed, then
/// `(p ^ (p >> 30)) * 0x6c078965 + i` modulo 2^32 from the previous word `p`.
pub open spec fn mt_init_word(seed: u32, i: nat) -> u32
    decreases i,
{
    if i == 0 {
        seed
    } else {
        let p = mt_init_word(seed, (i - 1) as nat);
        (((p ^ (p >> 30u32)) as int * 0x6c078965 + i) % 0x1_0000_0000) as u32
    }
}

/// The table that a seed expands to.
pub open spec fn mt_init_table(seed: u32) -> Seq<u32> {
    Seq::new(N as nat, |i: int| mt_init_word(seed, i as nat))
}

/// The index of the word that is mixed into word `i` during a twist.
pub open spec fn twist_partner(i: int) -> int {
    if i < (N - M) as int {
        i + M
    } else {
        i + M - N
    }
}

/// The new value of word `i` of table `t` in a twist.
pub open spec fn twist_word(t: Seq<u32>, i: int) -> u32 {
    let k0 = (t[i] & UPPER_MASK) | (t[(i + 1) % (N as int)] & LOWER_MASK);
    let k1 = (k0 >> 1u32) ^ t[twist_partner(i)];
    if k0 & 1 != 0 {
        k1 ^ MATRIX_A
    } else {
        k1
    }
}

/// The table after the first `n` words of a twist have been replaced, in order.
pub open spec fn twist_prefix(t: Seq<u32>, n: nat) -> Seq<u32>
    decreases n,
{
    if n == 0 {
        t
    } else {
        let u = twist_prefix(t, (n - 1) as nat);
        u.update(n - 1, twist_word(u, n - 1))
    }
}

/// A whole twist of the table.
pub open spec fn mt_twist(t: Seq<u32>) -> Seq<u32> {
    twist_prefix(t, N as nat)
}

/// The generator's state (table, index of the next word) right after construction.
pub open spec fn mt_initial(seed: u32) -> (Seq<u32>, int) {
    (mt_twist(mt_init_table(seed)), 0)
}

/// The word that the next draw returns from a state.
pub open spec fn mt_output(st: (Seq<u32>, int)) -> u32 {
    if st.1 >= N {
        mt_twist(st.0)[0]
    } else {
        st.0[st.1]
    }
}

/// The state after one draw.
pub open spec fn mt_step(st: (Seq<u32>, int)) -> (Seq<u32>, int) {
    if st.1 >= N {
        (mt_twist(st.0), 1)
    } else {
        (st.0, st.1 + 1)
    }
}

/// The state of a generator built from `seed` after `k` draws.
pub open spec fn mt_state_after(seed: u32, k: nat) -> (Seq<u32>, int)
    decreases k,
{
    if k == 0 {
        mt_initial(seed)
    } else {
        mt_step(mt_state_after(seed, (k - 1) as nat))
    }
}

/// Draw number `k` (counting from 0) of a generator built from `seed`.
pub open spec fn mt_word(seed: u32, k: nat) -> u32 {
    mt_output(mt_state_after(seed, k))
}

/// The tempering that turns a raw word into a personality identifier.
pub open spec fn temper(s: u32) -> u32 {
    let k0 = (s >> 11u32) ^ s;
    let k1 = ((k0 << 7u32) & 0x9d2c5680u32) ^ k0;
    let k2 = ((k1 << 15u32) & 0xefc60000u32) ^ k1;
    (k2 >> 18u32) ^ k2
}

/// Draw `k` of a generator built from `seed`, tempered.
pub open spec fn mt_pid(seed: u32, k: nat) -> u32 {
    temper(mt_word(seed, k))
}

proof fn lemma_twist_prefix_len(t: Seq<u32>, n: nat)
    requires
        t.len() == N,
        n <= N,
    ensures
        twist_prefix(t, n).len() == N,
    decreases n,
{
    if n > 0 {
        lemma_twist_prefix_len(t, (n - 1) as nat);
    }
}

/// The Mersenne-Twister generator that produces egg personality identifiers.
pub struct RngMT {
    table: Vec<u32>,
    index: usize,
}

impl RngMT {
    /// The table holds `N` words and the index points into it or just past it.
    pub closed spec fn wf(&self) -> bool {
        &&& self.table@.len() == N
        &&& self.index <= N
    }

    /// A well-formed generator's table holds `N` words and its index lies in `0..=N`.
    pub proof fn lemma_wf_state(&self)
        requires
            self.wf(),
        ensures
            self.state().0.len() == N,
            0 <= self.state().1 <= N,
    {
    }

    /// The table and the index of the next word.
    pub closed spec fn state(&self) -> (Seq<u32>, int) {
        (self.table@, self.index as int)
    }

    pub fn new(initial_seed: InitialSeed) -> (r: Self)
        ensures
            r.wf(),
            r.state().1 == 0,
            r.state() == mt_initial(initial_seed),
    {
        let mut table: Vec<u32> = Vec::new();
        table.push(initial_seed);
        let mut i: usize = 1;
        while i < N
            invariant
                1 <= i <= N,
                table@.len() == i,
                forall|j: int| 0 <= j < i ==> table@[j] == mt_init_word(initial_seed, j as nat),
            decreases N - i,
        {
            let prev: u32 = table[i - 1];
            let mixed: u32 = prev ^ (prev >> 30);
            let v: u64 = (mixed as u64) * 0x6c078965 + (i as u64);
            table.push((v % 0x1_0000_0000) as u32);
            i = i + 1;
        }
        assert(table@ =~= mt_init_table(initial_seed));
        let mut rng = RngMT { table, index: N };
        rng.twist();
        rng
    }

    pub fn twist(&mut self)
        requires
            old(self).wf(),
        ensures
            final(self).wf(),
            final(self).state() == (mt_twist(old(self).state().0), 0int),
    {
        let ghost t0 = self.table@;
        let mut i: usize = 0;
        while i < N
            invariant
                0 <= i <= N,
                t0.len() == N,
                self.table@ == twist_prefix(t0, i as nat),
                self.index <= N,
            decreases N - i,
        {
            proof {
                lemma_twist_prefix_len(t0, i as nat);
            }
            let a: u32 = self.table[i] & UPPER_MASK;
            let b: u32 = self.table[(i + 1) % N] & LOWER_MASK;
            let k0: u32 = a | b;
            let mut k1: u32 = k0 >> 1;
            let k2_index: usize = if i < (N - M) {
                i + M
            } else {
                i + M - N
            };
            let k2: u32 = self.table[k2_index];
            k1 = k1 ^ k2;
            if k0 & 1 != 0 {
                k1 = k1 ^ MATRIX_A;
            }
            self.table.set(i, k1);
            i = i + 1;
        }
        proof {
            lemma_twist_prefix_len(t0, N as nat);
        }
        self.index = 0;
    }

    pub fn next(&mut self) -> (r: Seed)
        requires
            old(self).wf(),
        ensures
            final(self).wf(),
            1 <= final(self).state().1 <= N,
            r == mt_output(old(self).state()),
            final(self).state() == mt_step(old(self).state()),
    {
        if N <= self.index {
            self.twist();
        }
        let next_seed: u32 = self.table[self.index];
        self.index = self.index + 1;
        next_seed
    }

    pub fn get_pid(&mut self, seed: Seed) -> (r: Pid)
        ensures
            r == temper(seed),
            *final(self) == *old(self),
    {
        let k0: u32 = (seed / 0x800) ^ seed;
        let k1: u32 = ((k0 << 7) & 0x9d2c5680) ^ k0;
        let k2: u32 = ((k1 << 15) & 0xefc60000) ^ k1;
        let pid: u32 = (k2 / 0x40000) ^ k2;
        assert(seed / 0x800 == seed >> 11u32) by (bit_vector);
        assert(k2 / 0x40000 == k2 >> 18u32) by (bit_vector);
        pid
    }
}

} // verus!
