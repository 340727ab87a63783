use vstd::prelude::*;

use crate::algorithm::{after, Algorithm};

verus! {

/// Number of words in the MT19937 state table.
pub const MT_DEGREE: usize = 624;

/// Offset of the middle word used by the twist.
pub const MT_MIDDLE_WORD: usize = 397;

/// Multiplier of the seeding recurrence.
pub const MT_SEED_MULTIPLIER: u64 = 1812433253;

/// Coefficients of the twist matrix in rational normal form.
pub const MT_TWIST_COEFFICIENT: u32 = 0x9908_B0DF;

/// Bit that the twist takes from the word itself (the top bit).
pub const MT_TOP_MASK: u32 = 0x8000_0000;

/// Bits that the twist takes from the following word.
pub const MT_BOTTOM_MASK: u32 = 0x7FFF_FFFF;

/// Mathematical model of a Mersenne Twister: its table and its cursor.
pub ghost struct MtState {
    pub table: Seq<u32>,
    pub cur: int,
}

/// Word `i` of the table that `seed` fills: the seed itself, then
/// `1812433253 * (w ^ (w >> 30)) + i` of the previous word `w`, modulo 2^32.
pub open spec fn seed_word(seed: u32, i: nat) -> u32
    decreases i,
{
    if i == 0 {
        seed
    } else {
        let w = seed_word(seed, (i - 1) as nat);
        ((1812433253 * (w ^ (w >> 30u32)) + i) % 0x1_0000_0000) as u32
    }
}

/// The state right after seeding: the filled table, and the cursor at the
/// end so that the first draw twists.
pub open spec fn mt_seeded(seed: u32) -> MtState {
    MtState { table: Seq::new(624, |i: int| seed_word(seed, i as nat)), cur: 624 }
}

/// The new value of word `i` in the twist, computed from table `t` as it
/// stands when word `i` is rewritten.
pub open spec fn twist_word(t: Seq<u32>, i: int) -> u32 {
    let y = (t[i] & 0x8000_0000u32) | (t[(i + 1) % 624] & 0x7FFF_FFFFu32);
    let v = t[(i + 397) % 624] ^ (y >> 1u32);
    if y & 1u32 == 0 {
        v
    } else {
        v ^ 0x9908_B0DFu32
    }
}

/// The table after words `0 .. n` have been rewritten in order, in place.
pub open spec fn twist_prefix(t: Seq<u32>, n: nat) -> Seq<u32>
    decreases n,
{
    if n == 0 {
        t
    } else {
        let p = twist_prefix(t, (n - 1) as nat);
        p.update(n - 1, twist_word(p, n - 1))
    }
}

/// The whole table regenerated.
pub open spec fn twist(t: Seq<u32>) -> Seq<u32> {
    twist_prefix(t, 624)
}

/// The tempering transform applied to a raw table word.
pub open spec fn temper(w: u32) -> u32 {
    let y1 = w ^ (w >> 11u32);
    let y2 = y1 ^ ((y1 << 7u32) & 0x9D2C_5680u32);
    let y3 = y2 ^ ((y2 << 15u32) & 0xEFC6_0000u32);
    y3 ^ (y3 >> 18u32)
}

/// The state from which the next word is read: twisted first if the table
/// is used up.
pub open spec fn mt_ready(s: MtState) -> MtState {
    if s.cur == 624 {
        MtState { table: twist(s.table), cur: 0 }
    } else {
        s
    }
}

/// The state after one draw.
pub open spec fn mt_next(s: MtState) -> MtState {
    let r = mt_ready(s);
    MtState { table: r.table, cur: r.cur + 1 }
}

/// The value of one draw.
pub open spec fn mt_value(s: MtState) -> u32 {
    let r = mt_ready(s);
    temper(r.table[r.cur])
}

/// The value of the `n`-th draw from state `s`.
pub open spec fn mt_output(s: MtState, n: nat) -> u32
    decreases n,
{
    if n == 0 {
        mt_value(s)
    } else {
        mt_output(mt_next(s), (n - 1) as nat)
    }
}

/// Mersenne Twister (MT19937) generator.
#[derive(Clone, Copy)]
pub struct MersenneTwister {
    mt: [u32; 624],
    cur_mt: usize,
}

impl View for MersenneTwister {
    type V = MtState;

    closed spec fn view(&self) -> MtState {
        MtState { table: self.mt@, cur: self.cur_mt as int }
    }
}

impl MersenneTwister {
    /// Creates a generator seeded with `seed`.
    pub fn new(seed: u32) -> (r: Self)
        ensures
            r@ == mt_seeded(seed),
            r.wf(),
    {
        let r = MersenneTwister { mt: Self::mt_init(seed), cur_mt: 624 };
        assert(r@.table =~= mt_seeded(seed).table);
        r
    }

    /// The cursor: how many words of the current table have been read.
    pub fn cursor(&self) -> (r: usize)
        ensures
            r == self@.cur,
    {
        self.cur_mt
    }

    /// Fills the table from `seed`.
    fn mt_init(seed: u32) -> (r: [u32; 624])
        ensures
            forall|i: int| 0 <= i < 624 ==> r@[i] == seed_word(seed, i as nat),
    {
        let mut mt: [u32; 624] = [0u32; 624];
        mt[0] = seed;
        let mut i: usize = 1;
        while i < MT_DEGREE
            invariant
                1 <= i <= 624,
                forall|j: int| 0 <= j < i ==> mt@[j] == seed_word(seed, j as nat),
            decreases 624 - i,
        {
            let w = mt[i - 1];
            let x = w ^ (w >> 30u32);
            assert(MT_SEED_MULTIPLIER * (x as u64) <= 1812433253 * 0xFFFF_FFFFu64) by (nonlinear_arith)
                requires
                    MT_SEED_MULTIPLIER == 1812433253,
                    x <= 0xFFFF_FFFFu32,
            ;
            let v = ((MT_SEED_MULTIPLIER * (x as u64) + i as u64) % 0x1_0000_0000u64) as u32;
            mt[i] = v;
            i = i + 1;
        }
        mt
    }

    /// Regenerates the whole table in place.
    fn twist_table(mt: &mut [u32; 624])
        ensures
            final(mt)@ == twist(old(mt)@),
    {
        let ghost t0 = mt@;
        let mut i: usize = 0;
        while i < MT_DEGREE
            invariant
                0 <= i <= 624,
                mt@ == twist_prefix(t0, i as nat),
            decreases 624 - i,
        {
            let y = (mt[i] & MT_TOP_MASK) | (mt[(i + 1) % MT_DEGREE] & MT_BOTTOM_MASK);
            let v = mt[(i + MT_MIDDLE_WORD) % MT_DEGREE] ^ (y >> 1u32);
            let w = if y & 1 == 0 {
                v
            } else {
                v ^ MT_TWIST_COEFFICIENT
            };
            mt[i] = w;
            i = i + 1;
        }
    }

    /// Draws the next integer from the table and cursor.
    fn mt_rand(mt: &mut [u32; 624], cur_mt: &mut usize) -> (r: u32)
        requires
            *old(cur_mt) <= 624,
        ensures
            (MtState { table: final(mt)@, cur: *final(cur_mt) as int }) == mt_next(
                MtState { table: old(mt)@, cur: *old(cur_mt) as int },
            ),
            r == mt_value(MtState { table: old(mt)@, cur: *old(cur_mt) as int }),
    {
        if *cur_mt == MT_DEGREE {
            Self::twist_table(mt);
            *cur_mt = 0;
        }
        let mut y = mt[*cur_mt];
        *cur_mt = *cur_mt + 1;
        y = y ^ (y >> 11u32);
        y = y ^ ((y << 7u32) & 0x9D2C_5680u32);
        y = y ^ ((y << 15u32) & 0xEFC6_0000u32);
        y = y ^ (y >> 18u32);
        y
    }
}

impl Algorithm for MersenneTwister {
    /// The cursor never passes the end of the table.
    closed spec fn wf(&self) -> bool {
        self.cur_mt <= 624
    }

    open spec fn output(&self, n: nat) -> u32 {
        mt_output(self@, n)
    }

    open spec fn step(v: MtState) -> MtState {
        mt_next(v)
    }

    proof fn lemma_view_decides_output(a: Self, b: Self) {
    }

    fn get_int(&mut self) -> (r: u32) {
        Self::mt_rand(&mut self.mt, &mut self.cur_mt)
    }
}

/// While the table lasts, the draws read it word by word from the cursor.
pub proof fn lemma_mt_run(s: MtState, n: nat)
    requires
        0 <= s.cur,
        s.cur + n <= 624,
    ensures
        mt_output(s, n) == mt_value(MtState { table: s.table, cur: s.cur + n }),
    decreases n,
{
    if n > 0 {
        assert(mt_next(s) == MtState { table: s.table, cur: s.cur + 1 });
        lemma_mt_run(mt_next(s), (n - 1) as nat);
    }
}

/// From a fresh seed, the first draw twists the seeded table and the first
/// 624 draws read the twisted table in order; draw 625 (numbered 624 from
/// zero) twists again and reads the first word of the new table.
pub proof fn lemma_mt_regeneration_boundary(seed: u32)
    ensures
        forall|n: nat|
            n < 624 ==> #[trigger] mt_output(mt_seeded(seed), n) == temper(
                twist(mt_seeded(seed).table)[n as int],
            ),
        mt_output(mt_seeded(seed), 624) == temper(twist(twist(mt_seeded(seed).table))[0]),
{
    let s = mt_seeded(seed);
    let t1 = twist(s.table);
    assert(mt_next(s) == MtState { table: t1, cur: 1 });
    assert forall|n: nat| n < 624 implies #[trigger] mt_output(s, n) == temper(t1[n as int]) by {
        if n > 0 {
            lemma_mt_run(mt_next(s), (n - 1) as nat);
        }
    }
    lemma_mt_run(mt_next(s), 623);
}

/// While the table lasts, each draw moves the cursor one word on and leaves
/// the table as it is.
pub proof fn lemma_mt_run_state(s: MtState, n: nat)
    requires
        0 <= s.cur,
        s.cur + n <= 624,
    ensures
        after::<MersenneTwister>(s, n) == (MtState { table: s.table, cur: s.cur + n }),
    decreases n,
{
    if n > 0 {
        assert(mt_next(s) == MtState { table: s.table, cur: s.cur + 1 });
        lemma_mt_run_state(mt_next(s), (n - 1) as nat);
    }
}

/// From a fresh seed, after `k` draws (`1 <= k <= 624`) the table is the
/// seeded table twisted once and the cursor is `k`: only the first of these
/// draws twists, and 624 draws use the table up. Draw 625 twists again and
/// leaves the cursor at 1.
pub proof fn lemma_mt_regeneration_state(seed: u32)
    ensures
        forall|k: nat|
            1 <= k <= 624 ==> #[trigger] after::<MersenneTwister>(mt_seeded(seed), k) == (MtState {
                table: twist(mt_seeded(seed).table),
                cur: k as int,
            }),
        after::<MersenneTwister>(mt_seeded(seed), 625) == (MtState {
            table: twist(twist(mt_seeded(seed).table)),
            cur: 1,
        }),
{
    let s = mt_seeded(seed);
    let t1 = twist(s.table);
    let s1 = MtState { table: t1, cur: 1 };
    assert(mt_next(s) == s1);
    assert forall|k: nat| 1 <= k <= 624 implies #[trigger] after::<MersenneTwister>(s, k) == (
    MtState { table: t1, cur: k as int }) by {
        lemma_mt_run_state(s1, (k - 1) as nat);
    }
    lemma_mt_run_state(s1, 623);
    let s624 = MtState { table: t1, cur: 624 };
    assert(after::<MersenneTwister>(s, 624) == s624);
    crate::algorithm::lemma_after_add::<MersenneTwister>(s, 624, 1);
    crate::algorithm::lemma_after_one::<MersenneTwister>(s624);
}

/// Generators in the same state give the same stream of integers; in
/// particular two generators made from one seed do.
pub proof fn lemma_mt_same_seed_same_stream(seed: u32, a: MersenneTwister, b: MersenneTwister)
    requires
        a@ == mt_seeded(seed),
        b@ == mt_seeded(seed),
    ensures
        forall|n: nat| #[trigger] a.output(n) == b.output(n),
{
}

} // verus!
