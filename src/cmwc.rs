use vstd::prelude::*;

use crate::algorithm::{after, Algorithm};

verus! {

/// Number of words in the CMWC4096 table.
pub const CMWC_SIZE: usize = 4096;

/// Multiplier of the multiply-with-carry recurrence.
pub const CMWC_MULTIPLIER: u64 = 18782;

/// Bound of the initial carry.
pub const CMWC_CARRY_BOUND: u32 = 809_430_660;

/// Multiplier of the linear congruential step used for seeding.
pub const LCG_MULTIPLIER: u64 = 1_103_515_245;

/// Increment of the linear congruential step used for seeding.
pub const LCG_INCREMENT: u64 = 12345;

/// Mathematical model of a CMWC4096 generator: table, carry and cursor.
pub ghost struct CmwcState {
    pub table: Seq<u32>,
    pub c: u32,
    pub cur: int,
}

/// One linear congruential step: `s * 1103515245 + 12345` modulo 2^32.
pub open spec fn lcg(s: u32) -> u32 {
    ((s * 1103515245 + 12345) % 0x1_0000_0000) as u32
}

/// `lcg` applied `k` times to `s`.
pub open spec fn lcg_iter(s: u32, k: nat) -> u32
    decreases k,
{
    if k == 0 {
        s
    } else {
        lcg(lcg_iter(s, (k - 1) as nat))
    }
}

/// The state right after seeding: word `i` of the table is the `i + 1`-th
/// step of the congruential sequence from `seed`, the carry is the next step
/// reduced modulo 809430660, and the cursor is at 0.
pub open spec fn cmwc_seeded(seed: u32) -> CmwcState {
    CmwcState {
        table: Seq::new(4096, |i: int| lcg_iter(seed, (i + 1) as nat)),
        c: lcg_iter(seed, 4097) % 809_430_660,
        cur: 0,
    }
}

/// The cursor position that a draw from `s` works on.
pub open spec fn cmwc_slot(s: CmwcState) -> int {
    (s.cur + 1) % 4096
}

/// The product of one draw: multiplier times the table word, plus the carry.
pub open spec fn cmwc_product(s: CmwcState) -> u64 {
    (18782 * s.table[cmwc_slot(s)] + s.c) as u64
}

/// Carry and word after the multiply, before the corrections.
pub open spec fn cmwc_raw(s: CmwcState) -> (u32, u32) {
    let t = cmwc_product(s);
    let c = (t >> 32u64) as u32;
    let x = (t + c) as u32;
    (c, x)
}

/// Carry and word after the two corrections, applied in order.
pub open spec fn cmwc_corrected(s: CmwcState) -> (u32, u32) {
    let (c1, x1) = cmwc_raw(s);
    let (c2, x2) = if x1 < c1 {
        ((c1 + 1) as u32, (x1 + 1) as u32)
    } else {
        (c1, x1)
    };
    if x2 == 0xFFFF_FFFF {
        ((c2 + 1) as u32, 0u32)
    } else {
        (c2, x2)
    }
}

/// The value of one draw: the complement of the corrected word.
pub open spec fn cmwc_value(s: CmwcState) -> u32 {
    (0xFFFF_FFFE - cmwc_corrected(s).1) as u32
}

/// The state after one draw: the value is stored at the slot worked on,
/// which becomes the cursor.
pub open spec fn cmwc_next(s: CmwcState) -> CmwcState {
    CmwcState {
        table: s.table.update(cmwc_slot(s), cmwc_value(s)),
        c: cmwc_corrected(s).0,
        cur: cmwc_slot(s),
    }
}

/// The table has its full size and the cursor lies inside it.
pub open spec fn cmwc_wf(s: CmwcState) -> bool {
    s.table.len() == 4096 && 0 <= s.cur < 4096
}

/// The state after `n` draws from `s`.
pub open spec fn cmwc_advance(s: CmwcState, n: nat) -> CmwcState
    decreases n,
{
    if n == 0 {
        s
    } else {
        cmwc_advance(cmwc_next(s), (n - 1) as nat)
    }
}

/// The value of the `n`-th draw from state `s`.
pub open spec fn cmwc_output(s: CmwcState, n: nat) -> u32 {
    cmwc_value(cmwc_advance(s, n))
}

/// Complementary-Multiply-With-Carry (CMWC4096) generator.
#[derive(Clone, Copy)]
pub struct ComplementaryMultiplyWithCarry {
    q: [u32; 4096],
    c: u32,
    cur: usize,
}

impl View for ComplementaryMultiplyWithCarry {
    type V = CmwcState;

    closed spec fn view(&self) -> CmwcState {
        CmwcState { table: self.q@, c: self.c, cur: self.cur as int }
    }
}

/// One linear congruential step, computed without overflow.
fn lcg_step(s: u32) -> (r: u32)
    ensures
        r == lcg(s),
{
    assert(LCG_MULTIPLIER * (s as u64) <= 1103515245 * 0xFFFF_FFFFu64) by (nonlinear_arith)
        requires
            LCG_MULTIPLIER == 1103515245,
            s <= 0xFFFF_FFFFu32,
    ;
    ((LCG_MULTIPLIER * (s as u64) + LCG_INCREMENT) % 0x1_0000_0000u64) as u32
}

impl ComplementaryMultiplyWithCarry {
    /// Creates a generator seeded with `seed`.
    pub fn new(seed: u32) -> (r: Self)
        ensures
            r@ == cmwc_seeded(seed),
            cmwc_wf(r@),
            r.wf(),
    {
        let mut q: [u32; 4096] = [0u32; 4096];
        let mut s = seed;
        let mut i: usize = 0;
        while i < CMWC_SIZE
            invariant
                0 <= i <= 4096,
                s == lcg_iter(seed, i as nat),
                forall|j: int| 0 <= j < i ==> q@[j] == lcg_iter(seed, (j + 1) as nat),
            decreases 4096 - i,
        {
            s = lcg_step(s);
            q[i] = s;
            i = i + 1;
        }
        let c = lcg_step(s) % CMWC_CARRY_BOUND;
        let r = ComplementaryMultiplyWithCarry { q, c, cur: 0 };
        assert(r@.table =~= cmwc_seeded(seed).table);
        r
    }

    /// The cursor: the slot that the last draw wrote.
    pub fn cursor(&self) -> (r: usize)
        ensures
            r == self@.cur,
    {
        self.cur
    }

    /// The carry.
    pub fn carry(&self) -> (r: u32)
        ensures
            r == self@.c,
    {
        self.c
    }

    /// Word `i` of the table.
    pub fn word(&self, i: usize) -> (r: u32)
        requires
            i < 4096,
        ensures
            r == self@.table[i as int],
    {
        self.q[i]
    }

    /// Draws the next integer.
    fn get_number(&mut self) -> (r: u32)
        requires
            old(self).cur < 4096,
        ensures
            final(self).cur < 4096,
            final(self)@ == cmwc_next(old(self)@),
            r == cmwc_value(old(self)@),
    {
        self.cur = (self.cur + 1) % CMWC_SIZE;
        let q = self.q[self.cur];
        assert(CMWC_MULTIPLIER * (q as u64) <= 18782 * 0xFFFF_FFFFu64) by (nonlinear_arith)
            requires
                CMWC_MULTIPLIER == 18782,
                q <= 0xFFFF_FFFFu32,
        ;
        let t: u64 = CMWC_MULTIPLIER * (q as u64) + (self.c as u64);
        assert(t <= 18783 * 0xFFFF_FFFFu64 ==> (t >> 32u64) <= 18782) by (bit_vector);
        self.c = (t >> 32u64) as u32;
        let mut x: u32 = (t + self.c as u64) as u32;
        if x < self.c {
            x = x + 1;
            self.c = self.c + 1;
        }
        if x == 0xFFFF_FFFF {
            self.c = self.c + 1;
            x = 0;
        }
        self.q[self.cur] = 0xFFFF_FFFE - x;
        self.q[self.cur]
    }
}

impl Algorithm for ComplementaryMultiplyWithCarry {
    /// The cursor stays inside the table.
    closed spec fn wf(&self) -> bool {
        self.cur < 4096
    }

    open spec fn output(&self, n: nat) -> u32 {
        cmwc_output(self@, n)
    }

    open spec fn step(v: CmwcState) -> CmwcState {
        cmwc_next(v)
    }

    proof fn lemma_view_decides_output(a: Self, b: Self) {
    }

    fn get_int(&mut self) -> (r: u32) {
        self.get_number()
    }
}

/// Drawing `a` times and then `b` times is drawing `a + b` times.
proof fn lemma_cmwc_advance_add(s: CmwcState, a: nat, b: nat)
    ensures
        cmwc_advance(s, a + b) == cmwc_advance(cmwc_advance(s, a), b),
    decreases a,
{
    if a > 0 {
        lemma_cmwc_advance_add(cmwc_next(s), (a - 1) as nat, b);
    }
}

/// Each draw moves the cursor one place on, modulo 4096, and keeps the table
/// size: from a fresh seed the cursor after `n` draws is `n % 4096`.
pub proof fn lemma_cmwc_advance_cursor(s: CmwcState, n: nat)
    requires
        cmwc_wf(s),
    ensures
        cmwc_wf(cmwc_advance(s, n)),
        cmwc_advance(s, n).cur == (s.cur + n) % 4096,
    decreases n,
{
    if n > 0 {
        lemma_cmwc_advance_cursor(cmwc_next(s), (n - 1) as nat);
    }
}

/// A word that the next `j` draws do not reach keeps its value: the word
/// `d` places after the cursor, with `j < d <= 4096`.
proof fn lemma_cmwc_word_kept(s: CmwcState, d: int, j: nat)
    requires
        cmwc_wf(s),
        j < d <= 4096,
    ensures
        cmwc_advance(s, j).table[(s.cur + d) % 4096] == s.table[(s.cur + d) % 4096],
    decreases j,
{
    if j > 0 {
        let t = cmwc_next(s);
        assert(cmwc_slot(s) != (s.cur + d) % 4096);
        assert((t.cur + (d - 1)) % 4096 == (s.cur + d) % 4096);
        lemma_cmwc_word_kept(t, d - 1, (j - 1) as nat);
    }
}

/// The cursor cycles modulo 4096: draw `k + 4096` works on the same word as
/// draw `k`, and finds there the value that draw `k` stored and returned,
/// not the word as it was before.
pub proof fn lemma_cmwc_wraparound(s: CmwcState, k: nat)
    requires
        cmwc_wf(s),
    ensures
        cmwc_slot(cmwc_advance(s, k + 4096)) == cmwc_slot(cmwc_advance(s, k)),
        cmwc_advance(s, k + 4096).table[cmwc_slot(cmwc_advance(s, k + 4096))] == cmwc_output(s, k),
{
    let u = cmwc_advance(s, k);
    let v = cmwc_advance(s, k + 1);
    lemma_cmwc_advance_cursor(s, k);
    lemma_cmwc_advance_add(s, k, 1);
    assert(cmwc_advance(u, 1) == cmwc_advance(cmwc_next(u), 0));
    assert(v == cmwc_next(u));
    assert(v.table[v.cur] == cmwc_output(s, k));
    lemma_cmwc_advance_add(s, k + 1, 4095);
    lemma_cmwc_word_kept(v, 4096, 4095);
    lemma_cmwc_advance_cursor(s, k + 4096);
}

/// `cmwc_advance` is the state that `n` draws of the generator reach.
pub proof fn lemma_cmwc_advance_is_after(s: CmwcState, n: nat)
    ensures
        cmwc_advance(s, n) == after::<ComplementaryMultiplyWithCarry>(s, n),
    decreases n,
{
    if n > 0 {
        lemma_cmwc_advance_is_after(cmwc_next(s), (n - 1) as nat);
    }
}

/// After a full cycle of 4096 draws the cursor is back where it started and
/// every word of the table, the one at index 0 included, holds a value drawn
/// in that cycle: the word `j` places after the cursor holds draw `j - 1`.
pub proof fn lemma_cmwc_full_cycle(s: CmwcState)
    requires
        cmwc_wf(s),
    ensures
        cmwc_advance(s, 4096).cur == s.cur,
        forall|j: int|
            1 <= j <= 4096 ==> #[trigger] cmwc_advance(s, 4096).table[(s.cur + j) % 4096]
                == cmwc_output(s, (j - 1) as nat),
{
    lemma_cmwc_advance_cursor(s, 4096);
    assert forall|j: int| 1 <= j <= 4096 implies #[trigger] cmwc_advance(s, 4096).table[(s.cur + j)
        % 4096] == cmwc_output(s, (j - 1) as nat) by {
        let u = cmwc_advance(s, (j - 1) as nat);
        let v = cmwc_advance(s, j as nat);
        lemma_cmwc_advance_cursor(s, (j - 1) as nat);
        lemma_cmwc_advance_cursor(s, j as nat);
        lemma_cmwc_advance_add(s, (j - 1) as nat, 1);
        assert(cmwc_advance(u, 1) == cmwc_advance(cmwc_next(u), 0));
        assert(v == cmwc_next(u));
        lemma_cmwc_advance_add(s, j as nat, (4096 - j) as nat);
        lemma_cmwc_word_kept(v, 4096, (4096 - j) as nat);
    }
}

/// Generators in the same state give the same stream of integers; in
/// particular two generators made from one seed do.
pub proof fn lemma_cmwc_same_seed_same_stream(
    seed: u32,
    a: ComplementaryMultiplyWithCarry,
    b: ComplementaryMultiplyWithCarry,
)
    requires
        a@ == cmwc_seeded(seed),
        b@ == cmwc_seeded(seed),
    ensures
        forall|n: nat| #[trigger] a.output(n) == b.output(n),
{
}

} // verus!
