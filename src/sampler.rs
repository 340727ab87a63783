use vstd::prelude::*;

use crate::algorithm::{after, lemma_after_add, lemma_after_one, Algorithm};

verus! {

/// Exponent bias of single precision.
pub const FLOAT_BIAS: u32 = 127;

/// Mask of the 23 mantissa bits of single precision.
pub const FLOAT_MANTISSA_MASK: u32 = 0x7F_FFFF;

/// Exponent bias of double precision.
pub const DOUBLE_BIAS: u64 = 1023;

/// Mask of the 52 mantissa bits of double precision.
pub const DOUBLE_MANTISSA_MASK: u64 = 0xF_FFFF_FFFF_FFFF;

/// One bit taken from a generator's stream, with the extractor holding
/// `buf` and `left` unconsumed bits, and `p` integers of the stream already
/// drawn. Returns the new position, buffer and count, and the bit.
/// Bits are taken least significant first; an empty buffer is refilled with
/// the next integer.
pub open spec fn bit_draw<A: Algorithm>(a: A, p: nat, buf: u32, left: u32) -> (nat, u32, u32, u32) {
    if left == 0 {
        let w = a.output(p);
        (p + 1, w >> 1u32, 31u32, w & 1u32)
    } else {
        (p, buf >> 1u32, (left - 1) as u32, buf & 1u32)
    }
}

/// The geometric search for the exponent: starting at `exp`, draw bits and
/// step the exponent down on each zero, stopping at the first one or at zero.
/// Returns the position, buffer and count afterwards, and the exponent.
pub open spec fn exp_search<A: Algorithm>(a: A, p: nat, buf: u32, left: u32, exp: int) -> (
    nat,
    u32,
    u32,
    int,
)
    decreases exp,
{
    if exp <= 0 {
        (p, buf, left, exp)
    } else {
        let (pos_e, b1, l1, bit) = bit_draw(a, p, buf, left);
        if bit != 0 {
            (pos_e, b1, l1, exp)
        } else {
            exp_search(a, pos_e, b1, l1, exp - 1)
        }
    }
}

/// The bit pattern of the single-precision sample drawn from `a`, and the
/// number of integers drawn for it. For a zero mantissa one more bit is
/// drawn, and when set it raises the exponent, as long as the exponent stays
/// below the bias (so the value stays below one).
pub open spec fn float_sample<A: Algorithm>(a: A) -> (u32, nat) {
    let (pos_e, b1, l1, e) = exp_search(a, 0, 0, 0, 126);
    let m = a.output(pos_e) & 0x7F_FFFFu32;
    let pos_m = pos_e + 1;
    if m == 0 {
        let (pos_end, b3, l3, bit) = bit_draw(a, pos_m, b1, l1);
        let e2 = if bit != 0 && e + 1 < 127 {
            e + 1
        } else {
            e
        };
        (((e2 as u32) << 23u32) | m, pos_end)
    } else {
        (((e as u32) << 23u32) | m, pos_m)
    }
}

/// The bit pattern of the double-precision sample drawn from `a`, and the
/// number of integers drawn for it. For a zero mantissa one more bit is
/// drawn, and when set it raises the exponent, as long as the exponent stays
/// below the bias (so the value stays below one).
pub open spec fn double_sample<A: Algorithm>(a: A) -> (u64, nat) {
    let (pos_e, b1, l1, e) = exp_search(a, 0, 0, 0, 1022);
    let hi = a.output(pos_e) as u64;
    let lo = a.output(pos_e + 1) as u64;
    let m = ((hi << 32u64) | lo) & 0xF_FFFF_FFFF_FFFFu64;
    let pos_m = pos_e + 2;
    if m == 0 {
        let (pos_end, b3, l3, bit) = bit_draw(a, pos_m, b1, l1);
        let e2 = if bit != 0 && e + 1 < 1023 {
            e + 1
        } else {
            e
        };
        (((e2 as u64) << 52u64) | m, pos_end)
    } else {
        (((e as u64) << 52u64) | m, pos_m)
    }
}

/// `b` is `a` with its first `k` integers drawn: its state is `k` steps on,
/// and its stream is that of `a` without the first `k` integers.
pub open spec fn drawn<A: Algorithm>(a: A, b: A, k: nat) -> bool {
    &&& b@ == after::<A>(a@, k)
    &&& forall|n: nat| #[trigger] b.output(n) == a.output(n + k)
}

/// Extracts single bits from a generator's integers, 32 at a time.
pub struct Bits {
    bits: u32,
    bits_left: u32,
}

impl Bits {
    /// The bits not yet handed out.
    pub closed spec fn buffer(&self) -> u32 {
        self.bits
    }

    /// How many bits are not yet handed out.
    pub closed spec fn left(&self) -> u32 {
        self.bits_left
    }

    /// An extractor with no bits buffered.
    pub fn new() -> (r: Self)
        ensures
            r.buffer() == 0,
            r.left() == 0,
    {
        Bits { bits: 0, bits_left: 0 }
    }

    /// Takes the next bit, drawing a new integer from `algorithm` when the
    /// buffer is empty.
    pub fn get_bit<A: Algorithm>(&mut self, algorithm: &mut A) -> (r: u32)
        requires
            old(algorithm).wf(),
            old(self).left() <= 32,
        ensures
            final(algorithm).wf(),
            final(self).left() <= 32,
            ({
                let (p, b, l, bit) = bit_draw(*old(algorithm), 0, old(self).buffer(), old(self).left());
                &&& r == bit
                &&& final(self).buffer() == b
                &&& final(self).left() == l
                &&& drawn(*old(algorithm), *final(algorithm), p)
            }),
    {
        let ghost a0 = *algorithm;
        if self.bits_left == 0 {
            self.bits = algorithm.get_int();
            self.bits_left = 32;
            proof {
                lemma_after_one::<A>(a0@);
            }
        }
        let bit = self.bits & 1;
        self.bits = self.bits >> 1u32;
        self.bits_left = self.bits_left - 1;
        bit
    }
}

/// The exponent search of the sampler, from exponent `start` down: draws
/// from `algorithm` what the search needs and returns the exponent found.
fn search_exponent<A: Algorithm>(algorithm: &mut A, bits: &mut Bits, start: u64) -> (r: u64)
    requires
        old(algorithm).wf(),
        old(bits).left() <= 32,
    ensures
        final(algorithm).wf(),
        final(bits).left() <= 32,
        r <= start,
        ({
            let (p, b, l, e) = exp_search(
                *old(algorithm),
                0,
                old(bits).buffer(),
                old(bits).left(),
                start as int,
            );
            &&& r == e
            &&& final(bits).buffer() == b
            &&& final(bits).left() == l
            &&& drawn(*old(algorithm), *final(algorithm), p)
        }),
{
    let ghost a0 = *algorithm;
    let ghost goal = exp_search(a0, 0, bits.buffer(), bits.left(), start as int);
    let ghost mut pos: nat = 0;
    let mut exp = start;
    assert(drawn(a0, *algorithm, 0)) by {
        assert(after::<A>(a0@, 0) == a0@);
        assert forall|n: nat| #[trigger] a0.output(n) == a0.output(n + 0) by {}
    }
    while exp > 0
        invariant_except_break
            exp_search(a0, pos, bits.buffer(), bits.left(), exp as int) == goal,
        invariant
            algorithm.wf(),
            bits.left() <= 32,
            exp <= start,
            drawn(a0, *algorithm, pos),
            goal == exp_search(a0, 0, old(bits).buffer(), old(bits).left(), start as int),
        ensures
            algorithm.wf(),
            bits.left() <= 32,
            exp <= start,
            drawn(a0, *algorithm, pos),
            goal == (pos, bits.buffer(), bits.left(), exp as int),
        decreases exp,
    {
        let ghost before = *algorithm;
        let ghost (buf0, left0) = (bits.buffer(), bits.left());
        let ghost step = bit_draw(a0, pos, buf0, left0);
        let bit = bits.get_bit(algorithm);
        proof {
            lemma_bit_draw_drawn(a0, before, pos, buf0, left0);
            let (q, _, _, _) = bit_draw(before, 0, buf0, left0);
            lemma_drawn_trans(a0, before, *algorithm, pos, q);
            pos = step.0;
        }
        if bit != 0 {
            break;
        }
        exp = exp - 1;
    }
    exp
}

/// Drawing `k1` integers and then `k2` more is drawing `k1 + k2`.
proof fn lemma_drawn_trans<A: Algorithm>(a: A, b: A, c: A, k1: nat, k2: nat)
    requires
        drawn(a, b, k1),
        drawn(b, c, k2),
    ensures
        drawn(a, c, k1 + k2),
{
    lemma_after_add::<A>(a@, k1, k2);
    assert forall|n: nat| #[trigger] c.output(n) == a.output(n + (k1 + k2)) by {
        assert(c.output(n) == b.output(n + k2));
        assert(b.output(n + k2) == a.output(n + k2 + k1));
    }
}

/// One draw of an integer is drawing one integer of the stream.
proof fn lemma_get_int_drawn<A: Algorithm>(a: A, b: A)
    requires
        b@ == A::step(a@),
        forall|n: nat| #[trigger] b.output(n) == a.output(n + 1),
    ensures
        drawn(a, b, 1),
{
    lemma_after_one::<A>(a@);
}

/// Drawing one bit from a generator whose stream is that of `a` less its
/// first `k` integers is drawing the bit at position `k` of the stream of `a`.
proof fn lemma_bit_draw_drawn<A: Algorithm>(a: A, b: A, k: nat, buf: u32, left: u32)
    requires
        drawn(a, b, k),
    ensures
        ({
            let (p, b1, l1, bit) = bit_draw(b, 0, buf, left);
            bit_draw(a, k, buf, left) == (p + k, b1, l1, bit)
        }),
{
    assert(b.output(0) == a.output(0 + k));
}

/// Draws a single-precision value uniformly from [0, 1) by the bit-exact
/// method: a geometric search for the exponent from 126 down, then 23
/// mantissa bits from one integer, and for a zero mantissa one more bit that
/// may raise the exponent. Returns the IEEE-754 bit pattern of the value.
pub fn get_float_bits<A: Algorithm>(algorithm: &mut A) -> (r: u32)
    requires
        old(algorithm).wf(),
    ensures
        final(algorithm).wf(),
        r == float_sample(*old(algorithm)).0,
        drawn(*old(algorithm), *final(algorithm), float_sample(*old(algorithm)).1),
        r < 0x3F80_0000,
{
    let ghost a0 = *algorithm;
    proof {
        lemma_float_sample_range(a0);
    }
    let mut bits = Bits::new();
    let exp = search_exponent(algorithm, &mut bits, (FLOAT_BIAS - 1) as u64);
    let ghost a1 = *algorithm;
    let ghost (pos_e, b1, l1, e1) = exp_search(a0, 0, 0, 0, 126);
    let mut e = exp as u32;
    let mantissa = algorithm.get_int() & FLOAT_MANTISSA_MASK;
    let ghost a2 = *algorithm;
    proof {
        assert(a1.output(0) == a0.output(0 + pos_e));
        lemma_get_int_drawn(a1, a2);
        lemma_drawn_trans(a0, a1, a2, pos_e, 1);
        lemma_bit_draw_drawn(a0, a2, pos_e + 1, b1, l1);
    }
    if mantissa == 0 {
        let bit = bits.get_bit(algorithm);
        proof {
            let (q, _, _, _) = bit_draw(a2, 0, b1, l1);
            lemma_drawn_trans(a0, a2, *algorithm, pos_e + 1, q);
        }
        if bit != 0 && e + 1 < FLOAT_BIAS {
            e = e + 1;
        }
    }
    (e << 23u32) | mantissa
}

/// Draws a double-precision value uniformly from [0, 1) by the bit-exact
/// method: a geometric search for the exponent from 1022 down, then 52
/// mantissa bits from two integers (the first gives the high word), and for
/// a zero mantissa one more bit that may raise the exponent. Returns the
/// IEEE-754 bit pattern of the value.
pub fn get_double_bits<A: Algorithm>(algorithm: &mut A) -> (r: u64)
    requires
        old(algorithm).wf(),
    ensures
        final(algorithm).wf(),
        r == double_sample(*old(algorithm)).0,
        drawn(*old(algorithm), *final(algorithm), double_sample(*old(algorithm)).1),
        r < 0x3FF0_0000_0000_0000,
{
    let ghost a0 = *algorithm;
    proof {
        lemma_double_sample_range(a0);
    }
    let mut bits = Bits::new();
    let mut exp = search_exponent(algorithm, &mut bits, DOUBLE_BIAS - 1);
    let ghost a1 = *algorithm;
    let ghost (pos_e, b1, l1, e1) = exp_search(a0, 0, 0, 0, 1022);
    let hi = algorithm.get_int() as u64;
    let ghost a2 = *algorithm;
    let lo = algorithm.get_int() as u64;
    let ghost a3 = *algorithm;
    let mantissa = ((hi << 32u64) | lo) & DOUBLE_MANTISSA_MASK;
    proof {
        assert(a1.output(0) == a0.output(0 + pos_e));
        assert(a2.output(0) == a1.output(0 + 1));
        assert(a1.output(1) == a0.output(1 + pos_e));
        lemma_get_int_drawn(a1, a2);
        lemma_get_int_drawn(a2, a3);
        lemma_drawn_trans(a0, a1, a2, pos_e, 1);
        lemma_drawn_trans(a0, a2, a3, pos_e + 1, 1);
        lemma_bit_draw_drawn(a0, a3, pos_e + 2, b1, l1);
    }
    if mantissa == 0 {
        let bit = bits.get_bit(algorithm);
        proof {
            let (q, _, _, _) = bit_draw(a3, 0, b1, l1);
            lemma_drawn_trans(a0, a3, *algorithm, pos_e + 2, q);
        }
        if bit != 0 && exp + 1 < DOUBLE_BIAS {
            exp = exp + 1;
        }
    }
    (exp << 52u64) | mantissa
}

/// The exponent that the search settles on lies between zero and where it
/// started.
pub proof fn lemma_exp_search_range<A: Algorithm>(a: A, p: nat, buf: u32, left: u32, exp: int)
    requires
        exp >= 0,
    ensures
        0 <= exp_search(a, p, buf, left, exp).3 <= exp,
    decreases exp,
{
    if exp > 0 {
        let (pos_e, b1, l1, bit) = bit_draw(a, p, buf, left);
        if bit == 0 {
            lemma_exp_search_range(a, pos_e, b1, l1, exp - 1);
        }
    }
}

/// Every single-precision sample is a value in [0, 1): its bit pattern has
/// the sign clear and lies below that of 1.0.
pub proof fn lemma_float_sample_range<A: Algorithm>(a: A)
    ensures
        float_sample(a).0 < 0x3F80_0000,
{
    let (pos_e, b1, l1, e) = exp_search(a, 0, 0, 0, 126);
    lemma_exp_search_range(a, 0, 0, 0, 126);
    let w = a.output(pos_e);
    let m = w & 0x7F_FFFFu32;
    assert(m <= 0x7F_FFFF) by (bit_vector)
        requires
            m == w & 0x7F_FFFFu32,
    ;
    let bit = bit_draw(a, pos_e + 1, b1, l1).3;
    let e2: u32 = if m == 0 && bit != 0 && e + 1 < 127 {
        (e + 1) as u32
    } else {
        e as u32
    };
    assert(float_sample(a).0 == (e2 << 23u32) | m);
    assert(e2 <= 126 ==> (e2 << 23u32) | m < 0x3F80_0000) by (bit_vector)
        requires
            m <= 0x7F_FFFF,
    ;
}

/// Every double-precision sample is a value in [0, 1): its bit pattern has
/// the sign clear and lies below that of 1.0.
pub proof fn lemma_double_sample_range<A: Algorithm>(a: A)
    ensures
        double_sample(a).0 < 0x3FF0_0000_0000_0000,
{
    let (pos_e, b1, l1, e) = exp_search(a, 0, 0, 0, 1022);
    lemma_exp_search_range(a, 0, 0, 0, 1022);
    let hi = a.output(pos_e) as u64;
    let lo = a.output(pos_e + 1) as u64;
    let m = ((hi << 32u64) | lo) & 0xF_FFFF_FFFF_FFFFu64;
    assert(m <= 0xF_FFFF_FFFF_FFFF) by (bit_vector)
        requires
            m == ((hi << 32u64) | lo) & 0xF_FFFF_FFFF_FFFFu64,
    ;
    let bit = bit_draw(a, pos_e + 2, b1, l1).3;
    let e2: u64 = if m == 0 && bit != 0 && e + 1 < 1023 {
        (e + 1) as u64
    } else {
        e as u64
    };
    assert(double_sample(a).0 == (e2 << 52u64) | m);
    assert(e2 <= 1022 ==> (e2 << 52u64) | m < 0x3FF0_0000_0000_0000) by (bit_vector)
        requires
            m <= 0xF_FFFF_FFFF_FFFF,
    ;
}

/// Two generators whose streams agree from their positions on settle the
/// exponent search the same way.
proof fn lemma_exp_search_same_stream<A: Algorithm>(
    a: A,
    b: A,
    p: nat,
    buf: u32,
    left: u32,
    exp: int,
)
    requires
        forall|n: nat| #[trigger] a.output(n) == b.output(n),
    ensures
        exp_search(a, p, buf, left, exp) == exp_search(b, p, buf, left, exp),
    decreases exp,
{
    assert(a.output(p) == b.output(p));
    if exp > 0 {
        let (pos_e, b1, l1, bit) = bit_draw(a, p, buf, left);
        if bit == 0 {
            lemma_exp_search_same_stream(a, b, pos_e, b1, l1, exp - 1);
        }
    }
}

/// Generators with the same stream of integers give the same integer, the
/// same single- and double-precision samples, and draw the same number of
/// integers for each: whatever is done to one and the other alike, they keep
/// giving equal results.
pub proof fn lemma_same_stream_same_results<A: Algorithm>(a: A, b: A)
    requires
        forall|n: nat| #[trigger] a.output(n) == b.output(n),
    ensures
        a.output(0) == b.output(0),
        float_sample(a) == float_sample(b),
        double_sample(a) == double_sample(b),
{
    lemma_exp_search_same_stream(a, b, 0, 0, 0, 126);
    lemma_exp_search_same_stream(a, b, 0, 0, 0, 1022);
    let (pos_e, b1, l1, e) = exp_search(a, 0, 0, 0, 126);
    assert(a.output(pos_e) == b.output(pos_e));
    assert(a.output(pos_e + 1) == b.output(pos_e + 1));
    let (q1, c1, m1, f) = exp_search(a, 0, 0, 0, 1022);
    assert(a.output(q1) == b.output(q1));
    assert(a.output(q1 + 1) == b.output(q1 + 1));
    assert(a.output(q1 + 2) == b.output(q1 + 2));
}

/// Two generators in the same state give the same integer and the same
/// single- and double-precision samples, and draw the same number of integers
/// for each, so that they are in the same state again afterwards: driven
/// alike, they give equal results at every step.
pub proof fn lemma_same_state_same_results<A: Algorithm>(a: A, b: A)
    requires
        a@ == b@,
    ensures
        a.output(0) == b.output(0),
        float_sample(a) == float_sample(b),
        double_sample(a) == double_sample(b),
        forall|k: nat| #[trigger] after::<A>(a@, k) == after::<A>(b@, k),
{
    A::lemma_view_decides_output(a, b);
    lemma_same_stream_same_results(a, b);
}

/// Bit `i` of the stream of `a`, as the extractor hands bits out: integer
/// `i / 32` of the stream, least significant bit first.
pub open spec fn stream_bit<A: Algorithm>(a: A, i: nat) -> u32 {
    (a.output(i / 32) >> ((i % 32) as u32)) & 1u32
}

/// The extractor state (`p` integers drawn, `buf`, `left`) is the one that
/// comes from handing out the first `i` bits of the stream of `a`.
pub open spec fn bits_at<A: Algorithm>(a: A, i: nat, p: nat, buf: u32, left: u32) -> bool {
    if i % 32 == 0 {
        left == 0 && p == i / 32
    } else {
        &&& left == 32 - i % 32
        &&& p == i / 32 + 1
        &&& buf == a.output(i / 32) >> ((i % 32) as u32)
    }
}

/// Drawing a bit from the state after `i` bits hands out bit `i`.
proof fn lemma_bit_draw_at<A: Algorithm>(a: A, i: nat, p: nat, buf: u32, left: u32)
    requires
        bits_at(a, i, p, buf, left),
    ensures
        ({
            let (pos_next, b1, l1, bit) = bit_draw(a, p, buf, left);
            bit == stream_bit(a, i) && bits_at(a, i + 1, pos_next, b1, l1)
        }),
{
    let w = a.output(i / 32);
    let sh = (i % 32) as u32;
    assert(sh < 32);
    if i % 32 == 0 {
        assert(w >> 0u32 == w) by (bit_vector);
        assert((i + 1) / 32 == i / 32 && (i + 1) % 32 == 1);
    } else {
        assert((w >> sh) >> 1u32 == w >> ((sh + 1) as u32)) by (bit_vector)
            requires
                sh < 32,
        ;
        if sh == 31 {
            assert((i + 1) % 32 == 0 && (i + 1) / 32 == i / 32 + 1);
        } else {
            assert((i + 1) % 32 == sh + 1 && (i + 1) / 32 == i / 32);
        }
    }
}

/// The exponent search from the state after `i` bits, starting at `exp`,
/// ends `k` or more below `exp` exactly when the `k` bits from bit `i` on are
/// all zero.
proof fn lemma_exp_search_bits<A: Algorithm>(
    a: A,
    i: nat,
    p: nat,
    buf: u32,
    left: u32,
    exp: int,
    k: nat,
)
    requires
        bits_at(a, i, p, buf, left),
        0 <= k <= exp,
    ensures
        exp_search(a, p, buf, left, exp).3 <= exp - k <==> (forall|j: nat|
            j < k ==> #[trigger] stream_bit(a, i + j) == 0),
    decreases exp,
{
    lemma_exp_search_range(a, p, buf, left, exp);
    if exp > 0 {
        lemma_bit_draw_at(a, i, p, buf, left);
        let (pos_next, b1, l1, bit) = bit_draw(a, p, buf, left);
        if k > 0 {
            assert(stream_bit(a, i + 0) == bit);
            if bit == 0 {
                lemma_exp_search_bits(a, i + 1, pos_next, b1, l1, exp - 1, (k - 1) as nat);
                if forall|j: nat| j < k ==> #[trigger] stream_bit(a, i + j) == 0 {
                    assert forall|j: nat| j < (k - 1) as nat implies #[trigger] stream_bit(
                        a,
                        (i + 1) + j,
                    ) == 0 by {
                        assert(stream_bit(a, i + (j + 1)) == 0);
                    }
                }
                if forall|j: nat| j < (k - 1) as nat ==> #[trigger] stream_bit(a, (i + 1) + j) == 0 {
                    assert forall|j: nat| j < k implies #[trigger] stream_bit(a, i + j) == 0 by {
                        if j > 0 {
                            assert(stream_bit(a, (i + 1) + (j - 1) as nat) == 0);
                        }
                    }
                }
            }
        }
    }
}

/// A single-precision sample is below 2^-k (`1 <= k <= 126`) only when the
/// first `k` bits of the stream are zero, and when they are it is at most
/// 2^-k (equal to it only through the raise for a zero mantissa): each
/// leading zero bit halves the range of the value, so that the share of
/// samples below 2^-k is 2^-k.
pub proof fn lemma_float_sample_leading_zeros<A: Algorithm>(a: A, k: nat)
    requires
        1 <= k <= 126,
    ensures
        float_sample(a).0 < ((127 - k) as u32) << 23u32 ==> (forall|j: nat|
            j < k ==> #[trigger] stream_bit(a, j) == 0),
        (forall|j: nat| j < k ==> #[trigger] stream_bit(a, j) == 0) ==> float_sample(a).0 <= ((127
            - k) as u32) << 23u32,
{
    let (pos_e, b1, l1, e) = exp_search(a, 0, 0, 0, 126);
    lemma_exp_search_range(a, 0, 0, 0, 126);
    lemma_exp_search_bits(a, 0, 0, 0, 0, 126, k);
    assert forall|j: nat| #[trigger] stream_bit(a, j) == stream_bit(a, 0 + j) by {}
    let w = a.output(pos_e);
    let m = w & 0x7F_FFFFu32;
    assert(m <= 0x7F_FFFF) by (bit_vector)
        requires
            m == w & 0x7F_FFFFu32,
    ;
    let bit = bit_draw(a, pos_e + 1, b1, l1).3;
    let e2: u32 = if m == 0 && bit != 0 && e + 1 < 127 {
        (e + 1) as u32
    } else {
        e as u32
    };
    let c = (127 - k) as u32;
    assert(float_sample(a).0 == (e2 << 23u32) | m);
    assert((e2 << 23u32) | m < c << 23u32 ==> e2 < c) by (bit_vector)
        requires
            m <= 0x7F_FFFF,
            e2 <= 127,
            c <= 127,
    ;
    assert(e2 < c ==> (e2 << 23u32) | m < c << 23u32) by (bit_vector)
        requires
            m <= 0x7F_FFFF,
            e2 <= 127,
            c <= 127,
    ;
    assert(e2 == c && m == 0 ==> (e2 << 23u32) | m == c << 23u32) by (bit_vector);
}

/// A double-precision sample is below 2^-k (`1 <= k <= 1022`) only when
/// the first `k` bits of the stream are zero, and when they are it is at
/// most 2^-k (equal to it only through the raise for a zero mantissa).
pub proof fn lemma_double_sample_leading_zeros<A: Algorithm>(a: A, k: nat)
    requires
        1 <= k <= 1022,
    ensures
        double_sample(a).0 < ((1023 - k) as u64) << 52u64 ==> (forall|j: nat|
            j < k ==> #[trigger] stream_bit(a, j) == 0),
        (forall|j: nat| j < k ==> #[trigger] stream_bit(a, j) == 0) ==> double_sample(a).0 <= ((1023
            - k) as u64) << 52u64,
{
    let (pos_e, b1, l1, e) = exp_search(a, 0, 0, 0, 1022);
    lemma_exp_search_range(a, 0, 0, 0, 1022);
    lemma_exp_search_bits(a, 0, 0, 0, 0, 1022, k);
    assert forall|j: nat| #[trigger] stream_bit(a, j) == stream_bit(a, 0 + j) by {}
    let hi = a.output(pos_e) as u64;
    let lo = a.output(pos_e + 1) as u64;
    let m = ((hi << 32u64) | lo) & 0xF_FFFF_FFFF_FFFFu64;
    assert(m <= 0xF_FFFF_FFFF_FFFF) by (bit_vector)
        requires
            m == ((hi << 32u64) | lo) & 0xF_FFFF_FFFF_FFFFu64,
    ;
    let bit = bit_draw(a, pos_e + 2, b1, l1).3;
    let e2: u64 = if m == 0 && bit != 0 && e + 1 < 1023 {
        (e + 1) as u64
    } else {
        e as u64
    };
    let c = (1023 - k) as u64;
    assert(double_sample(a).0 == (e2 << 52u64) | m);
    assert((e2 << 52u64) | m < c << 52u64 ==> e2 < c) by (bit_vector)
        requires
            m <= 0xF_FFFF_FFFF_FFFF,
            e2 <= 1023,
            c <= 1023,
    ;
    assert(e2 < c ==> (e2 << 52u64) | m < c << 52u64) by (bit_vector)
        requires
            m <= 0xF_FFFF_FFFF_FFFF,
            e2 <= 1023,
            c <= 1023,
    ;
    assert(e2 == c && m == 0 ==> (e2 << 52u64) | m == c << 52u64) by (bit_vector);
}

} // verus!
