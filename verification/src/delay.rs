//! The delay effect: a feedback delay line with tail extension.
//!
//! Each channel independently runs through a circular delay line of
//! `round((time/1000) * sample_rate)` samples, filled with zeros. The
//! main pass reads the oldest line value `d`, feeds `x + d*feedback`
//! back into the line and outputs `x + d*mix`; afterwards the channel
//! is extended with a decaying tail, each appended sample clamped to
//! the unit range. A caller-supplied tail length fixes the extension
//! to exactly `round(tail * sample_rate)` samples; otherwise the
//! extension runs until the line's normalized RMS energy falls below a
//! fixed floor, tracked incrementally, and a hard cap turns a runaway
//! tail into a diagnostic instead of unbounded work.
//!
//! The echo recurrence, the tail values, the automatic length and the
//! cap diagnostic are all pinned over the named deterministic
//! operations, conditional on the modelled computation staying free of
//! NaN (a NaN result's payload bits are not determined, so past one
//! the bits can no longer be tracked); on ordinary audio it is
//! NaN-free throughout.

use vstd::prelude::*;
use crate::args::{verify_range, Arguments};
use crate::arith::{
    add_of, div_of, mul_of, of_u32, of_usize, round_count_of, sample_add, sample_div, sample_mul,
    sample_of_u32, sample_of_usize, sample_round_count, sample_sqrt, sample_sub, sqrt_of, sub_of,
};
use crate::buffer::{lemma_channel_update_framed, AudioBuffer};
use crate::errors::{names_missing, names_range, ApplyError, Diagnostic, ValidationError};
use crate::ring::{ring_cap, ring_enqueue, ring_front, ring_new, ring_seq, ring_to_vec};
use crate::sample::{
    abs_bits, ge_bits, gt_bits, is_nan_bits, le_bits, lemma_clamp_unit_bounded,
    lemma_plain_positive, clamp_unit_bits, sample_clamp_unit, sample_ge, sample_gt, ABS_MASK,
    EXP_MASK, ONE_BITS, ZERO_BITS,
};

verus! {

/// Bit pattern of 100.0, the exclusive upper bound on `mix` and
/// `feedback`.
pub const HUNDRED_BITS: u64 = 0x4059_0000_0000_0000;

/// Bit pattern of 1000.0, milliseconds per second.
pub const THOUSAND_BITS: u64 = 0x408F_4000_0000_0000;

/// Bit pattern of 1000000.0, the exclusive upper bound on `time`.
pub const MILLION_BITS: u64 = 0x412E_8480_0000_0000;

/// Bit pattern of 0.9: a feedback above it, without a tail length,
/// draws a warning.
pub const POINT_NINE_BITS: u64 = 0x3FEC_CCCC_CCCC_CCCD;

/// Bit pattern of 0.0001, the normalized RMS floor (about -80 dB) that
/// ends the automatic tail.
pub const ENERGY_FLOOR_BITS: u64 = 0x3F1A_36E2_EB1C_432D;

/// The automatic tail's hard cap, in seconds.
pub const MAX_TAIL_SECONDS: u64 = 3600;

/// The delay line's length at a given rate and time argument when the
/// product is an ordinary value: `round((time/1000) * sample_rate)`.
pub open spec fn delay_line_len(time: u64, rate: u32) -> usize {
    round_count_of(mul_of(div_of(time, THOUSAND_BITS), of_u32(rate)))
}

/// Whether the line-length computation stays out of NaN (for any
/// `time` a validated argument takes, it does; the names cannot show
/// that, so the contract cases on it).
pub open spec fn delay_len_defined(time: u64, rate: u32) -> bool {
    &&& !is_nan_bits(div_of(time, THOUSAND_BITS))
    &&& !is_nan_bits(mul_of(div_of(time, THOUSAND_BITS), of_u32(rate)))
}

/// The line length the computation actually yields: the rounded count,
/// or zero when the product is NaN (a NaN casts to 0).
pub open spec fn delay_line_count(time: u64, rate: u32) -> usize {
    if delay_len_defined(time, rate) {
        delay_line_len(time, rate)
    } else {
        0
    }
}

/// How many samples a caller-fixed tail appends:
/// `round(tail * sample_rate)`, or zero when the product is NaN.
pub open spec fn fixed_tail_count(tail: u64, rate: u32) -> usize {
    if is_nan_bits(mul_of(tail, of_u32(rate))) {
        0
    } else {
        round_count_of(mul_of(tail, of_u32(rate)))
    }
}

/// The automatic tail's hard cap in samples: 3600 seconds at the
/// stream's rate.
pub open spec fn tail_cap(rate: u32) -> nat {
    (MAX_TAIL_SECONDS * (rate as u64)) as nat
}

/// Every sample of `out` beyond `from` is clamped: not NaN means
/// absolute value at most 1.0.
pub open spec fn tail_clamped(out: Seq<u64>, from: int) -> bool {
    forall|j: int|
        from <= j < out.len() && !is_nan_bits(#[trigger] out[j]) ==> abs_bits(out[j]) <= ONE_BITS
}

/// A delay line of `n` zero samples.
pub open spec fn init_line(n: usize) -> Seq<u64> {
    Seq::new(n as nat, |i: int| ZERO_BITS)
}

/// The delay line after the first `i` samples of the main pass: each
/// step drops the oldest value `d` and pushes `x + d*feedback`.
pub open spec fn main_line(line0: Seq<u64>, xs: Seq<u64>, fb: u64, i: int) -> Seq<u64>
    decreases i,
{
    if i <= 0 {
        line0
    } else {
        let l = main_line(line0, xs, fb, i - 1);
        l.drop_first().push(add_of(xs[i - 1], mul_of(l[0], fb)))
    }
}

/// The main pass's output at index `i`: `x + d*mix` with `d` the value
/// the line held longest when sample `i` arrived.
pub open spec fn main_out(line0: Seq<u64>, xs: Seq<u64>, fb: u64, mix: u64, i: int) -> u64 {
    add_of(xs[i], mul_of(main_line(line0, xs, fb, i)[0], mix))
}

/// Whether one main-pass step's terms stay free of NaN: the fed-back
/// value (which the line must keep bit-exact) and the output.
pub open spec fn main_step_defined(line0: Seq<u64>, xs: Seq<u64>, fb: u64, mix: u64, i: int) -> bool {
    let d = main_line(line0, xs, fb, i)[0];
    &&& !is_nan_bits(mul_of(d, fb))
    &&& !is_nan_bits(add_of(xs[i], mul_of(d, fb)))
    &&& !is_nan_bits(mul_of(d, mix))
    &&& !is_nan_bits(add_of(xs[i], mul_of(d, mix)))
}

/// Whether the whole main pass stays free of NaN.
pub open spec fn main_defined(line0: Seq<u64>, xs: Seq<u64>, fb: u64, mix: u64) -> bool {
    forall|i: int| 0 <= i < xs.len() ==> #[trigger] main_step_defined(line0, xs, fb, mix, i)
}

/// The delay line after `k` tail steps, each feeding zero in: the
/// oldest value `d` leaves and `d*feedback` is pushed.
pub open spec fn tail_line(line: Seq<u64>, fb: u64, k: int) -> Seq<u64>
    decreases k,
{
    if k <= 0 {
        line
    } else {
        let l = tail_line(line, fb, k - 1);
        l.drop_first().push(mul_of(l[0], fb))
    }
}

/// The tail sample appended at step `k`: `d*mix`, clamped to the unit
/// range.
pub open spec fn tail_out(line: Seq<u64>, fb: u64, mix: u64, k: int) -> u64 {
    clamp_unit_bits(mul_of(tail_line(line, fb, k)[0], mix))
}

/// Whether one tail step's terms stay free of NaN.
pub open spec fn tail_step_defined(line: Seq<u64>, fb: u64, mix: u64, k: int) -> bool {
    let d = tail_line(line, fb, k)[0];
    &&& !is_nan_bits(mul_of(d, fb))
    &&& !is_nan_bits(mul_of(d, mix))
}

/// Whether the first `steps` tail steps stay free of NaN.
pub open spec fn tail_defined(line: Seq<u64>, fb: u64, mix: u64, steps: int) -> bool {
    forall|k: int| 0 <= k < steps ==> #[trigger] tail_step_defined(line, fb, mix, k)
}

/// The running sum of squares of `s`, folded onto `acc` from the front.
pub open spec fn sum_sq_from(s: Seq<u64>, acc: u64) -> u64
    decreases s.len(),
{
    if s.len() == 0 {
        acc
    } else {
        sum_sq_from(s.drop_first(), add_of(acc, mul_of(s[0], s[0])))
    }
}

/// Whether the sum-of-squares fold stays free of NaN.
pub open spec fn sum_sq_defined(s: Seq<u64>, acc: u64) -> bool
    decreases s.len(),
{
    if s.len() == 0 {
        true
    } else {
        &&& !is_nan_bits(mul_of(s[0], s[0]))
        &&& !is_nan_bits(add_of(acc, mul_of(s[0], s[0])))
        &&& sum_sq_defined(s.drop_first(), add_of(acc, mul_of(s[0], s[0])))
    }
}

/// The incrementally tracked sum of squares after `k` tail steps: the
/// square of the leaving value is subtracted and the square of the
/// entering value `d*feedback` added.
pub open spec fn auto_sum(line: Seq<u64>, sum0: u64, fb: u64, k: int) -> u64
    decreases k,
{
    if k <= 0 {
        sum0
    } else {
        let l = tail_line(line, fb, k - 1);
        let s = auto_sum(line, sum0, fb, k - 1);
        let d = l[0];
        add_of(sub_of(s, mul_of(d, d)), mul_of(mul_of(d, fb), mul_of(d, fb)))
    }
}

/// Whether one energy-update step's terms stay free of NaN.
pub open spec fn auto_step_defined(line: Seq<u64>, sum0: u64, fb: u64, k: int) -> bool {
    let l = tail_line(line, fb, k);
    let s = auto_sum(line, sum0, fb, k);
    let d = l[0];
    let e = mul_of(d, fb);
    &&& !is_nan_bits(mul_of(d, d))
    &&& !is_nan_bits(sub_of(s, mul_of(d, d)))
    &&& !is_nan_bits(mul_of(e, e))
    &&& !is_nan_bits(add_of(sub_of(s, mul_of(d, d)), mul_of(e, e)))
}

/// Whether the threshold comparison's terms at step `k` stay free of
/// NaN.
pub open spec fn auto_cmp_defined(line: Seq<u64>, sum0: u64, factor: u64, fb: u64, k: int) -> bool {
    &&& !is_nan_bits(sqrt_of(auto_sum(line, sum0, fb, k)))
    &&& !is_nan_bits(mul_of(factor, sqrt_of(auto_sum(line, sum0, fb, k))))
}

/// The energy normalizing factor `sqrt(1/n)`.
pub open spec fn energy_factor(n: usize) -> u64 {
    sqrt_of(div_of(ONE_BITS, of_usize(n)))
}

/// Whether the normalizing factor's terms stay free of NaN.
pub open spec fn factor_defined(n: usize) -> bool {
    &&& !is_nan_bits(div_of(ONE_BITS, of_usize(n)))
    &&& !is_nan_bits(energy_factor(n))
}

/// Whether the tracked energy still exceeds the floor before tail step
/// `k`: `factor * sqrt(sum) > 0.0001`.
pub open spec fn energy_high(line: Seq<u64>, sum0: u64, factor: u64, fb: u64, k: int) -> bool {
    gt_bits(mul_of(factor, sqrt_of(auto_sum(line, sum0, fb, k))), ENERGY_FLOOR_BITS)
}

/// How many tail steps the automatic extension takes, counting from
/// step `k`: the first step at which the energy is no longer high, and
/// `max` at the latest.
pub open spec fn auto_len_from(
    line: Seq<u64>,
    sum0: u64,
    factor: u64,
    fb: u64,
    k: nat,
    max: nat,
) -> nat
    decreases max - k,
{
    if k >= max {
        max
    } else if !energy_high(line, sum0, factor, fb, k as int) {
        k
    } else {
        auto_len_from(line, sum0, factor, fb, (k + 1) as nat, max)
    }
}

/// The automatic extension's length.
pub open spec fn auto_tail_len(line: Seq<u64>, sum0: u64, factor: u64, fb: u64, max: nat) -> nat {
    auto_len_from(line, sum0, factor, fb, 0, max)
}

/// Whether the automatic extension hits the cap with the energy still
/// high, which draws the tail-length diagnostic.
pub open spec fn auto_hits_cap(line: Seq<u64>, sum0: u64, factor: u64, fb: u64, max: nat) -> bool {
    forall|k: int| 0 <= k <= max ==> energy_high(line, sum0, factor, fb, k)
}

/// A run of high-energy steps ended by a quiet one (or by the cap)
/// pins the automatic length.
proof fn lemma_auto_len(
    line: Seq<u64>,
    sum0: u64,
    factor: u64,
    fb: u64,
    k: nat,
    max: nat,
    steps: nat,
)
    requires
        k <= steps <= max,
        forall|j: int| k <= j < steps ==> energy_high(line, sum0, factor, fb, j),
        steps == max || !energy_high(line, sum0, factor, fb, steps as int),
    ensures
        auto_len_from(line, sum0, factor, fb, k, max) == steps,
    decreases steps - k,
{
    if k < steps {
        lemma_auto_len(line, sum0, factor, fb, (k + 1) as nat, max, steps);
    }
}

/// Whether every energy comparison, energy update and tail step up to
/// the cap stays free of NaN.
pub open spec fn auto_all_defined(
    ln: Seq<u64>,
    sum0: u64,
    factor: u64,
    fb: u64,
    mix: u64,
    cap: nat,
) -> bool {
    &&& (forall|k: int| 0 <= k <= cap ==> #[trigger] auto_cmp_defined(ln, sum0, factor, fb, k))
    &&& (forall|k: int| 0 <= k < cap ==> #[trigger] auto_step_defined(ln, sum0, fb, k))
    &&& (forall|k: int| 0 <= k < cap ==> #[trigger] tail_step_defined(ln, fb, mix, k))
}

/// The hypothesis under which one channel's automatic tail is fully
/// modelled: the main pass and the whole energy computation stay free
/// of NaN.
pub open spec fn delay_auto_model_ok(xs: Seq<u64>, n: usize, fb: u64, mix: u64, rate: u32) -> bool {
    let line0 = init_line(n);
    let ln = main_line(line0, xs, fb, xs.len() as int);
    let sum0 = sum_sq_from(ln, ZERO_BITS);
    &&& main_defined(line0, xs, fb, mix)
    &&& factor_defined(n)
    &&& sum_sq_defined(ln, ZERO_BITS)
    &&& auto_all_defined(ln, sum0, energy_factor(n), fb, mix, tail_cap(rate))
}

/// The modelled automatic tail length of one channel.
pub open spec fn delay_auto_model_len(xs: Seq<u64>, n: usize, fb: u64, rate: u32) -> nat {
    let line0 = init_line(n);
    let ln = main_line(line0, xs, fb, xs.len() as int);
    auto_tail_len(ln, sum_sq_from(ln, ZERO_BITS), energy_factor(n), fb, tail_cap(rate))
}

/// Whether the modelled automatic tail of one channel hits the cap.
pub open spec fn delay_auto_hit_model(xs: Seq<u64>, n: usize, fb: u64, rate: u32) -> bool {
    let line0 = init_line(n);
    let ln = main_line(line0, xs, fb, xs.len() as int);
    auto_hits_cap(ln, sum_sq_from(ln, ZERO_BITS), energy_factor(n), fb, tail_cap(rate))
}

/// One channel's full value law: wherever the modelled computation
/// stays NaN-free, the first samples equal the echo recurrence and the
/// appended tail equals the decaying tail model; for the automatic
/// tail, its length and whether it hit the cap are the model's.
pub open spec fn delay_channel_law(
    xs: Seq<u64>,
    out: Seq<u64>,
    n: usize,
    fb: u64,
    mix: u64,
    tail: Option<u64>,
    rate: u32,
    hit: bool,
) -> bool {
    let line0 = init_line(n);
    let ln = main_line(line0, xs, fb, xs.len() as int);
    &&& (main_defined(line0, xs, fb, mix) ==> forall|i: int|
        0 <= i < xs.len() ==> #[trigger] out[i] == main_out(line0, xs, fb, mix, i))
    &&& match tail {
        Some(t) => {
            main_defined(line0, xs, fb, mix) && tail_defined(
                ln,
                fb,
                mix,
                fixed_tail_count(t, rate) as int,
            ) ==> forall|k: int|
                0 <= k < fixed_tail_count(t, rate) ==> #[trigger] out[xs.len() + k] == tail_out(
                    ln,
                    fb,
                    mix,
                    k,
                )
        },
        None => {
            delay_auto_model_ok(xs, n, fb, mix, rate) ==> {
                &&& out.len() == xs.len() + delay_auto_model_len(xs, n, fb, rate)
                &&& (forall|k: int|
                    0 <= k < delay_auto_model_len(xs, n, fb, rate) ==> #[trigger] out[xs.len()
                        + k] == tail_out(ln, fb, mix, k))
                &&& hit == delay_auto_hit_model(xs, n, fb, rate)
            }
        },
    }
}

/// One channel obeys the value law for some hit flag.
pub open spec fn delay_channel_lawful(
    xs: Seq<u64>,
    out: Seq<u64>,
    n: usize,
    fb: u64,
    mix: u64,
    tail: Option<u64>,
    rate: u32,
) -> bool {
    exists|h: bool| delay_channel_law(xs, out, n, fb, mix, tail, rate, h)
}

/// The sum of squares of a vector's elements, for the energy estimate:
/// pinned to the fold whenever the fold stays free of NaN.
fn square_sum(v: &Vec<u64>) -> (r: u64)
    ensures
        sum_sq_defined(v@, ZERO_BITS) ==> r == sum_sq_from(v@, ZERO_BITS),
{
    let ghost sd = sum_sq_defined(v@, ZERO_BITS);
    let n = v.len();
    let mut acc: u64 = ZERO_BITS;
    proof {
        assert(v@.skip(0) =~= v@);
    }
    let mut i: usize = 0;
    while i < n
        invariant
            n == v@.len(),
            0 <= i <= n,
            sd == sum_sq_defined(v@, ZERO_BITS),
            sd ==> sum_sq_from(v@, ZERO_BITS) == sum_sq_from(v@.skip(i as int), acc),
            sd ==> sum_sq_defined(v@.skip(i as int), acc),
        decreases n - i,
    {
        proof {
            assert(v@.skip(i as int).drop_first() =~= v@.skip(i as int + 1));
            assert(v@.skip(i as int)[0] == v@[i as int]);
        }
        acc = sample_add(acc, sample_mul(v[i], v[i]));
        i += 1;
    }
    proof {
        assert(v@.skip(n as int) =~= Seq::<u64>::empty());
    }
    acc
}

/// Runs the delay on one channel: the main pass in place, then the
/// tail extension. Returns whether the automatic tail hit its cap.
fn delay_channel(ch: &mut Vec<u64>, n: usize, fb: u64, mix: u64, tail: &Option<u64>, rate: u32) -> (hit: bool)
    requires
        n >= 1,
    ensures
        *tail matches Some(t) ==> (final(ch)@.len() == old(ch)@.len() + fixed_tail_count(t, rate)
            && !hit),
        tail is None ==> old(ch)@.len() <= final(ch)@.len() <= old(ch)@.len() + tail_cap(rate),
        tail_clamped(final(ch)@, old(ch)@.len() as int),
        delay_channel_law(old(ch)@, final(ch)@, n, fb, mix, *tail, rate, hit),
{
    let ghost xs = old(ch)@;
    let ghost line0 = init_line(n);
    let ghost md = main_defined(line0, xs, fb, mix);
    let len = ch.len();

    let mut line = ring_new(n);
    let mut k: usize = 0;
    while k < n
        invariant
            0 <= k <= n,
            ring_cap(line) == n,
            ring_seq(line) =~= Seq::new(k as nat, |i: int| ZERO_BITS),
        decreases n - k,
    {
        ring_enqueue(&mut line, ZERO_BITS);
        k += 1;
    }
    proof {
        assert(ring_seq(line) =~= line0);
    }

    let mut i: usize = 0;
    while i < len
        invariant
            n >= 1,
            len == ch@.len(),
            len == xs.len(),
            md == main_defined(line0, xs, fb, mix),
            0 <= i <= len,
            ring_cap(line) == n,
            ring_seq(line).len() == n,
            forall|j: int| i <= j < len ==> ch@[j] == xs[j],
            md ==> ring_seq(line) == main_line(line0, xs, fb, i as int),
            md ==> forall|j: int|
                0 <= j < i ==> #[trigger] ch@[j] == main_out(line0, xs, fb, mix, j),
        decreases len - i,
    {
        let d = ring_front(&line).unwrap();
        let x = ch[i];
        let fed = sample_mul(d, fb);
        let e = sample_add(x, fed);
        let wet = sample_mul(d, mix);
        let out = sample_add(x, wet);
        proof {
            if md {
                assert(main_step_defined(line0, xs, fb, mix, i as int));
                assert(d == main_line(line0, xs, fb, i as int)[0]);
                assert(x == xs[i as int]);
                assert(fed == mul_of(d, fb));
                assert(e == add_of(xs[i as int], mul_of(d, fb)));
                assert(out == main_out(line0, xs, fb, mix, i as int));
            }
        }
        ring_enqueue(&mut line, e);
        ch[i] = out;
        proof {
            if md {
                assert(ring_seq(line) =~= main_line(line0, xs, fb, i + 1));
            }
        }
        i += 1;
    }
    let ghost ln = main_line(line0, xs, fb, xs.len() as int);

    match tail {
        Some(t) => {
            let rb = sample_of_u32(rate);
            let m = sample_mul(*t, rb);
            let steps = sample_round_count(m);
            proof {
                if !is_nan_bits(mul_of(*t, of_u32(rate))) {
                    assert(m == mul_of(*t, of_u32(rate)));
                }
                assert(steps == fixed_tail_count(*t, rate));
            }
            let ghost td = md && tail_defined(ln, fb, mix, steps as int);
            let mut k: usize = 0;
            while k < steps
                invariant
                    n >= 1,
                    0 <= k <= steps,
                    ring_cap(line) == n,
                    ring_seq(line).len() == n,
                    ch@.len() == len + k,
                    tail_clamped(ch@, len as int),
                    td == (md && tail_defined(ln, fb, mix, steps as int)),
                    td ==> ring_seq(line) == tail_line(ln, fb, k as int),
                    td ==> forall|j: int|
                        0 <= j < k ==> #[trigger] ch@[len + j] == tail_out(ln, fb, mix, j),
                    md ==> forall|j: int|
                        0 <= j < len ==> #[trigger] ch@[j] == main_out(line0, xs, fb, mix, j),
                decreases steps - k,
            {
                let d = ring_front(&line).unwrap();
                let fed = sample_mul(d, fb);
                let wet = sample_mul(d, mix);
                let s = sample_clamp_unit(wet);
                proof {
                    lemma_clamp_unit_bounded(wet);
                    if td {
                        assert(tail_step_defined(ln, fb, mix, k as int));
                        assert(d == tail_line(ln, fb, k as int)[0]);
                        assert(fed == mul_of(d, fb));
                        assert(wet == mul_of(d, mix));
                        assert(s == tail_out(ln, fb, mix, k as int));
                    }
                }
                ring_enqueue(&mut line, fed);
                ch.push(s);
                proof {
                    if td {
                        assert(ring_seq(line) =~= tail_line(ln, fb, k + 1));
                    }
                }
                k += 1;
            }
            false
        },
        None => {
            let ghost ad = delay_auto_model_ok(xs, n, fb, mix, rate);
            let ghost sum0 = sum_sq_from(ln, ZERO_BITS);
            let cap: u64 = MAX_TAIL_SECONDS * (rate as u64);
            let q = sample_div(ONE_BITS, sample_of_usize(n));
            let factor = sample_sqrt(q);
            proof {
                if ad {
                    assert(factor == energy_factor(n));
                }
            }
            let v = ring_to_vec(&line);
            let mut sum = square_sum(&v);
            proof {
                if ad {
                    assert(v@ == ln);
                    assert(sum == sum_sq_from(ln, ZERO_BITS));
                    assert(sum == auto_sum(ln, sum0, fb, 0));
                }
            }
            let sq = sample_sqrt(sum);
            let lvl = sample_mul(factor, sq);
            let mut high = sample_gt(lvl, ENERGY_FLOOR_BITS);
            proof {
                if ad {
                    assert(auto_all_defined(ln, sum0, energy_factor(n), fb, mix, tail_cap(rate)));
                    assert(auto_cmp_defined(ln, sum0, energy_factor(n), fb, 0));
                    assert(sq == sqrt_of(auto_sum(ln, sum0, fb, 0)));
                    assert(lvl == mul_of(energy_factor(n), sqrt_of(auto_sum(ln, sum0, fb, 0))));
                    assert(high == energy_high(ln, sum0, energy_factor(n), fb, 0));
                }
            }
            let mut steps: u64 = 0;
            while high && steps < cap
                invariant
                    n >= 1,
                    0 <= steps <= cap,
                    cap == tail_cap(rate),
                    ring_cap(line) == n,
                    ring_seq(line).len() == n,
                    ch@.len() == len + steps,
                    tail_clamped(ch@, len as int),
                    ad == delay_auto_model_ok(xs, n, fb, mix, rate),
                    sum0 == sum_sq_from(ln, ZERO_BITS),
                    ad ==> ring_seq(line) == tail_line(ln, fb, steps as int),
                    ad ==> sum == auto_sum(ln, sum0, fb, steps as int),
                    ad ==> high == energy_high(ln, sum0, energy_factor(n), fb, steps as int),
                    ad ==> forall|j: int|
                        0 <= j < steps ==> energy_high(ln, sum0, energy_factor(n), fb, j),
                    ad ==> forall|j: int|
                        0 <= j < steps ==> #[trigger] ch@[len + j] == tail_out(ln, fb, mix, j),
                    md ==> forall|j: int|
                        0 <= j < len ==> #[trigger] ch@[j] == main_out(line0, xs, fb, mix, j),
                    ad ==> factor == energy_factor(n),
                    ad ==> auto_all_defined(ln, sum0, energy_factor(n), fb, mix, tail_cap(rate)),
                decreases cap - steps,
            {
                let d = ring_front(&line).unwrap();
                let dd = sample_mul(d, d);
                let lowered = sample_sub(sum, dd);
                let fed = sample_mul(d, fb);
                let ee = sample_mul(fed, fed);
                let raised = sample_add(lowered, ee);
                let wet = sample_mul(d, mix);
                let s = sample_clamp_unit(wet);
                proof {
                    lemma_clamp_unit_bounded(wet);
                    if ad {
                        assert(auto_step_defined(ln, sum0, fb, steps as int));
                        assert(tail_step_defined(ln, fb, mix, steps as int));
                        assert(d == tail_line(ln, fb, steps as int)[0]);
                        assert(raised == auto_sum(ln, sum0, fb, steps + 1));
                        assert(s == tail_out(ln, fb, mix, steps as int));
                    }
                }
                ring_enqueue(&mut line, fed);
                sum = raised;
                ch.push(s);
                proof {
                    if ad {
                        assert(ring_seq(line) =~= tail_line(ln, fb, steps + 1));
                    }
                }
                let sq = sample_sqrt(sum);
                let lvl = sample_mul(factor, sq);
                high = sample_gt(lvl, ENERGY_FLOOR_BITS);
                proof {
                    if ad {
                        assert(auto_cmp_defined(ln, sum0, energy_factor(n), fb, steps + 1));
                        assert(sq == sqrt_of(auto_sum(ln, sum0, fb, steps + 1)));
                        assert(high == energy_high(ln, sum0, energy_factor(n), fb, steps + 1));
                    }
                }
                steps += 1;
            }
            proof {
                if ad {
                    lemma_auto_len(
                        ln,
                        sum0,
                        energy_factor(n),
                        fb,
                        0,
                        tail_cap(rate),
                        steps as nat,
                    );
                    if high {
                        assert forall|k2: int| 0 <= k2 <= tail_cap(rate) implies energy_high(
                            ln,
                            sum0,
                            energy_factor(n),
                            fb,
                            k2,
                        ) by {
                            if k2 == steps as int {
                                assert(energy_high(ln, sum0, energy_factor(n), fb, k2));
                            }
                        }
                    }
                }
            }
            high
        },
    }
}

/// A feedback delay with automatic or caller-fixed tail extension.
pub struct Delay;

impl Delay {
    /// The stable lowercase identifier of the effect.
    pub fn get_name(&self) -> (r: String)
        ensures
            r@ == "delay"@,
    {
        "delay".to_owned()
    }

    /// Demands `mix` and `feedback` inside (0, 100) and `time` inside
    /// (1, 1000000); a feedback of 1 or more without a tail length is
    /// refused, and one above 0.9 without a tail length draws a
    /// warning. An error names the offending argument and the violated
    /// bounds.
    pub fn validate_arguments(&self, arguments: &Arguments, tail_length: &Option<u64>) -> (r:
        Result<Option<Diagnostic>, ValidationError>)
        requires
            arguments.wf(),
        ensures
            r is Ok <==> delay_args_valid(arguments@) && !(ge_bits(
                arguments@["feedback"@],
                ONE_BITS,
            ) && tail_length is None),
            r is Ok ==> r == Ok::<Option<Diagnostic>, ValidationError>(
                if gt_bits(arguments@["feedback"@], POINT_NINE_BITS) && tail_length is None {
                    Some(Diagnostic::HighFeedback)
                } else {
                    None
                },
            ),
            !arguments@.contains_key("mix"@) ==> (r matches Err(e) && names_missing(e, "mix"@)),
            arguments@.contains_key("mix"@) && (le_bits(arguments@["mix"@], ZERO_BITS)
                || ge_bits(arguments@["mix"@], HUNDRED_BITS)) ==> (r matches Err(e)
                && names_range(e, "mix"@, ZERO_BITS, Some(HUNDRED_BITS))),
            mix_valid(arguments@) && !arguments@.contains_key("time"@) ==> (r matches Err(e)
                && names_missing(e, "time"@)),
            mix_valid(arguments@) && arguments@.contains_key("time"@) && (le_bits(
                arguments@["time"@],
                ONE_BITS,
            ) || ge_bits(arguments@["time"@], MILLION_BITS)) ==> (r matches Err(e)
                && names_range(e, "time"@, ONE_BITS, Some(MILLION_BITS))),
            mix_valid(arguments@) && time_valid(arguments@)
                && !arguments@.contains_key("feedback"@) ==> (r matches Err(e)
                && names_missing(e, "feedback"@)),
            mix_valid(arguments@) && time_valid(arguments@)
                && arguments@.contains_key("feedback"@) && (le_bits(
                arguments@["feedback"@],
                ZERO_BITS,
            ) || ge_bits(arguments@["feedback"@], HUNDRED_BITS)) ==> (r matches Err(e)
                && names_range(e, "feedback"@, ZERO_BITS, Some(HUNDRED_BITS))),
            delay_args_valid(arguments@) && ge_bits(arguments@["feedback"@], ONE_BITS)
                && tail_length is None ==> r == Err::<Option<Diagnostic>, ValidationError>(
                ValidationError::MissingTailLength,
            ),
    {
        proof {
            lemma_delay_bounds();
        }
        let mix_key = "mix".to_owned();
        let feedback_key = "feedback".to_owned();
        let time_key = "time".to_owned();
        verify_range(&mix_key, ZERO_BITS, HUNDRED_BITS, arguments)?;
        verify_range(&time_key, ONE_BITS, MILLION_BITS, arguments)?;
        let feedback = verify_range(&feedback_key, ZERO_BITS, HUNDRED_BITS, arguments)?;

        if tail_length.is_none() {
            if sample_ge(feedback, ONE_BITS) {
                return Err(ValidationError::MissingTailLength);
            }
            if sample_gt(feedback, POINT_NINE_BITS) {
                return Ok(Some(Diagnostic::HighFeedback));
            }
        }
        Ok(None)
    }

    /// Runs the delay on every channel independently: the main pass in
    /// place, then the tail extension. Each channel obeys the echo and
    /// tail value law; a fixed tail appends exactly
    /// `round(tail * sample_rate)` samples, the automatic tail at most
    /// the hard cap per channel, and the cap diagnostic is reported
    /// exactly when some channel's modelled tail hits the cap (stated
    /// under the model's NaN-freedom). Every appended sample is
    /// clamped. Fails exactly when the delay time rounds to a line of
    /// zero samples.
    pub fn apply_effect(&self, buffer: &mut AudioBuffer, arguments: &Arguments, tail_length:
        &Option<u64>) -> (r: Result<Option<Diagnostic>, ApplyError>)
        requires
            arguments.wf(),
            arguments@.contains_key("mix"@),
            arguments@.contains_key("feedback"@),
            arguments@.contains_key("time"@),
        ensures
            final(buffer).format == old(buffer).format,
            r is Err <==> delay_line_count(
                arguments@["time"@],
                old(buffer).format.sample_rate,
            ) == 0,
            r is Err ==> r == Err::<Option<Diagnostic>, ApplyError>(ApplyError::ZeroDelayLine)
                && final(buffer).samples() == old(buffer).samples(),
            r is Ok ==> final(buffer).samples().len() == old(buffer).samples().len(),
            *tail_length matches Some(t) ==> (r is Ok ==> r == Ok::<
                Option<Diagnostic>,
                ApplyError,
            >(None) && (forall|c: int|
                0 <= c < old(buffer).samples().len() ==> (#[trigger] final(buffer).samples()[c]).len() == old(buffer).samples()[c].len() + fixed_tail_count(
                    t,
                    old(buffer).format.sample_rate,
                ))),
            tail_length is None && r is Ok ==> (r == Ok::<Option<Diagnostic>, ApplyError>(None)
                || r == Ok::<Option<Diagnostic>, ApplyError>(Some(Diagnostic::MaxTailReached)))
                && (forall|c: int|
                0 <= c < old(buffer).samples().len() ==> old(buffer).samples()[c].len() <= (
                #[trigger] final(buffer).samples()[c]).len() <= old(buffer).samples()[c].len()
                    + tail_cap(old(buffer).format.sample_rate)),
            r is Ok ==> forall|c: int|
                0 <= c < old(buffer).samples().len() ==> tail_clamped(
                    #[trigger] final(buffer).samples()[c],
                    old(buffer).samples()[c].len() as int,
                ),
            r is Ok ==> forall|c: int|
                0 <= c < old(buffer).samples().len() ==> delay_channel_lawful(
                    #[trigger] old(buffer).samples()[c],
                    final(buffer).samples()[c],
                    delay_line_count(arguments@["time"@], old(buffer).format.sample_rate),
                    arguments@["feedback"@],
                    arguments@["mix"@],
                    *tail_length,
                    old(buffer).format.sample_rate,
                ),
            tail_length is None && r is Ok && (forall|c: int|
                0 <= c < old(buffer).samples().len() ==> delay_auto_model_ok(
                    #[trigger] old(buffer).samples()[c],
                    delay_line_count(arguments@["time"@], old(buffer).format.sample_rate),
                    arguments@["feedback"@],
                    arguments@["mix"@],
                    old(buffer).format.sample_rate,
                )) ==> (r == Ok::<Option<Diagnostic>, ApplyError>(
                Some(Diagnostic::MaxTailReached),
            ) <==> exists|c: int|
                0 <= c < old(buffer).samples().len() && delay_auto_hit_model(
                    #[trigger] old(buffer).samples()[c],
                    delay_line_count(arguments@["time"@], old(buffer).format.sample_rate),
                    arguments@["feedback"@],
                    old(buffer).format.sample_rate,
                )),
    {
        let mix_key = "mix".to_owned();
        let feedback_key = "feedback".to_owned();
        let time_key = "time".to_owned();
        let mix = arguments.get(&mix_key).unwrap();
        let fb = arguments.get(&feedback_key).unwrap();
        let time = arguments.get(&time_key).unwrap();
        let rate = buffer.format.sample_rate;

        let rb = sample_of_u32(rate);
        let dq = sample_div(time, THOUSAND_BITS);
        let m = sample_mul(dq, rb);
        let n = sample_round_count(m);
        proof {
            if delay_len_defined(time, rate) {
                assert(dq == div_of(time, THOUSAND_BITS));
                assert(m == mul_of(div_of(time, THOUSAND_BITS), of_u32(rate)));
            } else if is_nan_bits(div_of(time, THOUSAND_BITS)) {
                assert(is_nan_bits(dq));
                assert(is_nan_bits(m));
            } else {
                assert(dq == div_of(time, THOUSAND_BITS));
                assert(is_nan_bits(m));
            }
            assert(n == delay_line_count(time, rate));
        }
        if n == 0 {
            return Err(ApplyError::ZeroDelayLine);
        }

        let ghost chs = buffer.samples();
        let num = buffer.channels.len();
        let mut hit_any = false;
        let mut c: usize = 0;
        while c < num
            invariant
                num == buffer.channels.len(),
                chs.len() == num,
                buffer.format == old(buffer).format,
                rate == old(buffer).format.sample_rate,
                n >= 1,
                0 <= c <= num,
                forall|c2: int| c <= c2 < num ==> buffer.samples()[c2] == chs[c2],
                *tail_length matches Some(t) ==> forall|c2: int|
                    0 <= c2 < c ==> (#[trigger] buffer.samples()[c2]).len() == chs[c2].len()
                        + fixed_tail_count(t, rate),
                tail_length is None ==> forall|c2: int|
                    0 <= c2 < c ==> chs[c2].len() <= (#[trigger] buffer.samples()[c2]).len()
                        <= chs[c2].len() + tail_cap(rate),
                forall|c2: int|
                    0 <= c2 < c ==> tail_clamped(
                        #[trigger] buffer.samples()[c2],
                        chs[c2].len() as int,
                    ),
                forall|c2: int|
                    0 <= c2 < c ==> delay_channel_lawful(
                        #[trigger] chs[c2],
                        buffer.samples()[c2],
                        n,
                        fb,
                        mix,
                        *tail_length,
                        rate,
                    ),
                *tail_length matches Some(t) ==> !hit_any,
                tail_length is None ==> ((forall|c2: int|
                    0 <= c2 < c ==> delay_auto_model_ok(#[trigger] chs[c2], n, fb, mix, rate))
                    ==> (hit_any <==> exists|c2: int|
                    0 <= c2 < c && delay_auto_hit_model(#[trigger] chs[c2], n, fb, rate))),
            decreases num - c,
        {
            proof {
                assert(chs[c as int] =~= buffer.channels@[c as int]@);
            }
            let ghost bpre = *buffer;
            let ghost prev = buffer.channels@;
            let ghost before = buffer.samples();
            let hit = delay_channel(&mut buffer.channels[c], n, fb, mix, tail_length, rate);
            if hit {
                hit_any = true;
            }
            proof {
                lemma_channel_update_framed(bpre, *buffer, c as int);
                assert(chs[c as int] == prev[c as int]@);
                assert(delay_channel_law(
                    chs[c as int],
                    buffer.samples()[c as int],
                    n,
                    fb,
                    mix,
                    *tail_length,
                    rate,
                    hit,
                ));
                if let Some(t) = *tail_length {
                    assert forall|c2: int| 0 <= c2 < c + 1 implies (
                    #[trigger] buffer.samples()[c2]).len() == chs[c2].len() + fixed_tail_count(
                        t,
                        rate,
                    ) by {
                        if c2 < c {
                            assert(buffer.samples()[c2] == before[c2]);
                        }
                    }
                } else {
                    assert forall|c2: int| 0 <= c2 < c + 1 implies chs[c2].len() <= (
                    #[trigger] buffer.samples()[c2]).len() <= chs[c2].len() + tail_cap(rate) by {
                        if c2 < c {
                            assert(buffer.samples()[c2] == before[c2]);
                        }
                    }
                }
                assert forall|c2: int| 0 <= c2 < c + 1 implies tail_clamped(
                    #[trigger] buffer.samples()[c2],
                    chs[c2].len() as int,
                ) by {
                    if c2 < c {
                        assert(buffer.samples()[c2] == before[c2]);
                    }
                }
                assert forall|c2: int| 0 <= c2 < c + 1 implies delay_channel_lawful(
                    #[trigger] chs[c2],
                    buffer.samples()[c2],
                    n,
                    fb,
                    mix,
                    *tail_length,
                    rate,
                ) by {
                    if c2 < c {
                        assert(delay_channel_lawful(chs[c2], before[c2], n, fb, mix, *tail_length, rate));
                        assert(buffer.samples()[c2] == before[c2]);
                    } else {
                        assert(delay_channel_law(
                            chs[c2],
                            buffer.samples()[c2],
                            n,
                            fb,
                            mix,
                            *tail_length,
                            rate,
                            hit,
                        ));
                    }
                }
            }
            c += 1;
        }
        if tail_length.is_some() {
            Ok(None)
        } else {
            if hit_any {
                Ok(Some(Diagnostic::MaxTailReached))
            } else {
                Ok(None)
            }
        }
    }
}

/// The `mix` argument is present and strictly inside (0, 100).
pub open spec fn mix_valid(args: Map<Seq<char>, u64>) -> bool {
    &&& args.contains_key("mix"@)
    &&& !le_bits(args["mix"@], ZERO_BITS)
    &&& !ge_bits(args["mix"@], HUNDRED_BITS)
}

/// The `time` argument is present and strictly inside (1, 1000000).
pub open spec fn time_valid(args: Map<Seq<char>, u64>) -> bool {
    &&& args.contains_key("time"@)
    &&& !le_bits(args["time"@], ONE_BITS)
    &&& !ge_bits(args["time"@], MILLION_BITS)
}

/// What the delay's validation demands of its arguments: `mix` and
/// `feedback` inside (0, 100) and `time` inside (1, 1000000).
pub open spec fn delay_args_valid(args: Map<Seq<char>, u64>) -> bool {
    &&& mix_valid(args)
    &&& args.contains_key("feedback"@)
    &&& !le_bits(args["feedback"@], ZERO_BITS)
    &&& !ge_bits(args["feedback"@], HUNDRED_BITS)
    &&& time_valid(args)
}

/// The delay's bounds 0.0, 100.0, 1.0 and 1000000.0 are ordinary
/// non-negative values in the right order.
proof fn lemma_delay_bounds()
    ensures
        !gt_bits(ZERO_BITS, HUNDRED_BITS),
        !gt_bits(ONE_BITS, MILLION_BITS),
{
    assert(ZERO_BITS & ABS_MASK == ZERO_BITS && ZERO_BITS & EXP_MASK != EXP_MASK) by (bit_vector);
    assert(HUNDRED_BITS & ABS_MASK == HUNDRED_BITS && HUNDRED_BITS & EXP_MASK != EXP_MASK)
        by (bit_vector);
    assert(ONE_BITS & ABS_MASK == ONE_BITS && ONE_BITS & EXP_MASK != EXP_MASK) by (bit_vector);
    assert(MILLION_BITS & ABS_MASK == MILLION_BITS && MILLION_BITS & EXP_MASK != EXP_MASK)
        by (bit_vector);
    lemma_plain_positive(ZERO_BITS);
    lemma_plain_positive(HUNDRED_BITS);
    lemma_plain_positive(ONE_BITS);
    lemma_plain_positive(MILLION_BITS);
}

} // verus!
