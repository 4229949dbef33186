//! The biquad equalizer family: peaking, high-shelf, low-shelf and
//! band-pass filters.
//!
//! Each filter derives six coefficients from its parameters in the
//! standard audio-EQ cookbook form, then runs every channel through the
//! canonical Direct Form I second-order recurrence with per-channel
//! state reset to zero.
//!
//! The coefficient derivations run through `sin`, `cos`, `sinh`,
//! `powf` and `sqrt`, whose values the trusted layer cannot pin (their
//! precision is documented as unspecified), so the apply contracts
//! state the determined part: validation is exact, application never
//! fails or reports, and the buffer keeps its shape. The runtime tests
//! exercise the filters' numerics.

use vstd::prelude::*;
use crate::args::{arg_exists, verify_min, verify_range, Arguments};
use crate::arith::{
    add_of, div_of, mul_of, sample_add, sample_cos, sample_div, sample_mul, sample_of_u32,
    sample_powf, sample_sin, sample_sinh, sample_sqrt, sample_sub, sub_of,
};
use crate::buffer::{lemma_channel_update_framed, same_shape, AudioBuffer};
use crate::errors::{names_missing, names_range, ApplyError, Diagnostic, ValidationError};
use crate::sample::{
    ge_bits, is_nan_bits, le_bits, lemma_plain_positive, sample_neg, ABS_MASK, EXP_MASK, ONE_BITS,
    TEN_BITS, ZERO_BITS,
};

verus! {

/// Bit pattern of 2.0.
pub const TWO_BITS: u64 = 0x4000_0000_0000_0000;

/// Bit pattern of -2.0.
pub const NEG_TWO_BITS: u64 = 0xC000_0000_0000_0000;

/// Bit pattern of 40.0, the factor between a decibel figure and the
/// log10 of its amplitude square root.
pub const FORTY_BITS: u64 = 0x4044_0000_0000_0000;

/// Bit pattern of the binary64 value nearest to pi.
pub const PI_BITS: u64 = 0x4009_21FB_5444_2D18;

/// Bit pattern of the binary64 value nearest to ln(2)/2, the
/// cookbook's bandwidth-to-alpha constant.
pub const LN_TWO_OVER_TWO_BITS: u64 = 0x3FD6_2E42_FEFA_39EF;

/// Bit pattern of 20000.0, the upper bound on a center frequency.
pub const FREQ_MAX_BITS: u64 = 0x40D3_8800_0000_0000;

/// Bit pattern of 0.01, the lower bound on a shelf slope.
pub const SLOPE_MIN_BITS: u64 = 0x3F84_7AE1_47AE_147B;

/// One filter application's coefficient set.
pub struct BiquadCoeffs {
    pub a0: u64,
    pub a1: u64,
    pub a2: u64,
    pub b0: u64,
    pub b1: u64,
    pub b2: u64,
}

/// The input the recurrence sees at index `j`: the channel's sample,
/// or zero before the channel starts.
pub open spec fn df1_x(xs: Seq<u64>, j: int) -> u64 {
    if 0 <= j < xs.len() {
        xs[j]
    } else {
        ZERO_BITS
    }
}

/// One step of the Direct Form I recurrence, as a term over the named
/// operations:
/// `(b0/a0)*x0 + (b1/a0)*x1 + (b2/a0)*x2 - (a1/a0)*y1 - (a2/a0)*y2`.
pub open spec fn df1_step(c: BiquadCoeffs, x0: u64, x1: u64, x2: u64, y1: u64, y2: u64) -> u64 {
    sub_of(
        sub_of(
            add_of(
                add_of(mul_of(div_of(c.b0, c.a0), x0), mul_of(div_of(c.b1, c.a0), x1)),
                mul_of(div_of(c.b2, c.a0), x2),
            ),
            mul_of(div_of(c.a1, c.a0), y1),
        ),
        mul_of(div_of(c.a2, c.a0), y2),
    )
}

/// Whether one step's term tree stays free of NaN: every quotient,
/// product and partial sum, including the result. Only then do the
/// named operations pin the computed bits exactly.
pub open spec fn df1_step_defined(c: BiquadCoeffs, x0: u64, x1: u64, x2: u64, y1: u64, y2: u64) -> bool {
    let q0 = div_of(c.b0, c.a0);
    let q1 = div_of(c.b1, c.a0);
    let q2 = div_of(c.b2, c.a0);
    let p1 = div_of(c.a1, c.a0);
    let p2 = div_of(c.a2, c.a0);
    let m0 = mul_of(q0, x0);
    let m1 = mul_of(q1, x1);
    let m2 = mul_of(q2, x2);
    let m3 = mul_of(p1, y1);
    let m4 = mul_of(p2, y2);
    let s0 = add_of(m0, m1);
    let s1 = add_of(s0, m2);
    let s2 = sub_of(s1, m3);
    &&& !is_nan_bits(q0)
    &&& !is_nan_bits(q1)
    &&& !is_nan_bits(q2)
    &&& !is_nan_bits(p1)
    &&& !is_nan_bits(p2)
    &&& !is_nan_bits(m0)
    &&& !is_nan_bits(m1)
    &&& !is_nan_bits(m2)
    &&& !is_nan_bits(m3)
    &&& !is_nan_bits(m4)
    &&& !is_nan_bits(s0)
    &&& !is_nan_bits(s1)
    &&& !is_nan_bits(s2)
    &&& !is_nan_bits(sub_of(s2, m4))
}

/// The recurrence's output at index `i` of a channel, with state reset
/// to zero at the channel's start.
pub open spec fn df1_y(c: BiquadCoeffs, xs: Seq<u64>, i: int) -> u64
    decreases i,
{
    if i < 0 {
        ZERO_BITS
    } else {
        let y1 = if i >= 1 {
            df1_y(c, xs, i - 1)
        } else {
            ZERO_BITS
        };
        let y2 = if i >= 2 {
            df1_y(c, xs, i - 2)
        } else {
            ZERO_BITS
        };
        df1_step(c, df1_x(xs, i), df1_x(xs, i - 1), df1_x(xs, i - 2), y1, y2)
    }
}

/// Whether the whole channel's recurrence stays free of NaN. On
/// ordinary audio and coefficients it does; the named operations
/// cannot show that, so the value law below cases on it.
pub open spec fn df1_defined(c: BiquadCoeffs, xs: Seq<u64>) -> bool {
    forall|i: int|
        0 <= i < xs.len() ==> #[trigger] df1_step_defined(
            c,
            df1_x(xs, i),
            df1_x(xs, i - 1),
            df1_x(xs, i - 2),
            df1_y(c, xs, i - 1),
            df1_y(c, xs, i - 2),
        )
}

/// One channel equals the recurrence on the given coefficients: same
/// length always, and sample for sample whenever the recurrence stays
/// NaN-free.
pub open spec fn df1_channel_eq(c: BiquadCoeffs, xs: Seq<u64>, out: Seq<u64>) -> bool {
    &&& out.len() == xs.len()
    &&& df1_defined(c, xs) ==> forall|i: int| 0 <= i < xs.len() ==> #[trigger] out[i] == df1_y(c, xs, i)
}

/// Every channel of `out` is the Direct Form I pass of the matching
/// channel of `chs` under the coefficients `c`.
pub open spec fn df1_applied_eq(c: BiquadCoeffs, chs: Seq<Seq<u64>>, out: Seq<Seq<u64>>) -> bool {
    &&& out.len() == chs.len()
    &&& forall|k: int| 0 <= k < chs.len() ==> df1_channel_eq(c, chs[k], #[trigger] out[k])
}

/// Runs one channel through the Direct Form I recurrence
/// `y0 = (b0/a0)x0 + (b1/a0)x1 + (b2/a0)x2 - (a1/a0)y1 - (a2/a0)y2`,
/// with the four state values reset to zero at the channel's start.
fn df1_channel(ch: &mut Vec<u64>, c: &BiquadCoeffs)
    ensures
        df1_channel_eq(*c, old(ch)@, final(ch)@),
{
    let ghost xs = old(ch)@;
    let ghost defined = df1_defined(*c, xs);
    let n = ch.len();
    let mut x1: u64 = ZERO_BITS;
    let mut x2: u64 = ZERO_BITS;
    let mut y1: u64 = ZERO_BITS;
    let mut y2: u64 = ZERO_BITS;
    let mut i: usize = 0;
    while i < n
        invariant
            n == ch@.len(),
            n == xs.len(),
            defined == df1_defined(*c, xs),
            0 <= i <= n,
            forall|j: int| i <= j < n ==> ch@[j] == xs[j],
            x1 == df1_x(xs, i - 1),
            x2 == df1_x(xs, i - 2),
            defined ==> y1 == df1_y(*c, xs, i - 1),
            defined ==> y2 == df1_y(*c, xs, i - 2),
            defined ==> forall|j: int| 0 <= j < i ==> #[trigger] ch@[j] == df1_y(*c, xs, j),
        decreases n - i,
    {
        let x0 = ch[i];
        proof {
            assert(x0 == df1_x(xs, i as int));
        }
        let q0 = sample_div(c.b0, c.a0);
        let q1 = sample_div(c.b1, c.a0);
        let q2 = sample_div(c.b2, c.a0);
        let p1 = sample_div(c.a1, c.a0);
        let p2 = sample_div(c.a2, c.a0);
        let m0 = sample_mul(q0, x0);
        let m1 = sample_mul(q1, x1);
        let m2 = sample_mul(q2, x2);
        let m3 = sample_mul(p1, y1);
        let m4 = sample_mul(p2, y2);
        let s0 = sample_add(m0, m1);
        let s1 = sample_add(s0, m2);
        let s2 = sample_sub(s1, m3);
        let y0 = sample_sub(s2, m4);
        proof {
            if defined {
                assert(df1_step_defined(
                    *c,
                    df1_x(xs, i as int),
                    df1_x(xs, i - 1),
                    df1_x(xs, i - 2),
                    df1_y(*c, xs, i - 1),
                    df1_y(*c, xs, i - 2),
                ));
                assert(y0 == df1_step(
                    *c,
                    df1_x(xs, i as int),
                    df1_x(xs, i - 1),
                    df1_x(xs, i - 2),
                    df1_y(*c, xs, i - 1),
                    df1_y(*c, xs, i - 2),
                ));
                assert(y0 == df1_y(*c, xs, i as int));
            }
        }
        ch[i] = y0;
        x2 = x1;
        x1 = x0;
        y2 = y1;
        y1 = y0;
        i += 1;
    }
}

/// Runs every channel of the buffer through the recurrence.
fn apply_df1(buffer: &mut AudioBuffer, c: &BiquadCoeffs)
    ensures
        final(buffer).format == old(buffer).format,
        same_shape(old(buffer).samples(), final(buffer).samples()),
        df1_applied_eq(*c, old(buffer).samples(), final(buffer).samples()),
{
    let ghost chs = buffer.samples();
    let n = buffer.channels.len();
    let mut k: usize = 0;
    while k < n
        invariant
            n == buffer.channels.len(),
            chs.len() == n,
            buffer.format == old(buffer).format,
            0 <= k <= n,
            forall|c2: int| k <= c2 < n ==> buffer.samples()[c2] == chs[c2],
            forall|c2: int|
                0 <= c2 < k ==> df1_channel_eq(*c, chs[c2], #[trigger] buffer.samples()[c2]),
        decreases n - k,
    {
        proof {
            assert(chs[k as int] =~= buffer.channels@[k as int]@);
        }
        let ghost bpre = *buffer;
        let ghost prev = buffer.channels@;
        let ghost before = buffer.samples();
        df1_channel(&mut buffer.channels[k], c);
        proof {
            lemma_channel_update_framed(bpre, *buffer, k as int);
            assert(chs[k as int] == prev[k as int]@);
            assert forall|c2: int| 0 <= c2 < k + 1 implies df1_channel_eq(
                *c,
                chs[c2],
                #[trigger] buffer.samples()[c2],
            ) by {
                if c2 < k {
                    assert(buffer.samples()[c2] == before[c2]);
                }
            }
        }
        k += 1;
    }
}

/// The frequency bounds 1.0 and 20000.0 and the slope bounds 0.01 and
/// 1.0 are ordinary positive values in the right order.
proof fn lemma_eq_bounds()
    ensures
        !crate::sample::gt_bits(ONE_BITS, FREQ_MAX_BITS),
        !crate::sample::gt_bits(SLOPE_MIN_BITS, ONE_BITS),
{
    assert(ONE_BITS & ABS_MASK == ONE_BITS && ONE_BITS & EXP_MASK != EXP_MASK) by (bit_vector);
    assert(FREQ_MAX_BITS & ABS_MASK == FREQ_MAX_BITS && FREQ_MAX_BITS & EXP_MASK != EXP_MASK)
        by (bit_vector);
    assert(SLOPE_MIN_BITS & ABS_MASK == SLOPE_MIN_BITS && SLOPE_MIN_BITS & EXP_MASK != EXP_MASK)
        by (bit_vector);
    lemma_plain_positive(ONE_BITS);
    lemma_plain_positive(FREQ_MAX_BITS);
    lemma_plain_positive(SLOPE_MIN_BITS);
}

/// What every filter's validation demands of the shared `freq`
/// argument: present and strictly inside (1, 20000).
pub open spec fn freq_valid(args: Map<Seq<char>, u64>) -> bool {
    &&& args.contains_key("freq"@)
    &&& !le_bits(args["freq"@], ONE_BITS)
    &&& !ge_bits(args["freq"@], FREQ_MAX_BITS)
}

/// A peaking filter: boosts or cuts a band around a center frequency.
pub struct PeakingEQ;

impl PeakingEQ {
    /// The stable lowercase identifier of the effect.
    pub fn get_name(&self) -> (r: String)
        ensures
            r@ == "peakingeq"@,
    {
        "peakingeq".to_owned()
    }

    /// Demands `db` present, `freq` inside (1, 20000) and `bw`
    /// strictly positive; an error names the offending argument and
    /// the violated bounds; never warns.
    pub fn validate_arguments(&self, arguments: &Arguments, _tail_length: &Option<u64>) -> (r:
        Result<Option<Diagnostic>, ValidationError>)
        requires
            arguments.wf(),
        ensures
            r is Ok <==> arguments@.contains_key("db"@) && freq_valid(arguments@)
                && arguments@.contains_key("bw"@) && !le_bits(arguments@["bw"@], ZERO_BITS),
            r is Ok ==> r == Ok::<Option<Diagnostic>, ValidationError>(None),
            !arguments@.contains_key("db"@) ==> (r matches Err(e) && names_missing(e, "db"@)),
            arguments@.contains_key("db"@) && !arguments@.contains_key("freq"@) ==> (r matches
                Err(e) && names_missing(e, "freq"@)),
            arguments@.contains_key("db"@) && arguments@.contains_key("freq"@) && (le_bits(
                arguments@["freq"@],
                ONE_BITS,
            ) || ge_bits(arguments@["freq"@], FREQ_MAX_BITS)) ==> (r matches Err(e)
                && names_range(e, "freq"@, ONE_BITS, Some(FREQ_MAX_BITS))),
            arguments@.contains_key("db"@) && freq_valid(arguments@)
                && !arguments@.contains_key("bw"@) ==> (r matches Err(e) && names_missing(
                e,
                "bw"@,
            )),
            arguments@.contains_key("db"@) && freq_valid(arguments@)
                && arguments@.contains_key("bw"@) && le_bits(arguments@["bw"@], ZERO_BITS) ==> (
            r matches Err(e) && names_range(e, "bw"@, ZERO_BITS, None)),
    {
        let db_key = "db".to_owned();
        let freq_key = "freq".to_owned();
        let bw_key = "bw".to_owned();
        arg_exists(&db_key, arguments)?;
        proof {
            lemma_eq_bounds();
        }
        verify_range(&freq_key, ONE_BITS, FREQ_MAX_BITS, arguments)?;
        verify_min(&bw_key, ZERO_BITS, arguments)?;
        Ok(None)
    }

    /// Derives the cookbook peaking coefficients from `freq`, `db` and
    /// `bw` (bandwidth steepness through `sinh(ln(2)/2 * bw * w0 /
    /// sin(w0))`) and runs the Direct Form I pass; never fails, never
    /// reports, and leaves channel count and lengths unchanged.
    pub fn apply_effect(&self, buffer: &mut AudioBuffer, arguments: &Arguments, _tail_length:
        &Option<u64>) -> (r: Result<Option<Diagnostic>, ApplyError>)
        requires
            arguments.wf(),
            arguments@.contains_key("db"@),
            arguments@.contains_key("freq"@),
            arguments@.contains_key("bw"@),
        ensures
            r matches Ok(d) && d is None,
            final(buffer).format == old(buffer).format,
            same_shape(old(buffer).samples(), final(buffer).samples()),
            exists|coeffs: BiquadCoeffs|
                df1_applied_eq(coeffs, old(buffer).samples(), final(buffer).samples()),
    {
        let db_key = "db".to_owned();
        let freq_key = "freq".to_owned();
        let bw_key = "bw".to_owned();
        let f0 = arguments.get(&freq_key).unwrap();
        let db_gain = arguments.get(&db_key).unwrap();
        let bw = arguments.get(&bw_key).unwrap();
        let fs = sample_of_u32(buffer.format.sample_rate);

        let a = sample_powf(TEN_BITS, sample_div(db_gain, FORTY_BITS));
        let w0 = sample_mul(sample_mul(TWO_BITS, PI_BITS), sample_div(f0, fs));
        let sinw0 = sample_sin(w0);
        let cosw0 = sample_cos(w0);
        let alpha = sample_mul(
            sinw0,
            sample_sinh(
                sample_mul(sample_mul(LN_TWO_OVER_TWO_BITS, bw), sample_div(w0, sinw0)),
            ),
        );
        let c = BiquadCoeffs {
            a0: sample_add(ONE_BITS, sample_div(alpha, a)),
            a1: sample_mul(NEG_TWO_BITS, cosw0),
            a2: sample_sub(ONE_BITS, sample_div(alpha, a)),
            b0: sample_add(ONE_BITS, sample_mul(alpha, a)),
            b1: sample_mul(NEG_TWO_BITS, cosw0),
            b2: sample_sub(ONE_BITS, sample_mul(alpha, a)),
        };
        apply_df1(buffer, &c);
        proof {
            assert(df1_applied_eq(c, old(buffer).samples(), buffer.samples()));
        }
        Ok(None)
    }
}

/// A high-shelf filter: boosts or cuts everything above a corner
/// frequency.
pub struct HShelfEQ;

impl HShelfEQ {
    /// The stable lowercase identifier of the effect.
    pub fn get_name(&self) -> (r: String)
        ensures
            r@ == "hshelfeq"@,
    {
        "hshelfeq".to_owned()
    }

    /// Demands `db` present, `freq` inside (1, 20000) and `s` inside
    /// (0.01, 1); an error names the offending argument and the
    /// violated bounds; never warns.
    pub fn validate_arguments(&self, arguments: &Arguments, _tail_length: &Option<u64>) -> (r:
        Result<Option<Diagnostic>, ValidationError>)
        requires
            arguments.wf(),
        ensures
            r is Ok <==> arguments@.contains_key("db"@) && freq_valid(arguments@)
                && arguments@.contains_key("s"@) && !le_bits(arguments@["s"@], SLOPE_MIN_BITS)
                && !ge_bits(arguments@["s"@], ONE_BITS),
            r is Ok ==> r == Ok::<Option<Diagnostic>, ValidationError>(None),
            !arguments@.contains_key("db"@) ==> (r matches Err(e) && names_missing(e, "db"@)),
            arguments@.contains_key("db"@) && !arguments@.contains_key("freq"@) ==> (r matches
                Err(e) && names_missing(e, "freq"@)),
            arguments@.contains_key("db"@) && arguments@.contains_key("freq"@) && (le_bits(
                arguments@["freq"@],
                ONE_BITS,
            ) || ge_bits(arguments@["freq"@], FREQ_MAX_BITS)) ==> (r matches Err(e)
                && names_range(e, "freq"@, ONE_BITS, Some(FREQ_MAX_BITS))),
            arguments@.contains_key("db"@) && freq_valid(arguments@)
                && !arguments@.contains_key("s"@) ==> (r matches Err(e) && names_missing(
                e,
                "s"@,
            )),
            arguments@.contains_key("db"@) && freq_valid(arguments@)
                && arguments@.contains_key("s"@) && (le_bits(arguments@["s"@], SLOPE_MIN_BITS)
                || ge_bits(arguments@["s"@], ONE_BITS)) ==> (r matches Err(e) && names_range(
                e,
                "s"@,
                SLOPE_MIN_BITS,
                Some(ONE_BITS),
            )),
    {
        let db_key = "db".to_owned();
        let freq_key = "freq".to_owned();
        let s_key = "s".to_owned();
        arg_exists(&db_key, arguments)?;
        proof {
            lemma_eq_bounds();
        }
        verify_range(&freq_key, ONE_BITS, FREQ_MAX_BITS, arguments)?;
        verify_range(&s_key, SLOPE_MIN_BITS, ONE_BITS, arguments)?;
        Ok(None)
    }

    /// Derives the cookbook high-shelf coefficients from `freq`, `db`
    /// and `s` and runs the Direct Form I pass; never fails, never
    /// reports, and leaves channel count and lengths unchanged.
    pub fn apply_effect(&self, buffer: &mut AudioBuffer, arguments: &Arguments, _tail_length:
        &Option<u64>) -> (r: Result<Option<Diagnostic>, ApplyError>)
        requires
            arguments.wf(),
            arguments@.contains_key("db"@),
            arguments@.contains_key("freq"@),
            arguments@.contains_key("s"@),
        ensures
            r matches Ok(d) && d is None,
            final(buffer).format == old(buffer).format,
            same_shape(old(buffer).samples(), final(buffer).samples()),
            exists|coeffs: BiquadCoeffs|
                df1_applied_eq(coeffs, old(buffer).samples(), final(buffer).samples()),
    {
        let db_key = "db".to_owned();
        let freq_key = "freq".to_owned();
        let s_key = "s".to_owned();
        let f0 = arguments.get(&freq_key).unwrap();
        let db_gain = arguments.get(&db_key).unwrap();
        let s = arguments.get(&s_key).unwrap();
        let fs = sample_of_u32(buffer.format.sample_rate);

        let a = sample_powf(TEN_BITS, sample_div(db_gain, FORTY_BITS));
        let w0 = sample_mul(sample_mul(TWO_BITS, PI_BITS), sample_div(f0, fs));
        let sinw0 = sample_sin(w0);
        let cosw0 = sample_cos(w0);
        let alpha = sample_mul(
            sample_div(sinw0, TWO_BITS),
            sample_sqrt(
                sample_add(
                    sample_mul(
                        sample_add(a, sample_div(ONE_BITS, a)),
                        sample_sub(sample_div(ONE_BITS, s), ONE_BITS),
                    ),
                    TWO_BITS,
                ),
            ),
        );
        let x = sample_add(a, ONE_BITS);
        let y = sample_mul(sample_sub(a, ONE_BITS), cosw0);
        let z = sample_mul(sample_mul(TWO_BITS, sample_sqrt(a)), alpha);
        let c = BiquadCoeffs {
            a0: sample_add(sample_sub(x, y), z),
            a1: sample_mul(
                TWO_BITS,
                sample_sub(sample_sub(a, ONE_BITS), sample_mul(sample_add(a, ONE_BITS), cosw0)),
            ),
            a2: sample_sub(sample_sub(x, y), z),
            b0: sample_mul(a, sample_add(sample_add(x, y), z)),
            b1: sample_mul(
                sample_mul(NEG_TWO_BITS, a),
                sample_add(sample_sub(a, ONE_BITS), sample_mul(sample_add(a, ONE_BITS), cosw0)),
            ),
            b2: sample_mul(a, sample_sub(sample_add(x, y), z)),
        };
        apply_df1(buffer, &c);
        proof {
            assert(df1_applied_eq(c, old(buffer).samples(), buffer.samples()));
        }
        Ok(None)
    }
}

/// A low-shelf filter: boosts or cuts everything below a corner
/// frequency.
pub struct LShelfEQ;

impl LShelfEQ {
    /// The stable lowercase identifier of the effect.
    pub fn get_name(&self) -> (r: String)
        ensures
            r@ == "lshelfeq"@,
    {
        "lshelfeq".to_owned()
    }

    /// Demands `db` present, `freq` inside (1, 20000) and `s` inside
    /// (0.01, 1); an error names the offending argument and the
    /// violated bounds; never warns.
    pub fn validate_arguments(&self, arguments: &Arguments, _tail_length: &Option<u64>) -> (r:
        Result<Option<Diagnostic>, ValidationError>)
        requires
            arguments.wf(),
        ensures
            r is Ok <==> arguments@.contains_key("db"@) && freq_valid(arguments@)
                && arguments@.contains_key("s"@) && !le_bits(arguments@["s"@], SLOPE_MIN_BITS)
                && !ge_bits(arguments@["s"@], ONE_BITS),
            r is Ok ==> r == Ok::<Option<Diagnostic>, ValidationError>(None),
            !arguments@.contains_key("db"@) ==> (r matches Err(e) && names_missing(e, "db"@)),
            arguments@.contains_key("db"@) && !arguments@.contains_key("freq"@) ==> (r matches
                Err(e) && names_missing(e, "freq"@)),
            arguments@.contains_key("db"@) && arguments@.contains_key("freq"@) && (le_bits(
                arguments@["freq"@],
                ONE_BITS,
            ) || ge_bits(arguments@["freq"@], FREQ_MAX_BITS)) ==> (r matches Err(e)
                && names_range(e, "freq"@, ONE_BITS, Some(FREQ_MAX_BITS))),
            arguments@.contains_key("db"@) && freq_valid(arguments@)
                && !arguments@.contains_key("s"@) ==> (r matches Err(e) && names_missing(
                e,
                "s"@,
            )),
            arguments@.contains_key("db"@) && freq_valid(arguments@)
                && arguments@.contains_key("s"@) && (le_bits(arguments@["s"@], SLOPE_MIN_BITS)
                || ge_bits(arguments@["s"@], ONE_BITS)) ==> (r matches Err(e) && names_range(
                e,
                "s"@,
                SLOPE_MIN_BITS,
                Some(ONE_BITS),
            )),
    {
        let db_key = "db".to_owned();
        let freq_key = "freq".to_owned();
        let s_key = "s".to_owned();
        arg_exists(&db_key, arguments)?;
        proof {
            lemma_eq_bounds();
        }
        verify_range(&freq_key, ONE_BITS, FREQ_MAX_BITS, arguments)?;
        verify_range(&s_key, SLOPE_MIN_BITS, ONE_BITS, arguments)?;
        Ok(None)
    }

    /// Derives the cookbook low-shelf coefficients from `freq`, `db`
    /// and `s` and runs the Direct Form I pass; never fails, never
    /// reports, and leaves channel count and lengths unchanged.
    pub fn apply_effect(&self, buffer: &mut AudioBuffer, arguments: &Arguments, _tail_length:
        &Option<u64>) -> (r: Result<Option<Diagnostic>, ApplyError>)
        requires
            arguments.wf(),
            arguments@.contains_key("db"@),
            arguments@.contains_key("freq"@),
            arguments@.contains_key("s"@),
        ensures
            r matches Ok(d) && d is None,
            final(buffer).format == old(buffer).format,
            same_shape(old(buffer).samples(), final(buffer).samples()),
            exists|coeffs: BiquadCoeffs|
                df1_applied_eq(coeffs, old(buffer).samples(), final(buffer).samples()),
    {
        let db_key = "db".to_owned();
        let freq_key = "freq".to_owned();
        let s_key = "s".to_owned();
        let f0 = arguments.get(&freq_key).unwrap();
        let db_gain = arguments.get(&db_key).unwrap();
        let s = arguments.get(&s_key).unwrap();
        let fs = sample_of_u32(buffer.format.sample_rate);

        let a = sample_powf(TEN_BITS, sample_div(db_gain, FORTY_BITS));
        let w0 = sample_mul(sample_mul(TWO_BITS, PI_BITS), sample_div(f0, fs));
        let sinw0 = sample_sin(w0);
        let cosw0 = sample_cos(w0);
        let alpha = sample_mul(
            sample_div(sinw0, TWO_BITS),
            sample_sqrt(
                sample_add(
                    sample_mul(
                        sample_add(a, sample_div(ONE_BITS, a)),
                        sample_sub(sample_div(ONE_BITS, s), ONE_BITS),
                    ),
                    TWO_BITS,
                ),
            ),
        );
        let x = sample_add(a, ONE_BITS);
        let y = sample_mul(sample_sub(a, ONE_BITS), cosw0);
        let z = sample_mul(sample_mul(TWO_BITS, sample_sqrt(a)), alpha);
        let c = BiquadCoeffs {
            a0: sample_add(sample_add(x, y), z),
            a1: sample_mul(
                NEG_TWO_BITS,
                sample_add(sample_sub(a, ONE_BITS), sample_mul(sample_add(a, ONE_BITS), cosw0)),
            ),
            a2: sample_sub(sample_add(x, y), z),
            b0: sample_mul(a, sample_add(sample_sub(x, y), z)),
            b1: sample_mul(
                sample_mul(TWO_BITS, a),
                sample_sub(sample_sub(a, ONE_BITS), sample_mul(sample_add(a, ONE_BITS), cosw0)),
            ),
            b2: sample_mul(a, sample_sub(sample_sub(x, y), z)),
        };
        apply_df1(buffer, &c);
        proof {
            assert(df1_applied_eq(c, old(buffer).samples(), buffer.samples()));
        }
        Ok(None)
    }
}

/// A band-pass filter: keeps a band around a center frequency and
/// attenuates the rest.
pub struct BandPassEQ;

impl BandPassEQ {
    /// The stable lowercase identifier of the effect.
    pub fn get_name(&self) -> (r: String)
        ensures
            r@ == "bandpasseq"@,
    {
        "bandpasseq".to_owned()
    }

    /// Demands `freq` inside (1, 20000) and `q` strictly positive; an
    /// error names the offending argument and the violated bounds;
    /// never warns.
    pub fn validate_arguments(&self, arguments: &Arguments, _tail_length: &Option<u64>) -> (r:
        Result<Option<Diagnostic>, ValidationError>)
        requires
            arguments.wf(),
        ensures
            r is Ok <==> freq_valid(arguments@) && arguments@.contains_key("q"@) && !le_bits(
                arguments@["q"@],
                ZERO_BITS,
            ),
            r is Ok ==> r == Ok::<Option<Diagnostic>, ValidationError>(None),
            !arguments@.contains_key("freq"@) ==> (r matches Err(e) && names_missing(
                e,
                "freq"@,
            )),
            arguments@.contains_key("freq"@) && (le_bits(arguments@["freq"@], ONE_BITS)
                || ge_bits(arguments@["freq"@], FREQ_MAX_BITS)) ==> (r matches Err(e)
                && names_range(e, "freq"@, ONE_BITS, Some(FREQ_MAX_BITS))),
            freq_valid(arguments@) && !arguments@.contains_key("q"@) ==> (r matches Err(e)
                && names_missing(e, "q"@)),
            freq_valid(arguments@) && arguments@.contains_key("q"@) && le_bits(
                arguments@["q"@],
                ZERO_BITS,
            ) ==> (r matches Err(e) && names_range(e, "q"@, ZERO_BITS, None)),
    {
        let freq_key = "freq".to_owned();
        let q_key = "q".to_owned();
        proof {
            lemma_eq_bounds();
        }
        verify_range(&freq_key, ONE_BITS, FREQ_MAX_BITS, arguments)?;
        verify_min(&q_key, ZERO_BITS, arguments)?;
        Ok(None)
    }

    /// Derives the cookbook band-pass coefficients from `freq` and `q`
    /// and runs the Direct Form I pass; never fails, never reports, and
    /// leaves channel count and lengths unchanged.
    pub fn apply_effect(&self, buffer: &mut AudioBuffer, arguments: &Arguments, _tail_length:
        &Option<u64>) -> (r: Result<Option<Diagnostic>, ApplyError>)
        requires
            arguments.wf(),
            arguments@.contains_key("freq"@),
            arguments@.contains_key("q"@),
        ensures
            r matches Ok(d) && d is None,
            final(buffer).format == old(buffer).format,
            same_shape(old(buffer).samples(), final(buffer).samples()),
            exists|coeffs: BiquadCoeffs|
                df1_applied_eq(coeffs, old(buffer).samples(), final(buffer).samples()),
    {
        let freq_key = "freq".to_owned();
        let q_key = "q".to_owned();
        let f0 = arguments.get(&freq_key).unwrap();
        let q = arguments.get(&q_key).unwrap();
        let fs = sample_of_u32(buffer.format.sample_rate);

        let w0 = sample_mul(sample_mul(TWO_BITS, PI_BITS), sample_div(f0, fs));
        let sinw0 = sample_sin(w0);
        let cosw0 = sample_cos(w0);
        let alpha = sample_div(sinw0, sample_mul(TWO_BITS, q));
        let c = BiquadCoeffs {
            a0: sample_add(ONE_BITS, alpha),
            a1: sample_mul(NEG_TWO_BITS, cosw0),
            a2: sample_sub(ONE_BITS, alpha),
            b0: alpha,
            b1: ZERO_BITS,
            b2: sample_neg(alpha),
        };
        apply_df1(buffer, &c);
        proof {
            assert(df1_applied_eq(c, old(buffer).samples(), buffer.samples()));
        }
        Ok(None)
    }
}

} // verus!
