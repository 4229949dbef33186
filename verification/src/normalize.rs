//! The normalize effect: peak normalization to full scale.
//!
//! The peak is the largest absolute sample value over all channels.
//! When it is zero the buffer is left alone and a diagnostic says so;
//! otherwise every sample is divided by the peak and clamped to
//! [-1.0, 1.0] as a numerical safety net, and a second diagnostic
//! reports the removed headroom when the peak exceeded full scale.

use vstd::prelude::*;
use crate::args::Arguments;
use crate::arith::{div_of, sample_div};
use crate::buffer::{lemma_channel_update_framed, AudioBuffer};
use crate::errors::{ApplyError, Diagnostic, ValidationError};
use crate::sample::{
    abs_bits, clamp_unit_bits, gt_bits, is_nan_bits, lemma_clamp_unit_bounded, sample_abs,
    sample_clamp_unit, sample_eqv, sample_gt, ONE_BITS, ZERO_BITS,
};

verus! {

/// The largest absolute sample of one channel, folded onto `acc` from
/// the front under IEEE 754 ordering (a NaN never wins a comparison).
pub open spec fn chan_peak(ch: Seq<u64>, acc: u64) -> u64
    decreases ch.len(),
{
    if ch.len() == 0 {
        acc
    } else {
        chan_peak(
            ch.drop_first(),
            if gt_bits(abs_bits(ch[0]), acc) {
                abs_bits(ch[0])
            } else {
                acc
            },
        )
    }
}

/// `chan_peak` folded over all channels in order.
pub open spec fn peak_from(chs: Seq<Seq<u64>>, acc: u64) -> u64
    decreases chs.len(),
{
    if chs.len() == 0 {
        acc
    } else {
        peak_from(chs.drop_first(), chan_peak(chs[0], acc))
    }
}

/// The buffer's peak: the largest absolute sample over all channels,
/// starting from zero.
pub open spec fn buffer_peak(chs: Seq<Seq<u64>>) -> u64 {
    peak_from(chs, ZERO_BITS)
}

/// Every sample of `out` is the corresponding sample of `chs` divided
/// by `peak` and clamped to [-1.0, 1.0], up to NaN payload (a quotient
/// that is NaN passes through the clamp with whatever payload the
/// division produced).
pub open spec fn normalized_eqv(chs: Seq<Seq<u64>>, out: Seq<Seq<u64>>, peak: u64) -> bool {
    &&& out.len() == chs.len()
    &&& forall|c: int| 0 <= c < chs.len() ==> (#[trigger] out[c]).len() == chs[c].len()
    &&& forall|c: int, i: int|
        0 <= c < chs.len() && 0 <= i < chs[c].len() ==> sample_eqv(
            #[trigger] out[c][i],
            clamp_unit_bits(div_of(chs[c][i], peak)),
        )
}

/// Finds the buffer's peak.
fn find_peak(buffer: &AudioBuffer) -> (r: u64)
    ensures
        r == buffer_peak(buffer.samples()),
{
    let ghost chs = buffer.samples();
    let n = buffer.channels.len();
    let mut acc: u64 = ZERO_BITS;
    proof {
        assert(chs.skip(0) =~= chs);
    }
    let mut c: usize = 0;
    while c < n
        invariant
            n == buffer.channels.len(),
            chs == buffer.samples(),
            0 <= c <= n,
            buffer_peak(chs) == peak_from(chs.skip(c as int), acc),
        decreases n - c,
    {
        let ch = &buffer.channels[c];
        let len = ch.len();
        let ghost chseq = chs[c as int];
        proof {
            assert(chseq =~= ch@);
            assert(chs.skip(c as int)[0] == chs[c as int]);
            assert(chs.skip(c as int).drop_first() =~= chs.skip(c as int + 1));
            assert(chseq.skip(0) =~= chseq);
        }
        let mut i: usize = 0;
        while i < len
            invariant
                len == ch@.len(),
                chseq == ch@,
                0 <= i <= len,
                buffer_peak(chs) == peak_from(chs.skip(c as int + 1), chan_peak(chseq.skip(i as int), acc)),
                chs.skip(c as int).len() > 0,
                chs.skip(c as int)[0] == chseq,
            decreases len - i,
        {
            let a = sample_abs(ch[i]);
            proof {
                assert(chseq.skip(i as int).drop_first() =~= chseq.skip(i as int + 1));
                assert(chseq.skip(i as int)[0] == chseq[i as int]);
            }
            if sample_gt(a, acc) {
                acc = a;
            }
            i += 1;
        }
        proof {
            assert(chseq.skip(len as int) =~= Seq::<u64>::empty());
            assert(chs.skip(c as int).drop_first() =~= chs.skip(c as int + 1));
        }
        c += 1;
    }
    proof {
        assert(chs.skip(n as int) =~= Seq::<Seq<u64>>::empty());
    }
    acc
}

/// Divides every sample of one channel by `peak` and clamps it.
fn normalize_channel(ch: &mut Vec<u64>, peak: u64)
    ensures
        final(ch)@.len() == old(ch)@.len(),
        forall|i: int|
            0 <= i < old(ch)@.len() ==> sample_eqv(
                #[trigger] final(ch)@[i],
                clamp_unit_bits(div_of(old(ch)@[i], peak)),
            ),
{
    let n = ch.len();
    let mut i: usize = 0;
    while i < n
        invariant
            n == ch@.len(),
            n == old(ch)@.len(),
            0 <= i <= n,
            forall|j: int| i <= j < n ==> ch@[j] == old(ch)@[j],
            forall|j: int|
                0 <= j < i ==> sample_eqv(
                    #[trigger] ch@[j],
                    clamp_unit_bits(div_of(old(ch)@[j], peak)),
                ),
        decreases n - i,
    {
        let d = sample_div(ch[i], peak);
        let s = sample_clamp_unit(d);
        proof {
            // a NaN quotient stays NaN through the clamp, with its own payload
            if is_nan_bits(div_of(old(ch)@[i as int], peak)) {
                assert(is_nan_bits(d));
                assert(s == d);
            }
        }
        ch[i] = s;
        i += 1;
    }
}

/// After normalizing, no sample's absolute value exceeds 1.0: every
/// output sample is a quotient clamped to the unit range. A quotient
/// of a non-finite input sample can be NaN, which the clamp hands back
/// unchanged, so those samples are left out; the sanitizer that runs
/// next refuses them anyway. (On the non-negative patterns compared
/// here, integer order of the bit patterns is exactly IEEE 754 order.)
pub proof fn lemma_normalize_bounded(chs: Seq<Seq<u64>>, out: Seq<Seq<u64>>, peak: u64)
    requires
        normalized_eqv(chs, out, peak),
    ensures
        forall|c: int, i: int|
            0 <= c < out.len() && 0 <= i < out[c].len() && !is_nan_bits(#[trigger] out[c][i])
                ==> abs_bits(out[c][i]) <= ONE_BITS,
{
    assert forall|c: int, i: int|
        0 <= c < out.len() && 0 <= i < out[c].len() && !is_nan_bits(
            #[trigger] out[c][i],
        ) implies abs_bits(out[c][i]) <= ONE_BITS by {
        lemma_clamp_unit_bounded(div_of(chs[c][i], peak));
    }
}

/// Peak normalization to full scale.
pub struct Normalize;

impl Normalize {
    /// The stable lowercase identifier of the effect.
    pub fn get_name(&self) -> (r: String)
        ensures
            r@ == "normalize"@,
    {
        "normalize".to_owned()
    }

    /// Takes no arguments, so validation never fails and never warns.
    pub fn validate_arguments(&self, _arguments: &Arguments, _tail_length: &Option<u64>) -> (r:
        Result<Option<Diagnostic>, ValidationError>)
        ensures
            r == Ok::<Option<Diagnostic>, ValidationError>(None),
    {
        Ok(None)
    }

    /// Divides every sample by the buffer's peak and clamps to
    /// [-1.0, 1.0]. A peak of zero leaves the buffer unchanged and says
    /// so; a peak above full scale reports the removed headroom.
    pub fn apply_effect(&self, buffer: &mut AudioBuffer, _arguments: &Arguments, _tail_length:
        &Option<u64>) -> (r: Result<Option<Diagnostic>, ApplyError>)
        ensures
            final(buffer).format == old(buffer).format,
            buffer_peak(old(buffer).samples()) == ZERO_BITS ==> final(buffer).samples() == old(
                buffer,
            ).samples() && r == Ok::<Option<Diagnostic>, ApplyError>(
                Some(Diagnostic::ZeroAmplitude),
            ),
            buffer_peak(old(buffer).samples()) != ZERO_BITS ==> normalized_eqv(
                old(buffer).samples(),
                final(buffer).samples(),
                buffer_peak(old(buffer).samples()),
            ),
            buffer_peak(old(buffer).samples()) != ZERO_BITS && gt_bits(
                buffer_peak(old(buffer).samples()),
                ONE_BITS,
            ) ==> r == Ok::<Option<Diagnostic>, ApplyError>(
                Some(Diagnostic::Headroom { peak: buffer_peak(old(buffer).samples()) }),
            ),
            buffer_peak(old(buffer).samples()) != ZERO_BITS && !gt_bits(
                buffer_peak(old(buffer).samples()),
                ONE_BITS,
            ) ==> r == Ok::<Option<Diagnostic>, ApplyError>(None),
    {
        let peak = find_peak(buffer);
        if peak == ZERO_BITS {
            return Ok(Some(Diagnostic::ZeroAmplitude));
        }
        let ghost chs = buffer.samples();
        let n = buffer.channels.len();
        let mut c: usize = 0;
        while c < n
            invariant
                n == buffer.channels.len(),
                chs.len() == n,
                buffer.format == old(buffer).format,
                0 <= c <= n,
                forall|c2: int| c <= c2 < n ==> buffer.samples()[c2] == chs[c2],
                forall|c2: int|
                    0 <= c2 < c ==> (#[trigger] buffer.samples()[c2]).len() == chs[c2].len(),
                forall|c2: int, i: int|
                    0 <= c2 < c && 0 <= i < chs[c2].len() ==> sample_eqv(
                        #[trigger] buffer.samples()[c2][i],
                        clamp_unit_bits(div_of(chs[c2][i], peak)),
                    ),
            decreases n - c,
        {
            proof {
                assert(chs[c as int] =~= buffer.channels@[c as int]@);
            }
            let ghost bpre = *buffer;
            let ghost prev = buffer.channels@;
            let ghost before = buffer.samples();
            normalize_channel(&mut buffer.channels[c], peak);
            proof {
                lemma_channel_update_framed(bpre, *buffer, c as int);
                assert(chs[c as int] == prev[c as int]@);
                assert forall|c2: int| 0 <= c2 < c + 1 implies (
                #[trigger] buffer.samples()[c2]).len() == chs[c2].len() by {
                    if c2 < c {
                        assert(buffer.samples()[c2] == before[c2]);
                    }
                }
                assert forall|c2: int, i: int|
                    0 <= c2 < c + 1 && 0 <= i < chs[c2].len() implies sample_eqv(
                    #[trigger] buffer.samples()[c2][i],
                    clamp_unit_bits(div_of(chs[c2][i], peak)),
                ) by {
                    if c2 < c {
                        assert(buffer.samples()[c2] == before[c2]);
                    } else {
                        assert(buffer.samples()[c2][i] == buffer.channels@[c2]@[i]);
                    }
                }
            }
            c += 1;
        }
        if sample_gt(peak, ONE_BITS) {
            Ok(Some(Diagnostic::Headroom { peak }))
        } else {
            Ok(None)
        }
    }
}

} // verus!
