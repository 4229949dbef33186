//! The in-memory audio buffer and its sanitizer.
//!
//! A buffer holds de-interleaved channels of binary64 samples (as bit
//! patterns, see `sample`) plus the format metadata of the stream they
//! came from. Effects may leave channels of differing lengths or
//! broken samples behind; `sanitize_buffer` runs between effects,
//! refuses non-finite samples and empty audio, and pads every channel
//! with zeros up to the longest one.

use vstd::prelude::*;
use crate::errors::SanitizeError;
use crate::sample::{
    abs_bits, clamp_unit_bits, gt_bits, is_finite_bits, sample_abs, sample_clamp_unit, sample_gt,
    sample_is_finite, sample_ok, ONE_BITS, ZERO_BITS,
};

verus! {

/// How the samples of the underlying stream are encoded.
#[derive(Clone, Copy, Debug, PartialEq, Eq, Structural)]
pub enum SampleEncoding {
    /// Signed integer PCM.
    Int,
    /// Floating-point samples.
    Float,
}

/// Format metadata of a decoded stream.
#[derive(Clone, Copy, Debug, PartialEq, Eq, Structural)]
pub struct AudioFormat {
    /// Sample rate in hertz; positive.
    pub sample_rate: u32,
    /// Bits per sample of the stream: 8, 16, 24 or 32.
    pub bits_per_sample: u16,
    /// Sample encoding of the stream.
    pub encoding: SampleEncoding,
    /// Number of channels; positive.
    pub channel_count: u16,
}

impl AudioFormat {
    /// The format values the engine accepts.
    pub open spec fn wf(&self) -> bool {
        &&& self.sample_rate >= 1
        &&& (self.bits_per_sample == 8 || self.bits_per_sample == 16
            || self.bits_per_sample == 24 || self.bits_per_sample == 32)
        &&& self.channel_count >= 1
    }
}

/// A fully decoded multi-channel audio buffer, mutated in place by each
/// effect of a chain.
pub struct AudioBuffer {
    /// Format metadata of the stream the buffer was decoded from.
    pub format: AudioFormat,
    /// One sample sequence per channel.
    pub channels: Vec<Vec<u64>>,
}

impl AudioBuffer {
    /// The channels as a sequence of sample sequences.
    pub open spec fn samples(&self) -> Seq<Seq<u64>> {
        self.channels.deep_view()
    }
}

/// Same channel count and the same length channel by channel.
pub open spec fn same_shape(a: Seq<Seq<u64>>, b: Seq<Seq<u64>>) -> bool {
    b.len() == a.len() && forall|c: int| 0 <= c < a.len() ==> (#[trigger] b[c]).len() == a[c].len()
}

/// True when every sample of every channel is finite.
pub open spec fn all_samples_ok(chs: Seq<Seq<u64>>) -> bool {
    forall|c: int, i: int|
        0 <= c < chs.len() && 0 <= i < chs[c].len() ==> sample_ok(#[trigger] chs[c][i])
}

/// The length of the longest channel.
pub open spec fn max_chan_len(chs: Seq<Seq<u64>>) -> nat
    decreases chs.len(),
{
    if chs.len() == 0 {
        0
    } else {
        let m = max_chan_len(chs.drop_last());
        if chs.last().len() > m {
            chs.last().len()
        } else {
            m
        }
    }
}

/// A channel extended to length `m` with trailing zero samples (left as
/// it is when already at least that long).
pub open spec fn pad_to(ch: Seq<u64>, m: nat) -> Seq<u64> {
    if ch.len() >= m {
        ch
    } else {
        ch + Seq::new((m - ch.len()) as nat, |i: int| ZERO_BITS)
    }
}

/// Every channel padded to the length of the longest one: what a
/// successful sanitize pass leaves behind.
pub open spec fn sanitized(chs: Seq<Seq<u64>>) -> Seq<Seq<u64>> {
    Seq::new(chs.len(), |c: int| pad_to(chs[c], max_chan_len(chs)))
}

/// No channel is longer than the longest one.
proof fn lemma_max_chan_len_bound(chs: Seq<Seq<u64>>, c: int)
    requires
        0 <= c < chs.len(),
    ensures
        chs[c].len() <= max_chan_len(chs),
    decreases chs.len(),
{
    if c == chs.len() - 1 {
    } else {
        lemma_max_chan_len_bound(chs.drop_last(), c);
    }
}

/// The longest channel's length is attained, unless there is no channel.
proof fn lemma_max_chan_len_attained(chs: Seq<Seq<u64>>)
    requires
        chs.len() > 0,
    ensures
        exists|c: int| 0 <= c < chs.len() && chs[c].len() == max_chan_len(chs),
    decreases chs.len(),
{
    if chs.len() == 1 {
        assert(max_chan_len(chs.drop_last()) == 0);
        assert(chs[0].len() == max_chan_len(chs));
    } else if chs.last().len() == max_chan_len(chs) {
        assert(chs[chs.len() - 1].len() == max_chan_len(chs));
    } else {
        lemma_max_chan_len_attained(chs.drop_last());
        let c = choose|c: int|
            0 <= c < chs.drop_last().len() && chs.drop_last()[c].len() == max_chan_len(
                chs.drop_last(),
            );
        assert(chs[c].len() == max_chan_len(chs));
    }
}

/// After exactly one channel of a buffer is replaced, every other
/// channel's sample view is unchanged, and on both sides the touched
/// channel's view is its vector's contents.
pub proof fn lemma_channel_update_framed(pre: AudioBuffer, post: AudioBuffer, c: int)
    requires
        0 <= c < pre.channels@.len(),
        post.channels@.len() == pre.channels@.len(),
        forall|c2: int|
            0 <= c2 < pre.channels@.len() && c2 != c ==> post.channels@[c2] == pre.channels@[c2],
    ensures
        post.samples().len() == pre.samples().len(),
        forall|c2: int|
            0 <= c2 < pre.channels@.len() && c2 != c ==> #[trigger] post.samples()[c2]
                == pre.samples()[c2],
        post.samples()[c] == post.channels@[c]@,
        pre.samples()[c] == pre.channels@[c]@,
{
    assert forall|c2: int|
        0 <= c2 < pre.channels@.len() && c2 != c implies #[trigger] post.samples()[c2]
        == pre.samples()[c2] by {
        assert(post.samples()[c2] == post.channels@[c2].deep_view());
        assert(pre.samples()[c2] == pre.channels@[c2].deep_view());
    }
    assert(post.samples()[c] =~= post.channels@[c]@);
    assert(pre.samples()[c] =~= pre.channels@[c]@);
}

/// Extends a channel to length `m` with trailing zero samples.
fn pad_channel(ch: &mut Vec<u64>, m: usize)
    requires
        old(ch).len() <= m,
    ensures
        final(ch)@ == pad_to(old(ch)@, m as nat),
{
    let orig_len = ch.len();
    while ch.len() < m
        invariant
            orig_len == old(ch).len(),
            orig_len <= ch.len() <= m,
            ch@.subrange(0, orig_len as int) == old(ch)@,
            forall|j: int| orig_len <= j < ch.len() ==> ch@[j] == ZERO_BITS,
        decreases m - ch.len(),
    {
        ch.push(ZERO_BITS);
        proof {
            assert(ch@.subrange(0, orig_len as int) =~= old(ch)@);
        }
    }
    proof {
        assert(ch@ =~= pad_to(old(ch)@, m as nat));
    }
}

/// Validates and repairs a buffer between effect applications.
///
/// Refuses a buffer holding a NaN or infinite sample, then a buffer
/// whose every channel is empty; otherwise pads each channel with
/// trailing zeros up to the longest one, so that all channels end at
/// equal length. A refused buffer is left untouched.
pub fn sanitize_buffer(buffer: &mut AudioBuffer) -> (r: Result<(), SanitizeError>)
    ensures
        final(buffer).format == old(buffer).format,
        r == Err::<(), SanitizeError>(SanitizeError::InvalidSample) <==> !all_samples_ok(
            old(buffer).samples(),
        ),
        r == Err::<(), SanitizeError>(SanitizeError::EmptyAudio) <==> all_samples_ok(
            old(buffer).samples(),
        ) && max_chan_len(old(buffer).samples()) == 0,
        r.is_err() ==> final(buffer).samples() == old(buffer).samples(),
        r.is_ok() <==> all_samples_ok(old(buffer).samples()) && max_chan_len(
            old(buffer).samples(),
        ) > 0,
        r.is_ok() ==> final(buffer).samples() == sanitized(old(buffer).samples()),
{
    let ghost chs = buffer.samples();
    let n = buffer.channels.len();
    let mut max: usize = 0;
    let mut c: usize = 0;
    while c < n
        invariant
            n == buffer.channels.len(),
            chs == buffer.samples(),
            0 <= c <= n,
            forall|c2: int, i: int|
                0 <= c2 < c && 0 <= i < chs[c2].len() ==> sample_ok(#[trigger] chs[c2][i]),
            max == max_chan_len(chs.subrange(0, c as int)),
        decreases n - c,
    {
        let ch = &buffer.channels[c];
        let len = ch.len();
        let mut i: usize = 0;
        while i < len
            invariant
                n == buffer.channels.len(),
                chs == buffer.samples(),
                0 <= c < n,
                len == chs[c as int].len(),
                ch == buffer.channels[c as int],
                0 <= i <= len,
                forall|j: int| 0 <= j < i ==> sample_ok(#[trigger] chs[c as int][j]),
            decreases len - i,
        {
            if !sample_is_finite(ch[i]) {
                proof {
                    assert(chs[c as int][i as int] == ch@[i as int]);
                    assert(!all_samples_ok(chs));
                }
                return Err(SanitizeError::InvalidSample);
            }
            i += 1;
        }
        if len > max {
            max = len;
        }
        proof {
            assert(chs.subrange(0, c + 1 as int).drop_last() =~= chs.subrange(0, c as int));
            assert(chs.subrange(0, c + 1 as int).last() =~= chs[c as int]);
        }
        c += 1;
    }
    proof {
        assert(chs.subrange(0, n as int) =~= chs);
    }
    if max == 0 {
        return Err(SanitizeError::EmptyAudio);
    }

    let mut c: usize = 0;
    while c < n
        invariant
            n == buffer.channels.len(),
            chs.len() == n,
            buffer.format == old(buffer).format,
            max == max_chan_len(chs),
            0 <= c <= n,
            forall|c2: int| c <= c2 < n ==> buffer.samples()[c2] == chs[c2],
            forall|c2: int| 0 <= c2 < c ==> buffer.samples()[c2] == pad_to(chs[c2], max as nat),
        decreases n - c,
    {
        proof {
            lemma_max_chan_len_bound(chs, c as int);
            assert(chs[c as int] =~= buffer.channels@[c as int]@);
        }
        let ghost bpre = *buffer;
        let ghost before = buffer.samples();
        pad_channel(&mut buffer.channels[c], max);
        proof {
            lemma_channel_update_framed(bpre, *buffer, c as int);
            assert(buffer.samples()[c as int] =~= pad_to(chs[c as int], max as nat));
            assert forall|c2: int| 0 <= c2 < c + 1 implies buffer.samples()[c2] == pad_to(
                chs[c2],
                max as nat,
            ) by {
                if c2 < c {
                    assert(buffer.samples()[c2] == before[c2]);
                    assert(before[c2] == pad_to(chs[c2], max as nat));
                }
            }
        }
        c += 1;
    }
    proof {
        assert(buffer.samples() =~= sanitized(chs));
    }
    Ok(())
}

/// Splits an interleaved frame sequence into `count` channels: sample
/// `k*count + c` of the frame becomes sample `k` of channel `c`, as
/// the decoding boundary hands audio to the engine. The frame must
/// hold whole frames only.
pub fn deinterleave(samples: &Vec<u64>, count: usize) -> (r: Vec<Vec<u64>>)
    requires
        count >= 1,
        samples@.len() as int % (count as int) == 0,
    ensures
        r@.len() == count,
        forall|c: int|
            0 <= c < count ==> (#[trigger] r@[c])@.len() == samples@.len() as int / (count as int),
        forall|c: int, k: int|
            0 <= c < count && 0 <= k < samples@.len() as int / (count as int) ==> (#[trigger] r@[c]@[k])
                == samples@[k * count + c],
{
    let total = samples.len();
    let frames = total / count;
    proof {
        assert(frames == samples@.len() as int / (count as int));
        vstd::arithmetic::div_mod::lemma_fundamental_div_mod(total as int, count as int);
    }
    let mut r: Vec<Vec<u64>> = Vec::new();
    let mut c: usize = 0;
    while c < count
        invariant
            count >= 1,
            total == samples@.len(),
            frames == samples@.len() as int / (count as int),
            total == frames * count,
            0 <= c <= count,
            r@.len() == c,
            forall|c2: int| 0 <= c2 < c ==> (#[trigger] r@[c2])@.len() == frames,
            forall|c2: int, k: int|
                0 <= c2 < c && 0 <= k < frames ==> (#[trigger] r@[c2]@[k]) == samples@[k * count
                    + c2],
        decreases count - c,
    {
        let mut ch: Vec<u64> = Vec::new();
        let mut k: usize = 0;
        while k < frames
            invariant
                count >= 1,
                0 <= c < count,
                total == samples@.len(),
                total == frames * count,
                0 <= k <= frames,
                ch@.len() == k,
                forall|k2: int| 0 <= k2 < k ==> (#[trigger] ch@[k2]) == samples@[k2 * count + c as int],
            decreases frames - k,
        {
            proof {
                assert(k * count + c < frames * count) by (nonlinear_arith)
                    requires
                        0 <= k < frames,
                        0 <= c < count,
                ;
                assert(0 <= k * count) by (nonlinear_arith)
                    requires
                        0 <= k,
                        0 <= count,
                ;
            }
            let idx = k * count + c;
            ch.push(samples[idx]);
            k += 1;
        }
        r.push(ch);
        c += 1;
    }
    r
}

/// Interleaves equally long channels back into one frame sequence:
/// sample `k` of channel `c` becomes sample `k*count + c`, as the
/// encoding boundary needs them.
pub fn interleave(channels: &Vec<Vec<u64>>) -> (r: Vec<u64>)
    requires
        forall|c: int, c2: int|
            0 <= c < channels@.len() && 0 <= c2 < channels@.len() ==> (#[trigger] channels@[c])@.len()
                == (#[trigger] channels@[c2])@.len(),
    ensures
        channels@.len() == 0 ==> r@.len() == 0,
        channels@.len() > 0 ==> r@.len() == channels@.len() * channels@[0]@.len(),
        forall|c: int, k: int|
            0 <= c < channels@.len() && 0 <= k < channels@[c]@.len() ==> (#[trigger] r@[k * channels@.len()
                + c]) == channels@[c]@[k],
{
    let count = channels.len();
    let mut r: Vec<u64> = Vec::new();
    if count == 0 {
        return r;
    }
    let frames = channels[0].len();
    let mut k: usize = 0;
    while k < frames
        invariant
            count == channels@.len(),
            count >= 1,
            frames == channels@[0]@.len(),
            forall|c: int| 0 <= c < count ==> (#[trigger] channels@[c])@.len() == frames,
            0 <= k <= frames,
            r@.len() == k * count,
            forall|c: int, k2: int|
                0 <= c < count && 0 <= k2 < k ==> (#[trigger] r@[k2 * count + c]) == channels@[c]@[k2],
        decreases frames - k,
    {
        let mut c: usize = 0;
        while c < count
            invariant
                count == channels@.len(),
                count >= 1,
                frames == channels@[0]@.len(),
                forall|c2: int| 0 <= c2 < count ==> (#[trigger] channels@[c2])@.len() == frames,
                0 <= k < frames,
                0 <= c <= count,
                r@.len() == k * count + c,
                forall|c2: int, k2: int|
                    0 <= c2 < count && 0 <= k2 < k ==> (#[trigger] r@[k2 * count + c2])
                        == channels@[c2]@[k2],
                forall|c2: int| 0 <= c2 < c ==> (#[trigger] r@[k as int * count + c2]) == channels@[c2]@[k as int],
            decreases count - c,
        {
            proof {
                assert forall|k2: int, c2: int| #![trigger k2 * count + c2]
                    0 <= k2 < k && 0 <= c2 < count implies k2 * count + c2 < k * count + c by {
                    assert(k2 * count + c2 < k * count + c) by (nonlinear_arith)
                        requires
                            0 <= k2 < k,
                            0 <= c2 < count,
                            0 <= c,
                    ;
                }
            }
            r.push(channels[c][k]);
            c += 1;
        }
        proof {
            assert((k + 1) * count == k * count + count) by (nonlinear_arith);
        }
        k += 1;
    }
    proof {
        assert(frames * count == count * frames) by (nonlinear_arith);
    }
    r
}

/// How many samples of a sequence lie outside the unit range.
pub open spec fn clipped_count(s: Seq<u64>) -> nat
    decreases s.len(),
{
    if s.len() == 0 {
        0
    } else {
        clipped_count(s.drop_last()) + if gt_bits(abs_bits(s.last()), ONE_BITS) {
            1nat
        } else {
            0nat
        }
    }
}

/// Clamps every sample of an interleaved frame to [-1.0, 1.0] and
/// reports how many lay outside it, as the encoding boundary does
/// before converting to the target bit depth: clipping is counted for
/// a warning, never an error.
pub fn clamp_and_count(samples: &mut Vec<u64>) -> (clipped: usize)
    ensures
        final(samples)@ == Seq::new(old(samples)@.len(), |i: int| clamp_unit_bits(old(samples)@[i])),
        clipped == clipped_count(old(samples)@),
{
    let n = samples.len();
    let mut clipped: usize = 0;
    let mut i: usize = 0;
    while i < n
        invariant
            n == samples@.len(),
            n == old(samples)@.len(),
            0 <= i <= n,
            clipped <= i,
            clipped == clipped_count(old(samples)@.subrange(0, i as int)),
            forall|j: int| i <= j < n ==> samples@[j] == old(samples)@[j],
            forall|j: int| 0 <= j < i ==> samples@[j] == clamp_unit_bits(old(samples)@[j]),
        decreases n - i,
    {
        let s = samples[i];
        if sample_gt(sample_abs(s), ONE_BITS) {
            clipped += 1;
        }
        samples[i] = sample_clamp_unit(s);
        proof {
            assert(old(samples)@.subrange(0, i + 1 as int).drop_last() =~= old(
                samples,
            )@.subrange(0, i as int));
            assert(old(samples)@.subrange(0, i + 1 as int).last() == old(samples)@[i as int]);
        }
        i += 1;
    }
    proof {
        assert(old(samples)@.subrange(0, n as int) =~= old(samples)@);
        assert(samples@ =~= Seq::new(
            old(samples)@.len(),
            |i: int| clamp_unit_bits(old(samples)@[i]),
        ));
    }
    clipped
}

/// Sanitizing is idempotent: a pass over an already sanitized buffer
/// accepts it and changes nothing. Stated over the sanitizer's own
/// model: for a buffer of finite samples with at least one non-empty
/// channel, the sanitized channels are again accepted by every check,
/// and sanitizing them again gives them back unchanged.
pub proof fn lemma_sanitize_idempotent(chs: Seq<Seq<u64>>)
    requires
        all_samples_ok(chs),
        max_chan_len(chs) > 0,
    ensures
        all_samples_ok(sanitized(chs)),
        max_chan_len(sanitized(chs)) == max_chan_len(chs),
        sanitized(sanitized(chs)) == sanitized(chs),
        forall|c: int|
            0 <= c < sanitized(chs).len() ==> (#[trigger] sanitized(chs)[c]).len()
                == max_chan_len(chs),
{
    let m = max_chan_len(chs);
    let s = sanitized(chs);
    crate::sample::lemma_zero_sample_ok();
    assert forall|c: int, i: int| 0 <= c < s.len() && 0 <= i < s[c].len() implies sample_ok(
        #[trigger] s[c][i],
    ) by {
        lemma_max_chan_len_bound(chs, c);
        if i < chs[c].len() {
            assert(s[c][i] == chs[c][i]);
        } else {
            assert(s[c][i] == ZERO_BITS);
        }
    }
    assert forall|c: int| 0 <= c < s.len() implies s[c].len() == m by {
        lemma_max_chan_len_bound(chs, c);
    }
    lemma_max_of_equal_lengths(s, m);
    assert(sanitized(s) =~= s);
}

/// When every channel has length `m > 0`, the longest length is `m`.
proof fn lemma_max_of_equal_lengths(chs: Seq<Seq<u64>>, m: nat)
    requires
        chs.len() > 0,
        forall|c: int| 0 <= c < chs.len() ==> (#[trigger] chs[c]).len() == m,
    ensures
        max_chan_len(chs) == m,
    decreases chs.len(),
{
    assert(chs.last() == chs[chs.len() - 1]);
    if chs.len() == 1 {
        assert(max_chan_len(chs.drop_last()) == 0);
    } else {
        assert(forall|c: int|
            0 <= c < chs.drop_last().len() ==> (#[trigger] chs.drop_last()[c]) == chs[c]);
        lemma_max_of_equal_lengths(chs.drop_last(), m);
    }
}

} // verus!
