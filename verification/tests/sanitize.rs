use fxchain::buffer::{
    clamp_and_count, deinterleave, interleave, sanitize_buffer, AudioBuffer, AudioFormat,
    SampleEncoding,
};
use fxchain::errors::SanitizeError;

fn buf(rate: u32, chans: Vec<Vec<f64>>) -> AudioBuffer {
    AudioBuffer {
        format: AudioFormat {
            sample_rate: rate,
            bits_per_sample: 16,
            encoding: SampleEncoding::Float,
            channel_count: chans.len() as u16,
        },
        channels: chans
            .iter()
            .map(|c| c.iter().map(|s| s.to_bits()).collect())
            .collect(),
    }
}

fn chan(buffer: &AudioBuffer, c: usize) -> Vec<f64> {
    buffer.channels[c].iter().map(|b| f64::from_bits(*b)).collect()
}

#[test]
fn sanitize_pads_to_longest() {
    let mut b = buf(
        44100,
        vec![vec![0.1, 0.2, 0.3], vec![0.4, 0.5, 0.6, 0.7, 0.8], vec![0.9, -0.9]],
    );
    assert!(sanitize_buffer(&mut b).is_ok());
    assert_eq!(chan(&b, 0), vec![0.1, 0.2, 0.3, 0.0, 0.0]);
    assert_eq!(chan(&b, 1), vec![0.4, 0.5, 0.6, 0.7, 0.8]);
    assert_eq!(chan(&b, 2), vec![0.9, -0.9, 0.0, 0.0, 0.0]);
    assert!(b.channels.iter().all(|c| c.len() == 5));
}

#[test]
fn sanitize_rejects_nan() {
    let mut b = buf(44100, vec![vec![0.1, 0.2], vec![0.3, f64::NAN, 0.5]]);
    assert_eq!(sanitize_buffer(&mut b), Err(SanitizeError::InvalidSample));
    // a refused buffer is untouched
    assert_eq!(b.channels[1].len(), 3);
}

#[test]
fn sanitize_rejects_infinity() {
    let mut b = buf(44100, vec![vec![0.1, f64::INFINITY]]);
    assert_eq!(sanitize_buffer(&mut b), Err(SanitizeError::InvalidSample));
    let mut b = buf(44100, vec![vec![f64::NEG_INFINITY]]);
    assert_eq!(sanitize_buffer(&mut b), Err(SanitizeError::InvalidSample));
}

#[test]
fn sanitize_rejects_empty_audio() {
    let mut b = buf(44100, vec![vec![], vec![], vec![]]);
    assert_eq!(sanitize_buffer(&mut b), Err(SanitizeError::EmptyAudio));
    let msg = SanitizeError::EmptyAudio.message();
    assert_eq!(msg, "Audio became zero-length, cannot process further");
    let msg = SanitizeError::InvalidSample.message();
    assert_eq!(
        msg,
        "Sample values became invalid (NaN or infinity), cannot process further"
    );
}

#[test]
fn sanitize_is_idempotent() {
    let mut once = buf(8000, vec![vec![0.25, -0.5], vec![0.75]]);
    assert!(sanitize_buffer(&mut once).is_ok());
    let mut twice = buf(8000, vec![vec![0.25, -0.5], vec![0.75]]);
    assert!(sanitize_buffer(&mut twice).is_ok());
    assert!(sanitize_buffer(&mut twice).is_ok());
    assert_eq!(once.channels, twice.channels);
}

#[test]
fn deinterleave_splits_frames() {
    let frame: Vec<u64> = vec![1u64, 2, 3, 4, 5, 6];
    let chans = deinterleave(&frame, 2);
    assert_eq!(chans, vec![vec![1u64, 3, 5], vec![2u64, 4, 6]]);
}

#[test]
fn interleave_restores_frames() {
    let chans: Vec<Vec<u64>> = vec![vec![1u64, 3, 5], vec![2u64, 4, 6]];
    assert_eq!(interleave(&chans), vec![1u64, 2, 3, 4, 5, 6]);
    let frame: Vec<u64> = (0..12u64).collect();
    assert_eq!(interleave(&deinterleave(&frame, 3)), frame);
    let empty: Vec<Vec<u64>> = vec![];
    assert_eq!(interleave(&empty), Vec::<u64>::new());
}

#[test]
fn clamp_counts_clipped_samples() {
    let mut frame: Vec<u64> = vec![1.5f64, -2.0, 0.3, 1.0, -1.0]
        .into_iter()
        .map(f64::to_bits)
        .collect();
    let clipped = clamp_and_count(&mut frame);
    assert_eq!(clipped, 2);
    let vals: Vec<f64> = frame.into_iter().map(f64::from_bits).collect();
    assert_eq!(vals, vec![1.0, -1.0, 0.3, 1.0, -1.0]);
}
