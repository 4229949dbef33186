use fxchain::args::Arguments;
use fxchain::buffer::{AudioBuffer, AudioFormat, SampleEncoding};
use fxchain::eq::{BandPassEQ, HShelfEQ, LShelfEQ};
use fxchain::errors::ValidationError;

fn buf(rate: u32, chans: Vec<Vec<f64>>) -> AudioBuffer {
    AudioBuffer {
        format: AudioFormat {
            sample_rate: rate,
            bits_per_sample: 16,
            encoding: SampleEncoding::Float,
            channel_count: chans.len() as u16,
        },
        channels: chans
            .iter()
            .map(|c| c.iter().map(|s| s.to_bits()).collect())
            .collect(),
    }
}

fn chan(buffer: &AudioBuffer, c: usize) -> Vec<f64> {
    buffer.channels[c].iter().map(|b| f64::from_bits(*b)).collect()
}

fn args(pairs: &[(&str, f64)]) -> Arguments {
    let mut a = Arguments::new();
    for (k, v) in pairs {
        a.set(k.to_string(), v.to_bits());
    }
    a
}

/// The band-pass pass must agree bit for bit with the same cookbook
/// formulas and Direct Form I recurrence evaluated here directly.
#[test]
fn bandpass_matches_direct_computation() {
    let input = vec![1.0, 0.5, -0.25, 0.0, 0.125, -0.5, 0.75, 0.0];
    let mut b = buf(44100, vec![input.clone()]);
    let fs = 44100.0f64;
    let f0 = 1000.0f64;
    let q = 0.7f64;
    let a = args(&[("freq", f0), ("q", q)]);
    BandPassEQ.apply_effect(&mut b, &a, &None).unwrap();

    let w0 = 2.0 * std::f64::consts::PI * (f0 / fs);
    let sinw0 = w0.sin();
    let cosw0 = w0.cos();
    let alpha = sinw0 / (2.0 * q);
    let (b0, b1, b2) = (alpha, 0.0, -alpha);
    let (a0, a1, a2) = (1.0 + alpha, -2.0 * cosw0, 1.0 - alpha);

    let mut x1 = 0.0f64;
    let mut x2 = 0.0f64;
    let mut y1 = 0.0f64;
    let mut y2 = 0.0f64;
    let mut expected = Vec::new();
    for x0 in &input {
        let y0 = (b0 / a0) * x0 + (b1 / a0) * x1 + (b2 / a0) * x2 - (a1 / a0) * y1
            - (a2 / a0) * y2;
        expected.push(y0);
        x2 = x1;
        x1 = *x0;
        y2 = y1;
        y1 = y0;
    }

    assert_eq!(chan(&b, 0), expected);
}

#[test]
fn shelves_validate_slope_range() {
    let bad = args(&[("db", 3.0), ("freq", 440.0), ("s", 1.5)]);
    let good = args(&[("db", 3.0), ("freq", 440.0), ("s", 0.5)]);
    assert!(matches!(
        HShelfEQ.validate_arguments(&bad, &None),
        Err(ValidationError::OutOfRange { .. })
    ));
    assert!(matches!(HShelfEQ.validate_arguments(&good, &None), Ok(None)));
    assert!(matches!(
        LShelfEQ.validate_arguments(&bad, &None),
        Err(ValidationError::OutOfRange { .. })
    ));
    assert!(matches!(LShelfEQ.validate_arguments(&good, &None), Ok(None)));
}

/// A low shelf with a strong boost must leave a DC signal louder, and
/// the high shelf must leave it nearly alone.
#[test]
fn shelves_act_on_dc() {
    let input = vec![0.1; 256];
    let a = args(&[("db", 12.0), ("freq", 2000.0), ("s", 0.5)]);

    let mut low = buf(44100, vec![input.clone()]);
    LShelfEQ.apply_effect(&mut low, &a, &None).unwrap();
    let tail = chan(&low, 0)[255];
    assert!(tail > 0.3, "low shelf left DC at {}", tail);

    let mut high = buf(44100, vec![input]);
    HShelfEQ.apply_effect(&mut high, &a, &None).unwrap();
    let tail = chan(&high, 0)[255];
    assert!((tail - 0.1).abs() < 0.01, "high shelf moved DC to {}", tail);
}

#[test]
fn eq_names_are_stable() {
    assert_eq!(HShelfEQ.get_name(), "hshelfeq");
    assert_eq!(LShelfEQ.get_name(), "lshelfeq");
    assert_eq!(BandPassEQ.get_name(), "bandpasseq");
}
