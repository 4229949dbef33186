use fxchain::args::{arg_exists, verify_min, verify_range, Arguments};
use fxchain::buffer::{AudioBuffer, AudioFormat, SampleEncoding};
use fxchain::eq::PeakingEQ;
use fxchain::errors::{Diagnostic, ValidationError};
use fxchain::gain::Gain;
use fxchain::normalize::Normalize;
use fxchain::softclip::Softclip;

fn buf(rate: u32, chans: Vec<Vec<f64>>) -> AudioBuffer {
    AudioBuffer {
        format: AudioFormat {
            sample_rate: rate,
            bits_per_sample: 16,
            encoding: SampleEncoding::Float,
            channel_count: chans.len() as u16,
        },
        channels: chans
            .iter()
            .map(|c| c.iter().map(|s| s.to_bits()).collect())
            .collect(),
    }
}

fn chan(buffer: &AudioBuffer, c: usize) -> Vec<f64> {
    buffer.channels[c].iter().map(|b| f64::from_bits(*b)).collect()
}

fn args(pairs: &[(&str, f64)]) -> Arguments {
    let mut a = Arguments::new();
    for (k, v) in pairs {
        a.set(k.to_string(), v.to_bits());
    }
    a
}

fn close(a: f64, b: f64) -> bool {
    if b == 0.0 {
        a.abs() < 1e-9
    } else {
        ((a - b) / b).abs() < 1e-9
    }
}

#[test]
fn validators_report_names_and_bounds() {
    let a = args(&[("db", 3.0)]);
    assert_eq!(arg_exists(&"db".to_string(), &a).unwrap(), 3.0f64.to_bits());
    match arg_exists(&"freq".to_string(), &a) {
        Err(ValidationError::MissingArgument { name }) => {
            assert_eq!(name, "freq");
        },
        other => panic!("unexpected: {:?}", other),
    }
    let msg = ValidationError::MissingArgument { name: "freq".to_string() }.message();
    assert_eq!(msg, "Missing argument 'freq'");

    let a = args(&[("q", 0.0)]);
    match verify_min(&"q".to_string(), 0.0f64.to_bits(), &a) {
        Err(ValidationError::OutOfRange { name, low, high }) => {
            assert_eq!(name, "q");
            assert_eq!(low, 0.0f64.to_bits());
            assert_eq!(high, None);
        },
        other => panic!("unexpected: {:?}", other),
    }

    let a = args(&[("freq", 20000.0)]);
    match verify_range(
        &"freq".to_string(),
        1.0f64.to_bits(),
        20000.0f64.to_bits(),
        &a,
    ) {
        Err(ValidationError::OutOfRange { name, low, high }) => {
            assert_eq!(name, "freq");
            assert_eq!(low, 1.0f64.to_bits());
            assert_eq!(high, Some(20000.0f64.to_bits()));
        },
        other => panic!("unexpected: {:?}", other),
    }

    let a = args(&[("freq", 440.0)]);
    assert_eq!(
        verify_range(&"freq".to_string(), 1.0f64.to_bits(), 20000.0f64.to_bits(), &a).unwrap(),
        440.0f64.to_bits()
    );

    // the rendered messages name the argument and the violated bounds
    let e = ValidationError::OutOfRange {
        name: "freq".to_string(),
        low: 1.0f64.to_bits(),
        high: Some(20000.0f64.to_bits()),
    };
    assert_eq!(e.message(), "Argument 'freq' must be in range (1.0, 20000.0)");
    let e = ValidationError::OutOfRange {
        name: "q".to_string(),
        low: 0.0f64.to_bits(),
        high: None,
    };
    assert_eq!(e.message(), "Argument 'q' must be greater than 0.0");
}

#[test]
fn gain_scales_by_db_factor() {
    let mut b = buf(44100, vec![vec![0.1, -0.25, 0.0]]);
    let a = args(&[("db", 20.0)]);
    let r = Gain.apply_effect(&mut b, &a, &None);
    assert!(matches!(r, Ok(None)));
    let out = chan(&b, 0);
    assert!(close(out[0], 1.0));
    assert!(close(out[1], -2.5));
    assert_eq!(out[2], 0.0);
}

#[test]
fn gain_requires_db() {
    let b = args(&[("wet", 1.0)]);
    assert!(matches!(
        Gain.validate_arguments(&b, &None),
        Err(ValidationError::MissingArgument { .. })
    ));
    assert!(matches!(Gain.validate_arguments(&args(&[("db", -6.0)]), &None), Ok(None)));
}

#[test]
fn gain_composition_matches_summed_db() {
    let samples = vec![0.3, -0.7, 0.011, 0.999, -0.004];
    let mut two_steps = buf(44100, vec![samples.clone()]);
    Gain.apply_effect(&mut two_steps, &args(&[("db", 3.7)]), &None).unwrap();
    Gain.apply_effect(&mut two_steps, &args(&[("db", -9.2)]), &None).unwrap();
    let mut one_step = buf(44100, vec![samples]);
    Gain.apply_effect(&mut one_step, &args(&[("db", 3.7 + -9.2)]), &None).unwrap();
    let a = chan(&two_steps, 0);
    let b = chan(&one_step, 0);
    for i in 0..a.len() {
        assert!(close(a[i], b[i]), "{} vs {}", a[i], b[i]);
    }
}

#[test]
fn softclip_stays_inside_unit_range() {
    let mut b = buf(44100, vec![vec![0.9, -0.99, 0.5, -0.1], vec![1.0, -1.0, 0.7, 0.0]]);
    let r = Softclip.apply_effect(&mut b, &args(&[("db", 12.0)]), &None);
    assert!(matches!(r, Ok(None)));
    for c in 0..2 {
        for s in chan(&b, c) {
            assert!(-1.0 < s && s < 1.0, "sample {} escaped the unit range", s);
        }
    }
    // under a drive hard enough that tanh rounds to 1.0 the output
    // still never leaves [-1.0, 1.0]
    let mut b = buf(44100, vec![vec![1.0, -1.0, 0.5]]);
    Softclip.apply_effect(&mut b, &args(&[("db", 40.0)]), &None).unwrap();
    for s in chan(&b, 0) {
        assert!((-1.0..=1.0).contains(&s), "sample {} escaped the unit range", s);
    }
}

#[test]
fn softclip_is_driven_tanh() {
    let mut b = buf(44100, vec![vec![0.5]]);
    Softclip.apply_effect(&mut b, &args(&[("db", 0.0)]), &None).unwrap();
    assert_eq!(chan(&b, 0)[0], 0.5f64.tanh());
}

#[test]
fn normalize_reaches_full_scale() {
    let mut b = buf(44100, vec![vec![0.5, -0.25], vec![0.1, 0.0]]);
    let r = Normalize.apply_effect(&mut b, &Arguments::new(), &None);
    assert!(matches!(r, Ok(None)));
    assert_eq!(chan(&b, 0), vec![1.0, -0.5]);
    assert_eq!(chan(&b, 1), vec![0.2, 0.0]);
}

#[test]
fn normalize_caps_peak_at_unity() {
    let mut b = buf(44100, vec![vec![2.0, -4.0, 1.0]]);
    let r = Normalize.apply_effect(&mut b, &Arguments::new(), &None);
    match r {
        Ok(Some(Diagnostic::Headroom { peak })) => {
            assert_eq!(f64::from_bits(peak), 4.0);
        },
        other => panic!("unexpected: {:?}", other),
    }
    let out = chan(&b, 0);
    assert!(out.iter().all(|s| s.abs() <= 1.0));
    assert_eq!(out, vec![0.5, -1.0, 0.25]);
}

#[test]
fn normalize_leaves_silence_alone() {
    let mut b = buf(44100, vec![vec![0.0, -0.0], vec![0.0]]);
    let r = Normalize.apply_effect(&mut b, &Arguments::new(), &None);
    match r {
        Ok(Some(d)) => {
            assert!(matches!(d, Diagnostic::ZeroAmplitude));
            assert_eq!(d.message(), "audio buffer only has 0 amplitude samples");
        },
        other => panic!("unexpected: {:?}", other),
    }
    assert_eq!(chan(&b, 0), vec![0.0, -0.0]);
    assert_eq!(chan(&b, 1), vec![0.0]);
}

#[test]
fn normalize_headroom_message_reports_db() {
    let d = Diagnostic::Headroom { peak: 2.0f64.to_bits() };
    assert_eq!(d.message(), "peak was +6.0 dB");
}

#[test]
fn peaking_eq_at_zero_db_is_identity() {
    let mut samples = vec![0.0; 64];
    samples[0] = 1.0;
    samples[17] = -0.6;
    samples[40] = 0.25;
    let mut b = buf(44100, vec![samples.clone()]);
    let a = args(&[("db", 0.0), ("freq", 1000.0), ("bw", 1.0)]);
    assert!(matches!(PeakingEQ.validate_arguments(&a, &None), Ok(None)));
    let r = PeakingEQ.apply_effect(&mut b, &a, &None);
    assert!(matches!(r, Ok(None)));
    let out = chan(&b, 0);
    for i in 0..samples.len() {
        assert!(
            (out[i] - samples[i]).abs() < 1e-9,
            "index {}: {} vs {}",
            i,
            out[i],
            samples[i]
        );
    }
}

#[test]
fn peaking_eq_validates_ranges() {
    let a = args(&[("db", 3.0), ("freq", 25000.0), ("bw", 1.0)]);
    assert!(matches!(
        PeakingEQ.validate_arguments(&a, &None),
        Err(ValidationError::OutOfRange { .. })
    ));
    let a = args(&[("db", 3.0), ("freq", 440.0), ("bw", 0.0)]);
    assert!(matches!(
        PeakingEQ.validate_arguments(&a, &None),
        Err(ValidationError::OutOfRange { .. })
    ));
    let a = args(&[("db", 3.0), ("freq", 440.0), ("bw", 1.0)]);
    assert!(matches!(PeakingEQ.validate_arguments(&a, &None), Ok(None)));
}

#[test]
fn effect_names_are_stable() {
    assert_eq!(Gain.get_name(), "gain");
    assert_eq!(Softclip.get_name(), "softclip");
    assert_eq!(Normalize.get_name(), "normalize");
    assert_eq!(PeakingEQ.get_name(), "peakingeq");
}
