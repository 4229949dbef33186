use fxchain::args::Arguments;
use fxchain::buffer::{AudioBuffer, AudioFormat, SampleEncoding};
use fxchain::chain::{run_chain, ChainError, EffectSpec};
use fxchain::delay::Delay;
use fxchain::errors::{ApplyError, Diagnostic, ValidationError};

fn buf(rate: u32, chans: Vec<Vec<f64>>) -> AudioBuffer {
    AudioBuffer {
        format: AudioFormat {
            sample_rate: rate,
            bits_per_sample: 16,
            encoding: SampleEncoding::Float,
            channel_count: chans.len() as u16,
        },
        channels: chans
            .iter()
            .map(|c| c.iter().map(|s| s.to_bits()).collect())
            .collect(),
    }
}

fn chan(buffer: &AudioBuffer, c: usize) -> Vec<f64> {
    buffer.channels[c].iter().map(|b| f64::from_bits(*b)).collect()
}

fn args(pairs: &[(&str, f64)]) -> Arguments {
    let mut a = Arguments::new();
    for (k, v) in pairs {
        a.set(k.to_string(), v.to_bits());
    }
    a
}

fn delay_args(mix: f64, feedback: f64, time: f64) -> Arguments {
    args(&[("mix", mix), ("feedback", feedback), ("time", time)])
}

#[test]
fn delay_fixed_tail_extends_exactly() {
    let mut b = buf(44100, vec![vec![0.0; 1000], vec![0.0; 1000]]);
    b.channels[0][0] = 1.0f64.to_bits();
    b.channels[1][0] = 1.0f64.to_bits();
    let a = delay_args(0.5, 0.5, 10.0);
    let tail = Some(1.0f64.to_bits());
    assert!(matches!(Delay.validate_arguments(&a, &tail), Ok(None)));
    let r = Delay.apply_effect(&mut b, &a, &tail);
    assert!(matches!(r, Ok(None)));
    assert_eq!(b.channels[0].len(), 1000 + 44100);
    assert_eq!(b.channels[1].len(), 1000 + 44100);
}

#[test]
fn delay_echoes_after_line_length() {
    // time = 10 ms at 44100 Hz gives a 441-sample line; an impulse at 0
    // must echo at 441 with the mix weight.
    let mut b = buf(44100, vec![vec![0.0; 1000]]);
    b.channels[0][0] = 1.0f64.to_bits();
    let a = delay_args(0.5, 0.25, 10.0);
    Delay.apply_effect(&mut b, &a, &Some(0.0f64.to_bits())).unwrap();
    let out = chan(&b, 0);
    assert_eq!(out[0], 1.0);
    assert_eq!(out[441], 0.5); // first echo: 1.0 * mix
    assert_eq!(out[882], 0.125); // second echo: 1.0 * feedback * mix
    assert_eq!(out[1], 0.0);
}

#[test]
fn delay_feedback_of_one_requires_tail() {
    let a = delay_args(0.5, 1.0, 10.0);
    match Delay.validate_arguments(&a, &None) {
        Err(ValidationError::MissingTailLength) => {},
        other => panic!("unexpected: {:?}", other),
    }
    let msg = ValidationError::MissingTailLength.message();
    assert!(msg.contains("Tail length"));
    // with a tail length the same arguments pass
    assert!(matches!(
        Delay.validate_arguments(&a, &Some(1.0f64.to_bits())),
        Ok(None)
    ));
}

#[test]
fn delay_high_feedback_warns() {
    let a = delay_args(0.5, 0.95, 10.0);
    match Delay.validate_arguments(&a, &None) {
        Ok(Some(d)) => {
            assert!(matches!(d, Diagnostic::HighFeedback));
        },
        other => panic!("unexpected: {:?}", other),
    }
    // a tame feedback draws no warning
    assert!(matches!(
        Delay.validate_arguments(&delay_args(0.5, 0.5, 10.0), &None),
        Ok(None)
    ));
}

#[test]
fn delay_validates_ranges() {
    assert!(matches!(
        Delay.validate_arguments(&delay_args(0.0, 0.5, 10.0), &None),
        Err(ValidationError::OutOfRange { .. })
    ));
    assert!(matches!(
        Delay.validate_arguments(&delay_args(0.5, 0.5, 1.0), &None),
        Err(ValidationError::OutOfRange { .. })
    ));
    assert!(matches!(
        Delay.validate_arguments(&args(&[("mix", 0.5), ("time", 10.0)]), &None),
        Err(ValidationError::MissingArgument { .. })
    ));
}

#[test]
fn delay_refuses_zero_length_line() {
    // 2 ms at 100 Hz rounds to a line of zero samples
    let mut b = buf(100, vec![vec![0.5; 10]]);
    let a = delay_args(0.5, 0.5, 2.0);
    match Delay.apply_effect(&mut b, &a, &Some(1.0f64.to_bits())) {
        Err(ApplyError::ZeroDelayLine) => {},
        other => panic!("unexpected: {:?}", other),
    }
    assert_eq!(chan(&b, 0), vec![0.5; 10]);
}

#[test]
fn delay_auto_tail_decays_to_silence() {
    let mut b = buf(8000, vec![vec![0.0; 100]]);
    b.channels[0][0] = 1.0f64.to_bits();
    let a = delay_args(0.5, 0.5, 10.0);
    let r = Delay.apply_effect(&mut b, &a, &None);
    assert!(matches!(r, Ok(None)));
    let out = chan(&b, 0);
    assert!(out.len() > 100, "the automatic tail added nothing");
    assert!(out.iter().all(|s| s.is_finite()));
}

#[test]
fn chain_runs_effects_in_order() {
    // gain(-6 dB) then normalize restores a unit impulse exactly
    let mut impulse = vec![0.0; 1000];
    impulse[0] = 1.0;
    let mut b = buf(44100, vec![impulse.clone(), impulse]);
    let chain = vec![
        EffectSpec {
            name: "gain".to_string(),
            arguments: args(&[("db", -6.0)]),
            tail_length: None,
        },
        EffectSpec {
            name: "normalize".to_string(),
            arguments: Arguments::new(),
            tail_length: None,
        },
    ];
    let diags = run_chain(&mut b, &chain).unwrap();
    assert!(diags.is_empty());
    for c in 0..2 {
        let out = chan(&b, c);
        assert_eq!(out[0], 1.0);
        assert!(out[1..].iter().all(|s| *s == 0.0));
    }
}

#[test]
fn chain_rejects_unknown_effect() {
    let mut b = buf(44100, vec![vec![0.5]]);
    let chain = vec![EffectSpec {
        name: "flanger".to_string(),
        arguments: Arguments::new(),
        tail_length: None,
    }];
    match run_chain(&mut b, &chain) {
        Err(ChainError::UnknownEffect { name }) => assert_eq!(name, "flanger"),
        other => panic!("unexpected: {:?}", other),
    }
}

#[test]
fn chain_stops_on_validation_error() {
    let mut b = buf(44100, vec![vec![0.5, 0.25]]);
    let chain = vec![
        EffectSpec {
            name: "gain".to_string(),
            arguments: Arguments::new(),
            tail_length: None,
        },
        EffectSpec {
            name: "normalize".to_string(),
            arguments: Arguments::new(),
            tail_length: None,
        },
    ];
    match run_chain(&mut b, &chain) {
        Err(ChainError::Validation(ValidationError::MissingArgument { name })) => {
            assert_eq!(name, "db");
        },
        other => panic!("unexpected: {:?}", other),
    }
    // the failing chain never touched the buffer
    assert_eq!(chan(&b, 0), vec![0.5, 0.25]);
}

#[test]
fn chain_collects_diagnostics() {
    let mut b = buf(44100, vec![vec![2.0, -0.5]]);
    let chain = vec![EffectSpec {
        name: "normalize".to_string(),
        arguments: Arguments::new(),
        tail_length: None,
    }];
    let diags = run_chain(&mut b, &chain).unwrap();
    assert_eq!(diags.len(), 1);
    assert!(matches!(diags[0], Diagnostic::Headroom { .. }));
    assert_eq!(chan(&b, 0), vec![1.0, -0.25]);
}

#[test]
fn chain_pads_between_effects() {
    // delay's automatic tail may leave channels at differing lengths;
    // the sanitizer that follows re-equalizes them.
    let mut left = vec![0.0; 50];
    left[0] = 0.9;
    let right = vec![0.0; 50];
    let mut b = buf(8000, vec![left, right]);
    let chain = vec![EffectSpec {
        name: "delay".to_string(),
        arguments: delay_args(0.5, 0.5, 10.0),
        tail_length: None,
    }];
    run_chain(&mut b, &chain).unwrap();
    assert_eq!(b.channels[0].len(), b.channels[1].len());
    assert!(b.channels[0].len() >= 50);
}
