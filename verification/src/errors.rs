//! Errors and diagnostics of the effect engine.
//!
//! Validation and sanitizing failures are recoverable errors; non-fatal
//! conditions travel as `Diagnostic` values beside the result. Each
//! carries the data a caller needs and renders a user-facing line with
//! `message`.

use vstd::prelude::*;
use vstd::string::StringExecFns;
use crate::arith::{fixed1_of, sample_fixed1, sample_log10, sample_mul};
use crate::sample::TWENTY_BITS;

verus! {

/// A buffer the sanitizer refuses to repair.
#[derive(Clone, Copy, Debug, PartialEq, Eq, Structural)]
pub enum SanitizeError {
    /// Some sample is NaN or infinite.
    InvalidSample,
    /// Every channel is empty.
    EmptyAudio,
}

impl SanitizeError {
    /// The user-facing description of the failure.
    pub fn message(&self) -> (r: String)
        ensures
            *self == SanitizeError::InvalidSample ==> r@ == (
            "Sample values became invalid (NaN or infinity), cannot process further")@,
            *self == SanitizeError::EmptyAudio ==> r@ == (
            "Audio became zero-length, cannot process further")@,
    {
        match self {
            SanitizeError::InvalidSample => (
            "Sample values became invalid (NaN or infinity), cannot process further").to_owned(),
            SanitizeError::EmptyAudio => (
            "Audio became zero-length, cannot process further").to_owned(),
        }
    }
}

/// An argument set an effect refuses before touching the buffer.
#[derive(Debug)]
pub enum ValidationError {
    /// A required argument is absent; carries the argument's name.
    MissingArgument { name: String },
    /// An argument lies outside its open interval; carries the name and
    /// the violated bounds as bit patterns (no upper bound when `high`
    /// is `None`).
    OutOfRange { name: String, low: u64, high: Option<u64> },
    /// A feedback gain of 1 or more was given without a tail length.
    MissingTailLength,
}

/// Whether a validation error reports the named argument as missing.
pub open spec fn names_missing(e: ValidationError, name: Seq<char>) -> bool {
    e matches ValidationError::MissingArgument { name: n } && n@ == name
}

/// Whether a validation error reports the named argument outside the
/// given bounds.
pub open spec fn names_range(e: ValidationError, name: Seq<char>, low: u64, high: Option<
    u64,
>) -> bool {
    e matches ValidationError::OutOfRange { name: n, low: l, high: h } && n@ == name && l == low
        && h == high
}

impl ValidationError {
    /// The user-facing description of the failure; it names the
    /// offending argument and, for a range failure, the violated
    /// bounds.
    pub fn message(&self) -> (r: String)
        ensures
            forall|n: String| *self == (ValidationError::MissingArgument { name: n })
                ==> r@ == "Missing argument '"@ + n@ + "'"@,
            forall|n: String, l: u64|
                *self == (ValidationError::OutOfRange { name: n, low: l, high: None })
                ==> r@ == "Argument '"@ + n@ + "' must be greater than "@ + fixed1_of(l),
            forall|n: String, l: u64, hv: u64|
                *self == (ValidationError::OutOfRange { name: n, low: l, high: Some(hv) })
                ==> r@ == "Argument '"@ + n@ + "' must be in range ("@ + fixed1_of(l) + ", "@
                    + fixed1_of(hv) + ")"@,
            *self == ValidationError::MissingTailLength ==> r@ == (
            "Tail length (--tail, -t) is required for feedback >= 1 to avoid infinite feedback cycles")@,
    {
        match self {
            ValidationError::MissingArgument { name } => {
                let mut r = "Missing argument '".to_owned();
                r.append(name.as_str());
                r.append("'");
                r
            },
            ValidationError::OutOfRange { name, low, high: None } => {
                let mut r = "Argument '".to_owned();
                r.append(name.as_str());
                r.append("' must be greater than ");
                r.append(sample_fixed1(*low).as_str());
                r
            },
            ValidationError::OutOfRange { name, low, high: Some(hv) } => {
                let mut r = "Argument '".to_owned();
                r.append(name.as_str());
                r.append("' must be in range (");
                r.append(sample_fixed1(*low).as_str());
                r.append(", ");
                r.append(sample_fixed1(*hv).as_str());
                r.append(")");
                r
            },
            ValidationError::MissingTailLength => (
            "Tail length (--tail, -t) is required for feedback >= 1 to avoid infinite feedback cycles").to_owned(),
        }
    }
}

/// A failure while an effect runs.
#[derive(Clone, Copy, Debug, PartialEq, Eq, Structural)]
pub enum ApplyError {
    /// The delay time rounds to zero samples at this sample rate, so no
    /// delay line can be built.
    ZeroDelayLine,
}

impl ApplyError {
    /// The user-facing description of the failure.
    pub fn message(&self) -> (r: String)
        ensures
            r@ == "Delay line would hold zero samples at this sample rate"@,
    {
        "Delay line would hold zero samples at this sample rate".to_owned()
    }
}

/// A non-fatal condition reported beside a successful result.
#[derive(Clone, Copy, Debug)]
pub enum Diagnostic {
    /// Every sample was exactly zero, so normalizing changed nothing.
    ZeroAmplitude,
    /// Normalizing removed headroom; carries the peak's bit pattern.
    Headroom { peak: u64 },
    /// The automatic delay tail hit its hard cap before decaying away.
    MaxTailReached,
    /// A feedback gain close to 1 was given without a tail length.
    HighFeedback,
}

impl Diagnostic {
    /// The user-facing line for this condition. A removed-headroom
    /// report states the peak as `20 * log10(peak)` decibels; since
    /// `log10`'s value is not pinned by the trusted layer, the
    /// contract states the line's shape around it.
    pub fn message(&self) -> (r: String)
        ensures
            *self == Diagnostic::ZeroAmplitude ==> r@ == (
            "audio buffer only has 0 amplitude samples")@,
            *self == Diagnostic::MaxTailReached ==> r@ == "maximum tail length reached!"@,
            self matches Diagnostic::Headroom { peak } ==> (exists|db: u64|
                r@ == "peak was +"@ + fixed1_of(db) + " dB"@),
            *self == Diagnostic::HighFeedback ==> r@ == (
            "feedback approaches 1 with no tail length, expect a very long tail")@,
    {
        match self {
            Diagnostic::ZeroAmplitude => "audio buffer only has 0 amplitude samples".to_owned(),
            Diagnostic::MaxTailReached => "maximum tail length reached!".to_owned(),
            Diagnostic::Headroom { peak } => {
                let db = sample_mul(TWENTY_BITS, sample_log10(*peak));
                let mut r = "peak was +".to_owned();
                r.append(sample_fixed1(db).as_str());
                r.append(" dB");
                proof {
                    assert(r@ == "peak was +"@ + fixed1_of(db) + " dB"@);
                }
                r
            },
            Diagnostic::HighFeedback => (
            "feedback approaches 1 with no tail length, expect a very long tail").to_owned(),
        }
    }
}

} // verus!
