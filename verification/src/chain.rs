//! The effect chain runner.
//!
//! A chain is an ordered list of effect invocations. For each entry the
//! runner resolves the effect by its lowercase name over the closed
//! effect set, validates the arguments, applies the effect to the
//! buffer in place, runs the sanitizer, and collects the diagnostics;
//! the first error aborts the chain.

use vstd::prelude::*;
use crate::args::Arguments;
use crate::buffer::{all_samples_ok, max_chan_len, same_shape, sanitize_buffer, AudioBuffer};
use crate::delay::{
    delay_args_valid, delay_line_count, fixed_tail_count, tail_clamped, Delay, POINT_NINE_BITS,
};
use crate::eq::{freq_valid, BandPassEQ, HShelfEQ, LShelfEQ, PeakingEQ, SLOPE_MIN_BITS};
use crate::errors::{ApplyError, Diagnostic, SanitizeError, ValidationError};
use crate::gain::{scaled_eqv, Gain};
use crate::normalize::{buffer_peak, normalized_eqv, Normalize};
use crate::sample::{ge_bits, gt_bits, le_bits, ONE_BITS, ZERO_BITS};
use crate::softclip::Softclip;

verus! {

broadcast use vstd::string::group_string_axioms;

/// One chain entry: which effect to run, with which arguments, and an
/// optional bound on how far it may extend the buffer, in seconds.
pub struct EffectSpec {
    /// Lowercase identifier of the effect.
    pub name: String,
    /// The effect's argument mapping.
    pub arguments: Arguments,
    /// Optional tail-length override, as a binary64 bit pattern.
    pub tail_length: Option<u64>,
}

/// What stops a chain: an unknown effect name, a refused argument set,
/// a failed application, or a buffer the sanitizer refuses.
#[derive(Debug)]
pub enum ChainError {
    UnknownEffect { name: String },
    Validation(ValidationError),
    Apply(ApplyError),
    Sanitize(SanitizeError),
}

/// The names the runner resolves.
pub open spec fn is_known_effect(name: Seq<char>) -> bool {
    ||| name == "gain"@
    ||| name == "softclip"@
    ||| name == "normalize"@
    ||| name == "delay"@
    ||| name == "peakingeq"@
    ||| name == "hshelfeq"@
    ||| name == "lshelfeq"@
    ||| name == "bandpasseq"@
}

/// Whether the named effect accepts the invocation: the name is known,
/// validation passes, and the application cannot fail.
pub open spec fn effect_accepts(
    name: Seq<char>,
    args: Map<Seq<char>, u64>,
    tail: Option<u64>,
    rate: u32,
) -> bool {
    if name == "gain"@ {
        args.contains_key("db"@)
    } else if name == "softclip"@ {
        args.contains_key("db"@)
    } else if name == "normalize"@ {
        true
    } else if name == "delay"@ {
        &&& delay_args_valid(args)
        &&& !(ge_bits(args["feedback"@], ONE_BITS) && tail is None)
        &&& delay_line_count(args["time"@], rate) != 0
    } else if name == "peakingeq"@ {
        args.contains_key("db"@) && freq_valid(args) && args.contains_key("bw"@) && !le_bits(
            args["bw"@],
            ZERO_BITS,
        )
    } else if name == "hshelfeq"@ || name == "lshelfeq"@ {
        args.contains_key("db"@) && freq_valid(args) && args.contains_key("s"@) && !le_bits(
            args["s"@],
            SLOPE_MIN_BITS,
        ) && !ge_bits(args["s"@], ONE_BITS)
    } else if name == "bandpasseq"@ {
        freq_valid(args) && args.contains_key("q"@) && !le_bits(args["q"@], ZERO_BITS)
    } else {
        false
    }
}

/// The diagnostics a normalize pass reports for the given input.
pub open spec fn normalize_diags(chs: Seq<Seq<u64>>) -> Seq<Diagnostic> {
    if buffer_peak(chs) == ZERO_BITS {
        seq![Diagnostic::ZeroAmplitude]
    } else if gt_bits(buffer_peak(chs), ONE_BITS) {
        seq![Diagnostic::Headroom { peak: buffer_peak(chs) }]
    } else {
        Seq::empty()
    }
}

/// The delay's validation warning for the given invocation.
pub open spec fn delay_warn(args: Map<Seq<char>, u64>, tail: Option<u64>) -> Seq<Diagnostic> {
    if gt_bits(args["feedback"@], POINT_NINE_BITS) && tail is None {
        seq![Diagnostic::HighFeedback]
    } else {
        Seq::empty()
    }
}

/// The eight effect names are pairwise distinct: their lengths and
/// first characters tell them apart.
proof fn lemma_effect_names_distinct()
    ensures
        "gain"@ != "softclip"@ && "gain"@ != "normalize"@ && "gain"@ != "delay"@ && "gain"@
            != "peakingeq"@ && "gain"@ != "hshelfeq"@ && "gain"@ != "lshelfeq"@ && "gain"@
            != "bandpasseq"@,
        "softclip"@ != "normalize"@ && "softclip"@ != "delay"@ && "softclip"@ != "peakingeq"@
            && "softclip"@ != "hshelfeq"@ && "softclip"@ != "lshelfeq"@ && "softclip"@
            != "bandpasseq"@,
        "normalize"@ != "delay"@ && "normalize"@ != "peakingeq"@ && "normalize"@ != "hshelfeq"@
            && "normalize"@ != "lshelfeq"@ && "normalize"@ != "bandpasseq"@,
        "delay"@ != "peakingeq"@ && "delay"@ != "hshelfeq"@ && "delay"@ != "lshelfeq"@ && "delay"@
            != "bandpasseq"@,
        "peakingeq"@ != "hshelfeq"@ && "peakingeq"@ != "lshelfeq"@ && "peakingeq"@
            != "bandpasseq"@,
        "hshelfeq"@ != "lshelfeq"@ && "hshelfeq"@ != "bandpasseq"@,
        "lshelfeq"@ != "bandpasseq"@,
{
    reveal_strlit("gain");
    reveal_strlit("softclip");
    reveal_strlit("normalize");
    reveal_strlit("delay");
    reveal_strlit("peakingeq");
    reveal_strlit("hshelfeq");
    reveal_strlit("lshelfeq");
    reveal_strlit("bandpasseq");
    assert("gain"@.len() == 4);
    assert("softclip"@.len() == 8);
    assert("normalize"@.len() == 9);
    assert("delay"@.len() == 5);
    assert("peakingeq"@.len() == 9);
    assert("hshelfeq"@.len() == 8);
    assert("lshelfeq"@.len() == 8);
    assert("bandpasseq"@.len() == 10);
    assert("softclip"@[0] == 's');
    assert("hshelfeq"@[0] == 'h');
    assert("lshelfeq"@[0] == 'l');
    assert("normalize"@[0] == 'n');
    assert("peakingeq"@[0] == 'p');
}

/// Resolves the named effect, validates the invocation and applies it
/// to the buffer, returning the diagnostics that arose. Acceptance is
/// pinned exactly; each effect's determined outcome (gain's uniform
/// factor, normalize's quotients and diagnostics, the delay's lengths
/// and diagnostics, the filters' shape) is stated per name.
pub fn run_effect(name: &String, buffer: &mut AudioBuffer, arguments: &Arguments, tail_length:
    &Option<u64>) -> (r: Result<Vec<Diagnostic>, ChainError>)
    requires
        arguments.wf(),
    ensures
        final(buffer).format == old(buffer).format,
        r is Ok <==> effect_accepts(
            name@,
            arguments@,
            *tail_length,
            old(buffer).format.sample_rate,
        ),
        r is Err ==> final(buffer).samples() == old(buffer).samples(),
        !is_known_effect(name@) ==> (r matches Err(e) && e matches ChainError::UnknownEffect {
            name: n } && n@ == name@),
        name@ == "gain"@ ==> (r matches Ok(d) ==> d@ == Seq::<Diagnostic>::empty() && (
        exists|factor: u64|
            scaled_eqv(old(buffer).samples(), final(buffer).samples(), factor))),
        name@ == "softclip"@ ==> (r matches Ok(d) ==> d@ == Seq::<Diagnostic>::empty()
            && same_shape(old(buffer).samples(), final(buffer).samples())),
        name@ == "normalize"@ ==> (r matches Ok(d) ==> d@ == normalize_diags(
            old(buffer).samples(),
        ) && (if buffer_peak(old(buffer).samples()) == ZERO_BITS {
            final(buffer).samples() == old(buffer).samples()
        } else {
            normalized_eqv(
                old(buffer).samples(),
                final(buffer).samples(),
                buffer_peak(old(buffer).samples()),
            )
        })),
        name@ == "delay"@ ==> (r matches Ok(d) ==> final(buffer).samples().len() == old(
            buffer,
        ).samples().len() && (d@ == delay_warn(arguments@, *tail_length) || d@ == delay_warn(
            arguments@,
            *tail_length,
        ).push(Diagnostic::MaxTailReached)) && (forall|c: int|
            0 <= c < old(buffer).samples().len() ==> tail_clamped(
                #[trigger] final(buffer).samples()[c],
                old(buffer).samples()[c].len() as int,
            )) && (*tail_length matches Some(t) ==> forall|c: int|
            0 <= c < old(buffer).samples().len() ==> (#[trigger] final(buffer).samples()[c]).len() == old(buffer).samples()[c].len() + fixed_tail_count(
                t,
                old(buffer).format.sample_rate,
            ))),
        (name@ == "peakingeq"@ || name@ == "hshelfeq"@ || name@ == "lshelfeq"@ || name@
            == "bandpasseq"@) ==> (r matches Ok(d) ==> d@ == Seq::<Diagnostic>::empty()
            && same_shape(old(buffer).samples(), final(buffer).samples())),
{
    proof {
        lemma_effect_names_distinct();
    }
    let mut diags: Vec<Diagnostic> = Vec::new();
    if *name == Gain.get_name() {
        match Gain.validate_arguments(arguments, tail_length) {
            Err(e) => Err(ChainError::Validation(e)),
            Ok(_) => match Gain.apply_effect(buffer, arguments, tail_length) {
                Err(e) => Err(ChainError::Apply(e)),
                Ok(_) => Ok(diags),
            },
        }
    } else if *name == Softclip.get_name() {
        match Softclip.validate_arguments(arguments, tail_length) {
            Err(e) => Err(ChainError::Validation(e)),
            Ok(_) => match Softclip.apply_effect(buffer, arguments, tail_length) {
                Err(e) => Err(ChainError::Apply(e)),
                Ok(_) => Ok(diags),
            },
        }
    } else if *name == Normalize.get_name() {
        match Normalize.validate_arguments(arguments, tail_length) {
            Err(e) => Err(ChainError::Validation(e)),
            Ok(_) => match Normalize.apply_effect(buffer, arguments, tail_length) {
                Err(e) => Err(ChainError::Apply(e)),
                Ok(d) => {
                    if let Some(d) = d {
                        diags.push(d);
                    }
                    Ok(diags)
                },
            },
        }
    } else if *name == Delay.get_name() {
        match Delay.validate_arguments(arguments, tail_length) {
            Err(e) => Err(ChainError::Validation(e)),
            Ok(w) => {
                if let Some(w) = w {
                    diags.push(w);
                }
                match Delay.apply_effect(buffer, arguments, tail_length) {
                    Err(e) => Err(ChainError::Apply(e)),
                    Ok(d) => {
                        if let Some(d) = d {
                            diags.push(d);
                        }
                        Ok(diags)
                    },
                }
            },
        }
    } else if *name == PeakingEQ.get_name() {
        match PeakingEQ.validate_arguments(arguments, tail_length) {
            Err(e) => Err(ChainError::Validation(e)),
            Ok(_) => match PeakingEQ.apply_effect(buffer, arguments, tail_length) {
                Err(e) => Err(ChainError::Apply(e)),
                Ok(_) => Ok(diags),
            },
        }
    } else if *name == HShelfEQ.get_name() {
        match HShelfEQ.validate_arguments(arguments, tail_length) {
            Err(e) => Err(ChainError::Validation(e)),
            Ok(_) => match HShelfEQ.apply_effect(buffer, arguments, tail_length) {
                Err(e) => Err(ChainError::Apply(e)),
                Ok(_) => Ok(diags),
            },
        }
    } else if *name == LShelfEQ.get_name() {
        match LShelfEQ.validate_arguments(arguments, tail_length) {
            Err(e) => Err(ChainError::Validation(e)),
            Ok(_) => match LShelfEQ.apply_effect(buffer, arguments, tail_length) {
                Err(e) => Err(ChainError::Apply(e)),
                Ok(_) => Ok(diags),
            },
        }
    } else if *name == BandPassEQ.get_name() {
        match BandPassEQ.validate_arguments(arguments, tail_length) {
            Err(e) => Err(ChainError::Validation(e)),
            Ok(_) => match BandPassEQ.apply_effect(buffer, arguments, tail_length) {
                Err(e) => Err(ChainError::Apply(e)),
                Ok(_) => Ok(diags),
            },
        }
    } else {
        Err(ChainError::UnknownEffect { name: name.clone() })
    }
}

/// A buffer the sanitizer has just accepted: finite samples and all
/// channels at one positive length.
pub open spec fn buffer_even(chs: Seq<Seq<u64>>) -> bool {
    &&& all_samples_ok(chs)
    &&& max_chan_len(chs) > 0
    &&& forall|c: int| 0 <= c < chs.len() ==> (#[trigger] chs[c]).len() == max_chan_len(chs)
}

/// Runs a chain of effect invocations over one buffer: for each entry
/// in order, resolve, validate, apply, then sanitize; diagnostics are
/// collected across entries and the first error aborts the run. A
/// finished chain has had every entry accepted and leaves a sanitized
/// buffer behind.
pub fn run_chain(buffer: &mut AudioBuffer, chain: &Vec<EffectSpec>) -> (r: Result<
    Vec<Diagnostic>,
    ChainError,
>)
    requires
        forall|i: int| 0 <= i < chain@.len() ==> (#[trigger] chain@[i]).arguments.wf(),
    ensures
        final(buffer).format == old(buffer).format,
        chain@.len() == 0 ==> *final(buffer) == *old(buffer) && (r matches Ok(d) && d@
            == Seq::<Diagnostic>::empty()),
        r is Ok && chain@.len() > 0 ==> buffer_even(final(buffer).samples()),
        r is Ok ==> forall|i: int|
            0 <= i < chain@.len() ==> effect_accepts(
                (#[trigger] chain@[i]).name@,
                chain@[i].arguments@,
                chain@[i].tail_length,
                old(buffer).format.sample_rate,
            ),
{
    let ghost rate = buffer.format.sample_rate;
    let mut diags: Vec<Diagnostic> = Vec::new();
    let n = chain.len();
    let mut i: usize = 0;
    while i < n
        invariant
            n == chain@.len(),
            forall|j: int| 0 <= j < n ==> (#[trigger] chain@[j]).arguments.wf(),
            0 <= i <= n,
            buffer.format == old(buffer).format,
            rate == old(buffer).format.sample_rate,
            i == 0 ==> *buffer == *old(buffer) && diags@ == Seq::<Diagnostic>::empty(),
            i > 0 ==> buffer_even(buffer.samples()),
            forall|j: int|
                0 <= j < i ==> effect_accepts(
                    (#[trigger] chain@[j]).name@,
                    chain@[j].arguments@,
                    chain@[j].tail_length,
                    rate,
                ),
        decreases n - i,
    {
        let entry = &chain[i];
        let mut step = match run_effect(&entry.name, buffer, &entry.arguments, &entry.tail_length)
        {
            Ok(d) => d,
            Err(e) => {
                return Err(e);
            },
        };
        diags.append(&mut step);
        let ghost applied = buffer.samples();
        match sanitize_buffer(buffer) {
            Ok(_) => (),
            Err(e) => {
                return Err(ChainError::Sanitize(e));
            },
        }
        proof {
            crate::buffer::lemma_sanitize_idempotent(applied);
        }
        i += 1;
    }
    Ok(diags)
}

} // verus!
