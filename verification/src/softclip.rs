//! The softclip effect: drive into a hyperbolic-tangent waveshaper.
//!
//! Every sample is multiplied by the drive factor `10^(db/20)` and then
//! replaced by its hyperbolic tangent, which squeezes the result into
//! the unit range however hard the drive pushes. The only constraint is
//! that the `db` argument is present.
//!
//! `tanh`'s value is not promised by its documentation (unspecified,
//! non-deterministic precision), so the trusted layer gives it no
//! name; the contract here pins the buffer's shape and the runtime
//! tests exercise the waveshaping itself.

use vstd::prelude::*;
use crate::args::{arg_exists, Arguments};
use crate::arith::{sample_mul, sample_tanh};
use crate::buffer::{lemma_channel_update_framed, AudioBuffer};
use crate::errors::{ApplyError, Diagnostic, ValidationError};
use crate::gain::db_to_factor;

verus! {

/// Drives and clips every sample of one channel.
fn softclip_channel(ch: &mut Vec<u64>, factor: u64)
    ensures
        final(ch)@.len() == old(ch)@.len(),
{
    let n = ch.len();
    let mut i: usize = 0;
    while i < n
        invariant
            n == ch@.len(),
            0 <= i <= n,
        decreases n - i,
    {
        let s = sample_tanh(sample_mul(ch[i], factor));
        ch[i] = s;
        i += 1;
    }
}

/// Saturating amplitude limiter driven by a decibel figure.
pub struct Softclip;

impl Softclip {
    /// The stable lowercase identifier of the effect.
    pub fn get_name(&self) -> (r: String)
        ensures
            r@ == "softclip"@,
    {
        "softclip".to_owned()
    }

    /// Demands only that the `db` argument is present; never warns.
    pub fn validate_arguments(&self, arguments: &Arguments, _tail_length: &Option<u64>) -> (r:
        Result<Option<Diagnostic>, ValidationError>)
        requires
            arguments.wf(),
        ensures
            arguments@.contains_key("db"@) ==> r == Ok::<Option<Diagnostic>, ValidationError>(
                None,
            ),
            !arguments@.contains_key("db"@) ==> (r matches Err(e) && e matches
                ValidationError::MissingArgument { name } && name@ == "db"@),
    {
        let db_key = "db".to_owned();
        let _db = arg_exists(&db_key, arguments)?;
        Ok(None)
    }

    /// Multiplies every sample by `10^(db/20)` and replaces it with its
    /// hyperbolic tangent; never fails, never reports a diagnostic, and
    /// leaves channel count and lengths unchanged.
    pub fn apply_effect(&self, buffer: &mut AudioBuffer, arguments: &Arguments, _tail_length:
        &Option<u64>) -> (r: Result<Option<Diagnostic>, ApplyError>)
        requires
            arguments.wf(),
            arguments@.contains_key("db"@),
        ensures
            r matches Ok(d) && d is None,
            final(buffer).format == old(buffer).format,
            final(buffer).samples().len() == old(buffer).samples().len(),
            forall|c: int|
                0 <= c < old(buffer).samples().len() ==> (#[trigger] final(buffer).samples()[c]).len() == old(buffer).samples()[c].len(),
    {
        let db_key = "db".to_owned();
        let db = arguments.get(&db_key).unwrap();
        let factor = db_to_factor(db);
        let ghost chs = buffer.samples();
        let n = buffer.channels.len();
        let mut c: usize = 0;
        while c < n
            invariant
                n == buffer.channels.len(),
                chs.len() == n,
                buffer.format == old(buffer).format,
                0 <= c <= n,
                forall|c2: int| c <= c2 < n ==> buffer.samples()[c2] == chs[c2],
                forall|c2: int|
                    0 <= c2 < c ==> (#[trigger] buffer.samples()[c2]).len() == chs[c2].len(),
            decreases n - c,
        {
            proof {
                assert(chs[c as int] =~= buffer.channels@[c as int]@);
            }
            let ghost bpre = *buffer;
            let ghost prev = buffer.channels@;
            let ghost before = buffer.samples();
            softclip_channel(&mut buffer.channels[c], factor);
            proof {
                lemma_channel_update_framed(bpre, *buffer, c as int);
                assert(chs[c as int] == prev[c as int]@);
                assert forall|c2: int| 0 <= c2 < c + 1 implies (
                #[trigger] buffer.samples()[c2]).len() == chs[c2].len() by {
                    if c2 < c {
                        assert(buffer.samples()[c2] == before[c2]);
                    }
                }
            }
            c += 1;
        }
        Ok(None)
    }
}

} // verus!
