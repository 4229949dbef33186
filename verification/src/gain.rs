//! The gain effect: uniform amplitude scaling.
//!
//! Every sample of every channel is multiplied by `10^(db/20)`, the
//! reference multiplicative law shared by all amplitude-scaling
//! effects. The only constraint is that the `db` argument is present.
//!
//! The factor comes out of `powf`, whose value the trusted layer
//! cannot name (its precision is documented as unspecified), so the
//! contract states what remains determined: one common factor is
//! computed from `db` alone, and every sample is multiplied by it,
//! pinned up to NaN payload.

use vstd::prelude::*;
use crate::args::{arg_exists, Arguments};
use crate::arith::{mul_of, sample_div, sample_mul, sample_powf};
use crate::buffer::{lemma_channel_update_framed, AudioBuffer};
use crate::errors::{ApplyError, Diagnostic, ValidationError};
use crate::sample::{sample_eqv, TEN_BITS, TWENTY_BITS};

verus! {

/// Every sample of `out` is the corresponding sample of `chs`
/// multiplied by the one factor, up to NaN payload.
pub open spec fn scaled_eqv(chs: Seq<Seq<u64>>, out: Seq<Seq<u64>>, factor: u64) -> bool {
    &&& out.len() == chs.len()
    &&& forall|c: int| 0 <= c < chs.len() ==> (#[trigger] out[c]).len() == chs[c].len()
    &&& forall|c: int, i: int|
        0 <= c < chs.len() && 0 <= i < chs[c].len() ==> sample_eqv(
            #[trigger] out[c][i],
            mul_of(chs[c][i], factor),
        )
}

/// Computes the linear factor `10^(db/20)`. The value rests on `powf`
/// and is not pinned; callers state that one such factor scaled
/// everything.
pub(crate) fn db_to_factor(db: u64) -> u64 {
    sample_powf(TEN_BITS, sample_div(db, TWENTY_BITS))
}

/// Multiplies every sample of one channel by `factor`.
fn scale_channel(ch: &mut Vec<u64>, factor: u64)
    ensures
        final(ch)@.len() == old(ch)@.len(),
        forall|i: int|
            0 <= i < old(ch)@.len() ==> sample_eqv(
                #[trigger] final(ch)@[i],
                mul_of(old(ch)@[i], factor),
            ),
{
    let n = ch.len();
    let mut i: usize = 0;
    while i < n
        invariant
            n == ch@.len(),
            n == old(ch)@.len(),
            0 <= i <= n,
            forall|j: int| i <= j < n ==> ch@[j] == old(ch)@[j],
            forall|j: int|
                0 <= j < i ==> sample_eqv(#[trigger] ch@[j], mul_of(old(ch)@[j], factor)),
        decreases n - i,
    {
        let s = sample_mul(ch[i], factor);
        ch[i] = s;
        i += 1;
    }
}

/// Multiplies every sample of every channel by `factor`.
fn scale_buffer(buffer: &mut AudioBuffer, factor: u64)
    ensures
        final(buffer).format == old(buffer).format,
        scaled_eqv(old(buffer).samples(), final(buffer).samples(), factor),
{
    let ghost chs = buffer.samples();
    let n = buffer.channels.len();
    let mut c: usize = 0;
    while c < n
        invariant
            n == buffer.channels.len(),
            chs.len() == n,
            buffer.format == old(buffer).format,
            0 <= c <= n,
            forall|c2: int| c <= c2 < n ==> buffer.samples()[c2] == chs[c2],
            forall|c2: int|
                0 <= c2 < c ==> (#[trigger] buffer.samples()[c2]).len() == chs[c2].len(),
            forall|c2: int, i: int|
                0 <= c2 < c && 0 <= i < chs[c2].len() ==> sample_eqv(
                    #[trigger] buffer.samples()[c2][i],
                    mul_of(chs[c2][i], factor),
                ),
        decreases n - c,
    {
        proof {
            assert(chs[c as int] =~= buffer.channels@[c as int]@);
        }
        let ghost bpre = *buffer;
        let ghost prev = buffer.channels@;
        let ghost before = buffer.samples();
        scale_channel(&mut buffer.channels[c], factor);
        proof {
            lemma_channel_update_framed(bpre, *buffer, c as int);
            assert(chs[c as int] == prev[c as int]@);
            assert forall|c2: int| 0 <= c2 < c + 1 implies (#[trigger] buffer.samples()[c2]).len()
                == chs[c2].len() by {
                if c2 < c {
                    assert(buffer.samples()[c2] == before[c2]);
                }
            }
            assert forall|c2: int, i: int|
                0 <= c2 < c + 1 && 0 <= i < chs[c2].len() implies sample_eqv(
                #[trigger] buffer.samples()[c2][i],
                mul_of(chs[c2][i], factor),
            ) by {
                if c2 < c {
                    assert(buffer.samples()[c2] == before[c2]);
                } else {
                    assert(buffer.samples()[c2][i] == buffer.channels@[c2]@[i]);
                }
            }
        }
        c += 1;
    }
}

/// Uniform amplitude scaling by a decibel figure.
pub struct Gain;

impl Gain {
    /// The stable lowercase identifier of the effect.
    pub fn get_name(&self) -> (r: String)
        ensures
            r@ == "gain"@,
    {
        "gain".to_owned()
    }

    /// Demands only that the `db` argument is present; never warns.
    pub fn validate_arguments(&self, arguments: &Arguments, _tail_length: &Option<u64>) -> (r:
        Result<Option<Diagnostic>, ValidationError>)
        requires
            arguments.wf(),
        ensures
            arguments@.contains_key("db"@) ==> r == Ok::<Option<Diagnostic>, ValidationError>(
                None,
            ),
            !arguments@.contains_key("db"@) ==> (r matches Err(e) && e matches
                ValidationError::MissingArgument { name } && name@ == "db"@),
    {
        let db_key = "db".to_owned();
        let _db = arg_exists(&db_key, arguments)?;
        Ok(None)
    }

    /// Multiplies every sample of every channel by `10^(db/20)`: one
    /// factor, computed from `db` alone, scales everything; never
    /// fails and never reports a diagnostic.
    pub fn apply_effect(&self, buffer: &mut AudioBuffer, arguments: &Arguments, _tail_length:
        &Option<u64>) -> (r: Result<Option<Diagnostic>, ApplyError>)
        requires
            arguments.wf(),
            arguments@.contains_key("db"@),
        ensures
            r matches Ok(d) && d is None,
            final(buffer).format == old(buffer).format,
            exists|factor: u64|
                scaled_eqv(old(buffer).samples(), final(buffer).samples(), factor),
    {
        let db_key = "db".to_owned();
        let db = arguments.get(&db_key).unwrap();
        let factor = db_to_factor(db);
        scale_buffer(buffer, factor);
        proof {
            assert(scaled_eqv(old(buffer).samples(), buffer.samples(), factor));
        }
        Ok(None)
    }
}

} // verus!
