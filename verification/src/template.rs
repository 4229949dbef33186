//! A blank effect to copy when adding a new one: it accepts anything
//! and changes nothing.

use vstd::prelude::*;
use crate::args::Arguments;
use crate::buffer::AudioBuffer;
use crate::errors::{ApplyError, Diagnostic, ValidationError};

verus! {

/// A do-nothing placeholder effect.
pub struct Template;

impl Template {
    /// The placeholder has no name.
    pub fn get_name(&self) -> (r: String)
        ensures
            r@ == ""@,
    {
        "".to_owned()
    }

    /// Accepts any arguments; never warns.
    pub fn validate_arguments(&self, _arguments: &Arguments, _tail_length: &Option<u64>) -> (r:
        Result<Option<Diagnostic>, ValidationError>)
        ensures
            r == Ok::<Option<Diagnostic>, ValidationError>(None),
    {
        Ok(None)
    }

    /// Leaves the buffer untouched; never fails, never reports.
    pub fn apply_effect(&self, buffer: &mut AudioBuffer, _arguments: &Arguments, _tail_length:
        &Option<u64>) -> (r: Result<Option<Diagnostic>, ApplyError>)
        ensures
            *final(buffer) == *old(buffer),
            r == Ok::<Option<Diagnostic>, ApplyError>(None),
    {
        Ok(None)
    }
}

} // verus!
