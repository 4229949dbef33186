//! Effect arguments and their validation.
//!
//! An effect invocation carries a mapping from lowercase parameter
//! names to sample-typed values with unique keys and irrelevant order;
//! `Arguments` realizes it as a private vector of entries, viewed as a
//! `Map`. The validators below are the only way effects read it:
//! `arg_exists` demands presence, `verify_min` and `verify_range` also
//! demand that the value lies inside an open interval, under IEEE 754
//! ordering.

use vstd::prelude::*;
use crate::errors::ValidationError;
use crate::sample::{gt_bits, le_bits, ge_bits, sample_le, sample_ge};

verus! {

/// One named argument.
pub struct Arg {
    /// Lowercase parameter name.
    pub name: String,
    /// Value as a binary64 bit pattern.
    pub value: u64,
}

/// The argument mapping of one effect invocation.
pub struct Arguments {
    entries: Vec<Arg>,
}

/// The mapping a sequence of entries denotes; a later entry would
/// override an earlier one of the same name.
pub closed spec fn map_of(s: Seq<Arg>) -> Map<Seq<char>, u64>
    decreases s.len(),
{
    if s.len() == 0 {
        Map::empty()
    } else {
        map_of(s.drop_last()).insert(s.last().name@, s.last().value)
    }
}

/// An entry's name is a key of the mapping.
proof fn lemma_map_of_contains(s: Seq<Arg>, i: int)
    requires
        0 <= i < s.len(),
    ensures
        map_of(s).contains_key(s[i].name@),
    decreases s.len(),
{
    if i < s.len() - 1 {
        lemma_map_of_contains(s.drop_last(), i);
    }
}

/// The last entry of a name gives the name's value.
proof fn lemma_map_of_value(s: Seq<Arg>, i: int)
    requires
        0 <= i < s.len(),
        forall|j: int| i < j < s.len() ==> (#[trigger] s[j]).name@ != s[i].name@,
    ensures
        map_of(s).contains_key(s[i].name@),
        map_of(s)[s[i].name@] == s[i].value,
    decreases s.len(),
{
    lemma_map_of_contains(s, i);
    if i < s.len() - 1 {
        lemma_map_of_value(s.drop_last(), i);
    }
}

/// A name no entry bears is no key of the mapping.
proof fn lemma_map_of_absent(s: Seq<Arg>, k: Seq<char>)
    requires
        forall|i: int| 0 <= i < s.len() ==> (#[trigger] s[i]).name@ != k,
    ensures
        !map_of(s).contains_key(k),
    decreases s.len(),
{
    if s.len() > 0 {
        lemma_map_of_absent(s.drop_last(), k);
    }
}

impl View for Arguments {
    type V = Map<Seq<char>, u64>;

    closed spec fn view(&self) -> Map<Seq<char>, u64> {
        map_of(self.entries@)
    }
}

impl Arguments {
    /// Entry names are pairwise distinct.
    pub closed spec fn wf(&self) -> bool {
        forall|i: int, j: int|
            0 <= i < j < self.entries@.len() ==> (#[trigger] self.entries@[i]).name@ != (
            #[trigger] self.entries@[j]).name@
    }

    /// An empty mapping.
    pub fn new() -> (r: Arguments)
        ensures
            r.wf(),
            r@ == Map::<Seq<char>, u64>::empty(),
    {
        Arguments { entries: Vec::new() }
    }

    /// Adds a binding for a name not yet bound.
    pub fn set(&mut self, name: String, value: u64)
        requires
            old(self).wf(),
            !old(self)@.contains_key(name@),
        ensures
            final(self).wf(),
            final(self)@ == old(self)@.insert(name@, value),
    {
        proof {
            assert forall|i: int| 0 <= i < self.entries@.len() implies (
            #[trigger] self.entries@[i]).name@ != name@ by {
                lemma_map_of_contains(self.entries@, i);
            }
        }
        self.entries.push(Arg { name, value });
        proof {
            assert(self.entries@.drop_last() =~= old(self).entries@);
        }
    }

    /// Looks a name up.
    pub fn get(&self, name: &String) -> (r: Option<u64>)
        requires
            self.wf(),
        ensures
            r == if self@.contains_key(name@) {
                Some(self@[name@])
            } else {
                None::<u64>
            },
    {
        let n = self.entries.len();
        let mut i: usize = 0;
        while i < n
            invariant
                self.wf(),
                n == self.entries@.len(),
                0 <= i <= n,
                forall|j: int| 0 <= j < i ==> (#[trigger] self.entries@[j]).name@ != name@,
            decreases n - i,
        {
            if self.entries[i].name == *name {
                proof {
                    lemma_map_of_value(self.entries@, i as int);
                }
                return Some(self.entries[i].value);
            }
            i += 1;
        }
        proof {
            lemma_map_of_absent(self.entries@, name@);
        }
        None
    }
}

/// Returns the named argument's value, or `MissingArgument` when the
/// mapping has no such name.
pub fn arg_exists(thing: &String, map: &Arguments) -> (r: Result<u64, ValidationError>)
    requires
        map.wf(),
    ensures
        map@.contains_key(thing@) ==> r == Ok::<u64, ValidationError>(map@[thing@]),
        !map@.contains_key(thing@) ==> (r matches Err(e) && e matches
            ValidationError::MissingArgument { name } && name@ == thing@),
{
    match map.get(thing) {
        Some(v) => Ok(v),
        None => Err(ValidationError::MissingArgument { name: thing.clone() }),
    }
}

/// Returns the named argument's value when it lies strictly above
/// `min` under IEEE 754 ordering; otherwise `OutOfRange` with the
/// violated bound (or `MissingArgument` when absent).
pub fn verify_min(thing: &String, min: u64, map: &Arguments) -> (r: Result<u64, ValidationError>)
    requires
        map.wf(),
    ensures
        map@.contains_key(thing@) && !le_bits(map@[thing@], min) ==> r == Ok::<
            u64,
            ValidationError,
        >(map@[thing@]),
        map@.contains_key(thing@) && le_bits(map@[thing@], min) ==> (r matches Err(e) && e matches
            ValidationError::OutOfRange { name, low, high } && name@ == thing@ && low == min
            && high is None),
        !map@.contains_key(thing@) ==> (r matches Err(e) && e matches
            ValidationError::MissingArgument { name } && name@ == thing@),
{
    let arg = arg_exists(thing, map)?;
    if sample_le(arg, min) {
        return Err(ValidationError::OutOfRange { name: thing.clone(), low: min, high: None });
    }
    Ok(arg)
}

/// Returns the named argument's value when it lies strictly inside the
/// open interval `(min, max)` under IEEE 754 ordering; otherwise
/// `OutOfRange` with the violated bounds (or `MissingArgument` when
/// absent). Calling it with `min` above `max` is a programmer error and
/// is ruled out here rather than answered.
pub fn verify_range(thing: &String, min: u64, max: u64, map: &Arguments) -> (r: Result<
    u64,
    ValidationError,
>)
    requires
        map.wf(),
        !gt_bits(min, max),
    ensures
        map@.contains_key(thing@) && !le_bits(map@[thing@], min) && !ge_bits(map@[thing@], max)
            ==> r == Ok::<u64, ValidationError>(map@[thing@]),
        map@.contains_key(thing@) && (le_bits(map@[thing@], min) || ge_bits(map@[thing@], max))
            ==> (r matches Err(e) && e matches ValidationError::OutOfRange { name, low, high }
            && name@ == thing@ && low == min && high == Some(max)),
        !map@.contains_key(thing@) ==> (r matches Err(e) && e matches
            ValidationError::MissingArgument { name } && name@ == thing@),
{
    let arg = arg_exists(thing, map)?;
    if sample_ge(arg, max) || sample_le(arg, min) {
        return Err(
            ValidationError::OutOfRange { name: thing.clone(), low: min, high: Some(max) },
        );
    }
    Ok(arg)
}

} // verus!
