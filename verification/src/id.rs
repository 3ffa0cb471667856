//! The identity generator: unique 64-bit ids for new rows.
//!
//! The numbers come from the sonyflake crate (time-ordered ids built from
//! the clock, a sequence counter and a machine id).  Their values depend
//! on the clock and the machine, so the wrappers promise nothing about
//! them; everything the library proves holds for whatever comes back.

use vstd::prelude::*;

verus! {

#[verifier::external_type_specification]
#[verifier::external_body]
pub struct ExSonyflake(sonyflake::Sonyflake);

/// Relies on `sonyflake::Sonyflake::new`: builds a generator from the
/// machine's address and clock, failing when no machine id can be
/// derived.  The result depends on the machine, so nothing is stated.
#[verifier::external_body]
fn new_generator() -> (r: Option<sonyflake::Sonyflake>) {
    sonyflake::Sonyflake::new().ok()
}

/// Relies on `sonyflake::Sonyflake::next_id` (with `Id::to_u64` unwrapping
/// the number): draws the next id, failing once the generator's time span
/// is exhausted.  The result depends on the clock, so nothing is stated.
#[verifier::external_body]
fn generator_next(g: &sonyflake::Sonyflake) -> (r: Option<u64>) {
    g.next_id().ok().map(|id| id.to_u64())
}

/// A handle on one id generator.
pub struct Id {
    generator: sonyflake::Sonyflake,
}

impl Id {
    /// Sets a generator up; `None` when the machine offers no id source.
    pub fn new() -> (r: Option<Id>) {
        match new_generator() {
            Some(g) => Some(Id { generator: g }),
            None => None,
        }
    }

    /// Draws the next fresh id; `None` once the generator is exhausted.
    pub fn next_id(&self) -> (r: Option<u64>) {
        generator_next(&self.generator)
    }
}

} // verus!
