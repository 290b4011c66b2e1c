//! The peripheral clock as the clock tree reports it: a typed rate, of
//! which the driver needs the number of hertz.

use vstd::prelude::*;

verus! {

/// `fugit::Rate`, a frequency as a count of fixed fractions of a hertz.
/// The verifier sees nothing inside it.
#[verifier::external_type_specification]
#[verifier::external_body]
#[verifier::reject_recursive_types(T)]
pub struct ExRate<T, const NOM: u32, const DENOM: u32>(fugit::Rate<T, NOM, DENOM>);

/// The number of whole hertz that a rate stands for: what
/// `fugit::Rate::to_Hz` returns for it. The number depends on the rate
/// alone, so the same rate always gives the same number.
pub uninterp spec fn hertz_value(clock: fugit::HertzU32) -> u32;

/// The rate in whole hertz, as `fugit::Rate::to_Hz` gives it. The call
/// reads the rate's stored count and two constants of its type, both one
/// for a rate in hertz, so it cannot overflow or fail. The contract claims
/// only that the number is the one that belongs to the rate; a rate is
/// opaque to the verifier, so which number that is stays unsaid.
#[verifier::external_body]
pub(crate) fn hertz_of(clock: fugit::HertzU32) -> (hz: u32)
    ensures
        hz == hertz_value(clock),
{
    clock.to_Hz()
}

} // verus!
