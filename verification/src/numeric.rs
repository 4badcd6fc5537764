//! Fixed-point decimals as the store hands them out, and their narrowing to
//! fixed-width integers.

use rust_decimal::prelude::ToPrimitive;
use rust_decimal::Decimal;
use vstd::arithmetic::power::pow;
use vstd::prelude::*;

verus! {

/// Largest number of decimal places a [`Numeric`] can carry.
pub const MAX_SCALE: u32 = 28;

/// Largest magnitude of a [`Numeric`]'s mantissa, `2^96 - 1`.
pub const MAX_MANTISSA: i128 = 0xFFFF_FFFF_FFFF_FFFF_FFFF_FFFF;

/// Why a stored value could not be turned into the field it was read for.
#[derive(Clone, Copy, Debug, PartialEq, Eq, Structural)]
pub enum LoadError {
    /// The value is negative or too large for an unsigned 8-bit field.
    ExceedsU8,
    /// The value is negative or too large for an unsigned 64-bit field.
    ExceedsU64,
    /// The value is negative, so it has no unsigned 128-bit form.
    ExceedsU128,
    /// A row's epoch lies before the first epoch recorded for its validator,
    /// or the number of epochs between them cannot be counted in 64 bits.
    EpochSpan,
}

/// The number `mantissa / 10^scale`, with at most 96 bits of mantissa and at
/// most 28 decimal places.
#[derive(Clone, Copy, Debug)]
pub struct Numeric {
    mantissa: i128,
    scale: u32,
}

/// Whether `mantissa / 10^scale` is a number that [`Numeric`] can hold.
pub open spec fn representable(mantissa: int, scale: int) -> bool {
    &&& -MAX_MANTISSA <= mantissa <= MAX_MANTISSA
    &&& 0 <= scale <= MAX_SCALE
}

/// The integer part of a non-negative `mantissa / 10^scale`, if it fits 64
/// bits; nothing for a negative mantissa.
pub open spec fn narrowed_u64(mantissa: int, scale: nat) -> Option<u64> {
    if mantissa < 0 || mantissa / pow(10, scale) > u64::MAX {
        None
    } else {
        Some((mantissa / pow(10, scale)) as u64)
    }
}

/// The integer part of a non-negative `mantissa / 10^scale`; nothing for a
/// negative mantissa.
pub open spec fn narrowed_u128(mantissa: int, scale: nat) -> Option<u128> {
    if mantissa < 0 {
        None
    } else {
        Some((mantissa / pow(10, scale)) as u128)
    }
}

/// Calls `rust_decimal`'s `Decimal::from_i128_with_scale` and then
/// `ToPrimitive::to_u64` on the result. The contract claims that the
/// conversion refuses every negative value, drops the fractional digits of
/// the others without rounding, and refuses what then needs more than 64 bits.
#[verifier::external_body]
fn decimal_to_u64(mantissa: i128, scale: u32) -> (r: Option<u64>)
    requires
        representable(mantissa as int, scale as int),
    ensures
        r == narrowed_u64(mantissa as int, scale as nat),
{
    Decimal::from_i128_with_scale(mantissa, scale).to_u64()
}

/// Calls `rust_decimal`'s `Decimal::from_i128_with_scale` and then
/// `ToPrimitive::to_u128` on the result. The contract claims that the
/// conversion refuses every negative value and drops the fractional digits of
/// the others without rounding.
#[verifier::external_body]
fn decimal_to_u128(mantissa: i128, scale: u32) -> (r: Option<u128>)
    requires
        representable(mantissa as int, scale as int),
    ensures
        r == narrowed_u128(mantissa as int, scale as nat),
{
    Decimal::from_i128_with_scale(mantissa, scale).to_u128()
}

impl Numeric {
    #[verifier::type_invariant]
    spec fn well_formed(self) -> bool {
        representable(self.mantissa as int, self.scale as int)
    }

    /// The mantissa `m` of the number `m / 10^scale`.
    pub closed spec fn mantissa(self) -> int {
        self.mantissa as int
    }

    /// The number of decimal places.
    pub closed spec fn scale(self) -> nat {
        self.scale as nat
    }

    /// What [`Numeric::to_u64`] yields on success.
    pub open spec fn as_u64(self) -> Option<u64> {
        narrowed_u64(self.mantissa(), self.scale())
    }

    /// What [`Numeric::to_u128`] yields on success.
    pub open spec fn as_u128(self) -> Option<u128> {
        narrowed_u128(self.mantissa(), self.scale())
    }

    /// The number `mantissa / 10^scale`, or nothing if it is not
    /// representable.
    pub fn new(mantissa: i128, scale: u32) -> (r: Option<Numeric>)
        ensures
            r is Some <==> representable(mantissa as int, scale as int),
            r matches Some(n) ==> n.mantissa() == mantissa && n.scale() == scale,
    {
        if scale <= MAX_SCALE && -MAX_MANTISSA <= mantissa && mantissa <= MAX_MANTISSA {
            Some(Numeric { mantissa, scale })
        } else {
            None
        }
    }

    /// The whole number `value`.
    pub fn from_u64(value: u64) -> (r: Numeric)
        ensures
            r.mantissa() == value,
            r.scale() == 0,
            r.as_u64() == Some(value),
    {
        proof {
            reveal_with_fuel(pow, 1);
        }
        Numeric { mantissa: value as i128, scale: 0 }
    }

    /// The stored mantissa.
    pub fn get_mantissa(&self) -> (r: i128)
        ensures
            r == self.mantissa(),
    {
        self.mantissa
    }

    /// The stored number of decimal places.
    pub fn get_scale(&self) -> (r: u32)
        ensures
            r == self.scale(),
    {
        self.scale
    }

    /// Narrows to 64 unsigned bits by dropping the fractional digits. Fails,
    /// rather than wrap or clamp, on a negative value and on one that is too
    /// large.
    pub fn to_u64(&self) -> (r: Result<u64, LoadError>)
        ensures
            r == match self.as_u64() {
                Some(v) => Ok::<u64, LoadError>(v),
                None => Err(LoadError::ExceedsU64),
            },
    {
        proof {
            use_type_invariant(self);
        }
        match decimal_to_u64(self.mantissa, self.scale) {
            Some(v) => Ok(v),
            None => Err(LoadError::ExceedsU64),
        }
    }

    /// Narrows to 128 unsigned bits by dropping the fractional digits. Fails
    /// on a negative value.
    pub fn to_u128(&self) -> (r: Result<u128, LoadError>)
        ensures
            r == match self.as_u128() {
                Some(v) => Ok::<u128, LoadError>(v),
                None => Err(LoadError::ExceedsU128),
            },
    {
        proof {
            use_type_invariant(self);
        }
        match decimal_to_u128(self.mantissa, self.scale) {
            Some(v) => Ok(v),
            None => Err(LoadError::ExceedsU128),
        }
    }
}

/// Whether `outcomes` has its first failure at index `at`.
pub open spec fn fails_first_at(outcomes: Seq<Option<LoadError>>, at: int) -> bool {
    &&& 0 <= at < outcomes.len()
    &&& outcomes[at] is Some
    &&& forall|j: int| 0 <= j < at ==> outcomes[j] is None
}

/// Whether none of `outcomes` is a failure.
pub open spec fn none_fails(outcomes: Seq<Option<LoadError>>) -> bool {
    forall|j: int| 0 <= j < outcomes.len() ==> outcomes[j] is None
}

/// Whether `result` is what a row-by-row conversion with these outcomes
/// gives back: the first failure if there is one, success otherwise.
pub open spec fn stops_at_first_failure<T>(
    result: Result<T, LoadError>,
    outcomes: Seq<Option<LoadError>>,
) -> bool {
    match result {
        Ok(_) => none_fails(outcomes),
        Err(e) => exists|at: int| #[trigger] fails_first_at(outcomes, at) && outcomes[at] == Some(e),
    }
}

/// A conversion in two passes stops at the first failure of the two passes
/// taken one after the other: a failure of the first pass is the first
/// failure of both, and where the first pass does not fail, the first
/// failure of the second is.
pub proof fn lemma_passes_in_sequence<T, U>(
    first: Result<T, LoadError>,
    second: Result<U, LoadError>,
    first_outcomes: Seq<Option<LoadError>>,
    second_outcomes: Seq<Option<LoadError>>,
)
    requires
        stops_at_first_failure(first, first_outcomes),
        first is Ok ==> stops_at_first_failure(second, second_outcomes),
    ensures
        first matches Err(e) ==> stops_at_first_failure(
            Err::<U, LoadError>(e),
            first_outcomes + second_outcomes,
        ),
        first is Ok ==> stops_at_first_failure(second, first_outcomes + second_outcomes),
{
    let all = first_outcomes + second_outcomes;
    match first {
        Err(e) => {
            let at = choose|at: int| #[trigger]
                fails_first_at(first_outcomes, at) && first_outcomes[at] == Some(e);
            assert forall|j: int| 0 <= j < at implies all[j] is None by {
                assert(all[j] == first_outcomes[j]);
            }
            assert(fails_first_at(all, at) && all[at] == Some(e));
        },
        Ok(_) => {
            match second {
                Err(e) => {
                    let at = choose|at: int| #[trigger]
                        fails_first_at(second_outcomes, at) && second_outcomes[at] == Some(e);
                    let place = first_outcomes.len() + at;
                    assert forall|j: int| 0 <= j < place implies all[j] is None by {
                        if j < first_outcomes.len() {
                            assert(all[j] == first_outcomes[j]);
                        } else {
                            assert(all[j] == second_outcomes[j - first_outcomes.len()]);
                        }
                    }
                    assert(fails_first_at(all, place) && all[place] == Some(e));
                },
                Ok(_) => {
                    assert forall|j: int| 0 <= j < all.len() implies all[j] is None by {
                        if j < first_outcomes.len() {
                            assert(all[j] == first_outcomes[j]);
                        } else {
                            assert(all[j] == second_outcomes[j - first_outcomes.len()]);
                        }
                    }
                },
            }
        },
    }
}

} // verus!
