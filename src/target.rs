use vstd::prelude::*;
use rand::{Rng, SeedableRng};
use crate::bounds::{bounds_of, unit_dose_bounds};
use crate::date::{CalendarDate, days_between, days_since_epoch, epoch};
use crate::model::{first_unit, unit_seq, Input, InputType};

verus! {

/// Why no target can be given for an input.
#[derive(Clone, Copy, PartialEq, Eq, Debug)]
pub enum ConfigError {
    /// The dosage range admits no whole number of the first unit, or that
    /// unit holds no quantity.
    NoValidRange,
}

pub const TWO_POW_64: u128 = 0x1_0000_0000_0000_0000;

/// The seed of an input on a day: the high 64 bits of its identity plus
/// the signed day count since the epoch, modulo 2^64.
pub open spec fn seed_of(id: u128, days: int) -> u64 {
    ((id as int / TWO_POW_64 as int + days) % TWO_POW_64 as int) as u64
}

/// The first boolean drawn from the standard generator seeded with `seed`.
pub uninterp spec fn seeded_bool(seed: u64) -> bool;

/// The first `u32` drawn from the standard generator seeded with `seed`.
pub uninterp spec fn seeded_u32(seed: u64) -> u32;

/// Relies on rand's `StdRng::seed_from_u64` and `Rng::gen::<bool>`: a
/// seeded generator's output depends on the seed alone.
#[verifier::external_body]
fn draw_bool(seed: u64) -> (r: bool)
    ensures
        r == seeded_bool(seed),
{
    let mut rng = rand::rngs::StdRng::seed_from_u64(seed);
    rng.gen::<bool>()
}

/// Relies on rand's `StdRng::seed_from_u64` and `Rng::gen::<u32>`: a
/// seeded generator's output depends on the seed alone.
#[verifier::external_body]
fn draw_u32(seed: u64) -> (r: u32)
    ensures
        r == seeded_u32(seed),
{
    let mut rng = rand::rngs::StdRng::seed_from_u64(seed);
    rng.gen::<u32>()
}

/// The unit count drawn from `x` within `[lo, hi]`.
pub open spec fn pick_in_range(lo: u64, hi: u64, x: u32) -> u64 {
    (lo + x as int % (hi - lo + 1)) as u64
}

/// The target of an input of kind `ty` and identity `id` on `day`: 0 or 1
/// for a boolean input, a unit count for a dosage.
pub open spec fn target_of(id: u128, ty: InputType, day: CalendarDate) -> Result<u64, ConfigError> {
    let seed = seed_of(id, days_since_epoch(day));
    match ty {
        InputType::Boolean => Ok(if seeded_bool(seed) { 1u64 } else { 0u64 }),
        InputType::Dosage { min, max, units, .. } => match bounds_of(
            min as nat,
            max as nat,
            unit_seq(units)[0].dose as nat,
        ) {
            None => Err(ConfigError::NoValidRange),
            Some((lo, hi)) => Ok(pick_in_range(lo, hi, seeded_u32(seed))),
        },
    }
}

/// The seed of input `id` on `day`.
pub fn get_seed(id: u128, day: &CalendarDate) -> (r: u64)
    requires
        day.wf(),
    ensures
        r == seed_of(id, days_since_epoch(*day)),
{
    let shifted: u128 = id >> 64u128;
    proof {
        assert(id >> 64u128 == id / 0x1_0000_0000_0000_0000u128) by (bit_vector);
        assert(id / 0x1_0000_0000_0000_0000u128 <= u64::MAX) by (bit_vector);
    }
    let hi: u64 = shifted as u64;
    let days: i64 = days_between(day, &epoch());
    // the day count as an unsigned 64-bit value, in two's complement
    let wrapped: u64 = if days >= 0 {
        days as u64
    } else {
        u64::MAX - ((-(days + 1)) as u64)
    };
    let r = wrapped.wrapping_add(hi);
    proof {
        let m = TWO_POW_64 as int;
        assert(wrapped as int == days as int % m);
        assert(r as int == (wrapped as int + hi as int) % m);
        vstd::arithmetic::div_mod::lemma_add_mod_noop(days as int, hi as int, m);
        vstd::arithmetic::div_mod::lemma_mod_twice(hi as int, m);
        vstd::arithmetic::div_mod::lemma_small_mod(hi as nat, m as nat);
    }
    r
}

/// A unit count in `[lo, hi]` chosen by `x`.
pub fn pick_units(lo: u64, hi: u64, x: u32) -> (r: u64)
    requires
        lo <= hi,
    ensures
        r == pick_in_range(lo, hi, x),
        lo <= r <= hi,
{
    let range: u128 = (hi - lo) as u128 + 1;
    let off: u128 = x as u128 % range;
    (lo as u128 + off) as u64
}

/// Today's target of `input` on `day`, reproducible from the input's
/// identity and the date alone.
pub fn calc_dosage(input: &Input, day: &CalendarDate) -> (r: Result<u64, ConfigError>)
    requires
        day.wf(),
    ensures
        r == target_of(input.id, input.ty, *day),
        r is Ok && input.ty is Boolean ==> r->Ok_0 <= 1,
{
    let seed = get_seed(input.id, day);
    match &input.ty {
        InputType::Boolean => {
            if draw_bool(seed) { Ok(1) } else { Ok(0) }
        },
        InputType::Dosage { min, max, units, .. } => {
            let unit = first_unit(units);
            match unit_dose_bounds(*min, *max, unit.dose) {
                Some((lo, hi)) => Ok(pick_units(lo, hi, draw_u32(seed))),
                None => Err(ConfigError::NoValidRange),
            }
        },
    }
}

/// Determinism: inputs of the same identity and kind get the same target
/// on the same calendar day, however often it is computed.
pub proof fn lemma_target_deterministic(a: Input, b: Input, d1: CalendarDate, d2: CalendarDate)
    requires
        a.id == b.id,
        a.ty == b.ty,
        d1 == d2,
    ensures
        target_of(a.id, a.ty, d1) == target_of(b.id, b.ty, d2),
{
}

/// A dosage target always lies within the whole-unit bounds of its range.
pub proof fn lemma_target_within_bounds(input: Input, day: CalendarDate, lo: u64, hi: u64)
    requires
        input.ty is Dosage,
        bounds_of(
            input.ty->Dosage_min as nat,
            input.ty->Dosage_max as nat,
            unit_seq(input.ty->Dosage_units)[0].dose as nat,
        ) == Some((lo, hi)),
    ensures
        target_of(input.id, input.ty, day) is Ok,
        lo <= target_of(input.id, input.ty, day)->Ok_0 <= hi,
{
    let x = seeded_u32(seed_of(input.id, days_since_epoch(day)));
    vstd::arithmetic::div_mod::lemma_mod_bound(x as int, hi - lo + 1);
}

} // verus!
