use vstd::prelude::*;

verus! {

/// The smallest whole number of units holding at least `quantity`.
pub open spec fn ceil_div(quantity: nat, dose: nat) -> int
    recommends dose > 0,
{
    ((quantity + dose - 1) / dose as int) as int
}

/// The range `(ceil(min / dose), floor(max / dose))` of whole unit counts
/// whose total lies in `[min, max]`: `None` for a unit that holds nothing,
/// or when the first exceeds the second.
pub open spec fn bounds_of(min: nat, max: nat, dose: nat) -> Option<(u64, u64)> {
    if dose == 0 {
        None
    } else {
        let lo = ceil_div(min, dose);
        let hi = max as int / dose as int;
        if lo > hi {
            None
        } else {
            Some((lo as u64, hi as u64))
        }
    }
}

proof fn lemma_ceil_div(m: nat, d: nat)
    requires
        d > 0,
    ensures
        ceil_div(m, d) == m as int / d as int + (if m as int % d as int != 0 { 1int } else { 0int }),
        m as int / d as int + (if m as int % d as int != 0 { 1int } else { 0int }) <= m,
{
    let q = m as int / d as int;
    let r = m as int % d as int;
    vstd::arithmetic::div_mod::lemma_fundamental_div_mod(m as int, d as int);
    let k = if r != 0 { 1int } else { 0int };
    assert(m + d - 1 == (q + k) * d + (r + d - 1 - k * d)) by (nonlinear_arith)
        requires
            m == q * d + r,
    ;
    assert(q * d >= q) by (nonlinear_arith)
        requires
            d >= 1,
            q >= 0,
    ;
    assert(0 <= r + d - 1 - k * d < d);
    vstd::arithmetic::div_mod::lemma_fundamental_div_mod_converse(
        m + d - 1,
        d as int,
        q + k,
        r + d - 1 - k * d,
    );
}

/// Whole-unit bounds of a dosage range `[min, max]` for a unit holding
/// `dose`: `None` for an unusable unit (`dose == 0`) or when no whole count
/// of units lands in the range.
pub fn unit_dose_bounds(min: u64, max: u64, dose: u64) -> (r: Option<(u64, u64)>)
    ensures
        r == bounds_of(min as nat, max as nat, dose as nat),
        r matches Some((lo, hi)) ==> lo <= hi,
{
    if dose == 0 {
        return None;
    }
    let up: u64 = if min % dose != 0 { 1 } else { 0 };
    proof {
        lemma_ceil_div(min as nat, dose as nat);
    }
    let lo_wide: u64 = min / dose + up;
    let hi_wide: u64 = max / dose;
    proof {
        vstd::arithmetic::div_mod::lemma_div_is_ordered_by_denominator(max as int, 1, dose as int);
    }
    if lo_wide > hi_wide {
        None
    } else {
        Some((lo_wide, hi_wide))
    }
}

/// The bounds are exactly the unit counts whose total lies in the range.
pub proof fn lemma_bounds_exact(min: u64, max: u64, dose: u64, k: u64)
    requires
        bounds_of(min as nat, max as nat, dose as nat) is Some,
    ensures
        ({
            let (lo, hi) = bounds_of(min as nat, max as nat, dose as nat)->Some_0;
            lo <= k <= hi <==> min <= k * dose <= max
        }),
{
    let d = dose as int;
    let c = ceil_div(min as nat, dose as nat);
    lemma_ceil_div(min as nat, dose as nat);
    vstd::arithmetic::div_mod::lemma_div_is_ordered_by_denominator(max as int, 1, d);
    let f = max as int / d;
    vstd::arithmetic::div_mod::lemma_fundamental_div_mod(min + d - 1, d);
    vstd::arithmetic::div_mod::lemma_fundamental_div_mod(max as int, d);
    let rc = (min + d - 1) % d;
    let rf = max as int % d;
    assert(k >= c <==> k * d >= min) by (nonlinear_arith)
        requires
            min + d - 1 == c * d + rc,
            0 <= rc < d,
            k >= 0,
    ;
    assert(k <= f <==> k * d <= max) by (nonlinear_arith)
        requires
            max == f * d + rf,
            0 <= rf < d,
            k >= 0,
    ;
}

} // verus!
