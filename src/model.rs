use vstd::prelude::*;

verus! {

/// A conversion source of a dosage input: one of it holds `dose` of the
/// input's base quantity. Quantities are fixed-point values in millionths
/// of the base measure, so only their ratios matter to the computations.
pub struct Unit {
    pub name: String,
    pub id: u128,
    pub dose: u64,
}

#[verifier::external_type_specification]
#[verifier::external_body]
#[verifier::reject_recursive_types(T)]
pub struct ExNonEmpty<T>(nonempty::NonEmpty<T>);

/// The units that a non-empty unit list holds, in order.
pub uninterp spec fn unit_seq(units: nonempty::NonEmpty<Unit>) -> Seq<Unit>;

/// Relies on `NonEmpty::len`: the number of units, never zero.
#[verifier::external_body]
pub(crate) fn unit_count(units: &nonempty::NonEmpty<Unit>) -> (r: usize)
    ensures
        r == unit_seq(*units).len(),
        r >= 1,
{
    units.len()
}

/// Relies on `NonEmpty::get`: the unit at `index`, if there is one.
#[verifier::external_body]
pub(crate) fn unit_at(units: &nonempty::NonEmpty<Unit>, index: usize) -> (r: Option<&Unit>)
    ensures
        index < unit_seq(*units).len() ==> r == Some(&unit_seq(*units)[index as int]),
        index >= unit_seq(*units).len() ==> r.is_none(),
{
    units.get(index)
}

/// Relies on `NonEmpty::first`: the head of the list.
#[verifier::external_body]
pub(crate) fn first_unit(units: &nonempty::NonEmpty<Unit>) -> (r: &Unit)
    ensures
        *r == unit_seq(*units)[0],
{
    units.first()
}

/// What is tracked: a yes/no habit, or a dosage with a range of amounts
/// (in millionths of its base measure) and the units it is taken in; the
/// first unit is the one targets are counted in.
pub enum InputType {
    Boolean,
    Dosage { min: u64, max: u64, unit_name: String, units: nonempty::NonEmpty<Unit> },
}

impl InputType {
    /// A dosage range runs upwards; its unit list is never empty by its type.
    pub open spec fn wf(&self) -> bool {
        *self matches InputType::Dosage { min, max, .. } ==> min <= max
    }

    pub fn is_bool(&self) -> (r: bool)
        ensures
            r == (self is Boolean),
    {
        match self {
            InputType::Boolean => true,
            InputType::Dosage { .. } => false,
        }
    }
}

/// A tracked item. `valid_after` holds the second of the day (local time)
/// from which the item is shown in a report, if it is gated.
pub struct Input {
    pub id: u128,
    pub name: String,
    pub ty: InputType,
    pub valid_after: Option<u32>,
}

/// Relies on uuid's `Uuid::new_v4`, read as a `u128` by `Uuid::as_u128`:
/// a random identity, of which nothing is promised.
#[verifier::external_body]
fn fresh_id() -> (r: u128) {
    uuid::Uuid::new_v4().as_u128()
}

impl Unit {
    /// A unit with a fresh identity.
    pub fn new(name: String, dose: u64) -> (r: Unit)
        ensures
            r.name == name,
            r.dose == dose,
    {
        Unit { name, id: fresh_id(), dose }
    }
}

impl Input {
    /// A boolean input with a fresh identity, shown at any time of day.
    pub fn new_boolean(name: String) -> (r: Input)
        ensures
            r.name == name,
            r.ty is Boolean,
            r.ty.wf(),
            r.valid_after is None,
    {
        Input { id: fresh_id(), name, ty: InputType::Boolean, valid_after: None }
    }

    /// A dosage input with a fresh identity, shown at any time of day.
    pub fn new_dosage(
        name: String,
        unit_name: String,
        min: u64,
        max: u64,
        units: nonempty::NonEmpty<Unit>,
    ) -> (r: Input)
        requires
            min <= max,
        ensures
            r.ty.wf(),
            r.name == name,
            r.ty == (InputType::Dosage { min, max, unit_name, units }),
            r.valid_after is None,
    {
        Input {
            id: fresh_id(),
            name,
            ty: InputType::Dosage { min, max, unit_name, units },
            valid_after: None,
        }
    }
}

/// Whether `input` is a dosage with a unit of identity `source`.
pub open spec fn has_unit(input: Input, source: u128) -> bool {
    match input.ty {
        InputType::Boolean => false,
        InputType::Dosage { units, .. } => exists|j: int|
            0 <= j < unit_seq(units).len() && (#[trigger] unit_seq(units)[j]).id == source,
    }
}

/// Where unit `source` is declared: the first input holding it and its
/// position among that input's units.
pub fn find_source(inputs: &Vec<Input>, source: u128) -> (r: Option<(usize, usize)>)
    ensures
        match r {
            Some((k, j)) => k < inputs@.len() && has_unit(inputs@[k as int], source) && (forall|
                m: int,
            | 0 <= m < k ==> !has_unit(#[trigger] inputs@[m], source)) && match inputs@[k as int].ty {
                InputType::Dosage { units, .. } => j < unit_seq(units).len() && unit_seq(
                    units,
                )[j as int].id == source && forall|i: int|
                    0 <= i < j ==> (#[trigger] unit_seq(units)[i]).id != source,
                InputType::Boolean => false,
            },
            None => forall|m: int| 0 <= m < inputs@.len() ==> !has_unit(#[trigger] inputs@[m], source),
        },
{
    let mut k: usize = 0;
    while k < inputs.len()
        invariant
            k <= inputs@.len(),
            forall|m: int| 0 <= m < k ==> !has_unit(#[trigger] inputs@[m], source),
        decreases inputs@.len() - k,
    {
        match &inputs[k].ty {
            InputType::Boolean => {},
            InputType::Dosage { units, .. } => {
                let n = unit_count(units);
                let mut j: usize = 0;
                while j < n
                    invariant
                        j <= n,
                        n == unit_seq(*units).len(),
                        k < inputs@.len(),
                        inputs@[k as int].ty is Dosage,
                        inputs@[k as int].ty->Dosage_units == *units,
                        forall|m: int| 0 <= m < k ==> !has_unit(#[trigger] inputs@[m], source),
                        forall|i: int| 0 <= i < j ==> (#[trigger] unit_seq(*units)[i]).id != source,
                    decreases n - j,
                {
                    let unit = unit_at(units, j).unwrap();
                    if unit.id == source {
                        assert(unit_seq(*units)[j as int].id == source);
                        assert(has_unit(inputs@[k as int], source));
                        return Some((k, j));
                    }
                    j = j + 1;
                }
            },
        }
        k = k + 1;
    }
    None
}

/// One consumption event: `quantity` units of `source`, at a Unix time.
#[derive(Clone, Copy, PartialEq, Eq, Debug)]
pub struct Log {
    pub source: u128,
    pub time: i64,
    pub quantity: u32,
}

impl Log {
    pub fn new(source: u128, quantity: u32, time: i64) -> (r: Log)
        ensures
            r == (Log { source, time, quantity }),
    {
        Log { source, time, quantity }
    }
}

} // verus!
