use vstd::prelude::*;
use crate::date::{day_window, near_day_start, CalendarDate};
use crate::logs::{load_for_day, sorted_by_time, source_total, total_from_source, window_logs};
use crate::model::{first_unit, unit_seq, Input, InputType, Log};
use crate::target::{calc_dosage, target_of, ConfigError};

verus! {

/// What a report shows for one input.
#[derive(Clone, Copy, PartialEq, Eq, Debug)]
pub enum Status {
    /// A boolean input: the day's answer.
    Answer(bool),
    /// A dosage input: what was taken, the target, and whether it is met.
    Progress { consumed: u128, target: u64, completed: bool },
}

/// One line of a report: the input's position in the list, and its status.
#[derive(Clone, Copy, PartialEq, Eq, Debug)]
pub struct ReportRow {
    pub index: usize,
    pub status: Status,
}

/// Whether an input is shown at second `now` of the day.
pub open spec fn is_shown(valid_after: Option<u32>, now: u32) -> bool {
    match valid_after {
        Some(after) => after <= now,
        None => true,
    }
}

/// The status of `input` on `day`, given the logs of that day.
pub open spec fn status_of(input: Input, day: CalendarDate, day_logs: Seq<Log>) -> Result<
    Status,
    ConfigError,
> {
    match target_of(input.id, input.ty, day) {
        Err(e) => Err(e),
        Ok(t) => match input.ty {
            InputType::Boolean => Ok(Status::Answer(t != 0)),
            InputType::Dosage { units, .. } => {
                let consumed = source_total(day_logs, unit_seq(units)[0].id);
                Ok(Status::Progress { consumed: consumed as u128, target: t, completed: consumed >= t })
            },
        },
    }
}

/// The rows for the first `n` inputs, or the first configuration error
/// among the inputs shown.
pub open spec fn rows_of(inputs: Seq<Input>, n: nat, day: CalendarDate, now: u32, day_logs: Seq<Log>) -> Result<
    Seq<ReportRow>,
    ConfigError,
>
    decreases n,
{
    if n == 0 {
        Ok(seq![])
    } else {
        match rows_of(inputs, (n - 1) as nat, day, now, day_logs) {
            Err(e) => Err(e),
            Ok(rows) => {
                let input = inputs[n - 1];
                if !is_shown(input.valid_after, now) {
                    Ok(rows)
                } else {
                    match status_of(input, day, day_logs) {
                        Err(e) => Err(e),
                        Ok(s) => Ok(rows.push(ReportRow { index: (n - 1) as usize, status: s })),
                    }
                }
            },
        }
    }
}

/// A configuration error stops the report: later inputs do not change it.
proof fn lemma_error_persists(
    inputs: Seq<Input>,
    n: nat,
    m: nat,
    day: CalendarDate,
    now: u32,
    day_logs: Seq<Log>,
)
    requires
        n <= m,
        rows_of(inputs, n, day, now, day_logs) is Err,
    ensures
        rows_of(inputs, m, day, now, day_logs) == rows_of(inputs, n, day, now, day_logs),
    decreases m,
{
    if m > n {
        lemma_error_persists(inputs, n, (m - 1) as nat, day, now, day_logs);
    }
}

/// Whether a computed report is the expected one.
pub open spec fn report_matches(
    r: Result<Vec<ReportRow>, ConfigError>,
    expected: Result<Seq<ReportRow>, ConfigError>,
) -> bool {
    match r {
        Ok(rows) => expected == Ok::<Seq<ReportRow>, ConfigError>(rows@),
        Err(e) => expected == Err::<Seq<ReportRow>, ConfigError>(e),
    }
}

/// The status of one input on `day`, given the logs of that day.
pub fn input_status(input: &Input, day: &CalendarDate, day_logs: &Vec<Log>) -> (r: Result<
    Status,
    ConfigError,
>)
    requires
        day.wf(),
    ensures
        r == status_of(*input, *day, day_logs@),
{
    let t = match calc_dosage(input, day) {
        Ok(t) => t,
        Err(e) => return Err(e),
    };
    match &input.ty {
        InputType::Boolean => Ok(Status::Answer(t != 0)),
        InputType::Dosage { units, .. } => {
            let unit = first_unit(units);
            let consumed = total_from_source(day_logs, unit.id);
            Ok(Status::Progress { consumed, target: t, completed: consumed >= t as u128 })
        },
    }
}

/// The report of `inputs` on `day` at second `now` of the day, given the
/// logs of that day: a row for each input shown, in list order.
pub fn print_outputs(inputs: &Vec<Input>, day: &CalendarDate, now: u32, day_logs: &Vec<Log>) -> (r: Result<
    Vec<ReportRow>,
    ConfigError,
>)
    requires
        day.wf(),
    ensures
        report_matches(r, rows_of(inputs@, inputs@.len(), *day, now, day_logs@)),
{
    let mut rows: Vec<ReportRow> = Vec::new();
    let mut i: usize = 0;
    while i < inputs.len()
        invariant
            i <= inputs@.len(),
            day.wf(),
            rows_of(inputs@, i as nat, *day, now, day_logs@) == Ok::<Seq<ReportRow>, ConfigError>(
                rows@,
            ),
        decreases inputs@.len() - i,
    {
        let input = &inputs[i];
        let shown = match input.valid_after {
            Some(after) => after <= now,
            None => true,
        };
        if shown {
            match input_status(input, day, day_logs) {
                Ok(s) => rows.push(ReportRow { index: i, status: s }),
                Err(e) => {
                    proof {
                        lemma_error_persists(inputs@, (i + 1) as nat, inputs@.len(), *day, now, day_logs@);
                    }
                    return Err(e);
                },
            }
        }
        i = i + 1;
    }
    Ok(rows)
}

/// The report of `inputs` on `day` at second `now` of the day, from the
/// full time-sorted log history, counting the logs in `[start, end)`.
pub fn report_for_window(
    inputs: &Vec<Input>,
    day: &CalendarDate,
    now: u32,
    logs: &Vec<Log>,
    start: i64,
    end: i64,
) -> (r: Result<Vec<ReportRow>, ConfigError>)
    requires
        day.wf(),
        sorted_by_time(logs@),
    ensures
        report_matches(
            r,
            rows_of(inputs@, inputs@.len(), *day, now, window_logs(logs@, start as int, end as int)),
        ),
{
    let day_logs = load_for_day(logs, start, end);
    print_outputs(inputs, day, now, &day_logs)
}

/// The report of `inputs` on logical day `day` at second `now` of the day,
/// from the full time-sorted log history, with the day's window
/// `(start, end)`; `None` for the last representable date, which has no
/// window (see `day_window`).
pub fn report_for_day(inputs: &Vec<Input>, day: &CalendarDate, now: u32, logs: &Vec<Log>) -> (r:
    Option<(i64, i64, Result<Vec<ReportRow>, ConfigError>)>)
    requires
        day.wf(),
        sorted_by_time(logs@),
    ensures
        r is None <==> day.is_last(),
        r matches Some((s, e, res)) ==> near_day_start(day.ordinal(), s as int) && near_day_start(
            day.ordinal() + 1,
            e as int,
        ) && report_matches(
            res,
            rows_of(inputs@, inputs@.len(), *day, now, window_logs(logs@, s as int, e as int)),
        ),
{
    match day_window(day) {
        Some((start, end)) => Some((start, end, report_for_window(inputs, day, now, logs, start, end))),
        None => None,
    }
}

/// Independence from the time of day: two reports of one day that show
/// the same inputs are equal, whenever in the day they are made.
pub proof fn lemma_report_ignores_time_of_day(
    inputs: Seq<Input>,
    day: CalendarDate,
    now1: u32,
    now2: u32,
    day_logs: Seq<Log>,
)
    requires
        forall|k: int|
            0 <= k < inputs.len() ==> is_shown(#[trigger] inputs[k].valid_after, now1) == is_shown(
                inputs[k].valid_after,
                now2,
            ),
    ensures
        rows_of(inputs, inputs.len(), day, now1, day_logs) == rows_of(
            inputs,
            inputs.len(),
            day,
            now2,
            day_logs,
        ),
{
    lemma_rows_agree(inputs, inputs.len(), day, now1, now2, day_logs);
}

proof fn lemma_rows_agree(
    inputs: Seq<Input>,
    n: nat,
    day: CalendarDate,
    now1: u32,
    now2: u32,
    day_logs: Seq<Log>,
)
    requires
        n <= inputs.len(),
        forall|k: int|
            0 <= k < inputs.len() ==> is_shown(#[trigger] inputs[k].valid_after, now1) == is_shown(
                inputs[k].valid_after,
                now2,
            ),
    ensures
        rows_of(inputs, n, day, now1, day_logs) == rows_of(inputs, n, day, now2, day_logs),
    decreases n,
{
    if n > 0 {
        lemma_rows_agree(inputs, (n - 1) as nat, day, now1, now2, day_logs);
        assert(is_shown(inputs[n - 1].valid_after, now1) == is_shown(inputs[n - 1].valid_after, now2));
    }
}

} // verus!
