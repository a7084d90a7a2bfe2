use chrono::TimeZone;
use nonempty::NonEmpty;
use selvit::date::{choose_offset, day_start_with_offset, day_window, new_day_unix, CalendarDate};
use selvit::logs::{is_sorted_by_time, load_for_day, sum_for_day, sum_for_window, total_from_source};
use selvit::model::{find_source, Input, Log, Unit};
use selvit::order::{name_le, order_inputs};
use selvit::report::{print_outputs, report_for_day, report_for_window, ReportRow, Status};
use selvit::target::{calc_dosage, ConfigError};

fn date(y: i32, m: u32, d: u32) -> CalendarDate {
    CalendarDate::new(y, m, d)
}

fn local(y: i32, m: u32, d: u32, h: u32, min: u32, s: u32) -> i64 {
    chrono::Local.with_ymd_and_hms(y, m, d, h, min, s).single().unwrap().timestamp()
}

fn dosage(name: &str, min: u64, max: u64, dose: u64) -> Input {
    let unit = Unit::new("tablet".to_string(), dose);
    Input::new_dosage(name.to_string(), "mg".to_string(), min, max, NonEmpty::new(unit))
}

fn first_unit_id(input: &Input) -> u128 {
    match &input.ty {
        selvit::model::InputType::Dosage { units, .. } => units.first().id,
        selvit::model::InputType::Boolean => panic!("not a dosage"),
    }
}

#[test]
fn day_starts_at_three_local() {
    assert_eq!(new_day_unix(&date(2024, 3, 10)), local(2024, 3, 10, 3, 0, 0));
    assert_eq!(new_day_unix(&date(1999, 7, 4)), local(1999, 7, 4, 3, 0, 0));
}

#[test]
fn day_start_under_fixed_offsets() {
    assert_eq!(day_start_with_offset(&date(1970, 1, 1), 0), 10_800);
    assert_eq!(day_start_with_offset(&date(1970, 1, 1), 3600), 7_200);
    assert_eq!(day_start_with_offset(&date(1970, 1, 2), -18_000), 86_400 + 10_800 + 18_000);
    assert_eq!(day_start_with_offset(&date(2000, 1, 1), 0), 946_695_600);
    assert_eq!(day_start_with_offset(&date(1969, 12, 31), 0), 10_800 - 86_400);
}

#[test]
fn day_window_spans_to_next_start() {
    let (start, end) = day_window(&date(2023, 12, 31)).unwrap();
    assert_eq!(start, local(2023, 12, 31, 3, 0, 0));
    assert_eq!(end, local(2024, 1, 1, 3, 0, 0));
    assert!(end - start >= 23 * 3600 && end - start <= 25 * 3600);
}

#[test]
fn day_window_of_last_date_is_none() {
    assert_eq!(day_window(&date(262142, 12, 31)), None);
}

#[test]
fn day_boundary_bucketing() {
    let before = local(2024, 5, 20, 2, 59, 59);
    let at = local(2024, 5, 20, 3, 0, 0);
    let (s_prev, e_prev) = day_window(&date(2024, 5, 19)).unwrap();
    let (s_day, e_day) = day_window(&date(2024, 5, 20)).unwrap();
    assert!(s_prev <= before && before < e_prev);
    assert!(!(s_day <= before && before < e_day));
    assert!(s_day <= at && at < e_day);
    assert!(!(s_prev <= at && at < e_prev));
    let u = 1u128;
    let logs = vec![Log::new(u, 4, before), Log::new(u, 6, at)];
    assert_eq!(sum_for_day(&date(2024, 5, 19), u, &logs).map(|w| w.2), Some(4));
    assert_eq!(sum_for_day(&date(2024, 5, 20), u, &logs).map(|w| w.2), Some(6));
}

#[test]
fn aggregation_scenario() {
    let (start, end) = day_window(&date(2024, 7, 1)).unwrap();
    let (u, v) = (10u128, 20u128);
    let logs = vec![
        Log::new(u, 3, start + 3600),
        Log::new(v, 100, start + 2 * 3600),
        Log::new(u, 2, start + 20 * 3600),
    ];
    assert_eq!(sum_for_window(&logs, u, start, end), 5);
    assert_eq!(sum_for_window(&logs, v, start, end), 100);
    assert_eq!(sum_for_day(&date(2024, 7, 1), u, &logs), Some((start, end, 5)));
    assert_eq!(sum_for_day(&date(2024, 7, 1), v, &logs), Some((start, end, 100)));
    assert_eq!(sum_for_day(&date(2024, 7, 2), u, &logs).map(|w| w.2), Some(0));
    assert_eq!(sum_for_day(&date(262142, 12, 31), u, &logs), None);
}

#[test]
fn window_is_half_open() {
    let logs = vec![
        Log::new(1, 1, 99),
        Log::new(1, 2, 100),
        Log::new(1, 4, 150),
        Log::new(1, 8, 200),
        Log::new(1, 16, 250),
    ];
    let got = load_for_day(&logs, 100, 200);
    assert_eq!(got, vec![Log::new(1, 2, 100), Log::new(1, 4, 150)]);
    assert_eq!(sum_for_window(&logs, 1, 100, 200), 6);
    assert!(load_for_day(&logs, 300, 400).is_empty());
    assert!(load_for_day(&vec![], 0, 10).is_empty());
}

#[test]
fn total_filters_by_source() {
    let logs = vec![Log::new(1, 5, 0), Log::new(2, 7, 1), Log::new(1, u32::MAX, 2)];
    assert_eq!(total_from_source(&logs, 1), 5 + u32::MAX as u128);
    assert_eq!(total_from_source(&logs, 2), 7);
    assert_eq!(total_from_source(&logs, 3), 0);
}

#[test]
fn names_compare_by_bytes() {
    let s = |x: &str| x.to_string();
    assert!(name_le(&s("apple"), &s("banana")));
    assert!(!name_le(&s("banana"), &s("apple")));
    assert!(name_le(&s("ab"), &s("abc")));
    assert!(!name_le(&s("abc"), &s("ab")));
    assert!(name_le(&s("same"), &s("same")));
    assert!(name_le(&s(""), &s("a")));
    assert!(name_le(&s("Z"), &s("a")));
}

#[test]
fn ordering_dosage_then_boolean() {
    let inputs = vec![
        Input::new_boolean("walk".to_string()),
        dosage("zinc", 1, 1, 1),
        Input::new_boolean("floss".to_string()),
        dosage("iron", 1, 1, 1),
        dosage("magnesium", 1, 1, 1),
        Input::new_boolean("read".to_string()),
    ];
    let names: Vec<String> = order_inputs(inputs).into_iter().map(|i| i.name).collect();
    assert_eq!(names, vec!["iron", "magnesium", "zinc", "floss", "read", "walk"]);
}

#[test]
fn ordering_empty_and_single_kind() {
    assert!(order_inputs(vec![]).is_empty());
    let inputs = vec![Input::new_boolean("b".to_string()), Input::new_boolean("a".to_string())];
    let names: Vec<String> = order_inputs(inputs).into_iter().map(|i| i.name).collect();
    assert_eq!(names, vec!["a", "b"]);
}

#[test]
fn report_rows_progress_and_answers() {
    let day = date(2024, 2, 29);
    let vit = dosage("Vitamin D", 1000, 2000, 1000);
    let unit = first_unit_id(&vit);
    let mut late = Input::new_boolean("Evening walk".to_string());
    late.valid_after = Some(18 * 3600);
    let walk = Input::new_boolean("Walk".to_string());
    let inputs = vec![vit, late, walk];
    let target = calc_dosage(&inputs[0], &day).unwrap();
    let answer = calc_dosage(&inputs[2], &day).unwrap() == 1;
    let day_logs = vec![Log::new(unit, 2, 0), Log::new(unit + 1, 9, 1)];
    let rows = print_outputs(&inputs, &day, 12 * 3600, &day_logs).unwrap();
    assert_eq!(
        rows,
        vec![
            ReportRow { index: 0, status: Status::Progress { consumed: 2, target, completed: true } },
            ReportRow { index: 2, status: Status::Answer(answer) },
        ]
    );
    let rows = print_outputs(&inputs, &day, 18 * 3600, &vec![]).unwrap();
    assert_eq!(rows.len(), 3);
    assert_eq!(rows[0].status, Status::Progress { consumed: 0, target, completed: false });
    assert_eq!(rows[1].index, 1);
}

#[test]
fn report_stops_on_configuration_error() {
    let day = date(2024, 1, 1);
    let inputs = vec![Input::new_boolean("ok".to_string()), dosage("bad", 1, 4, 5)];
    assert_eq!(print_outputs(&inputs, &day, 0, &vec![]), Err(ConfigError::NoValidRange));
}

#[test]
fn report_for_day_uses_the_day_window() {
    let day = date(2024, 8, 8);
    let (start, end) = day_window(&day).unwrap();
    let vit = dosage("C", 1000, 1000, 1000);
    let unit = first_unit_id(&vit);
    let logs = vec![Log::new(unit, 5, start - 1), Log::new(unit, 1, start), Log::new(unit, 7, end)];
    let (s, e, rows) = report_for_day(&vec![vit], &day, 0, &logs).unwrap();
    assert_eq!((s, e), (start, end));
    let rows = rows.unwrap();
    assert_eq!(rows, vec![ReportRow { index: 0, status: Status::Progress { consumed: 1, target: 1, completed: true } }]);
}

#[test]
fn find_source_locates_units() {
    let mut units = NonEmpty::new(Unit::new("a".to_string(), 1));
    units.push(Unit::new("b".to_string(), 2));
    let second = units.last().id;
    let inputs = vec![
        Input::new_boolean("x".to_string()),
        dosage("y", 1, 1, 1),
        Input::new_dosage("z".to_string(), "g".to_string(), 1, 2, units),
    ];
    assert_eq!(find_source(&inputs, second), Some((2, 1)));
    let y_unit = first_unit_id(&inputs[1]);
    assert_eq!(find_source(&inputs, y_unit), Some((1, 0)));
    assert_eq!(find_source(&inputs, 0), None);
}

#[test]
fn offset_prefers_local_reading() {
    assert_eq!(choose_offset(Some(7200), 3600), 7200);
    assert_eq!(choose_offset(None, 3600), 3600);
    assert_eq!(choose_offset(Some(0), -18_000), 0);
}

#[test]
fn sortedness_check() {
    assert!(is_sorted_by_time(&vec![]));
    assert!(is_sorted_by_time(&vec![Log::new(1, 1, 5)]));
    assert!(is_sorted_by_time(&vec![Log::new(1, 1, 5), Log::new(2, 1, 5), Log::new(1, 1, 9)]));
    assert!(!is_sorted_by_time(&vec![Log::new(1, 1, 5), Log::new(1, 1, 9), Log::new(1, 1, 8)]));
}

#[test]
fn report_for_window_counts_only_the_window() {
    let day = date(2024, 8, 9);
    let vit = dosage("E", 2000, 2000, 1000);
    let unit = first_unit_id(&vit);
    let logs = vec![Log::new(unit, 1, 10), Log::new(unit, 1, 20), Log::new(unit, 1, 30)];
    let rows = report_for_window(&vec![vit], &day, 0, &logs, 15, 30).unwrap();
    assert_eq!(rows, vec![ReportRow { index: 0, status: Status::Progress { consumed: 1, target: 2, completed: false } }]);
}
