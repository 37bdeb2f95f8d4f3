use things::calendar::{day_timestamp, parse_day};
use things::repeat::wire_rule::{bound, next_occurrence_of_rule, Bound};
use things::repeat::{Cadence, RepeatSpec};
use things::wire::{
    FrequencyUnit, RecurrenceRule, RecurrenceType, RuleOffset, RECURRENCE_END_NEVER,
};

fn day(text: &str) -> i32 {
    parse_day(text, "test").expect("date")
}

fn offset(wd: Option<i64>, dy: Option<i64>, mo: Option<i64>) -> RuleOffset {
    RuleOffset { wd, dy, mo }
}

fn spec(text: &str) -> RepeatSpec {
    RepeatSpec::parse(text).expect("spec")
}

#[test]
fn parses_every_form() {
    assert_eq!(
        spec("daily/3"),
        RepeatSpec {
            cadence: Cadence::Daily,
            every: 3
        }
    );
    assert_eq!(
        spec("weekly:thu,mon"),
        RepeatSpec {
            cadence: Cadence::Weekly(vec![1, 4]),
            every: 1
        }
    );
    assert_eq!(
        spec("monthly:last"),
        RepeatSpec {
            cadence: Cadence::Monthly(Some(-1)),
            every: 1
        }
    );
    assert_eq!(
        spec("yearly/2:02-29"),
        RepeatSpec {
            cadence: Cadence::Yearly(Some((2, 29))),
            every: 2
        }
    );
    assert_eq!(
        spec("after:2w"),
        RepeatSpec {
            cadence: Cadence::AfterCompletion(FrequencyUnit::Weekly),
            every: 2
        }
    );
    assert!(RepeatSpec::parse("daily:mon").is_err());
    assert!(RepeatSpec::parse("monthly:32").is_err());
    assert!(RepeatSpec::parse("after").is_err());
}

#[test]
fn each_refusal_names_what_it_refuses() {
    assert_eq!(
        RepeatSpec::parse("daily/0").unwrap_err(),
        "Invalid --repeat daily/0: expected a positive number after /"
    );
    assert_eq!(
        RepeatSpec::parse("weekly:mon, funday").unwrap_err(),
        "Invalid weekday  funday: expected sun, mon, tue, wed, thu, fri or sat"
    );
    assert_eq!(
        RepeatSpec::parse("monthly:0").unwrap_err(),
        "Invalid day of month 0: expected 1 to 31 or last"
    );
    assert_eq!(
        RepeatSpec::parse("yearly:02-30").unwrap_err(),
        "Invalid yearly date 02-30: expected MM-DD"
    );
    assert_eq!(
        RepeatSpec::parse("after:2x").unwrap_err(),
        "Invalid interval 2x: expected a number and d, w, m or y, such as 2w"
    );
    assert_eq!(
        RepeatSpec::parse("after").unwrap_err(),
        "Invalid --repeat after: after needs an interval such as after:2w"
    );
    assert_eq!(
        RepeatSpec::parse("after/2:2w").unwrap_err(),
        "Invalid --repeat after/2:2w: expected daily, weekly, monthly, yearly or after"
    );
}

#[test]
fn selectors_read_case_and_blanks_loosely() {
    assert_eq!(
        spec("WEEKLY/2: Sat ,sun,sat"),
        RepeatSpec {
            cadence: Cadence::Weekly(vec![0, 6]),
            every: 2
        }
    );
    assert_eq!(spec("Monthly:LAST").cadence, Cadence::Monthly(Some(-1)));
    assert_eq!(spec("monthly").cadence, Cadence::Monthly(None));
    assert_eq!(spec("yearly").cadence, Cadence::Yearly(None));
    assert_eq!(spec("weekly").cadence, Cadence::Weekly(Vec::new()));
    assert_eq!(spec("yearly:+2-+29").cadence, Cadence::Yearly(Some((2, 29))));
    assert_eq!(
        spec("after:10y"),
        RepeatSpec {
            cadence: Cadence::AfterCompletion(FrequencyUnit::Yearly),
            every: 10
        }
    );
}

#[test]
fn first_occurrence_moves_to_the_selector() {
    // 2026-09-17 is a thursday
    assert_eq!(
        spec("weekly:mon,thu").first_occurrence(day("2026-09-17")),
        day("2026-09-17")
    );
    assert_eq!(
        spec("weekly:mon").first_occurrence(day("2026-09-17")),
        day("2026-09-21")
    );
    assert_eq!(
        spec("monthly:15").first_occurrence(day("2026-09-17")),
        day("2026-10-15")
    );
    assert_eq!(
        spec("monthly:last").first_occurrence(day("2026-09-17")),
        day("2026-09-30")
    );
    assert_eq!(
        spec("yearly:12-31").first_occurrence(day("2026-09-17")),
        day("2026-12-31")
    );
    assert_eq!(
        spec("yearly:01-05").first_occurrence(day("2026-09-17")),
        day("2027-01-05")
    );
    assert_eq!(
        spec("daily").first_occurrence(day("2026-09-17")),
        day("2026-09-17")
    );
}

#[test]
fn next_occurrence_counts_from_the_anchor() {
    let thursday = day("2026-09-17");
    assert_eq!(
        spec("daily/3").next_occurrence(thursday, thursday),
        Some(day("2026-09-20"))
    );
    assert_eq!(
        spec("weekly:mon,thu").next_occurrence(thursday, thursday),
        Some(day("2026-09-21"))
    );
    assert_eq!(
        spec("weekly/2").next_occurrence(thursday, thursday),
        Some(day("2026-10-01"))
    );
    assert_eq!(
        spec("weekly/2:mon,thu").next_occurrence(thursday, thursday),
        Some(day("2026-09-28"))
    );
    assert_eq!(
        spec("monthly:31").next_occurrence(day("2026-01-31"), day("2026-01-31")),
        Some(day("2026-02-28"))
    );
    assert_eq!(
        spec("monthly:last").next_occurrence(day("2026-09-30"), day("2026-09-30")),
        Some(day("2026-10-31"))
    );
    assert_eq!(
        spec("yearly:02-29").next_occurrence(day("2024-02-29"), day("2024-02-29")),
        Some(day("2025-02-28"))
    );
    assert_eq!(spec("after:2w").next_occurrence(thursday, thursday), None);
}

#[test]
fn wire_rules_evaluate_like_the_app() {
    let today = day("2026-09-17");
    // the app's monthly rule anchored on its creation day, first occurrence october 15
    let monthly = RecurrenceRule {
        recurrence_type: RecurrenceType::FixedSchedule,
        frequency_unit: FrequencyUnit::Monthly,
        frequency_amount: 1,
        offsets: vec![offset(None, Some(14), None)],
        start_date: Some(1789603200),
        interval_anchor: Some(1789603200),
        end_date: None,
        repeat_count: 3,
        time_span_in_days: 0,
        version: 4,
    };
    assert_eq!(
        next_occurrence_of_rule(&monthly, today - 1, 0),
        Some(day("2026-10-15"))
    );
    assert_eq!(next_occurrence_of_rule(&monthly, day("2026-10-15"), 3), None);
    // yearly ending on its own day
    let yearly = RecurrenceRule {
        recurrence_type: RecurrenceType::FixedSchedule,
        frequency_unit: FrequencyUnit::Yearly,
        frequency_amount: 1,
        offsets: vec![offset(None, Some(16), Some(8))],
        start_date: Some(1789603200),
        interval_anchor: Some(1789603200),
        end_date: Some(1821139200),
        repeat_count: 0,
        time_span_in_days: 0,
        version: 4,
    };
    assert_eq!(
        next_occurrence_of_rule(&yearly, today, 1),
        Some(day("2027-09-17"))
    );
    assert_eq!(next_occurrence_of_rule(&yearly, day("2027-09-17"), 2), None);
    // after completion is never projected
    let after = RecurrenceRule {
        recurrence_type: RecurrenceType::AfterCompletion,
        frequency_unit: FrequencyUnit::Weekly,
        frequency_amount: 2,
        offsets: Vec::new(),
        start_date: Some(1789603200),
        interval_anchor: Some(0),
        end_date: Some(64092211200),
        repeat_count: 0,
        time_span_in_days: 0,
        version: 4,
    };
    assert_eq!(next_occurrence_of_rule(&after, today, 0), None);
}

#[test]
fn rule_matches_the_captured_shapes() {
    let today = day("2026-09-17");
    let weekly = spec("weekly:mon,thu").rule(today, today, Bound::Never);
    assert_eq!(
        weekly.offsets,
        vec![offset(Some(1), None, None), offset(Some(4), None, None)]
    );
    assert_eq!(weekly.end_date, Some(RECURRENCE_END_NEVER));
    assert_eq!(weekly.interval_anchor, Some(1789603200));

    let monthly = spec("monthly:15").rule(day("2026-10-15"), today, Bound::Times(3));
    assert_eq!(monthly.offsets, vec![offset(None, Some(14), None)]);
    assert_eq!(monthly.end_date, None);
    assert_eq!(monthly.repeat_count, 3);

    let yearly = spec("yearly:09-17").rule(today, today, Bound::Until(day("2027-09-17")));
    assert_eq!(yearly.offsets, vec![offset(None, Some(16), Some(8))]);
    assert_eq!(yearly.end_date, Some(1821139200));

    let last = spec("monthly:last").rule(day("2026-09-30"), today, Bound::Never);
    assert_eq!(last.offsets, vec![offset(None, Some(-1), None)]);

    let after = spec("after:2w").rule(day("2027-12-31"), today, Bound::Never);
    assert_eq!(after.recurrence_type, RecurrenceType::AfterCompletion);
    assert_eq!(after.interval_anchor, Some(0));
    assert!(after.offsets.is_empty());
}

#[test]
fn a_written_rule_reads_back_as_its_spec_from_its_first_day() {
    let first = day("2026-09-17");
    for text in ["daily/3", "weekly/2", "weekly:mon,thu", "monthly", "monthly:last", "yearly:02-29"] {
        let spec = spec(text);
        let rule = spec.rule(first, first, Bound::Never);
        let (read, anchor) = RepeatSpec::from_rule(&rule).expect("fixed schedule");
        assert_eq!(anchor, first);
        assert_eq!(read.every, spec.every);
    }
    let (read, _) = RepeatSpec::from_rule(&spec("weekly").rule(first, first, Bound::Never)).expect("weekly");
    // 2026-09-17 is a thursday
    assert_eq!(read.cadence, Cadence::Weekly(vec![4]));
    let (read, _) = RepeatSpec::from_rule(&spec("monthly").rule(first, first, Bound::Never)).expect("monthly");
    assert_eq!(read.cadence, Cadence::Monthly(Some(17)));
    let (read, _) = RepeatSpec::from_rule(&spec("yearly").rule(first, first, Bound::Never)).expect("yearly");
    assert_eq!(read.cadence, Cadence::Yearly(Some((9, 17))));
    assert!(RepeatSpec::from_rule(&spec("after:3d").rule(first, first, Bound::Never)).is_none());
}

#[test]
fn a_rule_from_before_1970_counts_from_the_day_it_was_made() {
    // the anchor of a first day on or before 1970-01-01 is no positive timestamp
    let first = day("1969-12-31");
    let made = day("2026-09-17");
    let rule = spec("daily").rule(first, made, Bound::Never);
    let (_, anchor) = RepeatSpec::from_rule(&rule).expect("daily");
    assert_eq!(anchor, made);
}

#[test]
fn the_end_conditions_read_from_the_flags() {
    assert_eq!(bound(None, None), Ok(Bound::Never));
    assert_eq!(bound(Some(3), None), Ok(Bound::Times(3)));
    assert_eq!(
        bound(Some(0), None),
        Err("--times 0: expected a positive number".to_string())
    );
    assert_eq!(
        bound(Some(-12), None),
        Err("--times -12: expected a positive number".to_string())
    );
    assert_eq!(
        bound(Some(1), Some("2027-01-01")),
        Err("--times and --until exclude each other".to_string())
    );
    assert_eq!(bound(None, Some("2027-01-01")), Ok(Bound::Until(day("2027-01-01"))));
    assert_eq!(
        bound(None, Some("2027-02-30")),
        Err("Invalid --until date: 2027-02-30 (expected YYYY-MM-DD)".to_string())
    );
}

#[test]
fn a_day_goes_on_the_wire_at_utc_midnight() {
    assert_eq!(day_timestamp(day("2026-09-17")), 1789603200);
    assert_eq!(day_timestamp(day("1970-01-01")), 0);
    assert_eq!(day_timestamp(day("1969-12-31")), -86400);
}

#[test]
fn next_occurrence_lands_on_the_rule_after_the_day() {
    // a daily rule every three days from a monday, asked after a later day
    let monday = day("2026-09-14");
    assert_eq!(spec("daily/3").next_occurrence(monday, day("2026-09-10")), Some(monday));
    assert_eq!(spec("daily/3").next_occurrence(monday, day("2026-09-17")), Some(day("2026-09-20")));
    // monthly on the 31st skips to the last day of short months, counted from the anchor
    assert_eq!(
        spec("monthly/2:31").next_occurrence(day("2026-01-31"), day("2026-02-01")),
        Some(day("2026-03-31"))
    );
}

#[test]
fn template_points_at_the_following_occurrence() {
    let weekly = spec("weekly:mon,thu");
    let first = day("2026-09-17");
    assert_eq!(weekly.template_days(first), Some((day("2026-09-21"), None)));

    let after = spec("after:2w");
    let first = day("2027-12-31");
    assert_eq!(after.template_days(first), Some((day("2028-01-01"), Some(day("2027-12-17")))));

    let monthly = spec("after:1m");
    assert_eq!(monthly.template_days(day("2024-03-31")), Some((day("2024-04-01"), Some(day("2024-02-29")))));
    let yearly = spec("after:1y");
    assert_eq!(yearly.template_days(day("2024-02-29")), Some((day("2024-03-01"), Some(day("2023-02-28")))));
}

#[test]
fn the_first_and_next_searches_stay_within_the_calendar() {
    let monthly = spec("monthly:15");
    assert!(monthly.first_reachable(day("2026-09-17")));
    assert!(monthly.next_reachable(day("2026-09-17"), day("2026-09-17")));
    let daily = spec("daily");
    assert!(daily.next_reachable(day("2026-09-17"), day("2026-09-17")));
    assert!(RepeatSpec::splits("after:2w"));
    assert!(!RepeatSpec::splits("after:2\u{e9}"));
    assert!(RepeatSpec::splits("daily"));
}
