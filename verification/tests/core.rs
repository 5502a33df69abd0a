use pvpc_cheap::clock::{day_hour_ts, hour_of_day, hour_start};
use pvpc_cheap::engine::{
    after_first_attempt, after_refresh, evaluate_cheapest_hours, evaluate_price_threshold,
    evaluate_rule, evaluate_time_schedule, find_contiguous_cheapest, finish_execution,
    next_row_after_attempt, plan_for_hour, record_attempt, resolve_action, AttemptDecision,
    EvalReason, ExecutionResult, Instant, RuleEvaluation,
};
use pvpc_cheap::provider::DeviceActionResult;
use pvpc_cheap::prices::{cheapest_hours, find_cheapest_hours, has_full_day, price_at, PricePoint};
use pvpc_cheap::provider::{DeviceState, ProviderError};
use pvpc_cheap::retry::{mark_missed, next_sync_step, publication_backoff, retry_due, SyncDecision};
use pvpc_cheap::rules::{Comparison, Day, Rule, RuleAction, RuleConfig, RuleType, TimeWindow};
use pvpc_cheap::schedule::{
    calculate_hours_for_rule, collect_candidates, compute_for_date, compute_for_rule, ExecStatus,
    ExecutionStore,
};

/// 2024-01-15 as days since the epoch.
const DAY: i64 = 19737;

fn ts(day: i64, hour: i64) -> i64 {
    day * 86400 + hour * 3600
}

fn make_price(hour: u32, price: f64) -> PricePoint {
    PricePoint {
        ts: ts(DAY, hour as i64),
        price: (price * 1_000_000.0).round() as i64,
    }
}

fn make_price_next_day(hour: u32, price: f64) -> PricePoint {
    PricePoint {
        ts: ts(DAY + 1, hour as i64),
        price: (price * 1_000_000.0).round() as i64,
    }
}

fn hour_of(t: i64) -> u32 {
    ((t % 86400) / 3600) as u32
}

fn cheapest_rule(id: i64, n: u32, window: Option<TimeWindow>) -> Rule {
    Rule {
        id,
        user_id: 1,
        device_id: 1,
        rule_type: RuleType::CheapestHours,
        action: RuleAction::TurnOn,
        config: Some(RuleConfig::CheapestHours {
            hours_needed: n,
            window,
            contiguous: false,
        }),
        enabled: true,
        priority: 0,
        last_triggered_at: None,
    }
}

// ---------------------------------------------------------------------------
// Carried-over tests of the cheapest-hour selection.
// ---------------------------------------------------------------------------

#[test]
fn test_find_cheapest_hours_single_hour() {
    let prices = vec![make_price(0, 0.15), make_price(1, 0.10), make_price(2, 0.20)];
    let result = find_cheapest_hours(&prices, 60);
    assert_eq!(result.len(), 1);
    assert_eq!(hour_of(result[0]), 1);
}

#[test]
fn test_find_cheapest_hours_multiple_hours() {
    let prices = vec![
        make_price(0, 0.15),
        make_price(1, 0.10),
        make_price(2, 0.20),
        make_price(3, 0.05),
        make_price(4, 0.25),
    ];
    let result = find_cheapest_hours(&prices, 120);
    assert_eq!(result.len(), 2);
    let hours: Vec<u32> = result.iter().map(|t| hour_of(*t)).collect();
    assert!(hours.contains(&1));
    assert!(hours.contains(&3));
}

#[test]
fn test_find_cheapest_hours_rounds_up_duration() {
    let prices = vec![make_price(0, 0.15), make_price(1, 0.10), make_price(2, 0.20)];
    let result = find_cheapest_hours(&prices, 90);
    assert_eq!(result.len(), 2);
}

#[test]
fn test_find_cheapest_hours_empty_prices() {
    let prices: Vec<PricePoint> = vec![];
    let result = find_cheapest_hours(&prices, 60);
    assert!(result.is_empty());
}

#[test]
fn test_find_cheapest_hours_more_hours_than_available() {
    let prices = vec![make_price(0, 0.15), make_price(1, 0.10)];
    let result = find_cheapest_hours(&prices, 300);
    assert_eq!(result.len(), 2);
}

#[test]
fn test_find_cheapest_hours_zero_duration() {
    let prices = vec![make_price(0, 0.15), make_price(1, 0.10)];
    let result = find_cheapest_hours(&prices, 0);
    assert!(result.is_empty());
}

#[test]
fn test_find_cheapest_hours_equal_prices() {
    let prices = vec![make_price(0, 0.10), make_price(1, 0.10), make_price(2, 0.10)];
    let result = find_cheapest_hours(&prices, 120);
    assert_eq!(result.len(), 2);
}

#[test]
fn test_find_cheapest_hours_full_day() {
    let prices: Vec<PricePoint> = (0..24).map(|h| make_price(h, (24 - h) as f64 * 0.01)).collect();
    let result = find_cheapest_hours(&prices, 180);
    assert_eq!(result.len(), 3);
    let hours: Vec<u32> = result.iter().map(|t| hour_of(*t)).collect();
    assert!(hours.contains(&23));
    assert!(hours.contains(&22));
    assert!(hours.contains(&21));
}

// ---------------------------------------------------------------------------
// Cheapest selection: exact size and minimality.
// ---------------------------------------------------------------------------

#[test]
fn cheapest_selection_is_minimal() {
    let prices = vec![
        make_price(0, 0.30),
        make_price(1, 0.10),
        make_price(2, 0.20),
        make_price(3, 0.05),
        make_price(4, 0.25),
        make_price(5, 0.15),
    ];
    let sel = cheapest_hours(&prices, 3);
    assert_eq!(sel.len(), 3);
    let max_selected = sel.iter().map(|p| p.price).max().unwrap();
    for p in &prices {
        if !sel.iter().any(|s| s.ts == p.ts) {
            assert!(max_selected <= p.price);
        }
    }
}

#[test]
fn cheapest_selection_breaks_ties_by_time() {
    let prices = vec![make_price(4, 0.10), make_price(7, 0.10), make_price(9, 0.10)];
    let sel = cheapest_hours(&prices, 2);
    let hours: Vec<u32> = sel.iter().map(|p| hour_of(p.ts)).collect();
    assert!(hours.contains(&4));
    assert!(hours.contains(&7));
}

// ---------------------------------------------------------------------------
// Schedule computation and its idempotence.
// ---------------------------------------------------------------------------

#[test]
fn compute_produces_exactly_n_rows() {
    let today: Vec<PricePoint> = (0..24).map(|h| make_price(h, 0.05 + h as f64 * 0.01)).collect();
    let tomorrow: Vec<PricePoint> = vec![];
    let rule = cheapest_rule(1, 6, None);
    let mut store = ExecutionStore::new();
    let count = compute_for_rule(&mut store, &rule, DAY, &today, &tomorrow);
    assert_eq!(count, 6);
    assert_eq!(store.len(), 6);
}

#[test]
fn recompute_inserts_nothing_new() {
    let today: Vec<PricePoint> = (0..24).map(|h| make_price(h, 0.05 + h as f64 * 0.01)).collect();
    let tomorrow: Vec<PricePoint> = vec![];
    let rule = cheapest_rule(1, 4, None);
    let mut store = ExecutionStore::new();
    let first = compute_for_rule(&mut store, &rule, DAY, &today, &tomorrow);
    assert_eq!(first, 4);
    let second = compute_for_rule(&mut store, &rule, DAY, &today, &tomorrow);
    assert_eq!(second, 0);
    assert_eq!(store.len(), 4);
}

#[test]
fn compute_for_date_skips_disabled_rules() {
    let today: Vec<PricePoint> = (0..24).map(|h| make_price(h, 0.05 + h as f64 * 0.01)).collect();
    let tomorrow: Vec<PricePoint> = vec![];
    let enabled = cheapest_rule(1, 2, None);
    let mut disabled = cheapest_rule(2, 2, None);
    disabled.enabled = false;
    let rules = vec![enabled, disabled];
    let mut store = ExecutionStore::new();
    let count = compute_for_date(&mut store, &rules, DAY, &today, &tomorrow);
    assert_eq!(count, 2);
}

#[test]
fn overnight_window_draws_from_both_days() {
    // Window 19:00 - 08:00 crosses midnight: candidates are hours 19..=23 of
    // the date and 0..=8 of the next day.
    let today: Vec<PricePoint> = (0..24).map(|h| make_price(h, 0.10)).collect();
    let tomorrow: Vec<PricePoint> = (0..24).map(|h| make_price_next_day(h, 0.10)).collect();
    let w = TimeWindow { start_min: 19 * 60, end_min: 8 * 60 };
    let cand = collect_candidates(Some(w), &today, &tomorrow, DAY);
    let expected: Vec<i64> = (19..24)
        .map(|h| ts(DAY, h))
        .chain((0..9).map(|h| ts(DAY + 1, h)))
        .collect();
    let got: Vec<i64> = cand.iter().map(|p| p.ts).collect();
    assert_eq!(got, expected);
}

#[test]
fn daytime_window_draws_from_one_day() {
    // Window 06:00 - 22:00 stays within the date: hours 6..=22.
    let today: Vec<PricePoint> = (0..24).map(|h| make_price(h, 0.10)).collect();
    let tomorrow: Vec<PricePoint> = (0..24).map(|h| make_price_next_day(h, 0.10)).collect();
    let w = TimeWindow { start_min: 6 * 60, end_min: 22 * 60 };
    let cand = collect_candidates(Some(w), &today, &tomorrow, DAY);
    let expected: Vec<i64> = (6..23).map(|h| ts(DAY, h)).collect();
    let got: Vec<i64> = cand.iter().map(|p| p.ts).collect();
    assert_eq!(got, expected);
}

#[test]
fn overnight_window_uses_what_is_present() {
    // The next day's prices are not published yet: only the evening hours
    // are drawn.
    let today: Vec<PricePoint> = (0..24).map(|h| make_price(h, 0.10)).collect();
    let tomorrow: Vec<PricePoint> = vec![];
    let w = TimeWindow { start_min: 19 * 60, end_min: 8 * 60 };
    let cand = collect_candidates(Some(w), &today, &tomorrow, DAY);
    let got: Vec<i64> = cand.iter().map(|p| p.ts).collect();
    let expected: Vec<i64> = (19..24).map(|h| ts(DAY, h)).collect();
    assert_eq!(got, expected);
}

#[test]
fn threshold_rule_schedules_hours_at_or_below() {
    let today = vec![
        make_price(0, 0.08),
        make_price(1, 0.10),
        make_price(2, 0.12),
        make_price(3, 0.09),
    ];
    let tomorrow: Vec<PricePoint> = vec![];
    let rule = Rule {
        id: 7,
        user_id: 1,
        device_id: 1,
        rule_type: RuleType::PriceThreshold,
        action: RuleAction::TurnOn,
        config: Some(RuleConfig::PriceThreshold {
            threshold: 100_000,
            comparison: Comparison::Below,
        }),
        enabled: true,
        priority: 0,
        last_triggered_at: None,
    };
    let hours = calculate_hours_for_rule(&rule, DAY, &today, &tomorrow);
    assert_eq!(hours, vec![ts(DAY, 0), ts(DAY, 1), ts(DAY, 3)]);
}

#[test]
fn time_schedule_rule_schedules_window_hours() {
    let today: Vec<PricePoint> = vec![];
    let tomorrow: Vec<PricePoint> = vec![];
    let rule = Rule {
        id: 9,
        user_id: 1,
        device_id: 1,
        rule_type: RuleType::TimeSchedule,
        action: RuleAction::TurnOn,
        config: Some(RuleConfig::TimeSchedule {
            window: Some(TimeWindow { start_min: 22 * 60, end_min: 2 * 60 }),
            days: vec![],
            time_min: None,
        }),
        enabled: true,
        priority: 0,
        last_triggered_at: None,
    };
    let hours = calculate_hours_for_rule(&rule, DAY, &today, &tomorrow);
    let expected: Vec<i64> = vec![
        ts(DAY, 22),
        ts(DAY, 23),
        ts(DAY + 1, 0),
        ts(DAY + 1, 1),
        ts(DAY + 1, 2),
    ];
    assert_eq!(hours, expected);
}

#[test]
fn manual_rule_schedules_nothing() {
    let today: Vec<PricePoint> = (0..24).map(|h| make_price(h, 0.10)).collect();
    let tomorrow: Vec<PricePoint> = vec![];
    let rule = Rule {
        id: 5,
        user_id: 1,
        device_id: 1,
        rule_type: RuleType::Manual,
        action: RuleAction::TurnOn,
        config: Some(RuleConfig::Manual),
        enabled: true,
        priority: 0,
        last_triggered_at: None,
    };
    let hours = calculate_hours_for_rule(&rule, DAY, &today, &tomorrow);
    assert!(hours.is_empty());
}

#[test]
fn malformed_config_schedules_nothing() {
    let today: Vec<PricePoint> = (0..24).map(|h| make_price(h, 0.10)).collect();
    let tomorrow: Vec<PricePoint> = vec![];
    let mut rule = cheapest_rule(5, 3, None);
    rule.config = None;
    let hours = calculate_hours_for_rule(&rule, DAY, &today, &tomorrow);
    assert!(hours.is_empty());
    // A configuration of the wrong shape counts as malformed too.
    rule.config = Some(RuleConfig::Manual);
    let hours = calculate_hours_for_rule(&rule, DAY, &today, &tomorrow);
    assert!(hours.is_empty());
}

// ---------------------------------------------------------------------------
// Retry lifecycle.
// ---------------------------------------------------------------------------

fn seeded_store() -> (ExecutionStore, Rule) {
    let today: Vec<PricePoint> = (0..24).map(|h| make_price(h, 0.10 + h as f64 * 0.001)).collect();
    let tomorrow: Vec<PricePoint> = vec![];
    let rule = cheapest_rule(1, 24, None);
    let mut store = ExecutionStore::new();
    compute_for_rule(&mut store, &rule, DAY, &today, &tomorrow);
    assert!(store.len() == 24);
    (store, rule)
}

#[test]
fn retry_count_reaches_failed_at_five() {
    let (store, _) = seeded_store();
    let mut row = *store.row(0);
    let mut now = row.scheduled_hour + 10;
    let mut attempts = 0;
    loop {
        row = next_row_after_attempt(&row, false, now);
        attempts += 1;
        assert!(row.retry_count <= 5);
        if row.status == ExecStatus::Failed {
            break;
        }
        assert_eq!(row.status, ExecStatus::Retrying);
        assert!(row.retry_count < 5);
        now = row.next_retry_at.unwrap();
    }
    assert_eq!(attempts, 5);
    assert_eq!(row.retry_count, 5);
}

#[test]
fn successful_attempt_marks_executed() {
    let (mut store, _) = seeded_store();
    let when = store.row(3).scheduled_hour + 60;
    record_attempt(&mut store, 3, true, when);
    let row = store.row(3);
    assert_eq!(row.status, ExecStatus::Executed);
    assert_eq!(row.executed_at, Some(when));
    assert_eq!(row.retry_count, 0);
}

#[test]
fn failed_attempt_schedules_retry_in_a_minute() {
    let (mut store, _) = seeded_store();
    let when = store.row(3).scheduled_hour + 60;
    record_attempt(&mut store, 3, false, when);
    let row = store.row(3);
    assert_eq!(row.status, ExecStatus::Retrying);
    assert_eq!(row.retry_count, 1);
    assert_eq!(row.next_retry_at, Some(when + 60));
}

#[test]
fn mark_missed_only_touches_past_pending_hours() {
    let (mut store, _) = seeded_store();
    // It is 14:14 of the day: hours 0..=13 are past, 14 is current.
    let now = ts(DAY, 14) + 14 * 60;
    let count = mark_missed(&mut store, now);
    assert_eq!(count, 14);
    for i in 0..store.len() {
        let row = *store.row(i);
        if hour_of(row.scheduled_hour) < 14 {
            assert_eq!(row.status, ExecStatus::Missed);
        } else {
            // Current and future hours are untouched.
            assert_eq!(row.status, ExecStatus::Pending);
        }
    }
}

#[test]
fn retry_due_returns_standing_hours_and_misses_passed_ones() {
    let (mut store, _) = seeded_store();
    // Hour 10 fails at 10:05, hour 14 fails at 14:01.
    record_attempt(&mut store, 10, false, ts(DAY, 10) + 300);
    record_attempt(&mut store, 14, false, ts(DAY, 14) + 60);
    // The sweep runs at 14:10: both retries are due, but hour 10 has passed.
    let now = ts(DAY, 14) + 600;
    let due = retry_due(&mut store, now);
    assert_eq!(due, vec![14]);
    assert_eq!(store.row(10).status, ExecStatus::Missed);
    assert_eq!(store.row(14).status, ExecStatus::Retrying);
}

#[test]
fn publication_backoff_doubles_from_two_minutes() {
    assert_eq!(publication_backoff(1), 120);
    assert_eq!(publication_backoff(2), 240);
    assert_eq!(publication_backoff(3), 480);
    assert_eq!(publication_backoff(4), 960);
    assert_eq!(publication_backoff(5), 1920);
    assert_eq!(120 + 240 + 480 + 960 + 1920, 3720);
}

#[test]
fn sync_decisions_follow_the_policy() {
    assert_eq!(next_sync_step(0, 24), SyncDecision::Done);
    assert_eq!(next_sync_step(0, 7), SyncDecision::RetryAfter(120));
    assert_eq!(next_sync_step(2, 0), SyncDecision::RetryAfter(480));
    assert_eq!(next_sync_step(5, 12), SyncDecision::GiveUp);
}

// ---------------------------------------------------------------------------
// Rule evaluation.
// ---------------------------------------------------------------------------

#[test]
fn threshold_below_triggers_under_price() {
    let rule = Rule {
        id: 2,
        user_id: 1,
        device_id: 1,
        rule_type: RuleType::PriceThreshold,
        action: RuleAction::TurnOn,
        config: Some(RuleConfig::PriceThreshold {
            threshold: 100_000,
            comparison: Comparison::Below,
        }),
        enabled: true,
        priority: 0,
        last_triggered_at: None,
    };
    // 0.08 EUR/kWh is below the 0.10 threshold, 0.12 is not.
    let low = evaluate_price_threshold(&rule, Some(80_000));
    assert!(low.should_trigger);
    let high = evaluate_price_threshold(&rule, Some(120_000));
    assert!(!high.should_trigger);
    let unknown = evaluate_price_threshold(&rule, None);
    assert!(!unknown.should_trigger);
    assert_eq!(unknown.reason, EvalReason::NoCurrentPrice);
}

#[test]
fn toggle_with_unknown_state_turns_on() {
    assert_eq!(resolve_action(RuleAction::Toggle, &None), RuleAction::TurnOn);
    let on = DeviceState {
        is_on: true,
        brightness: None,
        temperature_decidegrees: None,
        power_consumption_deciwatts: None,
    };
    let off = DeviceState { is_on: false, ..on };
    assert_eq!(resolve_action(RuleAction::Toggle, &Some(on)), RuleAction::TurnOff);
    assert_eq!(resolve_action(RuleAction::Toggle, &Some(off)), RuleAction::TurnOn);
    assert_eq!(resolve_action(RuleAction::TurnOff, &None), RuleAction::TurnOff);
}

#[test]
fn cheapest_hours_rule_triggers_in_cheap_hour() {
    let rule = cheapest_rule(3, 2, Some(TimeWindow { start_min: 0, end_min: 10 * 60 }));
    let mut prices: Vec<PricePoint> = (0..24).map(|h| make_price(h, 0.20)).collect();
    prices[3] = make_price(3, 0.05);
    prices[5] = make_price(5, 0.06);
    // 03:30 is inside the window and hour 3 is one of the two cheapest.
    let now = Instant::from_ts(ts(DAY, 3) + 1800);
    let r = evaluate_cheapest_hours(&rule, now, &prices);
    assert!(r.should_trigger);
    // 04:30 is inside the window but hour 4 is expensive.
    let now = Instant::from_ts(ts(DAY, 4) + 1800);
    let r = evaluate_cheapest_hours(&rule, now, &prices);
    assert!(!r.should_trigger);
    // 11:00 lies outside the window.
    let now = Instant::from_ts(ts(DAY, 11));
    let r = evaluate_cheapest_hours(&rule, now, &prices);
    assert!(!r.should_trigger);
    assert_eq!(r.reason, EvalReason::OutsideWindow);
}

#[test]
fn contiguous_block_minimises_total_price() {
    let prices = vec![
        make_price(0, 0.30),
        make_price(1, 0.10),
        make_price(2, 0.25),
        make_price(3, 0.05),
        make_price(4, 0.06),
        make_price(5, 0.40),
    ];
    let block = find_contiguous_cheapest(&prices, 2);
    let hours: Vec<u32> = block.iter().map(|p| hour_of(p.ts)).collect();
    assert_eq!(hours, vec![3, 4]);
    let none = find_contiguous_cheapest(&prices, 7);
    assert!(none.is_empty());
    // Among equally cheap blocks the earliest wins.
    let flat = vec![make_price(0, 0.10), make_price(1, 0.10), make_price(2, 0.10)];
    let first = find_contiguous_cheapest(&flat, 2);
    let hours: Vec<u32> = first.iter().map(|p| hour_of(p.ts)).collect();
    assert_eq!(hours, vec![0, 1]);
}

#[test]
fn time_schedule_triggers_in_five_minute_slot() {
    let rule = Rule {
        id: 4,
        user_id: 1,
        device_id: 1,
        rule_type: RuleType::TimeSchedule,
        action: RuleAction::TurnOn,
        config: Some(RuleConfig::TimeSchedule {
            window: None,
            days: vec![Day::Mon, Day::Wed, Day::Fri],
            time_min: Some(6 * 60 + 30),
        }),
        enabled: true,
        priority: 0,
        last_triggered_at: None,
    };
    // 2024-01-15 is a Monday.
    let monday_0632 = Instant::from_ts(ts(DAY, 6) + 32 * 60);
    assert!(evaluate_time_schedule(&rule, monday_0632).should_trigger);
    let monday_0636 = Instant::from_ts(ts(DAY, 6) + 36 * 60);
    assert!(!evaluate_time_schedule(&rule, monday_0636).should_trigger);
    let tuesday_0632 = Instant::from_ts(ts(DAY + 1, 6) + 32 * 60);
    let r = evaluate_time_schedule(&rule, tuesday_0632);
    assert!(!r.should_trigger);
    assert_eq!(r.reason, EvalReason::DayNotScheduled);
}

#[test]
fn manual_rule_never_triggers() {
    let rule = Rule {
        id: 6,
        user_id: 1,
        device_id: 1,
        rule_type: RuleType::Manual,
        action: RuleAction::Toggle,
        config: Some(RuleConfig::Manual),
        enabled: true,
        priority: 0,
        last_triggered_at: None,
    };
    let prices: Vec<PricePoint> = vec![];
    let r = evaluate_rule(&rule, Instant::from_ts(ts(DAY, 9)), Some(100_000), &prices);
    assert!(!r.should_trigger);
    assert_eq!(r.reason, EvalReason::ManualRule);
}

#[test]
fn plan_for_hour_finds_due_rows_and_auto_offs() {
    let today: Vec<PricePoint> = (0..24).map(|h| make_price(h, 0.10 + h as f64 * 0.001)).collect();
    let tomorrow: Vec<PricePoint> = vec![];
    // Rule 1 schedules hours 0 and 1; rule 2 schedules hours 2 and 3.
    let rule1 = cheapest_rule(1, 2, None);
    let rule2 = cheapest_rule(2, 2, Some(TimeWindow { start_min: 2 * 60, end_min: 3 * 60 }));
    let mut store = ExecutionStore::new();
    compute_for_rule(&mut store, &rule1, DAY, &today, &tomorrow);
    compute_for_rule(&mut store, &rule2, DAY, &today, &tomorrow);
    let rules = vec![rule1, rule2];
    let (due, off) = plan_for_hour(&store, &rules, ts(DAY, 2), ts(DAY, 0), ts(DAY, 23) + 3599);
    // Hour 2 is due only for rule 2; rule 1 has rows today but none due now.
    assert_eq!(due.len(), 1);
    assert_eq!(store.row(due[0]).rule_id, 2);
    assert_eq!(off, vec![1]);
}

#[test]
fn test_rule_evaluation_struct() {
    let eval = RuleEvaluation {
        rule_id: 1,
        should_trigger: true,
        action: RuleAction::TurnOn,
        reason: EvalReason::TimeMatches,
    };
    assert!(eval.should_trigger);
    assert_eq!(eval.action, RuleAction::TurnOn);
}

#[test]
fn test_execution_result_struct() {
    let result = ExecutionResult {
        rule_id: 1,
        success: true,
        error_message: None,
        price_at_execution: Some(150_000),
        device_state_before: None,
        device_state_after: Some(DeviceState {
            is_on: true,
            brightness: None,
            temperature_decidegrees: None,
            power_consumption_deciwatts: None,
        }),
    };
    assert!(result.success);
    assert_eq!(result.price_at_execution, Some(150_000));
}

// ---------------------------------------------------------------------------
// Rule and action names, clock helpers, prices.
// ---------------------------------------------------------------------------

#[test]
fn test_rule_type_conversion() {
    assert_eq!(RuleType::PriceThreshold.as_str(), "price_threshold");
    assert_eq!(RuleType::from_str("cheapest_hours"), Some(RuleType::CheapestHours));
    assert_eq!(RuleType::from_str("invalid"), None);
}

#[test]
fn test_rule_action_conversion() {
    assert_eq!(RuleAction::TurnOn.as_str(), "turn_on");
    assert_eq!(RuleAction::from_str("turn_off"), Some(RuleAction::TurnOff));
    assert_eq!(RuleAction::from_str("invalid"), None);
}

#[test]
fn clock_helpers_split_timestamps() {
    let t = ts(DAY, 14) + 14 * 60;
    assert_eq!(hour_start(t), ts(DAY, 14));
    assert_eq!(hour_of_day(t), 14);
    assert_eq!(day_hour_ts(DAY, 14), ts(DAY, 14));
}

#[test]
fn instant_knows_the_weekday() {
    // 2024-01-15 was a Monday: weekday 0.
    let now = Instant::from_ts(ts(DAY, 12));
    assert_eq!(now.weekday, 0);
    assert_eq!(now.minute_of_day, 12 * 60);
    let sunday = Instant::from_ts(ts(DAY + 6, 12));
    assert_eq!(sunday.weekday, 6);
}

#[test]
fn price_lookup_finds_the_hour() {
    let prices = vec![make_price(0, 0.10), make_price(1, 0.20)];
    assert_eq!(price_at(&prices, ts(DAY, 1)), Some(200_000));
    assert_eq!(price_at(&prices, ts(DAY, 2)), None);
    assert!(!has_full_day(&prices));
    let full: Vec<PricePoint> = (0..24).map(|h| make_price(h, 0.10)).collect();
    assert!(has_full_day(&full));
}

// ---------------------------------------------------------------------------
// Error taxonomy.
// ---------------------------------------------------------------------------

#[test]
fn test_provider_error_display() {
    let err = ProviderError::AuthenticationFailed("bad token".to_string());
    assert!(err.message().contains("Authentication failed"));
}

#[test]
fn provider_error_messages_name_each_failure() {
    assert_eq!(
        ProviderError::DeviceNotFound("d1".to_string()).message(),
        "Device not found: d1"
    );
    assert_eq!(
        ProviderError::ConnectionError("down".to_string()).message(),
        "Connection error: down"
    );
    assert_eq!(ProviderError::RateLimited.message(), "Rate limited by provider");
    assert_eq!(ProviderError::InvalidCredentials.message(), "Invalid credentials");
    assert_eq!(ProviderError::Timeout.message(), "Request timeout");
    assert_eq!(ProviderError::Unknown("x".to_string()).message(), "Unknown error: x");
}

#[test]
fn test_device_capabilities_default() {
    let caps = pvpc_cheap::provider::DeviceCapabilities::default();
    assert!(caps.can_toggle);
    assert!(!caps.can_dim);
}

#[test]
fn test_automation_endpoint_exists() {
    // Basic test to ensure the module compiles
    assert!(true);
}

#[test]
fn auth_failure_earns_exactly_one_refresh() {
    let auth_err: Result<DeviceActionResult, ProviderError> =
        Err(ProviderError::InvalidCredentials);
    assert_eq!(after_first_attempt(&auth_err), AttemptDecision::RefreshAndRetry);
    let auth_err2: Result<DeviceActionResult, ProviderError> =
        Err(ProviderError::AuthenticationFailed("expired".to_string()));
    assert_eq!(after_first_attempt(&auth_err2), AttemptDecision::RefreshAndRetry);
    let conn_err: Result<DeviceActionResult, ProviderError> =
        Err(ProviderError::ConnectionError("down".to_string()));
    assert_eq!(after_first_attempt(&conn_err), AttemptDecision::Accept);
    let ok: Result<DeviceActionResult, ProviderError> = Ok(DeviceActionResult {
        success: true,
        message: None,
        new_state: None,
    });
    assert_eq!(after_first_attempt(&ok), AttemptDecision::Accept);
}

#[test]
fn failed_refresh_surfaces_as_auth_failure() {
    let refreshed = after_refresh(Ok("new-creds".to_string()));
    assert_eq!(refreshed.unwrap(), "new-creds");
    let failed = after_refresh(Err(ProviderError::Timeout));
    match failed {
        Err(ProviderError::AuthenticationFailed(m)) => {
            assert_eq!(m, "Token expired and refresh failed: Request timeout");
        }
        _ => panic!("refresh failure must surface as an authentication failure"),
    }
}

#[test]
fn provider_errors_become_failed_results_not_faults() {
    let r = finish_execution(5, Err(ProviderError::Timeout), Some(150_000), None);
    assert!(!r.success);
    assert_eq!(r.error_message, Some("Request timeout".to_string()));
    assert_eq!(r.price_at_execution, Some(150_000));
    let ok = finish_execution(
        5,
        Ok(DeviceActionResult { success: true, message: None, new_state: None }),
        None,
        None,
    );
    assert!(ok.success);
}

#[test]
fn deleting_a_rule_drops_only_its_pending_rows() {
    let (mut store, _) = seeded_store();
    record_attempt(&mut store, 0, true, ts(DAY, 0) + 30);
    let before = store.len();
    let removed = store.delete_pending_for_rule(1);
    assert_eq!(removed, before - 1);
    assert_eq!(store.len(), 1);
    assert_eq!(store.row(0).status, ExecStatus::Executed);
    // Unknown rules delete nothing.
    assert_eq!(store.delete_pending_for_rule(99), 0);
}

#[test]
fn overnight_recompute_replaces_the_window() {
    // The evening pass runs with no data for the next day.
    let today: Vec<PricePoint> = (0..24).map(|h| make_price(h, 0.20)).collect();
    let none: Vec<PricePoint> = vec![];
    let w = TimeWindow { start_min: 19 * 60, end_min: 8 * 60 };
    let rule = cheapest_rule(1, 3, Some(w));
    let mut store = ExecutionStore::new();
    let first = compute_for_rule(&mut store, &rule, DAY, &today, &none);
    assert_eq!(first, 3);
    // The next day's cheaper morning arrives; the window is recomputed.
    let tomorrow: Vec<PricePoint> = (0..24).map(|h| make_price_next_day(h, 0.01)).collect();
    let count =
        pvpc_cheap::schedule::recompute_overnight_for_rule(&mut store, &rule, DAY, &today, &tomorrow);
    assert_eq!(count, 3);
    assert_eq!(store.len(), 3);
    for i in 0..store.len() {
        // All three chosen hours now come from the cheap morning.
        assert!(store.row(i).scheduled_hour >= ts(DAY + 1, 0));
    }
}

#[test]
fn overnight_windows_are_detected() {
    let crossing = cheapest_rule(1, 2, Some(TimeWindow { start_min: 19 * 60, end_min: 8 * 60 }));
    assert!(pvpc_cheap::schedule::rule_has_overnight_window(&crossing));
    let daytime = cheapest_rule(1, 2, Some(TimeWindow { start_min: 6 * 60, end_min: 22 * 60 }));
    assert!(!pvpc_cheap::schedule::rule_has_overnight_window(&daytime));
    let unwindowed = cheapest_rule(1, 2, None);
    assert!(!pvpc_cheap::schedule::rule_has_overnight_window(&unwindowed));
}

#[test]
fn price_upsert_overwrites_and_keeps_order() {
    let mut series = vec![make_price(1, 0.10), make_price(3, 0.30)];
    let replaced = pvpc_cheap::prices::upsert_price(&mut series, make_price(2, 0.20));
    assert!(!replaced);
    let replaced = pvpc_cheap::prices::upsert_price(&mut series, make_price(3, 0.25));
    assert!(replaced);
    let got: Vec<(i64, i64)> = series.iter().map(|p| (p.ts, p.price)).collect();
    assert_eq!(
        got,
        vec![(ts(DAY, 1), 100_000), (ts(DAY, 2), 200_000), (ts(DAY, 3), 250_000)]
    );
}

#[test]
fn log_entries_mirror_the_attempt() {
    let result = ExecutionResult {
        rule_id: 4,
        success: false,
        error_message: Some("Request timeout".to_string()),
        price_at_execution: Some(90_000),
        device_state_before: None,
        device_state_after: None,
    };
    let evaluation = RuleEvaluation {
        rule_id: 4,
        should_trigger: true,
        action: RuleAction::TurnOff,
        reason: EvalReason::ScheduledRun,
    };
    let entry = pvpc_cheap::engine::log_entry_of(&result, &evaluation);
    assert_eq!(entry.rule_id, 4);
    assert_eq!(entry.action_taken, RuleAction::TurnOff);
    assert!(!entry.success);
    assert_eq!(entry.error_message, Some("Request timeout".to_string()));
    assert_eq!(entry.price_at_execution, Some(90_000));
}

#[test]
fn windows_wrap_past_midnight() {
    let overnight = TimeWindow { start_min: 19 * 60, end_min: 8 * 60 };
    assert!(overnight.contains_minute(20 * 60));
    assert!(overnight.contains_minute(3 * 60));
    assert!(!overnight.contains_minute(12 * 60));
    let daytime = TimeWindow { start_min: 6 * 60, end_min: 22 * 60 };
    assert!(daytime.contains_minute(12 * 60));
    assert!(!daytime.contains_minute(23 * 60));
    // Half-open: the end minute itself lies outside.
    assert!(!daytime.contains_minute(22 * 60));
}

#[test]
fn weekday_names_decode() {
    assert_eq!(Day::from_str("mon"), Some(Day::Mon));
    assert_eq!(Day::from_str("sun"), Some(Day::Sun));
    assert_eq!(Day::from_str("noday"), None);
}

#[test]
fn run_summary_counts_outcomes() {
    let ok = ExecutionResult {
        rule_id: 1,
        success: true,
        error_message: None,
        price_at_execution: None,
        device_state_before: None,
        device_state_after: None,
    };
    let bad = ExecutionResult { success: false, ..ok.clone() };
    let results = vec![ok.clone(), bad.clone(), ok, bad.clone()];
    let (executed, successful, failed) = pvpc_cheap::engine::run_summary(&results);
    assert_eq!(executed, 4);
    assert_eq!(successful, 2);
    assert_eq!(failed, 2);
}

#[test]
fn rules_sort_ascending_by_priority() {
    let mut a = cheapest_rule(1, 2, None);
    a.priority = 5;
    let mut b = cheapest_rule(2, 2, None);
    b.priority = 1;
    let mut c = cheapest_rule(3, 2, None);
    c.priority = 3;
    let sorted = pvpc_cheap::rules::rules_by_priority(vec![a, b, c]);
    let order: Vec<i64> = sorted.iter().map(|r| r.id).collect();
    assert_eq!(order, vec![2, 3, 1]);
}
