//! The rule engine: deciding whether a rule triggers right now, resolving the
//! concrete action to send, planning an hour's scheduled work, recording each
//! attempt, and driving the bounded retry lifecycle of a scheduled row.
//!
//! Every device or network effect happens outside this library; the engine's
//! decisions are pure functions of the values those effects produce.

use vstd::prelude::*;
use vstd::string::StringExecFns;
use crate::clock::{valid_ts, spec_hour_of_day};
use crate::prices::{PricePoint, valid_series, cheapest_hours};
use crate::provider::{DeviceState, DeviceActionResult, ProviderError};
use crate::rules::{Rule, RuleConfig, RuleType, RuleAction, Comparison, TimeWindow};
use crate::schedule::{
    ScheduledExecution, ExecStatus, ExecutionStore, row_wf, store_wf, cheapest_selection_ok,
    lemma_filter_series,
};
use crate::seq_facts::lemma_filter_step;

verus! {

/// Why an evaluation decided the way it did.
#[derive(Clone, Copy, PartialEq, Eq, Structural, Debug)]
pub enum EvalReason {
    /// The stored configuration failed to decode or mismatches the type.
    InvalidConfig,
    /// No price is known for the current hour.
    NoCurrentPrice,
    /// The current price sits on the triggering side of the threshold.
    PastThreshold,
    /// The current price does not.
    NotPastThreshold,
    /// The current time lies outside the rule's window.
    OutsideWindow,
    /// The current hour is one of the cheapest of the window.
    CheapHour,
    /// The current hour is not.
    NotCheapHour,
    /// Today is not one of the scheduled days.
    DayNotScheduled,
    /// The scheduled weekly time matches now.
    TimeMatches,
    /// It does not.
    TimeDoesNotMatch,
    /// Manual rules never trigger by themselves.
    ManualRule,
    /// A due scheduled row is being executed.
    ScheduledRun,
    /// The device is turned off because its rule scheduled other hours today.
    UnscheduledHourOff,
}

/// The outcome of evaluating one rule at one instant.
#[derive(Clone, Copy, PartialEq, Eq, Structural, Debug)]
pub struct RuleEvaluation {
    pub rule_id: i64,
    pub should_trigger: bool,
    pub action: RuleAction,
    pub reason: EvalReason,
}

/// The moment an evaluation runs at, reduced to what the rules read.
#[derive(Clone, Copy, PartialEq, Eq, Structural, Debug)]
pub struct Instant {
    /// Seconds since the epoch.
    pub ts: i64,
    /// Minute of the day, 0 .. 1440.
    pub minute_of_day: u32,
    /// Day of the week, 0 = Monday .. 6 = Sunday.
    pub weekday: u8,
}

impl Instant {
    pub open spec fn wf(&self) -> bool {
        &&& valid_ts(self.ts as int)
        &&& self.minute_of_day < 1440
        &&& self.minute_of_day as int == (self.ts as int % 86400) / 60
        &&& self.weekday < 7
    }

    /// Derives the minute of day and weekday from a timestamp. Day zero of
    /// the epoch was a Thursday.
    pub fn from_ts(ts: i64) -> (r: Instant)
        requires
            valid_ts(ts as int),
        ensures
            r.wf(),
            r.ts == ts,
            r.weekday as int == ((ts as int / 86400) + 3) % 7,
    {
        let minute_of_day = ((ts % 86400) / 60) as u32;
        let weekday = (((ts / 86400) + 3) % 7) as u8;
        Instant { ts, minute_of_day, weekday }
    }
}

/// Whether a price triggers a threshold rule: strictly below or strictly
/// above, by the configured direction.
pub open spec fn spec_threshold_triggers(price: int, threshold: int, cmp: Comparison) -> bool {
    match cmp {
        Comparison::Below => price < threshold,
        Comparison::Above => price > threshold,
    }
}

/// Evaluates a price-threshold rule against the current price.
pub fn evaluate_price_threshold(rule: &Rule, current_price: Option<i64>) -> (r: RuleEvaluation)
    requires
        rule.rule_type == RuleType::PriceThreshold,
    ensures
        r.rule_id == rule.id,
        r.action == rule.action,
        match rule.spec_usable_config() {
            Some(RuleConfig::PriceThreshold { threshold, comparison }) => match current_price {
                Some(p) => r.should_trigger == spec_threshold_triggers(
                    p as int,
                    threshold as int,
                    comparison,
                ) && (r.reason == EvalReason::PastThreshold || r.reason
                    == EvalReason::NotPastThreshold),
                None => !r.should_trigger && r.reason == EvalReason::NoCurrentPrice,
            },
            _ => !r.should_trigger && r.reason == EvalReason::InvalidConfig,
        },
{
    match &rule.config {
        Some(RuleConfig::PriceThreshold { threshold, comparison }) => match current_price {
            Some(p) => {
                let triggers = match comparison {
                    Comparison::Below => p < *threshold,
                    Comparison::Above => p > *threshold,
                };
                RuleEvaluation {
                    rule_id: rule.id,
                    should_trigger: triggers,
                    action: rule.action,
                    reason: if triggers {
                        EvalReason::PastThreshold
                    } else {
                        EvalReason::NotPastThreshold
                    },
                }
            },
            None => RuleEvaluation {
                rule_id: rule.id,
                should_trigger: false,
                action: rule.action,
                reason: EvalReason::NoCurrentPrice,
            },
        },
        _ => RuleEvaluation {
            rule_id: rule.id,
            should_trigger: false,
            action: rule.action,
            reason: EvalReason::InvalidConfig,
        },
    }
}

/// Evaluates a time-schedule rule: it triggers on its scheduled days, during
/// the five minutes from its scheduled time.
pub fn evaluate_time_schedule(rule: &Rule, now: Instant) -> (r: RuleEvaluation)
    requires
        rule.rule_type == RuleType::TimeSchedule,
        now.wf(),
    ensures
        r.rule_id == rule.id,
        r.action == rule.action,
        match rule.spec_usable_config() {
            Some(RuleConfig::TimeSchedule { days, time_min, .. }) => match time_min {
                Some(t) => {
                    let day_ok = days@.contains(spec_weekday_day(now.weekday));
                    let time_ok = now.minute_of_day as int / 60 == t as int / 60 && t as int % 60
                        <= now.minute_of_day as int % 60 < t as int % 60 + 5;
                    r.should_trigger == (day_ok && time_ok) && (!day_ok ==> r.reason
                        == EvalReason::DayNotScheduled)
                },
                None => !r.should_trigger && r.reason == EvalReason::InvalidConfig,
            },
            _ => !r.should_trigger && r.reason == EvalReason::InvalidConfig,
        },
{
    match &rule.config {
        Some(RuleConfig::TimeSchedule { days, time_min, .. }) => match time_min {
            Some(t) => {
                let today = weekday_day(now.weekday);
                let mut day_ok = false;
                let mut i: usize = 0;
                while i < days.len()
                    invariant
                        0 <= i <= days@.len(),
                        day_ok == exists|j: int| 0 <= j < i && days@[j] == today,
                    decreases days@.len() - i,
                {
                    if days[i] == today {
                        day_ok = true;
                    }
                    i += 1;
                }
                proof {
                    assert(day_ok == days@.contains(today));
                }
                if !day_ok {
                    return RuleEvaluation {
                        rule_id: rule.id,
                        should_trigger: false,
                        action: rule.action,
                        reason: EvalReason::DayNotScheduled,
                    };
                }
                let t = *t;
                let time_ok = now.minute_of_day / 60 == t / 60 && t % 60 <= now.minute_of_day % 60
                    && now.minute_of_day % 60 < t % 60 + 5;
                RuleEvaluation {
                    rule_id: rule.id,
                    should_trigger: time_ok,
                    action: rule.action,
                    reason: if time_ok {
                        EvalReason::TimeMatches
                    } else {
                        EvalReason::TimeDoesNotMatch
                    },
                }
            },
            None => RuleEvaluation {
                rule_id: rule.id,
                should_trigger: false,
                action: rule.action,
                reason: EvalReason::InvalidConfig,
            },
        },
        _ => RuleEvaluation {
            rule_id: rule.id,
            should_trigger: false,
            action: rule.action,
            reason: EvalReason::InvalidConfig,
        },
    }
}

/// The day of the week that an `Instant::weekday` value names.
pub open spec fn spec_weekday_day(w: u8) -> crate::rules::Day {
    if w == 0 {
        crate::rules::Day::Mon
    } else if w == 1 {
        crate::rules::Day::Tue
    } else if w == 2 {
        crate::rules::Day::Wed
    } else if w == 3 {
        crate::rules::Day::Thu
    } else if w == 4 {
        crate::rules::Day::Fri
    } else if w == 5 {
        crate::rules::Day::Sat
    } else {
        crate::rules::Day::Sun
    }
}

fn weekday_day(w: u8) -> (r: crate::rules::Day)
    ensures
        r == spec_weekday_day(w),
{
    if w == 0 {
        crate::rules::Day::Mon
    } else if w == 1 {
        crate::rules::Day::Tue
    } else if w == 2 {
        crate::rules::Day::Wed
    } else if w == 3 {
        crate::rules::Day::Thu
    } else if w == 4 {
        crate::rules::Day::Fri
    } else if w == 5 {
        crate::rules::Day::Sat
    } else {
        crate::rules::Day::Sun
    }
}

/// Resolves the concrete command for an action: `Toggle` inverts the state
/// read before the action, and turns the device on when that state is
/// unknown.
pub fn resolve_action(action: RuleAction, state_before: &Option<DeviceState>) -> (r: RuleAction)
    ensures
        r == match action {
            RuleAction::TurnOn => RuleAction::TurnOn,
            RuleAction::TurnOff => RuleAction::TurnOff,
            RuleAction::Toggle => match state_before {
                Some(s) => if s.is_on {
                    RuleAction::TurnOff
                } else {
                    RuleAction::TurnOn
                },
                None => RuleAction::TurnOn,
            },
        },
        r != RuleAction::Toggle,
{
    match action {
        RuleAction::TurnOn => RuleAction::TurnOn,
        RuleAction::TurnOff => RuleAction::TurnOff,
        RuleAction::Toggle => match state_before {
            Some(s) => if s.is_on {
                RuleAction::TurnOff
            } else {
                RuleAction::TurnOn
            },
            None => RuleAction::TurnOn,
        },
    }
}

/// What to do after the first attempt of an action.
#[derive(Clone, Copy, PartialEq, Eq, Structural, Debug)]
pub enum AttemptDecision {
    /// The outcome stands, success or not.
    Accept,
    /// The failure was an authentication failure: refresh the credentials
    /// once and retry the action once.
    RefreshAndRetry,
}

/// Decides whether an attempt's outcome calls for the one credential
/// refresh. Exactly authentication failures do; everything else stands.
pub fn after_first_attempt(outcome: &Result<DeviceActionResult, ProviderError>) -> (r:
    AttemptDecision)
    ensures
        r == AttemptDecision::RefreshAndRetry <==> match outcome {
            Err(e) => e.spec_is_auth_error(),
            Ok(_) => false,
        },
{
    match outcome {
        Err(e) => if e.is_auth_error() {
            AttemptDecision::RefreshAndRetry
        } else {
            AttemptDecision::Accept
        },
        Ok(_) => AttemptDecision::Accept,
    }
}

/// Folds the outcome of the credential refresh: refreshed credentials are
/// used for the single retry; a refresh failure ends the attempt as an
/// authentication failure.
pub fn after_refresh(outcome: Result<String, ProviderError>) -> (r: Result<String, ProviderError>)
    ensures
        match outcome {
            Ok(creds) => r == Ok::<String, ProviderError>(creds),
            Err(e) => match r {
                Err(ProviderError::AuthenticationFailed(m)) => m@
                    == "Token expired and refresh failed: "@ + match e {
                    ProviderError::AuthenticationFailed(m2) => "Authentication failed: "@ + m2@,
                    ProviderError::DeviceNotFound(m2) => "Device not found: "@ + m2@,
                    ProviderError::ConnectionError(m2) => "Connection error: "@ + m2@,
                    ProviderError::RateLimited => "Rate limited by provider"@,
                    ProviderError::InvalidCredentials => "Invalid credentials"@,
                    ProviderError::Timeout => "Request timeout"@,
                    ProviderError::Unknown(m2) => "Unknown error: "@ + m2@,
                },
                _ => false,
            },
        },
{
    match outcome {
        Ok(creds) => Ok(creds),
        Err(e) => {
            let mut m = String::from_str("Token expired and refresh failed: ");
            let detail = e.message();
            m.append(detail.as_str());
            Err(ProviderError::AuthenticationFailed(m))
        },
    }
}

/// One line of the execution audit log.
#[derive(Clone, Debug)]
pub struct ExecutionResult {
    pub rule_id: i64,
    pub success: bool,
    pub error_message: Option<String>,
    /// Millionths of a euro per kilowatt-hour.
    pub price_at_execution: Option<i64>,
    pub device_state_before: Option<DeviceState>,
    pub device_state_after: Option<DeviceState>,
}

/// Folds a finished attempt into the result that is logged: a provider error
/// means a failed execution carrying the error's description, never a fault
/// that escapes to the caller.
pub fn finish_execution(
    rule_id: i64,
    outcome: Result<DeviceActionResult, ProviderError>,
    current_price: Option<i64>,
    state_before: Option<DeviceState>,
) -> (r: ExecutionResult)
    ensures
        r.rule_id == rule_id,
        r.price_at_execution == current_price,
        r.device_state_before == state_before,
        match outcome {
            Ok(res) => r.success == res.success && r.error_message == res.message
                && r.device_state_after == res.new_state,
            Err(_) => !r.success && r.device_state_after.is_none() && r.error_message.is_some(),
        },
{
    match outcome {
        Ok(res) => ExecutionResult {
            rule_id,
            success: res.success,
            error_message: res.message,
            price_at_execution: current_price,
            device_state_before: state_before,
            device_state_after: res.new_state,
        },
        Err(e) => ExecutionResult {
            rule_id,
            success: false,
            error_message: Some(e.message()),
            price_at_execution: current_price,
            device_state_before: state_before,
            device_state_after: None,
        },
    }
}

/// Seconds between a failed attempt and its next retry.
pub const RETRY_DELAY_SECS: i64 = 60;

/// Most attempts a scheduled row may consume before it is Failed.
pub const MAX_RETRIES: u32 = 5;

/// The next state of a scheduled row after one execution attempt: success
/// ends it Executed; a failure takes one more retry, until the fifth failure
/// parks it Failed. The retry count can never pass 5, and a row that is not
/// yet Failed always has retries left.
pub fn next_row_after_attempt(row: &ScheduledExecution, success: bool, now: i64) -> (r:
    ScheduledExecution)
    requires
        row_wf(*row),
        row.status == ExecStatus::Pending || row.status == ExecStatus::Retrying,
        valid_ts(now as int),
        now + 60 <= i64::MAX,
    ensures
        row_wf(r),
        r.rule_id == row.rule_id && r.scheduled_hour == row.scheduled_hour && r.expected_action
            == row.expected_action,
        success ==> r.status == ExecStatus::Executed && r.executed_at == Some(now)
            && r.retry_count == row.retry_count && r.next_retry_at.is_none(),
        !success ==> r.retry_count == row.retry_count + 1 && r.last_retry_at == Some(now),
        !success && row.retry_count + 1 >= 5 ==> r.status == ExecStatus::Failed
            && r.next_retry_at.is_none(),
        !success && row.retry_count + 1 < 5 ==> r.status == ExecStatus::Retrying
            && r.next_retry_at == Some((now + 60) as i64),
        r.retry_count <= 5,
        r.status != ExecStatus::Failed ==> r.retry_count < 5,
{
    if success {
        ScheduledExecution {
            status: ExecStatus::Executed,
            executed_at: Some(now),
            next_retry_at: None,
            ..*row
        }
    } else {
        let new_count = row.retry_count + 1;
        if new_count >= MAX_RETRIES {
            ScheduledExecution {
                status: ExecStatus::Failed,
                retry_count: new_count,
                last_retry_at: Some(now),
                next_retry_at: None,
                ..*row
            }
        } else {
            ScheduledExecution {
                status: ExecStatus::Retrying,
                retry_count: new_count,
                last_retry_at: Some(now),
                next_retry_at: Some(now + RETRY_DELAY_SECS),
                ..*row
            }
        }
    }
}

/// Applies `next_row_after_attempt` to row `i` of the store.
pub fn record_attempt(store: &mut ExecutionStore, i: usize, success: bool, now: i64)
    requires
        old(store).wf(),
        i < old(store)@.len(),
        old(store)@[i as int].status == ExecStatus::Pending || old(store)@[i as int].status
            == ExecStatus::Retrying,
        valid_ts(now as int),
        now + 60 <= i64::MAX,
    ensures
        final(store).wf(),
        final(store)@.len() == old(store)@.len(),
        forall|j: int| 0 <= j < old(store)@.len() && j != i ==> final(store)@[j] == old(store)@[j],
        ({
            let r = final(store)@[i as int];
            let row = old(store)@[i as int];
            &&& r.rule_id == row.rule_id && r.scheduled_hour == row.scheduled_hour
            &&& success ==> r.status == ExecStatus::Executed && r.executed_at == Some(now)
            &&& !success ==> r.retry_count == row.retry_count + 1
            &&& !success && row.retry_count + 1 >= 5 ==> r.status == ExecStatus::Failed
            &&& !success && row.retry_count + 1 < 5 ==> r.status == ExecStatus::Retrying
                && r.next_retry_at == Some((now + 60) as i64)
            &&& r.retry_count <= 5
            &&& r.status != ExecStatus::Failed ==> r.retry_count < 5
        }),
{
    let row = *store.row(i);
    let next = next_row_after_attempt(&row, success, now);
    store.replace_row(i, next);
}

/// No row of a well-formed store ever carries a retry count above 5, and a
/// row that has not reached Failed still has a retry left.
pub proof fn lemma_retry_count_bounded(rows: Seq<ScheduledExecution>)
    requires
        store_wf(rows),
    ensures
        forall|i: int| 0 <= i < rows.len() ==> (#[trigger] rows[i]).retry_count <= 5,
        forall|i: int|
            0 <= i < rows.len() && ((#[trigger] rows[i]).status == ExecStatus::Pending
                || rows[i].status == ExecStatus::Retrying) ==> rows[i].retry_count < 5,
{
}


/// The test for a point inside the half-open instant interval `[lo, hi)`.
pub open spec fn interval_pred(lo: int, hi: int) -> spec_fn(PricePoint) -> bool {
    |p: PricePoint| lo <= p.ts < hi
}

/// The points of `prices` inside `[lo, hi)`, in order.
pub fn interval_points(prices: &Vec<PricePoint>, lo: i64, hi: i64) -> (r: Vec<PricePoint>)
    requires
        valid_series(prices@),
    ensures
        r@ == prices@.filter(interval_pred(lo as int, hi as int)),
        valid_series(r@),
{
    let ghost pred = interval_pred(lo as int, hi as int);
    let mut out: Vec<PricePoint> = Vec::new();
    let mut i: usize = 0;
    proof {
        reveal(Seq::filter);
        assert(prices@.subrange(0, 0).filter(pred) =~= Seq::<PricePoint>::empty());
    }
    while i < prices.len()
        invariant
            0 <= i <= prices@.len(),
            pred == interval_pred(lo as int, hi as int),
            out@ == prices@.subrange(0, i as int).filter(pred),
        decreases prices@.len() - i,
    {
        let p = prices[i];
        let keep = lo <= p.ts && p.ts < hi;
        proof {
            lemma_filter_step(prices@, pred, i as int);
            assert(keep == pred(p));
        }
        if keep {
            out.push(p);
        }
        i += 1;
    }
    proof {
        assert(prices@.subrange(0, prices@.len() as int) =~= prices@);
        lemma_filter_series(prices@, pred);
    }
    out
}

/// Total price of a run of points.
pub open spec fn sum_prices(s: Seq<PricePoint>) -> int
    decreases s.len(),
{
    if s.len() == 0 {
        0
    } else {
        sum_prices(s.drop_last()) + s.last().price
    }
}

pub proof fn lemma_sum_prices_bound(s: Seq<PricePoint>)
    requires
        forall|i: int| 0 <= i < s.len() ==> -0x7FFF_FFFF <= (#[trigger] s[i]).price <= 0x7FFF_FFFF,
    ensures
        -0x7FFF_FFFF * s.len() <= sum_prices(s) <= 0x7FFF_FFFF * s.len(),
    decreases s.len(),
{
    if s.len() > 0 {
        lemma_sum_prices_bound(s.drop_last());
    }
}

/// A selection of a contiguous block: empty when fewer than `n` candidates
/// exist; otherwise the earliest run of `n` consecutive candidates whose
/// total price no other such run undercuts.
pub open spec fn contiguous_selection_ok(cand: Seq<PricePoint>, n: nat, sel: Seq<PricePoint>) -> bool {
    if cand.len() < n {
        sel.len() == 0
    } else {
        exists|st: int|
            0 <= st <= cand.len() - n && sel == #[trigger] cand.subrange(st, st + n) && (forall|
                o: int,
            |
                0 <= o <= cand.len() - n ==> sum_prices(#[trigger] cand.subrange(o, o + n))
                    >= sum_prices(cand.subrange(st, st + n))) && (forall|o: int|
                0 <= o < st ==> sum_prices(#[trigger] cand.subrange(o, o + n)) > sum_prices(
                    cand.subrange(st, st + n),
                ))
    }
}

/// Sums `cand[st .. st + n]` exactly.
fn window_sum(cand: &Vec<PricePoint>, st: usize, n: usize) -> (r: i128)
    requires
        valid_series(cand@),
        st + n <= cand@.len(),
    ensures
        r == sum_prices(cand@.subrange(st as int, st + n)),
{
    let clen = cand.len();
    let mut acc: i128 = 0;
    let mut j: usize = 0;
    proof {
        assert(cand@.subrange(st as int, st as int) =~= Seq::<PricePoint>::empty());
    }
    while j < n
        invariant
            valid_series(cand@),
            0 <= j <= n,
            st + n <= clen == cand@.len(),
            acc == sum_prices(cand@.subrange(st as int, st + j)),
        decreases n - j,
    {
        proof {
            let cur = cand@.subrange(st as int, st + j + 1);
            assert(cur.drop_last() =~= cand@.subrange(st as int, st + j));
            assert(cur.last() == cand@[st + j]);
            lemma_sum_prices_bound(cand@.subrange(st as int, st + j));
            assert(cand@.subrange(st as int, st + j).len() == j);
            assert(0x7FFF_FFFF * (j as int) <= 0x7FFF_FFFF * 0xFFFF_FFFF_FFFF_FFFF)
                by (nonlinear_arith)
                requires
                    0 <= j <= 0xFFFF_FFFF_FFFF_FFFFu64,
            ;
            assert(-0x7FFF_FFFF * (j as int) >= -0x7FFF_FFFF * 0xFFFF_FFFF_FFFF_FFFF)
                by (nonlinear_arith)
                requires
                    0 <= j <= 0xFFFF_FFFF_FFFF_FFFFu64,
            ;
        }
        acc = acc + (cand[st + j].price as i128);
        j += 1;
    }
    acc
}

/// The contiguous block of `n` candidates with the lowest total price, or
/// nothing when fewer than `n` candidates exist. Among equally cheap blocks
/// the earliest wins.
pub fn find_contiguous_cheapest(cand: &Vec<PricePoint>, n: usize) -> (r: Vec<PricePoint>)
    requires
        valid_series(cand@),
    ensures
        contiguous_selection_ok(cand@, n as nat, r@),
{
    if cand.len() < n {
        let r: Vec<PricePoint> = Vec::new();
        return r;
    }
    if n == 0 {
        let r: Vec<PricePoint> = Vec::new();
        proof {
            assert(r@ =~= cand@.subrange(0int, 0int + 0));
            assert forall|o: int| 0 <= o <= cand@.len() implies sum_prices(
                #[trigger] cand@.subrange(o, o + 0),
            ) >= sum_prices(cand@.subrange(0int, 0int + 0)) by {
                assert(cand@.subrange(o, o + 0) =~= Seq::<PricePoint>::empty());
                assert(cand@.subrange(0int, 0int + 0) =~= Seq::<PricePoint>::empty());
            }
            assert(contiguous_selection_ok(cand@, 0nat, r@));
        }
        return r;
    }
    let last_start = cand.len() - n;
    let mut best_start: usize = 0;
    let mut best_sum: i128 = window_sum(cand, 0, n);
    let mut i: usize = 1;
    while i <= last_start
        invariant
            valid_series(cand@),
            1 <= n <= cand@.len(),
            cand@.len() == cand.len(),
            last_start == cand@.len() - n,
            0 <= best_start <= last_start,
            1 <= i <= last_start + 1,
            best_start < i,
            best_sum == sum_prices(cand@.subrange(best_start as int, best_start + n)),
            forall|o: int|
                0 <= o < i ==> sum_prices(#[trigger] cand@.subrange(o, o + n)) >= best_sum,
            forall|o: int|
                0 <= o < best_start ==> sum_prices(#[trigger] cand@.subrange(o, o + n)) > best_sum,
        decreases last_start + 1 - i,
    {
        let s = window_sum(cand, i, n);
        if s < best_sum {
            best_sum = s;
            best_start = i;
        }
        i += 1;
    }
    let mut out: Vec<PricePoint> = Vec::new();
    let mut j: usize = 0;
    while j < n
        invariant
            n <= cand@.len(),
            cand@.len() == cand.len(),
            best_start + n <= cand@.len(),
            0 <= j <= n,
            out@ =~= cand@.subrange(best_start as int, best_start + j),
        decreases n - j,
    {
        out.push(cand[best_start + j]);
        proof {
            assert(out@ =~= cand@.subrange(best_start as int, best_start + j + 1));
        }
        j += 1;
    }
    proof {
        assert(out@ =~= cand@.subrange(best_start as int, best_start + n));
    }
    out
}


/// Start of the instant range a cheapest-hours window covers, relative to
/// the day of `ts`.
pub open spec fn eval_window_lo(ts: int, w: Option<TimeWindow>) -> int {
    let day_start = ts - ts % 86400;
    match w {
        Some(w) => day_start + w.start_min * 60,
        None => day_start,
    }
}

/// End (exclusive) of that range: on the same day when the window does not
/// cross midnight, otherwise on the next day.
pub open spec fn eval_window_hi(ts: int, w: Option<TimeWindow>) -> int {
    let day_start = ts - ts % 86400;
    match w {
        Some(w) => if w.end_min > w.start_min {
            day_start + w.end_min * 60
        } else {
            day_start + 86400 + w.end_min * 60
        },
        None => day_start + 86400,
    }
}

/// Whether the selection holds a point of the hour of day that `ts` is in.
pub open spec fn sel_hits_hour(sel: Seq<PricePoint>, ts: int) -> bool {
    exists|i: int|
        0 <= i < sel.len() && spec_hour_of_day((#[trigger] sel[i]).ts as int) == spec_hour_of_day(
            ts,
        )
}

/// What evaluating a cheapest-hours rule promises: outside the window it
/// never triggers; inside, it triggers exactly when the current hour of day
/// belongs to a valid cheapest selection over the window's price points.
pub open spec fn cheapest_eval_ok(
    rule: Rule,
    now: Instant,
    prices: Seq<PricePoint>,
    r: RuleEvaluation,
) -> bool {
    match rule.spec_usable_config() {
        Some(RuleConfig::CheapestHours { hours_needed, window, contiguous }) => {
            let in_w = match window {
                Some(w) => w.spec_contains_minute(now.minute_of_day as int),
                None => true,
            };
            let cand = prices.filter(
                interval_pred(eval_window_lo(now.ts as int, window), eval_window_hi(now.ts as int, window)),
            );
            &&& (!in_w ==> !r.should_trigger && r.reason == EvalReason::OutsideWindow)
            &&& (in_w && !contiguous ==> exists|sel: Seq<PricePoint>|
                #[trigger] cheapest_selection_ok(cand, hours_needed as nat, sel) && (
                r.should_trigger <==> sel_hits_hour(sel, now.ts as int)))
            &&& (in_w && contiguous ==> exists|sel: Seq<PricePoint>|
                #[trigger] contiguous_selection_ok(cand, hours_needed as nat, sel) && (
                r.should_trigger <==> sel_hits_hour(sel, now.ts as int)))
            &&& (in_w ==> (r.reason == EvalReason::CheapHour <==> r.should_trigger) && (r.reason
                == EvalReason::NotCheapHour <==> !r.should_trigger))
        },
        _ => !r.should_trigger && r.reason == EvalReason::InvalidConfig,
    }
}

/// Whether any selected point falls in the hour of day of `now_ts`.
fn hits_current_hour(sel: &Vec<PricePoint>, now_ts: i64) -> (r: bool)
    requires
        valid_ts(now_ts as int),
        forall|i: int| 0 <= i < sel@.len() ==> (#[trigger] sel@[i]).ts >= 0,
    ensures
        r == sel_hits_hour(sel@, now_ts as int),
{
    let now_hour = (now_ts % 86400) / 3600;
    let mut i: usize = 0;
    while i < sel.len()
        invariant
            0 <= i <= sel@.len(),
            now_hour == spec_hour_of_day(now_ts as int),
            forall|j: int| 0 <= j < sel@.len() ==> (#[trigger] sel@[j]).ts >= 0,
            forall|j: int|
                0 <= j < i ==> spec_hour_of_day((#[trigger] sel@[j]).ts as int)
                    != spec_hour_of_day(now_ts as int),
        decreases sel@.len() - i,
    {
        if (sel[i].ts % 86400) / 3600 == now_hour {
            return true;
        }
        i += 1;
    }
    false
}

/// Evaluates a cheapest-hours rule: inside its window, it triggers exactly
/// when the current hour is one of the `hours_needed` cheapest (or lies in
/// the cheapest contiguous block) of the window's prices.
pub fn evaluate_cheapest_hours(rule: &Rule, now: Instant, prices: &Vec<PricePoint>) -> (r:
    RuleEvaluation)
    requires
        rule.rule_type == RuleType::CheapestHours,
        rule.wf(),
        now.wf(),
        valid_series(prices@),
    ensures
        r.rule_id == rule.id,
        r.action == rule.action,
        cheapest_eval_ok(*rule, now, prices@, r),
{
    match &rule.config {
        Some(RuleConfig::CheapestHours { hours_needed, window, contiguous }) => {
            let in_w = match window {
                Some(w) => w.contains_minute(now.minute_of_day),
                None => true,
            };
            if !in_w {
                return RuleEvaluation {
                    rule_id: rule.id,
                    should_trigger: false,
                    action: rule.action,
                    reason: EvalReason::OutsideWindow,
                };
            }
            let day_start = now.ts - now.ts % 86400;
            let (lo, hi): (i64, i64) = match window {
                Some(w) => (
                    day_start + (w.start_min as i64) * 60,
                    if w.end_min > w.start_min {
                        day_start + (w.end_min as i64) * 60
                    } else {
                        day_start + 86400 + (w.end_min as i64) * 60
                    },
                ),
                None => (day_start, day_start + 86400),
            };
            let cand = interval_points(prices, lo, hi);
            let sel = if *contiguous {
                find_contiguous_cheapest(&cand, *hours_needed as usize)
            } else {
                cheapest_hours(&cand, *hours_needed as usize)
            };
            proof {
                assert(lo as int == eval_window_lo(now.ts as int, *window));
                assert(hi as int == eval_window_hi(now.ts as int, *window));
                assert(cand@ == prices@.filter(
                    interval_pred(
                        eval_window_lo(now.ts as int, *window),
                        eval_window_hi(now.ts as int, *window),
                    ),
                ));
                if *contiguous {
                    assert(contiguous_selection_ok(cand@, *hours_needed as nat, sel@));
                } else {
                    assert(cheapest_selection_ok(cand@, *hours_needed as nat, sel@));
                }
                assert forall|i: int| 0 <= i < sel@.len() implies (#[trigger] sel@[i]).ts >= 0 by {
                    if *contiguous {
                    } else {
                        assert(cand@.contains(sel@[i]));
                        let w = choose|w: int| 0 <= w < cand@.len() && cand@[w] == sel@[i];
                    }
                }
            }
            let hit = hits_current_hour(&sel, now.ts);
            RuleEvaluation {
                rule_id: rule.id,
                should_trigger: hit,
                action: rule.action,
                reason: if hit {
                    EvalReason::CheapHour
                } else {
                    EvalReason::NotCheapHour
                },
            }
        },
        _ => RuleEvaluation {
            rule_id: rule.id,
            should_trigger: false,
            action: rule.action,
            reason: EvalReason::InvalidConfig,
        },
    }
}


/// What evaluating a price-threshold rule promises.
pub open spec fn threshold_eval_ok(rule: Rule, current_price: Option<i64>, r: RuleEvaluation) -> bool {
    match rule.spec_usable_config() {
        Some(RuleConfig::PriceThreshold { threshold, comparison }) => match current_price {
            Some(p) => r.should_trigger == spec_threshold_triggers(
                p as int,
                threshold as int,
                comparison,
            ) && (r.reason == EvalReason::PastThreshold || r.reason
                == EvalReason::NotPastThreshold),
            None => !r.should_trigger && r.reason == EvalReason::NoCurrentPrice,
        },
        _ => !r.should_trigger && r.reason == EvalReason::InvalidConfig,
    }
}

/// What evaluating a time-schedule rule promises.
pub open spec fn time_schedule_eval_ok(rule: Rule, now: Instant, r: RuleEvaluation) -> bool {
    match rule.spec_usable_config() {
        Some(RuleConfig::TimeSchedule { days, time_min, .. }) => match time_min {
            Some(t) => {
                let day_ok = days@.contains(spec_weekday_day(now.weekday));
                let time_ok = now.minute_of_day as int / 60 == t as int / 60 && t as int % 60
                    <= now.minute_of_day as int % 60 < t as int % 60 + 5;
                r.should_trigger == (day_ok && time_ok) && (!day_ok ==> r.reason
                    == EvalReason::DayNotScheduled)
            },
            None => !r.should_trigger && r.reason == EvalReason::InvalidConfig,
        },
        _ => !r.should_trigger && r.reason == EvalReason::InvalidConfig,
    }
}

/// Evaluates one rule at one instant against the current price and the
/// price points around it. Manual rules never trigger by themselves.
pub fn evaluate_rule(
    rule: &Rule,
    now: Instant,
    current_price: Option<i64>,
    prices: &Vec<PricePoint>,
) -> (r: RuleEvaluation)
    requires
        rule.wf(),
        now.wf(),
        valid_series(prices@),
    ensures
        r.rule_id == rule.id,
        r.action == rule.action,
        match rule.rule_type {
            RuleType::PriceThreshold => threshold_eval_ok(*rule, current_price, r),
            RuleType::CheapestHours => cheapest_eval_ok(*rule, now, prices@, r),
            RuleType::TimeSchedule => time_schedule_eval_ok(*rule, now, r),
            RuleType::Manual => !r.should_trigger && r.reason == EvalReason::ManualRule,
        },
{
    match rule.rule_type {
        RuleType::PriceThreshold => evaluate_price_threshold(rule, current_price),
        RuleType::CheapestHours => evaluate_cheapest_hours(rule, now, prices),
        RuleType::TimeSchedule => evaluate_time_schedule(rule, now),
        RuleType::Manual => RuleEvaluation {
            rule_id: rule.id,
            should_trigger: false,
            action: rule.action,
            reason: EvalReason::ManualRule,
        },
    }
}

/// A row due for execution in the hour starting at `hour_ts`.
pub open spec fn due_row(row: ScheduledExecution, hour_ts: i64) -> bool {
    row.status == ExecStatus::Pending && row.scheduled_hour == hour_ts
}

/// The rules whose device is turned off during an hour they did not
/// schedule: enabled turn-on rules that have no due row this hour but do
/// have some row within the day.
pub open spec fn auto_off_pred(
    rows: Seq<ScheduledExecution>,
    hour_ts: i64,
    day_start: i64,
    day_end: i64,
) -> spec_fn(Rule) -> bool {
    |rl: Rule|
        rl.enabled && rl.action == RuleAction::TurnOn && !(exists|i: int|
            0 <= i < rows.len() && due_row(#[trigger] rows[i], hour_ts) && rows[i].rule_id
                == rl.id) && (exists|i: int|
            0 <= i < rows.len() && (#[trigger] rows[i]).rule_id == rl.id && day_start
                <= rows[i].scheduled_hour <= day_end)
}

/// Whether the store holds a due row of this rule for this hour.
fn has_due_row(store: &ExecutionStore, rule_id: i64, hour_ts: i64) -> (r: bool)
    ensures
        r == exists|i: int|
            0 <= i < store@.len() && due_row(#[trigger] store@[i], hour_ts) && store@[i].rule_id
                == rule_id,
{
    let n = store.len();
    let mut i: usize = 0;
    while i < n
        invariant
            0 <= i <= n == store@.len(),
            forall|j: int|
                0 <= j < i ==> !(due_row(#[trigger] store@[j], hour_ts) && store@[j].rule_id
                    == rule_id),
        decreases n - i,
    {
        let row = store.row(i);
        if row.rule_id == rule_id && row.scheduled_hour == hour_ts && matches!(
            row.status,
            ExecStatus::Pending,
        ) {
            return true;
        }
        i += 1;
    }
    false
}

/// Whether the store holds any row of this rule within `[day_start, day_end]`.
fn has_row_in_day(store: &ExecutionStore, rule_id: i64, day_start: i64, day_end: i64) -> (r: bool)
    ensures
        r == exists|i: int|
            0 <= i < store@.len() && (#[trigger] store@[i]).rule_id == rule_id && day_start
                <= store@[i].scheduled_hour <= day_end,
{
    let n = store.len();
    let mut i: usize = 0;
    while i < n
        invariant
            0 <= i <= n == store@.len(),
            forall|j: int|
                0 <= j < i ==> !((#[trigger] store@[j]).rule_id == rule_id && day_start
                    <= store@[j].scheduled_hour <= day_end),
        decreases n - i,
    {
        let row = store.row(i);
        if row.rule_id == rule_id && day_start <= row.scheduled_hour && row.scheduled_hour
            <= day_end {
            return true;
        }
        i += 1;
    }
    false
}

/// Plans one hour of scheduled work: the indexes of the rows due in the hour
/// starting at `hour_ts` (in store order), and the ids of the enabled
/// turn-on rules that are not due this hour yet scheduled other hours of the
/// day — their devices are turned off.
pub fn plan_for_hour(
    store: &ExecutionStore,
    all_rules: &Vec<Rule>,
    hour_ts: i64,
    day_start: i64,
    day_end: i64,
) -> (r: (Vec<usize>, Vec<i64>))
    ensures
        ({
            let (due, off) = r;
            &&& forall|k: int|
                0 <= k < due@.len() ==> (#[trigger] due@[k]) < store@.len() && due_row(
                    store@[due@[k] as int],
                    hour_ts,
                )
            &&& forall|i: int|
                0 <= i < store@.len() && due_row(#[trigger] store@[i], hour_ts) ==> due@.contains(
                    i as usize,
                )
            &&& forall|a: int, b: int| 0 <= a < b < due@.len() ==> due@[a] < due@[b]
            &&& off@ == all_rules@.filter(
                auto_off_pred(store@, hour_ts, day_start, day_end),
            ).map_values(|rl: Rule| rl.id)
        }),
{
    let mut due: Vec<usize> = Vec::new();
    let n = store.len();
    let mut i: usize = 0;
    while i < n
        invariant
            0 <= i <= n == store@.len(),
            forall|k: int|
                0 <= k < due@.len() ==> (#[trigger] due@[k]) < i && due_row(
                    store@[due@[k] as int],
                    hour_ts,
                ),
            forall|j: int|
                0 <= j < i && due_row(#[trigger] store@[j], hour_ts) ==> due@.contains(j as usize),
            forall|a: int, b: int| 0 <= a < b < due@.len() ==> due@[a] < due@[b],
        decreases n - i,
    {
        let row = store.row(i);
        let ghost old_due = due@;
        if row.scheduled_hour == hour_ts && matches!(row.status, ExecStatus::Pending) {
            due.push(i);
        }
        proof {
            assert forall|j: int| 0 <= j < i + 1 && due_row(#[trigger] store@[j], hour_ts) implies
                due@.contains(j as usize) by {
                if j < i {
                    assert(old_due.contains(j as usize));
                    let k = choose|k: int| 0 <= k < old_due.len() && old_due[k] == j as usize;
                    assert(due@[k] == j as usize);
                } else {
                    assert(due@[due@.len() - 1] == i);
                }
            }
        }
        i += 1;
    }
    let ghost pred = auto_off_pred(store@, hour_ts, day_start, day_end);
    let mut off: Vec<i64> = Vec::new();
    let mut k: usize = 0;
    proof {
        reveal(Seq::filter);
        assert(all_rules@.subrange(0, 0).filter(pred) =~= Seq::<Rule>::empty());
        assert(off@ =~= all_rules@.subrange(0, 0).filter(pred).map_values(|rl: Rule| rl.id));
    }
    while k < all_rules.len()
        invariant
            0 <= k <= all_rules@.len(),
            pred == auto_off_pred(store@, hour_ts, day_start, day_end),
            off@ == all_rules@.subrange(0, k as int).filter(pred).map_values(|rl: Rule| rl.id),
        decreases all_rules@.len() - k,
    {
        let rl = &all_rules[k];
        let is_off = rl.enabled && matches!(rl.action, RuleAction::TurnOn) && !has_due_row(
            store,
            rl.id,
            hour_ts,
        ) && has_row_in_day(store, rl.id, day_start, day_end);
        proof {
            lemma_filter_step(all_rules@, pred, k as int);
            assert(is_off == pred(all_rules@[k as int]));
        }
        if is_off {
            off.push(rl.id);
            proof {
                assert(off@ =~= all_rules@.subrange(0, k + 1).filter(pred).map_values(
                    |rl2: Rule| rl2.id,
                ));
            }
        } else {
            proof {
                assert(off@ =~= all_rules@.subrange(0, k + 1).filter(pred).map_values(
                    |rl2: Rule| rl2.id,
                ));
            }
        }
        k += 1;
    }
    proof {
        assert(all_rules@.subrange(0, all_rules@.len() as int) =~= all_rules@);
    }
    (due, off)
}


/// One immutable audit row, written for every attempt.
#[derive(Clone, Debug)]
pub struct ExecutionLogEntry {
    pub rule_id: i64,
    pub action_taken: RuleAction,
    pub success: bool,
    pub error_message: Option<String>,
    /// Millionths of a euro per kilowatt-hour.
    pub price_at_execution: Option<i64>,
    pub device_state_before: Option<DeviceState>,
    pub device_state_after: Option<DeviceState>,
}

/// Builds the audit row of one finished attempt.
pub fn log_entry_of(result: &ExecutionResult, evaluation: &RuleEvaluation) -> (r: ExecutionLogEntry)
    ensures
        r.rule_id == result.rule_id,
        r.action_taken == evaluation.action,
        r.success == result.success,
        r.error_message == result.error_message,
        r.price_at_execution == result.price_at_execution,
        r.device_state_before == result.device_state_before,
        r.device_state_after == result.device_state_after,
{
    ExecutionLogEntry {
        rule_id: result.rule_id,
        action_taken: evaluation.action,
        success: result.success,
        error_message: result.error_message.clone(),
        price_at_execution: result.price_at_execution,
        device_state_before: result.device_state_before,
        device_state_after: result.device_state_after,
    }
}


/// The failed results of a run.
pub open spec fn failed_pred() -> spec_fn(ExecutionResult) -> bool {
    |r: ExecutionResult| !r.success
}

/// The successful results of a run.
pub open spec fn succeeded_pred() -> spec_fn(ExecutionResult) -> bool {
    |r: ExecutionResult| r.success
}

/// The operator-visible summary of one run: how many rules executed, and of
/// those how many succeeded and how many failed.
pub fn run_summary(results: &Vec<ExecutionResult>) -> (r: (usize, usize, usize))
    ensures
        r.0 == results@.len(),
        r.1 == results@.filter(succeeded_pred()).len(),
        r.2 == results@.filter(failed_pred()).len(),
        r.0 == r.1 + r.2,
{
    let ghost sp = succeeded_pred();
    let ghost fp = failed_pred();
    let mut successful: usize = 0;
    let mut failed: usize = 0;
    let mut i: usize = 0;
    proof {
        reveal(Seq::filter);
        assert(results@.subrange(0, 0).filter(sp) =~= Seq::<ExecutionResult>::empty());
        assert(results@.subrange(0, 0).filter(fp) =~= Seq::<ExecutionResult>::empty());
    }
    while i < results.len()
        invariant
            0 <= i <= results@.len(),
            sp == succeeded_pred(),
            fp == failed_pred(),
            successful == results@.subrange(0, i as int).filter(sp).len(),
            failed == results@.subrange(0, i as int).filter(fp).len(),
            successful + failed == i,
        decreases results@.len() - i,
    {
        proof {
            lemma_filter_step(results@, sp, i as int);
            lemma_filter_step(results@, fp, i as int);
        }
        if results[i].success {
            successful += 1;
        } else {
            failed += 1;
        }
        i += 1;
    }
    proof {
        assert(results@.subrange(0, results@.len() as int) =~= results@);
    }
    (results.len(), successful, failed)
}

} // verus!
