//! Turning a rule and a price series into concrete scheduled hours, and the
//! idempotent store of scheduled executions.
//!
//! For a calendar date, each enabled rule contributes a set of hour-aligned
//! timestamps. A window whose start hour is greater than its end hour crosses
//! midnight: it draws evening hours from the date itself and morning hours
//! from the next day, whose prices may not be published yet — whatever is
//! present is used.

use vstd::prelude::*;
use crate::clock::{valid_day, valid_ts, spec_day_of, spec_hour_of_day, spec_day_hour_ts};
use crate::seq_facts::{lemma_filter_step, lemma_filter_subset};
use crate::prices::{
    PricePoint, valid_series, valid_point, has_hour, distinct_hours, lex_at_most, cheapest_hours,
};
use crate::rules::{Rule, RuleConfig, RuleType, RuleAction, Comparison, TimeWindow};

verus! {

/// Every point of `s` lies within day `day`.
pub open spec fn series_in_day(s: Seq<PricePoint>, day: int) -> bool {
    forall|i: int| 0 <= i < s.len() ==> spec_day_of(#[trigger] s[i].ts as int) == day
}

/// Filtering a well-formed series leaves a well-formed series whose points
/// still all come from the unfiltered series.
pub proof fn lemma_filter_series(s: Seq<PricePoint>, pred: spec_fn(PricePoint) -> bool)
    requires
        valid_series(s),
    ensures
        valid_series(s.filter(pred)),
        forall|i: int| 0 <= i < s.filter(pred).len() ==> s.contains(#[trigger] s.filter(pred)[i]),
    decreases s.len(),
{
    reveal(Seq::filter);
    lemma_filter_subset(s, pred);
    if s.len() > 0 {
        assert(valid_series(s.drop_last()));
        lemma_filter_series(s.drop_last(), pred);
        lemma_filter_subset(s.drop_last(), pred);
        let f = s.filter(pred);
        let fd = s.drop_last().filter(pred);
        assert forall|i: int, j: int| 0 <= i < j < f.len() implies f[i].ts < f[j].ts by {
            if j < fd.len() {
                assert(f[i] == fd[i] && f[j] == fd[j]);
            } else {
                assert(f[j] == s.last());
                assert(f[i] == fd[i]);
                assert(s.drop_last().contains(fd[i]));
                let w = choose|w: int|
                    0 <= w < s.drop_last().len() && s.drop_last()[w] == fd[i];
                assert(s[w] == fd[i] && w < s.len() - 1);
            }
        }
    }
}

/// Appends to `out` the points of `s` that satisfy the executable test
/// mirrored by `pred`.
fn filter_points(s: &Vec<PricePoint>, w: TimeWindow, mode: u8) -> (r: Vec<PricePoint>)
    requires
        valid_series(s@),
        mode == 0 || mode == 1 || mode == 2,
    ensures
        r@ == s@.filter(window_pred(w, mode)),
{
    let ghost pred = window_pred(w, mode);
    let mut out: Vec<PricePoint> = Vec::new();
    let mut i: usize = 0;
    proof {
        reveal(Seq::filter);
        assert(s@.subrange(0, 0).filter(pred) =~= Seq::<PricePoint>::empty());
    }
    while i < s.len()
        invariant
            valid_series(s@),
            0 <= i <= s@.len(),
            pred == window_pred(w, mode),
            mode == 0 || mode == 1 || mode == 2,
            out@ == s@.subrange(0, i as int).filter(pred),
        decreases s@.len() - i,
    {
        let p = s[i];
        let h = ((p.ts % 86400) / 3600) as u32;
        let keep = if mode == 0 {
            w.start_min / 60 <= h && h <= w.end_min / 60
        } else if mode == 1 {
            h >= w.start_min / 60
        } else {
            h <= w.end_min / 60
        };
        proof {
            lemma_filter_step(s@, pred, i as int);
            assert(valid_point(s@[i as int]));
            assert(h == spec_hour_of_day(p.ts as int));
            assert(keep == pred(p));
        }
        if keep {
            out.push(p);
        }
        i += 1;
    }
    proof {
        assert(s@.subrange(0, s@.len() as int) =~= s@);
    }
    out
}

/// The point tests a window imposes: both bounds, only the start bound (the
/// evening side of a midnight-crossing window), or only the end bound (its
/// morning side). Hours are compared inclusively at both ends.
pub open spec fn window_pred(w: TimeWindow, mode: u8) -> spec_fn(PricePoint) -> bool {
    if mode == 0 {
        |p: PricePoint|
            p.ts >= 0 && w.start_hour() <= spec_hour_of_day(p.ts as int) && spec_hour_of_day(
                p.ts as int,
            ) <= w.end_hour()
    } else if mode == 1 {
        |p: PricePoint| p.ts >= 0 && spec_hour_of_day(p.ts as int) >= w.start_hour()
    } else {
        |p: PricePoint| p.ts >= 0 && spec_hour_of_day(p.ts as int) <= w.end_hour()
    }
}

/// The price points a cheapest-hours rule chooses from: the whole date
/// without a window; with one, the date's hours inside it — plus, when the
/// window crosses midnight, the next day's morning hours.
pub open spec fn cheapest_candidates(
    w: Option<TimeWindow>,
    today: Seq<PricePoint>,
    tomorrow: Seq<PricePoint>,
) -> Seq<PricePoint> {
    match w {
        None => today,
        Some(w) => if w.start_hour() > w.end_hour() {
            today.filter(window_pred(w, 1)) + tomorrow.filter(window_pred(w, 2))
        } else {
            today.filter(window_pred(w, 0))
        },
    }
}

/// Builds the candidate series for a cheapest-hours rule.
pub fn collect_candidates(
    w: Option<TimeWindow>,
    today: &Vec<PricePoint>,
    tomorrow: &Vec<PricePoint>,
    day: i64,
) -> (r: Vec<PricePoint>)
    requires
        valid_series(today@),
        valid_series(tomorrow@),
        series_in_day(today@, day as int),
        series_in_day(tomorrow@, day as int + 1),
    ensures
        r@ == cheapest_candidates(w, today@, tomorrow@),
        valid_series(r@),
{
    match w {
        None => {
            let mut out: Vec<PricePoint> = Vec::new();
            let mut i: usize = 0;
            while i < today.len()
                invariant
                    0 <= i <= today@.len(),
                    out@ =~= today@.subrange(0, i as int),
                decreases today@.len() - i,
            {
                out.push(today[i]);
                i += 1;
            }
            proof {
                assert(out@ =~= today@);
            }
            out
        },
        Some(w) => {
            if w.start_min / 60 > w.end_min / 60 {
                let mut evening = filter_points(today, w, 1);
                let morning = filter_points(tomorrow, w, 2);
                proof {
                    lemma_filter_series(today@, window_pred(w, 1));
                    lemma_filter_series(tomorrow@, window_pred(w, 2));
                    assert forall|a: int, b: int|
                        0 <= a < evening@.len() && 0 <= b < morning@.len() implies evening@[a].ts
                        < morning@[b].ts by {
                        assert(today@.contains(evening@[a]));
                        assert(tomorrow@.contains(morning@[b]));
                        let u = choose|u: int| 0 <= u < today@.len() && today@[u] == evening@[a];
                        let v = choose|v: int|
                            0 <= v < tomorrow@.len() && tomorrow@[v] == morning@[b];
                        assert(spec_day_of(today@[u].ts as int) == day as int);
                        assert(spec_day_of(tomorrow@[v].ts as int) == day as int + 1);
                    };
                }
                let ghost pre = evening@;
                let mut j: usize = 0;
                while j < morning.len()
                    invariant
                        0 <= j <= morning@.len(),
                        evening@ =~= pre + morning@.subrange(0, j as int),
                    decreases morning@.len() - j,
                {
                    evening.push(morning[j]);
                    j += 1;
                }
                proof {
                    assert(evening@ =~= pre + morning@);
                    assert(valid_series(evening@)) by {
                        assert(forall|i: int|
                            0 <= i < evening@.len() ==> valid_point(#[trigger] evening@[i]));
                    };
                }
                evening
            } else {
                let out = filter_points(today, w, 0);
                proof {
                    lemma_filter_series(today@, window_pred(w, 0));
                }
                out
            }
        },
    }
}

/// The point test a price-threshold rule imposes.
pub open spec fn threshold_pred(threshold: i64, comparison: Comparison) -> spec_fn(
    PricePoint,
) -> bool {
    match comparison {
        Comparison::Below => |p: PricePoint| p.price <= threshold,
        Comparison::Above => |p: PricePoint| p.price >= threshold,
    }
}

/// Today's points that satisfy a price threshold.
pub fn threshold_points(today: &Vec<PricePoint>, threshold: i64, comparison: Comparison) -> (r:
    Vec<PricePoint>)
    ensures
        r@ == today@.filter(threshold_pred(threshold, comparison)),
{
    let ghost pred = threshold_pred(threshold, comparison);
    let mut out: Vec<PricePoint> = Vec::new();
    let mut i: usize = 0;
    proof {
        reveal(Seq::filter);
        assert(today@.subrange(0, 0).filter(pred) =~= Seq::<PricePoint>::empty());
    }
    while i < today.len()
        invariant
            0 <= i <= today@.len(),
            pred == threshold_pred(threshold, comparison),
            out@ == today@.subrange(0, i as int).filter(pred),
        decreases today@.len() - i,
    {
        let p = today[i];
        let keep = match comparison {
            Comparison::Below => p.price <= threshold,
            Comparison::Above => p.price >= threshold,
        };
        proof {
            lemma_filter_step(today@, pred, i as int);
            assert(keep == pred(p));
        }
        if keep {
            out.push(p);
        }
        i += 1;
    }
    proof {
        assert(today@.subrange(0, today@.len() as int) =~= today@);
    }
    out
}

/// The timestamps of hours `lo ..= hi` of `day`; empty when `lo > hi`.
pub open spec fn hours_range(day: int, lo: int, hi: int) -> Seq<i64> {
    if lo > hi {
        Seq::empty()
    } else {
        Seq::new((hi - lo + 1) as nat, |k: int| spec_day_hour_ts(day, lo + k) as i64)
    }
}

/// The hours a time-schedule rule selects: `sh ..= eh` of the date, or, past
/// midnight, `sh ..= 23` of the date followed by `0 ..= eh` of the next day.
pub open spec fn spec_time_schedule_hours(day: int, sh: int, eh: int) -> Seq<i64> {
    if sh <= eh {
        hours_range(day, sh, if eh > 23 { 23 } else { eh })
    } else {
        hours_range(day, sh, 23) + hours_range(day + 1, 0, if eh > 23 { 23 } else { eh })
    }
}

fn push_hour_range(out: &mut Vec<i64>, day: i64, lo: u32, hi: u32)
    requires
        valid_day(day as int),
        lo < 24,
        hi < 24,
    ensures
        final(out)@ == old(out)@ + hours_range(day as int, lo as int, hi as int),
{
    if lo > hi {
        proof {
            assert(final(out)@ =~= old(out)@ + hours_range(day as int, lo as int, hi as int));
        }
        return;
    }
    let ghost pre = out@;
    let mut h: u32 = lo;
    while h <= hi
        invariant
            valid_day(day as int),
            lo <= h <= hi + 1,
            hi < 24,
            out@ =~= pre + hours_range(day as int, lo as int, h - 1),
        decreases hi + 1 - h,
    {
        let ts = crate::clock::day_hour_ts(day, h as i64);
        out.push(ts);
        proof {
            assert(out@ =~= pre + hours_range(day as int, lo as int, h as int));
        }
        h += 1;
    }
}

/// The hour timestamps of a time-schedule rule on `day`.
pub fn time_schedule_hours(day: i64, sh: u32, eh: u32) -> (r: Vec<i64>)
    requires
        valid_day(day as int),
        valid_day(day + 1),
        sh < 24,
        eh < 24,
    ensures
        r@ == spec_time_schedule_hours(day as int, sh as int, eh as int),
{
    let mut out: Vec<i64> = Vec::new();
    if sh <= eh {
        push_hour_range(&mut out, day, sh, eh);
        proof {
            assert(out@ =~= spec_time_schedule_hours(day as int, sh as int, eh as int));
        }
    } else {
        push_hour_range(&mut out, day, sh, 23);
        push_hour_range(&mut out, day + 1, 0, eh);
        proof {
            assert(out@ =~= spec_time_schedule_hours(day as int, sh as int, eh as int));
        }
    }
    out
}

/// What a selection of the `n` cheapest candidate points guarantees: right
/// size, drawn from the candidates, one point per hour, and no unselected
/// candidate is cheaper than (or as cheap as, but earlier than) a selected
/// one.
pub open spec fn cheapest_selection_ok(cand: Seq<PricePoint>, n: nat, sel: Seq<PricePoint>) -> bool {
    &&& sel.len() == if n <= cand.len() {
        n as int
    } else {
        cand.len() as int
    }
    &&& forall|i: int| 0 <= i < sel.len() ==> cand.contains(#[trigger] sel[i])
    &&& distinct_hours(sel)
    &&& forall|i: int, j: int|
        0 <= i < sel.len() && 0 <= j < cand.len() && !has_hour(sel, cand[j].ts as int)
            ==> lex_at_most(#[trigger] sel[i], #[trigger] cand[j]) && sel[i] != cand[j]
}

/// Any two selections satisfying `cheapest_selection_ok` on the same
/// candidates pick exactly the same hours: the price-then-time order is
/// total, so the set of `n` smallest candidates is unique.
pub proof fn lemma_cheapest_selection_unique(
    cand: Seq<PricePoint>,
    n: nat,
    sel1: Seq<PricePoint>,
    sel2: Seq<PricePoint>,
)
    requires
        distinct_hours(cand),
        cheapest_selection_ok(cand, n, sel1),
        cheapest_selection_ok(cand, n, sel2),
    ensures
        forall|h: int| has_hour(sel1, h) <==> has_hour(sel2, h),
{
    broadcast use vstd::seq_lib::seq_to_set_is_finite;
    broadcast use vstd::set::group_set_axioms;

    let f = |p: PricePoint| p.ts;
    let m1 = sel1.map_values(f);
    let m2 = sel2.map_values(f);
    assert(m1.no_duplicates());
    assert(m2.no_duplicates());
    m1.unique_seq_to_set();
    m2.unique_seq_to_set();
    let s1 = m1.to_set();
    let s2 = m2.to_set();
    assert forall|h: int| has_hour(sel1, h) implies has_hour(sel2, h) by {
        lemma_cheapest_hour_shared(cand, n, sel1, sel2, h);
    }
    assert forall|h: int| has_hour(sel2, h) implies has_hour(sel1, h) by {
        lemma_cheapest_hour_shared(cand, n, sel2, sel1, h);
    }
}

proof fn lemma_cheapest_hour_shared(
    cand: Seq<PricePoint>,
    n: nat,
    sel1: Seq<PricePoint>,
    sel2: Seq<PricePoint>,
    h: int,
)
    requires
        distinct_hours(cand),
        cheapest_selection_ok(cand, n, sel1),
        cheapest_selection_ok(cand, n, sel2),
        has_hour(sel1, h),
    ensures
        has_hour(sel2, h),
{
    broadcast use vstd::seq_lib::seq_to_set_is_finite;
    broadcast use vstd::set::group_set_axioms;

    if !has_hour(sel2, h) {
        let f = |p: PricePoint| p.ts;
        let m1 = sel1.map_values(f);
        let m2 = sel2.map_values(f);
        assert(m1.no_duplicates());
        assert(m2.no_duplicates());
        m1.unique_seq_to_set();
        m2.unique_seq_to_set();
        let s1 = m1.to_set();
        let s2 = m2.to_set();
        let xi = choose|xi: int| 0 <= xi < sel1.len() && sel1[xi].ts == h;
        let x = sel1[xi];
        assert(s1.contains(h as i64)) by {
            assert(m1[xi] == h as i64);
        }
        assert(!s2.contains(h as i64)) by {
            if m2.contains(h as i64) {
                let w = choose|w: int| 0 <= w < m2.len() && m2[w] == h as i64;
                assert(sel2[w].ts == h);
            }
        }
        if s2.subset_of(s1) {
            s2.lemma_subset_not_in_lt(s1, h as i64);
            assert(s2.len() < s1.len());
            assert(false);
        }
        let hy = choose|hy: i64| s2.contains(hy) && !s1.contains(hy);
        let yi = choose|yi: int| 0 <= yi < m2.len() && m2[yi] == hy;
        let y = sel2[yi];
        assert(y.ts == hy);
        assert(!has_hour(sel1, hy as int)) by {
            if has_hour(sel1, hy as int) {
                let w = choose|w: int| 0 <= w < sel1.len() && sel1[w].ts == hy;
                assert(m1[w] == hy);
            }
        }
        // y is a candidate not selected by sel1, x one not selected by sel2.
        let cj = choose|cj: int| 0 <= cj < cand.len() && cand[cj] == y;
        let ck = choose|ck: int| 0 <= ck < cand.len() && cand[ck] == x;
        assert(lex_at_most(x, cand[cj]) && x != cand[cj]);
        assert(lex_at_most(y, cand[ck]) && y != cand[ck]);
        assert(x.price == y.price && x.ts == y.ts);
        assert(cj == ck);
        assert(false);
    }
}


/// Lifecycle of one scheduled (rule, hour) action. `Executed`, `Failed` and
/// `Missed` are terminal.
#[derive(Clone, Copy, PartialEq, Eq, Structural, Debug)]
pub enum ExecStatus {
    Pending,
    Executed,
    Retrying,
    Failed,
    Missed,
}

/// One planned action: unique per (rule, scheduled hour).
#[derive(Clone, Copy, Debug)]
pub struct ScheduledExecution {
    pub rule_id: i64,
    /// Hour-aligned timestamp of the hour the action belongs to.
    pub scheduled_hour: i64,
    pub expected_action: RuleAction,
    pub status: ExecStatus,
    pub retry_count: u32,
    pub executed_at: Option<i64>,
    pub last_retry_at: Option<i64>,
    pub next_retry_at: Option<i64>,
}

/// A row the store accepts: an aligned hour and a retry count that reaches 5
/// only in the terminal `Failed` state.
pub open spec fn row_wf(r: ScheduledExecution) -> bool {
    &&& valid_ts(r.scheduled_hour as int)
    &&& r.scheduled_hour % 3600 == 0
    &&& r.retry_count <= 5
    &&& (r.status == ExecStatus::Pending || r.status == ExecStatus::Retrying) ==> r.retry_count < 5
}

pub open spec fn spec_has_key(rows: Seq<ScheduledExecution>, rule_id: i64, hour: i64) -> bool {
    exists|i: int|
        0 <= i < rows.len() && rows[i].rule_id == rule_id && (#[trigger] rows[i]).scheduled_hour
            == hour
}

/// Well-formed rows with no two rows sharing a (rule, hour) key.
pub open spec fn store_wf(rows: Seq<ScheduledExecution>) -> bool {
    &&& forall|i: int| 0 <= i < rows.len() ==> row_wf(#[trigger] rows[i])
    &&& forall|i: int, j: int|
        0 <= i < j < rows.len() ==> !((#[trigger] rows[i]).rule_id == (
        #[trigger] rows[j]).rule_id && rows[i].scheduled_hour == rows[j].scheduled_hour)
}

/// The table of scheduled executions, keyed by (rule id, scheduled hour).
/// An insert of a key that is already present changes nothing.
#[derive(Clone, Debug)]
pub struct ExecutionStore {
    rows: Vec<ScheduledExecution>,
}

impl View for ExecutionStore {
    type V = Seq<ScheduledExecution>;

    closed spec fn view(&self) -> Seq<ScheduledExecution> {
        self.rows@
    }
}

impl ExecutionStore {
    pub open spec fn wf(&self) -> bool {
        store_wf(self@)
    }

    pub fn new() -> (r: ExecutionStore)
        ensures
            r@ =~= Seq::<ScheduledExecution>::empty(),
            r.wf(),
    {
        ExecutionStore { rows: Vec::new() }
    }

    pub fn len(&self) -> (r: usize)
        ensures
            r == self@.len(),
    {
        self.rows.len()
    }

    pub fn row(&self, i: usize) -> (r: &ScheduledExecution)
        requires
            i < self@.len(),
        ensures
            *r == self@[i as int],
    {
        &self.rows[i]
    }

    /// Index of the row with the given key, if one is stored.
    pub fn find_key(&self, rule_id: i64, hour: i64) -> (r: Option<usize>)
        ensures
            match r {
                Some(i) => i < self@.len() && self@[i as int].rule_id == rule_id
                    && self@[i as int].scheduled_hour == hour,
                None => !spec_has_key(self@, rule_id, hour),
            },
    {
        let mut i: usize = 0;
        while i < self.rows.len()
            invariant
                0 <= i <= self@.len(),
                forall|j: int|
                    0 <= j < i ==> !((#[trigger] self@[j]).rule_id == rule_id
                        && self@[j].scheduled_hour == hour),
            decreases self@.len() - i,
        {
            if self.rows[i].rule_id == rule_id && self.rows[i].scheduled_hour == hour {
                return Some(i);
            }
            i += 1;
        }
        None
    }

    /// Replaces row `i`. The key must stay the same, so uniqueness is kept.
    pub fn replace_row(&mut self, i: usize, row: ScheduledExecution)
        requires
            old(self).wf(),
            i < old(self)@.len(),
            row_wf(row),
            row.rule_id == old(self)@[i as int].rule_id,
            row.scheduled_hour == old(self)@[i as int].scheduled_hour,
        ensures
            final(self)@ =~= old(self)@.update(i as int, row),
            final(self).wf(),
    {
        let r = &mut self.rows;
        r.set(i, row);
    }

    /// Inserts a fresh row unless its key is already present.
    pub fn insert_if_absent(&mut self, row: ScheduledExecution) -> (inserted: bool)
        requires
            old(self).wf(),
            row_wf(row),
        ensures
            final(self).wf(),
            inserted == !spec_has_key(old(self)@, row.rule_id, row.scheduled_hour),
            final(self)@ =~= if inserted {
                old(self)@.push(row)
            } else {
                old(self)@
            },
    {
        match self.find_key(row.rule_id, row.scheduled_hour) {
            Some(_) => false,
            None => {
                self.rows.push(row);
                true
            },
        }
    }
}


/// The hours a rule schedules on `day`, given the date's and the next day's
/// price series. A rule whose configuration is missing or does not match its
/// type schedules nothing, as does a manual rule.
pub open spec fn rule_hours_ok(
    rule: Rule,
    day: int,
    today: Seq<PricePoint>,
    tomorrow: Seq<PricePoint>,
    hours: Seq<i64>,
) -> bool {
    match rule.spec_usable_config() {
        Some(RuleConfig::PriceThreshold { threshold, comparison }) => hours == today.filter(
            threshold_pred(threshold, comparison),
        ).map_values(|p: PricePoint| p.ts),
        Some(RuleConfig::CheapestHours { hours_needed, window, .. }) => exists|
            sel: Seq<PricePoint>,
        |
            #[trigger] cheapest_selection_ok(
                cheapest_candidates(window, today, tomorrow),
                hours_needed as nat,
                sel,
            ) && hours == sel.map_values(|p: PricePoint| p.ts),
        Some(RuleConfig::TimeSchedule { window, .. }) => {
            let sh = match window {
                Some(w) => w.start_hour(),
                None => 0,
            };
            let eh = match window {
                Some(w) => w.end_hour(),
                None => 23,
            };
            hours == spec_time_schedule_hours(day, sh, eh)
        },
        _ => hours == Seq::<i64>::empty(),
    }
}

/// Hour-aligned valid timestamps, fit for scheduled rows.
pub open spec fn hours_schedulable(hours: Seq<i64>) -> bool {
    forall|t: int|
        0 <= t < hours.len() ==> valid_ts(#[trigger] hours[t] as int) && hours[t] % 3600 == 0
}

/// Computes the hours a rule schedules on `day`.
pub fn calculate_hours_for_rule(
    rule: &Rule,
    day: i64,
    today: &Vec<PricePoint>,
    tomorrow: &Vec<PricePoint>,
) -> (r: Vec<i64>)
    requires
        rule.wf(),
        valid_day(day as int),
        valid_day(day + 1),
        valid_series(today@),
        valid_series(tomorrow@),
        series_in_day(today@, day as int),
        series_in_day(tomorrow@, day + 1),
    ensures
        rule_hours_ok(*rule, day as int, today@, tomorrow@, r@),
        hours_schedulable(r@),
{
    let empty: Vec<i64> = Vec::new();
    match &rule.config {
        None => empty,
        Some(cfg) => match (cfg, rule.rule_type) {
            (RuleConfig::PriceThreshold { threshold, comparison }, RuleType::PriceThreshold) => {
                let pts = threshold_points(today, *threshold, *comparison);
                proof {
                    lemma_filter_series(today@, threshold_pred(*threshold, *comparison));
                }
                let r = ts_of_points(&pts);
                proof {
                    assert forall|t: int| 0 <= t < r@.len() implies valid_ts(
                        #[trigger] r@[t] as int,
                    ) && r@[t] % 3600 == 0 by {
                        assert(r@[t] == pts@[t].ts);
                        assert(valid_point(pts@[t]));
                    }
                }
                r
            },
            (RuleConfig::CheapestHours { hours_needed, window, .. }, RuleType::CheapestHours) => {
                let cand = collect_candidates(*window, today, tomorrow, day);
                let sel = cheapest_hours(&cand, *hours_needed as usize);
                proof {
                    assert(cheapest_selection_ok(cand@, *hours_needed as nat, sel@));
                }
                let r = ts_of_points(&sel);
                proof {
                    assert forall|t: int| 0 <= t < r@.len() implies valid_ts(
                        #[trigger] r@[t] as int,
                    ) && r@[t] % 3600 == 0 by {
                        assert(r@[t] == sel@[t].ts);
                        assert(cand@.contains(sel@[t]));
                        let w = choose|w: int| 0 <= w < cand@.len() && cand@[w] == sel@[t];
                        assert(valid_point(cand@[w]));
                    }
                }
                r
            },
            (RuleConfig::TimeSchedule { window, .. }, RuleType::TimeSchedule) => {
                let (sh, eh): (u32, u32) = match window {
                    Some(w) => (w.start_min / 60, w.end_min / 60),
                    None => (0, 23),
                };
                let r = time_schedule_hours(day, sh, eh);
                proof {
                    lemma_time_schedule_hours_schedulable(day as int, sh as int, eh as int);
                }
                r
            },
            _ => empty,
        },
    }
}

proof fn lemma_time_schedule_hours_schedulable(day: int, sh: int, eh: int)
    requires
        valid_day(day),
        valid_day(day + 1),
        0 <= sh,
        0 <= eh,
    ensures
        hours_schedulable(spec_time_schedule_hours(day, sh, eh)),
{
    let r = spec_time_schedule_hours(day, sh, eh);
    assert forall|t: int| 0 <= t < r.len() implies valid_ts(#[trigger] r[t] as int) && r[t] % 3600
        == 0 by {
        let v = r[t] as int;
        assert(exists|d: int, h: int|
            (valid_day(d) && 0 <= h < 24) && v == spec_day_hour_ts(d, h)) by {
            if sh <= eh {
                assert(v == spec_day_hour_ts(day, sh + t));
            } else {
                let n1 = hours_range(day, sh, 23).len();
                if t < n1 {
                    assert(v == spec_day_hour_ts(day, sh + t));
                } else {
                    assert(v == spec_day_hour_ts(day + 1, t - n1));
                }
            }
        }
        let (d, h) = choose|d: int, h: int|
            (valid_day(d) && 0 <= h < 24) && v == spec_day_hour_ts(d, h);
        assert(v == d * 86400 + h * 3600);
        assert(v % 3600 == 0) by (nonlinear_arith)
            requires
                v == d * 86400 + h * 3600,
        ;
    }
}

/// The timestamps of a list of points, in order.
pub fn ts_of_points(v: &Vec<PricePoint>) -> (r: Vec<i64>)
    ensures
        r@ == v@.map_values(|p: PricePoint| p.ts),
{
    let mut out: Vec<i64> = Vec::new();
    let mut i: usize = 0;
    while i < v.len()
        invariant
            0 <= i <= v@.len(),
            out@.len() == i,
            forall|j: int| 0 <= j < i ==> out@[j] == v@[j].ts,
        decreases v@.len() - i,
    {
        out.push(v[i].ts);
        i += 1;
    }
    proof {
        assert(out@ =~= v@.map_values(|p: PricePoint| p.ts));
    }
    out
}

/// How one scheduling pass changes the store: the old rows stay untouched in
/// place; what is appended is exactly one fresh Pending row per scheduled
/// hour whose key was absent; afterwards every scheduled hour has its row.
pub open spec fn insert_post(
    pre: Seq<ScheduledExecution>,
    post: Seq<ScheduledExecution>,
    rule_id: i64,
    action: RuleAction,
    hours: Seq<i64>,
    count: int,
) -> bool {
    &&& post.len() == pre.len() + count
    &&& post.subrange(0, pre.len() as int) == pre
    &&& forall|k: int|
        pre.len() <= k < post.len() ==> (#[trigger] post[k]).rule_id == rule_id && post[k].status
            == ExecStatus::Pending && post[k].retry_count == 0 && post[k].expected_action == action
            && hours.contains(post[k].scheduled_hour) && !spec_has_key(
            pre,
            rule_id,
            post[k].scheduled_hour,
        )
    &&& forall|t: int| 0 <= t < hours.len() ==> spec_has_key(post, rule_id, #[trigger] hours[t])
}

/// Inserts one Pending row per hour, skipping hours whose key exists.
pub fn insert_hours(
    store: &mut ExecutionStore,
    rule_id: i64,
    action: RuleAction,
    hours: &Vec<i64>,
) -> (count: usize)
    requires
        old(store).wf(),
        hours_schedulable(hours@),
    ensures
        final(store).wf(),
        insert_post(old(store)@, final(store)@, rule_id, action, hours@, count as int),
{
    let ghost pre = store@;
    let mut count: usize = 0;
    let mut t: usize = 0;
    proof {
        assert(pre.subrange(0, pre.len() as int) =~= pre);
        assert(hours@.subrange(0, 0) =~= Seq::<i64>::empty());
    }
    while t < hours.len()
        invariant
            0 <= t <= hours@.len(),
            count <= t,
            hours_schedulable(hours@),
            store.wf(),
            insert_post(pre, store@, rule_id, action, hours@.subrange(0, t as int), count as int),
        decreases hours@.len() - t,
    {
        let h = hours[t];
        let row = ScheduledExecution {
            rule_id,
            scheduled_hour: h,
            expected_action: action,
            status: ExecStatus::Pending,
            retry_count: 0,
            executed_at: None,
            last_retry_at: None,
            next_retry_at: None,
        };
        let ghost mid = store@;
        let inserted = store.insert_if_absent(row);
        if inserted {
            count += 1;
        }
        proof {
            assert(hours@.subrange(0, t + 1).drop_last() =~= hours@.subrange(0, t as int));
            assert forall|q: int| 0 <= q < t + 1 implies spec_has_key(
                store@,
                rule_id,
                #[trigger] hours@.subrange(0, t + 1)[q],
            ) by {
                if q < t {
                    assert(hours@.subrange(0, t as int)[q] == hours@[q]);
                    assert(spec_has_key(mid, rule_id, hours@.subrange(0, t as int)[q]));
                    let w = choose|w: int|
                        0 <= w < mid.len() && mid[w].rule_id == rule_id && (
                        #[trigger] mid[w]).scheduled_hour == hours@[q];
                    assert(store@[w] == mid[w]);
                } else {
                    if inserted {
                        assert(store@[store@.len() - 1].scheduled_hour == h);
                    } else {
                        let w = choose|w: int|
                            0 <= w < mid.len() && mid[w].rule_id == rule_id && (
                            #[trigger] mid[w]).scheduled_hour == h;
                        assert(store@[w] == mid[w]);
                    }
                }
            }
            if inserted {
                assert(!spec_has_key(pre, rule_id, h)) by {
                    if spec_has_key(pre, rule_id, h) {
                        let w = choose|w: int|
                            0 <= w < pre.len() && pre[w].rule_id == rule_id && (
                            #[trigger] pre[w]).scheduled_hour == h;
                        assert(mid[w] == pre[w]);
                    }
                }
                assert(hours@.subrange(0, t + 1).contains(h)) by {
                    assert(hours@.subrange(0, t + 1)[t as int] == h);
                }
            }
            assert forall|k: int| pre.len() <= k < store@.len() implies (
            #[trigger] store@[k]).rule_id == rule_id && store@[k].status == ExecStatus::Pending
                && store@[k].retry_count == 0 && store@[k].expected_action == action
                && hours@.subrange(0, t + 1).contains(store@[k].scheduled_hour) && !spec_has_key(
                pre,
                rule_id,
                store@[k].scheduled_hour,
            ) by {
                if k < mid.len() {
                    assert(store@[k] == mid[k]);
                    assert(hours@.subrange(0, t as int).contains(mid[k].scheduled_hour));
                    let w = choose|w: int|
                        0 <= w < t && hours@.subrange(0, t as int)[w] == mid[k].scheduled_hour;
                    assert(hours@.subrange(0, t + 1)[w] == mid[k].scheduled_hour);
                }
            }
            assert(store@.subrange(0, pre.len() as int) =~= pre);
        }
        t += 1;
    }
    proof {
        assert(hours@.subrange(0, hours@.len() as int) =~= hours@);
    }
    count
}

/// Computes and stores the schedule of one rule for `day`: one Pending row
/// per scheduled hour, inserted only where the (rule, hour) key is new.
/// Returns how many rows were inserted.
pub fn compute_for_rule(
    store: &mut ExecutionStore,
    rule: &Rule,
    day: i64,
    today: &Vec<PricePoint>,
    tomorrow: &Vec<PricePoint>,
) -> (count: usize)
    requires
        old(store).wf(),
        rule.wf(),
        valid_day(day as int),
        valid_day(day + 1),
        valid_series(today@),
        valid_series(tomorrow@),
        series_in_day(today@, day as int),
        series_in_day(tomorrow@, day + 1),
    ensures
        final(store).wf(),
        exists|hours: Seq<i64>|
            #[trigger] rule_hours_ok(*rule, day as int, today@, tomorrow@, hours) && insert_post(
                old(store)@,
                final(store)@,
                rule.id,
                rule.action,
                hours,
                count as int,
            ),
{
    let hours = calculate_hours_for_rule(rule, day, today, tomorrow);
    insert_hours(store, rule.id, rule.action, &hours)
}

/// Scheduling a rule twice for one day adds nothing the second time: the
/// hours a rule selects are a function of the rule and the price series, so
/// every key the second pass would insert is already present.
pub proof fn lemma_recompute_rule_idempotent(
    pre: Seq<ScheduledExecution>,
    mid: Seq<ScheduledExecution>,
    post: Seq<ScheduledExecution>,
    rule: Rule,
    day: int,
    today: Seq<PricePoint>,
    tomorrow: Seq<PricePoint>,
    hours1: Seq<i64>,
    hours2: Seq<i64>,
    c1: int,
    c2: int,
)
    requires
        c1 >= 0,
        c2 >= 0,
        valid_series(today),
        valid_series(tomorrow),
        series_in_day(today, day),
        series_in_day(tomorrow, day + 1),
        rule_hours_ok(rule, day, today, tomorrow, hours1),
        rule_hours_ok(rule, day, today, tomorrow, hours2),
        insert_post(pre, mid, rule.id, rule.action, hours1, c1),
        insert_post(mid, post, rule.id, rule.action, hours2, c2),
    ensures
        c2 == 0,
        post == mid,
{
    lemma_rule_hours_same_set(rule, day, today, tomorrow, hours1, hours2);
    assert forall|k: int| mid.len() <= k < post.len() implies (#[trigger] post[k]).rule_id
        != rule.id by {
        let h = post[k].scheduled_hour;
        assert(hours2.contains(h));
        assert(hours1.contains(h));
        let t = choose|t: int| 0 <= t < hours1.len() && hours1[t] == h;
        assert(spec_has_key(mid, rule.id, h));
    }
    if post.len() > mid.len() {
        assert(post[mid.len() as int].rule_id == rule.id);
        assert(post[mid.len() as int].rule_id != rule.id);
    }
    assert(post.len() == mid.len());
    assert(post =~= mid);
}

/// The two hour lists a rule can produce for the same day and prices hold
/// exactly the same hours.
proof fn lemma_rule_hours_same_set(
    rule: Rule,
    day: int,
    today: Seq<PricePoint>,
    tomorrow: Seq<PricePoint>,
    hours1: Seq<i64>,
    hours2: Seq<i64>,
)
    requires
        valid_series(today),
        valid_series(tomorrow),
        series_in_day(today, day),
        series_in_day(tomorrow, day + 1),
        rule_hours_ok(rule, day, today, tomorrow, hours1),
        rule_hours_ok(rule, day, today, tomorrow, hours2),
    ensures
        forall|h: i64| hours1.contains(h) <==> hours2.contains(h),
{
    match rule.spec_usable_config() {
        Some(RuleConfig::CheapestHours { hours_needed, window, .. }) => {
            let cand = cheapest_candidates(window, today, tomorrow);
            let sel1 = choose|sel: Seq<PricePoint>|
                #[trigger] cheapest_selection_ok(cand, hours_needed as nat, sel) && hours1
                    == sel.map_values(|p: PricePoint| p.ts);
            let sel2 = choose|sel: Seq<PricePoint>|
                #[trigger] cheapest_selection_ok(cand, hours_needed as nat, sel) && hours2
                    == sel.map_values(|p: PricePoint| p.ts);
            assert(distinct_hours(cand)) by {
                lemma_candidates_series(window, today, tomorrow, day);
            }
            lemma_cheapest_selection_unique(cand, hours_needed as nat, sel1, sel2);
            assert forall|h: i64| hours1.contains(h) implies hours2.contains(h) by {
                let t = choose|t: int| 0 <= t < hours1.len() && hours1[t] == h;
                assert(sel1[t].ts == h);
                assert(has_hour(sel1, h as int));
                assert(has_hour(sel2, h as int));
                let u = choose|u: int| 0 <= u < sel2.len() && sel2[u].ts == h;
                assert(hours2[u] == h);
            }
            assert forall|h: i64| hours2.contains(h) implies hours1.contains(h) by {
                let t = choose|t: int| 0 <= t < hours2.len() && hours2[t] == h;
                assert(sel2[t].ts == h);
                assert(has_hour(sel2, h as int));
                assert(has_hour(sel1, h as int));
                let u = choose|u: int| 0 <= u < sel1.len() && sel1[u].ts == h;
                assert(hours1[u] == h);
            }
        },
        _ => {
            assert(hours1 == hours2);
        },
    }
}

/// The candidate list of a cheapest-hours rule is itself a well-formed
/// series, so its hours are distinct.
proof fn lemma_candidates_series(
    w: Option<TimeWindow>,
    today: Seq<PricePoint>,
    tomorrow: Seq<PricePoint>,
    day: int,
)
    requires
        valid_series(today),
        valid_series(tomorrow),
        series_in_day(today, day),
        series_in_day(tomorrow, day + 1),
    ensures
        valid_series(cheapest_candidates(w, today, tomorrow)),
        distinct_hours(cheapest_candidates(w, today, tomorrow)),
{
    match w {
        None => {},
        Some(w) => {
            if w.start_hour() > w.end_hour() {
                lemma_filter_series(today, window_pred(w, 1));
                lemma_filter_series(tomorrow, window_pred(w, 2));
                let a = today.filter(window_pred(w, 1));
                let b = tomorrow.filter(window_pred(w, 2));
                assert forall|i: int, j: int| 0 <= i < j < (a + b).len() implies (a + b)[i].ts < (a
                    + b)[j].ts by {
                    if i < a.len() && j >= a.len() {
                        assert(today.contains(a[i]));
                        assert(tomorrow.contains(b[j - a.len()]));
                        let u = choose|u: int| 0 <= u < today.len() && today[u] == a[i];
                        let v = choose|v: int|
                            0 <= v < tomorrow.len() && tomorrow[v] == b[j - a.len()];
                        assert(spec_day_of(today[u].ts as int) == day);
                        assert(spec_day_of(tomorrow[v].ts as int) == day + 1);
                    }
                }
            } else {
                lemma_filter_series(today, window_pred(w, 0));
            }
        },
    }
}


/// How a whole scheduling pass (over many rules) may change the store: old
/// rows stay in place, and everything appended is a fresh Pending row whose
/// key was absent at the start.
pub open spec fn extends_with_pending(
    pre: Seq<ScheduledExecution>,
    post: Seq<ScheduledExecution>,
) -> bool {
    &&& post.len() >= pre.len()
    &&& post.subrange(0, pre.len() as int) == pre
    &&& forall|k: int|
        pre.len() <= k < post.len() ==> (#[trigger] post[k]).status == ExecStatus::Pending
            && post[k].retry_count == 0 && !spec_has_key(
            pre,
            post[k].rule_id,
            post[k].scheduled_hour,
        )
}

pub proof fn lemma_extends_transitive(
    pre: Seq<ScheduledExecution>,
    mid: Seq<ScheduledExecution>,
    post: Seq<ScheduledExecution>,
)
    requires
        extends_with_pending(pre, mid),
        extends_with_pending(mid, post),
    ensures
        extends_with_pending(pre, post),
{
    assert(post.subrange(0, pre.len() as int) =~= mid.subrange(0, pre.len() as int)) by {
        assert(forall|i: int|
            0 <= i < mid.len() ==> post.subrange(0, mid.len() as int)[i] == #[trigger] post[i]);
    }
    assert forall|k: int| pre.len() <= k < post.len() implies (#[trigger] post[k]).status
        == ExecStatus::Pending && post[k].retry_count == 0 && !spec_has_key(
        pre,
        post[k].rule_id,
        post[k].scheduled_hour,
    ) by {
        if k < mid.len() {
            assert(post[k] == mid.subrange(0, mid.len() as int)[k]);
            assert(post[k] == mid[k]);
        } else {
            if spec_has_key(pre, post[k].rule_id, post[k].scheduled_hour) {
                let w = choose|w: int|
                    0 <= w < pre.len() && pre[w].rule_id == post[k].rule_id && (
                    #[trigger] pre[w]).scheduled_hour == post[k].scheduled_hour;
                assert(mid[w] == pre[w]);
                assert(spec_has_key(mid, post[k].rule_id, post[k].scheduled_hour));
            }
        }
    }
}

/// Computes and stores the schedules of every enabled rule for `day`.
/// Returns how many rows were inserted in all. Afterwards every hour that an
/// enabled rule selects has its row.
pub fn compute_for_date(
    store: &mut ExecutionStore,
    all_rules: &Vec<Rule>,
    day: i64,
    today: &Vec<PricePoint>,
    tomorrow: &Vec<PricePoint>,
) -> (count: usize)
    requires
        old(store).wf(),
        forall|k: int| 0 <= k < all_rules@.len() ==> (#[trigger] all_rules@[k]).wf(),
        valid_day(day as int),
        valid_day(day + 1),
        valid_series(today@),
        valid_series(tomorrow@),
        series_in_day(today@, day as int),
        series_in_day(tomorrow@, day + 1),
    ensures
        final(store).wf(),
        extends_with_pending(old(store)@, final(store)@),
        count == final(store)@.len() - old(store)@.len(),
        forall|k: int|
            0 <= k < all_rules@.len() && (#[trigger] all_rules@[k]).enabled ==> exists|
                hours: Seq<i64>,
            |
                #[trigger] rule_hours_ok(all_rules@[k], day as int, today@, tomorrow@, hours) && (
                forall|t: int|
                    0 <= t < hours.len() ==> spec_has_key(
                        final(store)@,
                        all_rules@[k].id,
                        #[trigger] hours[t],
                    )),
{
    let ghost pre = store@;
    let base = store.len();
    let mut k: usize = 0;
    proof {
        assert(pre.subrange(0, pre.len() as int) =~= pre);
    }
    while k < all_rules.len()
        invariant
            0 <= k <= all_rules@.len(),
            forall|q: int| 0 <= q < all_rules@.len() ==> (#[trigger] all_rules@[q]).wf(),
            valid_day(day as int),
            valid_day(day + 1),
            valid_series(today@),
            valid_series(tomorrow@),
            series_in_day(today@, day as int),
            series_in_day(tomorrow@, day + 1),
            store.wf(),
            extends_with_pending(pre, store@),
            base == pre.len(),
            forall|q: int|
                0 <= q < k && (#[trigger] all_rules@[q]).enabled ==> exists|hours: Seq<i64>|
                    #[trigger] rule_hours_ok(all_rules@[q], day as int, today@, tomorrow@, hours)
                        && (forall|t: int|
                        0 <= t < hours.len() ==> spec_has_key(
                            store@,
                            all_rules@[q].id,
                            #[trigger] hours[t],
                        )),
        decreases all_rules@.len() - k,
    {
        let rule = &all_rules[k];
        if rule.enabled {
            let ghost mid = store@;
            let c = compute_for_rule(store, rule, day, today, tomorrow);
            proof {
                let hours = choose|hours: Seq<i64>|
                    #[trigger] rule_hours_ok(*rule, day as int, today@, tomorrow@, hours)
                        && insert_post(mid, store@, rule.id, rule.action, hours, c as int);
                assert(extends_with_pending(mid, store@)) by {
                    assert(forall|w: int|
                        mid.len() <= w < store@.len() ==> !spec_has_key(
                            mid,
                            (#[trigger] store@[w]).rule_id,
                            store@[w].scheduled_hour,
                        ));
                }
                lemma_extends_transitive(pre, mid, store@);
                assert forall|q: int| 0 <= q < k + 1 && (#[trigger] all_rules@[q]).enabled implies
                    exists|hours2: Seq<i64>|
                    #[trigger] rule_hours_ok(all_rules@[q], day as int, today@, tomorrow@, hours2)
                        && (forall|t: int|
                        0 <= t < hours2.len() ==> spec_has_key(
                            store@,
                            all_rules@[q].id,
                            #[trigger] hours2[t],
                        )) by {
                    if q < k {
                        let hq = choose|hq: Seq<i64>|
                            #[trigger] rule_hours_ok(
                                all_rules@[q],
                                day as int,
                                today@,
                                tomorrow@,
                                hq,
                            ) && (forall|t: int|
                                0 <= t < hq.len() ==> spec_has_key(
                                    mid,
                                    all_rules@[q].id,
                                    #[trigger] hq[t],
                                ));
                        assert forall|t: int| 0 <= t < hq.len() implies spec_has_key(
                            store@,
                            all_rules@[q].id,
                            #[trigger] hq[t],
                        ) by {
                            assert(spec_has_key(mid, all_rules@[q].id, hq[t]));
                            let w = choose|w: int|
                                0 <= w < mid.len() && mid[w].rule_id == all_rules@[q].id && (
                                #[trigger] mid[w]).scheduled_hour == hq[t];
                            assert(store@.subrange(0, mid.len() as int)[w] == store@[w]);
                            assert(store@[w] == mid[w]);
                        }
                        assert(rule_hours_ok(all_rules@[q], day as int, today@, tomorrow@, hq) && (
                        forall|t: int|
                            0 <= t < hq.len() ==> spec_has_key(
                                store@,
                                all_rules@[q].id,
                                #[trigger] hq[t],
                            )));
                    } else {
                        assert(rule_hours_ok(all_rules@[q], day as int, today@, tomorrow@, hours)
                            && (forall|t: int|
                            0 <= t < hours.len() ==> spec_has_key(
                                store@,
                                all_rules@[q].id,
                                #[trigger] hours[t],
                            )));
                    }
                }
            }
        }
        k += 1;
    }
    let count = store.len() - base;
    count
}


/// Rows that survive the deletion of a rule's pending rows.
pub open spec fn keep_not_pending_of(rule_id: i64) -> spec_fn(ScheduledExecution) -> bool {
    |r: ScheduledExecution| !(r.rule_id == rule_id && r.status == ExecStatus::Pending)
}

/// Rows that survive the deletion of a rule's pending rows within
/// `[window_start, window_end]`.
pub open spec fn keep_outside_window_of(rule_id: i64, window_start: i64, window_end: i64) -> spec_fn(
    ScheduledExecution,
) -> bool {
    |r: ScheduledExecution|
        !(r.rule_id == rule_id && r.status == ExecStatus::Pending && window_start
            <= r.scheduled_hour <= window_end)
}

impl ExecutionStore {
    /// Keeps exactly the rows satisfying `pred`, in order; returns how many
    /// rows were dropped.
    fn retain_rows(&mut self, rule_id: i64, window: Option<(i64, i64)>) -> (count: usize)
        requires
            old(self).wf(),
        ensures
            final(self).wf(),
            ({
                let pred = match window {
                    Some((ws, we)) => keep_outside_window_of(rule_id, ws, we),
                    None => keep_not_pending_of(rule_id),
                };
                final(self)@ == old(self)@.filter(pred)
                    && count == old(self)@.len() - final(self)@.len()
            }),
    {
        let ghost pred = match window {
            Some((ws, we)) => keep_outside_window_of(rule_id, ws, we),
            None => keep_not_pending_of(rule_id),
        };
        let ghost pre = self.rows@;
        let mut kept: Vec<ScheduledExecution> = Vec::new();
        let mut i: usize = 0;
        proof {
            reveal(Seq::filter);
            assert(pre.subrange(0, 0).filter(pred) =~= Seq::<ScheduledExecution>::empty());
        }
        while i < self.rows.len()
            invariant
                0 <= i <= self.rows@.len(),
                pre == self.rows@,
                store_wf(pre),
                pred == (match window {
                    Some((ws, we)) => keep_outside_window_of(rule_id, ws, we),
                    None => keep_not_pending_of(rule_id),
                }),
                kept@ == pre.subrange(0, i as int).filter(pred),
            decreases self.rows@.len() - i,
        {
            let row = self.rows[i];
            let keep = match window {
                Some((ws, we)) => !(row.rule_id == rule_id && matches!(
                    row.status,
                    ExecStatus::Pending,
                ) && ws <= row.scheduled_hour && row.scheduled_hour <= we),
                None => !(row.rule_id == rule_id && matches!(row.status, ExecStatus::Pending)),
            };
            proof {
                lemma_filter_step(pre, pred, i as int);
                assert(keep == pred(row));
            }
            if keep {
                kept.push(row);
            }
            i += 1;
        }
        proof {
            assert(pre.subrange(0, pre.len() as int) =~= pre);
            lemma_filter_subset(pre, pred);
            pre.lemma_filter_len(pred);
            assert forall|a: int, b: int| 0 <= a < b < pre.filter(pred).len() implies !((
            #[trigger] pre.filter(pred)[a]).rule_id == (#[trigger] pre.filter(pred)[b]).rule_id
                && pre.filter(pred)[a].scheduled_hour == pre.filter(pred)[b].scheduled_hour) by {
                lemma_filter_ordered_pair(pre, pred, a, b);
            }
        }
        let count = self.rows.len() - kept.len();
        self.rows = kept;
        count
    }

    /// Deletes every pending row of a rule: what removing or disabling the
    /// rule does to its not-yet-run schedule. Rows of other rules, and rows
    /// already past Pending, stay exactly as they were (in order).
    pub fn delete_pending_for_rule(&mut self, rule_id: i64) -> (count: usize)
        requires
            old(self).wf(),
        ensures
            final(self).wf(),
            final(self)@ == old(self)@.filter(keep_not_pending_of(rule_id)),
            count == old(self)@.len() - final(self)@.len(),
            forall|j: int|
                0 <= j < final(self)@.len() ==> !((#[trigger] final(self)@[j]).rule_id == rule_id
                    && final(self)@[j].status == ExecStatus::Pending),
    {
        let count = self.retain_rows(rule_id, None);
        proof {
            lemma_filter_subset(old(self)@, keep_not_pending_of(rule_id));
        }
        count
    }

    /// Deletes a rule's pending rows inside one overnight window, so the
    /// window can be recomputed once the next day's prices are published.
    pub fn delete_pending_in_window(&mut self, rule_id: i64, window_start: i64, window_end: i64) -> (count: usize)
        requires
            old(self).wf(),
        ensures
            final(self).wf(),
            final(self)@ == old(self)@.filter(
                keep_outside_window_of(rule_id, window_start, window_end),
            ),
            count == old(self)@.len() - final(self)@.len(),
    {
        self.retain_rows(rule_id, Some((window_start, window_end)))
    }
}

/// Two rows that survive a filter came from two distinct rows of a
/// well-formed store, so they cannot share a key.
proof fn lemma_filter_ordered_pair(
    s: Seq<ScheduledExecution>,
    pred: spec_fn(ScheduledExecution) -> bool,
    a: int,
    b: int,
)
    requires
        store_wf(s),
        0 <= a < b < s.filter(pred).len(),
    ensures
        !(s.filter(pred)[a].rule_id == s.filter(pred)[b].rule_id
            && s.filter(pred)[a].scheduled_hour == s.filter(pred)[b].scheduled_hour),
    decreases s.len(),
{
    reveal(Seq::filter);
    if s.len() > 0 {
        let f = s.filter(pred);
        let fd = s.drop_last().filter(pred);
        assert(store_wf(s.drop_last()));
        if b < fd.len() {
            lemma_filter_ordered_pair(s.drop_last(), pred, a, b);
        } else {
            assert(f[b] == s.last());
            assert(f[a] == fd[a]);
            lemma_filter_subset(s.drop_last(), pred);
            let w = choose|w: int| 0 <= w < s.drop_last().len() && s.drop_last()[w] == fd[a];
            assert(s[w] == fd[a] && w < s.len() - 1);
            assert(!(s[w].rule_id == s[s.len() - 1].rule_id && s[w].scheduled_hour == s[s.len()
                - 1].scheduled_hour));
        }
    }
}

/// Whether a rule's configured window crosses midnight, so that part of its
/// schedule depends on the next day's prices.
pub fn rule_has_overnight_window(rule: &Rule) -> (r: bool)
    ensures
        r == match rule.spec_usable_config() {
            Some(RuleConfig::CheapestHours { window: Some(w), .. }) => w.spec_crosses_midnight(),
            Some(RuleConfig::TimeSchedule { window: Some(w), .. }) => w.spec_crosses_midnight(),
            _ => false,
        },
{
    match &rule.config {
        Some(RuleConfig::CheapestHours { window: Some(w), .. }) => match rule.rule_type {
            RuleType::CheapestHours => w.crosses_midnight(),
            _ => false,
        },
        Some(RuleConfig::TimeSchedule { window: Some(w), .. }) => match rule.rule_type {
            RuleType::TimeSchedule => w.crosses_midnight(),
            _ => false,
        },
        _ => false,
    }
}


/// The instant range an overnight window spans on `day`: from its start hour
/// on the date to the last second of its end hour on the next day.
pub open spec fn overnight_bounds(w: TimeWindow, day: int) -> (int, int) {
    (
        spec_day_hour_ts(day, w.start_min as int / 60),
        spec_day_hour_ts(day + 1, w.end_min as int / 60) + 3599,
    )
}

/// Recomputes one overnight rule for `day` now that the next day's prices
/// are available: its pending rows inside the overnight window are dropped
/// and the rule is scheduled afresh over the complete data.
pub fn recompute_overnight_for_rule(
    store: &mut ExecutionStore,
    rule: &Rule,
    day: i64,
    today: &Vec<PricePoint>,
    tomorrow: &Vec<PricePoint>,
) -> (count: usize)
    requires
        old(store).wf(),
        rule.wf(),
        valid_day(day as int),
        valid_day(day + 1),
        valid_series(today@),
        valid_series(tomorrow@),
        series_in_day(today@, day as int),
        series_in_day(tomorrow@, day + 1),
    ensures
        final(store).wf(),
        ({
            let w_opt = match rule.spec_usable_config() {
                Some(RuleConfig::CheapestHours { window: Some(w), .. }) => Some(w),
                Some(RuleConfig::TimeSchedule { window: Some(w), .. }) => Some(w),
                _ => None,
            };
            match w_opt {
                Some(w) => if !w.spec_crosses_midnight() {
                    final(store)@ == old(store)@ && count == 0
                } else {
                    exists|mid: Seq<ScheduledExecution>, hours: Seq<i64>|
                    {
                        let (ws, we) = overnight_bounds(w, day as int);
                        &&& mid == old(store)@.filter(
                            keep_outside_window_of(rule.id, ws as i64, we as i64),
                        )
                        &&& rule_hours_ok(*rule, day as int, today@, tomorrow@, hours)
                        &&& #[trigger] insert_post(
                            mid,
                            final(store)@,
                            rule.id,
                            rule.action,
                            hours,
                            count as int,
                        )
                    }
                },
                None => final(store)@ == old(store)@ && count == 0,
            }
        }),
{
    let (w_opt, crossing): (Option<TimeWindow>, bool) = match &rule.config {
        Some(RuleConfig::CheapestHours { window: Some(w), .. }) => match rule.rule_type {
            RuleType::CheapestHours => (Some(*w), w.crosses_midnight()),
            _ => (None, false),
        },
        Some(RuleConfig::TimeSchedule { window: Some(w), .. }) => match rule.rule_type {
            RuleType::TimeSchedule => (Some(*w), w.crosses_midnight()),
            _ => (None, false),
        },
        _ => (None, false),
    };
    if let Some(w) = w_opt {
        if crossing {
            let ws = crate::clock::day_hour_ts(day, (w.start_min / 60) as i64);
            let we_hour = crate::clock::day_hour_ts(day + 1, (w.end_min / 60) as i64);
            let we = we_hour + 3599;
            let _ = store.delete_pending_in_window(rule.id, ws, we);
            return compute_for_rule(store, rule, day, today, tomorrow);
        }
    }
    0
}

} // verus!
