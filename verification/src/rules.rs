//! Automation rules: what a rule is, how its type, action and configuration
//! are represented, and the string forms they take in stored rows.
//!
//! A stored rule carries a structured configuration. A configuration that
//! failed to decode, or whose shape does not match the rule's type, is kept
//! as absent: such a rule never triggers and schedules nothing, but it never
//! stops evaluation of the other rules.

use vstd::prelude::*;
use vstd::seq_lib::group_to_multiset_ensures;
use crate::text::str_eq;

verus! {

#[derive(Clone, Copy, PartialEq, Eq, Structural, Debug)]
pub enum RuleType {
    /// Trigger when the current price is above or below a threshold.
    PriceThreshold,
    /// Run during the cheapest N hours of a window.
    CheapestHours,
    /// Run on fixed hours or at a fixed weekly time.
    TimeSchedule,
    /// Only manual control; never triggers by itself.
    Manual,
}

impl RuleType {
    pub fn as_str(&self) -> (r: &'static str)
        ensures
            r@ == match *self {
                RuleType::PriceThreshold => "price_threshold"@,
                RuleType::CheapestHours => "cheapest_hours"@,
                RuleType::TimeSchedule => "time_schedule"@,
                RuleType::Manual => "manual"@,
            },
    {
        match self {
            RuleType::PriceThreshold => "price_threshold",
            RuleType::CheapestHours => "cheapest_hours",
            RuleType::TimeSchedule => "time_schedule",
            RuleType::Manual => "manual",
        }
    }

    pub fn from_str(s: &str) -> (r: Option<RuleType>)
        ensures
            r == if s@ == "price_threshold"@ {
                Some(RuleType::PriceThreshold)
            } else if s@ == "cheapest_hours"@ {
                Some(RuleType::CheapestHours)
            } else if s@ == "time_schedule"@ {
                Some(RuleType::TimeSchedule)
            } else if s@ == "manual"@ {
                Some(RuleType::Manual)
            } else {
                None::<RuleType>
            },
    {
        if str_eq(s, "price_threshold") {
            Some(RuleType::PriceThreshold)
        } else if str_eq(s, "cheapest_hours") {
            Some(RuleType::CheapestHours)
        } else if str_eq(s, "time_schedule") {
            Some(RuleType::TimeSchedule)
        } else if str_eq(s, "manual") {
            Some(RuleType::Manual)
        } else {
            None
        }
    }
}

#[derive(Clone, Copy, PartialEq, Eq, Structural, Debug)]
pub enum RuleAction {
    TurnOn,
    TurnOff,
    Toggle,
}

impl RuleAction {
    pub fn as_str(&self) -> (r: &'static str)
        ensures
            r@ == match *self {
                RuleAction::TurnOn => "turn_on"@,
                RuleAction::TurnOff => "turn_off"@,
                RuleAction::Toggle => "toggle"@,
            },
    {
        match self {
            RuleAction::TurnOn => "turn_on",
            RuleAction::TurnOff => "turn_off",
            RuleAction::Toggle => "toggle",
        }
    }

    pub fn from_str(s: &str) -> (r: Option<RuleAction>)
        ensures
            r == if s@ == "turn_on"@ {
                Some(RuleAction::TurnOn)
            } else if s@ == "turn_off"@ {
                Some(RuleAction::TurnOff)
            } else if s@ == "toggle"@ {
                Some(RuleAction::Toggle)
            } else {
                None::<RuleAction>
            },
    {
        if str_eq(s, "turn_on") {
            Some(RuleAction::TurnOn)
        } else if str_eq(s, "turn_off") {
            Some(RuleAction::TurnOff)
        } else if str_eq(s, "toggle") {
            Some(RuleAction::Toggle)
        } else {
            None
        }
    }
}

/// Direction of a price-threshold comparison.
#[derive(Clone, Copy, PartialEq, Eq, Structural, Debug)]
pub enum Comparison {
    Below,
    Above,
}

/// A daily time window in minutes of the day (0 .. 1440). A window whose
/// start is later than its end crosses midnight.
#[derive(Clone, Copy, PartialEq, Eq, Structural, Debug)]
pub struct TimeWindow {
    pub start_min: u32,
    pub end_min: u32,
}

impl TimeWindow {
    pub open spec fn wf(&self) -> bool {
        self.start_min < 1440 && self.end_min < 1440
    }

    /// Whether the window crosses midnight.
    pub open spec fn spec_crosses_midnight(&self) -> bool {
        self.start_min / 60 > self.end_min / 60
    }

    pub fn crosses_midnight(&self) -> (r: bool)
        ensures
            r == self.spec_crosses_midnight(),
    {
        self.start_min / 60 > self.end_min / 60
    }

    pub open spec fn start_hour(&self) -> int {
        self.start_min as int / 60
    }

    pub open spec fn end_hour(&self) -> int {
        self.end_min as int / 60
    }

    /// Whether minute `m` of the day lies inside the window, a half-open
    /// check that wraps past midnight when the window does.
    pub open spec fn spec_contains_minute(&self, m: int) -> bool {
        if self.start_min <= self.end_min {
            self.start_min <= m < self.end_min
        } else {
            m >= self.start_min || m < self.end_min
        }
    }

    pub fn contains_minute(&self, m: u32) -> (r: bool)
        ensures
            r == self.spec_contains_minute(m as int),
    {
        if self.start_min <= self.end_min {
            self.start_min <= m && m < self.end_min
        } else {
            m >= self.start_min || m < self.end_min
        }
    }
}

/// A day of the week.
#[derive(Clone, Copy, PartialEq, Eq, Structural, Debug)]
pub enum Day {
    Mon,
    Tue,
    Wed,
    Thu,
    Fri,
    Sat,
    Sun,
}

impl Day {
    pub fn from_str(s: &str) -> (r: Option<Day>)
        ensures
            r == if s@ == "mon"@ {
                Some(Day::Mon)
            } else if s@ == "tue"@ {
                Some(Day::Tue)
            } else if s@ == "wed"@ {
                Some(Day::Wed)
            } else if s@ == "thu"@ {
                Some(Day::Thu)
            } else if s@ == "fri"@ {
                Some(Day::Fri)
            } else if s@ == "sat"@ {
                Some(Day::Sat)
            } else if s@ == "sun"@ {
                Some(Day::Sun)
            } else {
                None::<Day>
            },
    {
        if str_eq(s, "mon") {
            Some(Day::Mon)
        } else if str_eq(s, "tue") {
            Some(Day::Tue)
        } else if str_eq(s, "wed") {
            Some(Day::Wed)
        } else if str_eq(s, "thu") {
            Some(Day::Thu)
        } else if str_eq(s, "fri") {
            Some(Day::Fri)
        } else if str_eq(s, "sat") {
            Some(Day::Sat)
        } else if str_eq(s, "sun") {
            Some(Day::Sun)
        } else {
            None
        }
    }
}

/// Decoded rule configuration, one shape per rule type.
#[derive(Clone, Debug)]
pub enum RuleConfig {
    PriceThreshold {
        /// Millionths of a euro per kilowatt-hour.
        threshold: i64,
        comparison: Comparison,
    },
    CheapestHours {
        hours_needed: u32,
        /// Absent: the whole day.
        window: Option<TimeWindow>,
        /// Whether the hours must form one contiguous block.
        contiguous: bool,
    },
    TimeSchedule {
        /// Absent bounds fall back to the whole day.
        window: Option<TimeWindow>,
        /// Days on which a fixed-time trigger fires.
        days: Vec<Day>,
        /// Minute of the day of the fixed-time trigger, when one is set.
        time_min: Option<u32>,
    },
    Manual,
}

impl RuleConfig {
    pub open spec fn wf(&self) -> bool {
        match *self {
            RuleConfig::PriceThreshold { threshold, .. } => -0x7FFF_FFFF <= threshold
                <= 0x7FFF_FFFF,
            RuleConfig::CheapestHours { window, .. } => match window {
                Some(w) => w.wf(),
                None => true,
            },
            RuleConfig::TimeSchedule { window, time_min, .. } => {
                &&& match window {
                    Some(w) => w.wf(),
                    None => true,
                }
                &&& match time_min {
                    Some(t) => t < 1440,
                    None => true,
                }
            },
            RuleConfig::Manual => true,
        }
    }

    /// Whether this configuration has the shape that `t` calls for.
    pub open spec fn matches_type(&self, t: RuleType) -> bool {
        match (*self, t) {
            (RuleConfig::PriceThreshold { .. }, RuleType::PriceThreshold) => true,
            (RuleConfig::CheapestHours { .. }, RuleType::CheapestHours) => true,
            (RuleConfig::TimeSchedule { .. }, RuleType::TimeSchedule) => true,
            (RuleConfig::Manual, RuleType::Manual) => true,
            _ => false,
        }
    }
}

/// A stored automation rule, read-only to this core.
#[derive(Clone, Debug)]
pub struct Rule {
    pub id: i64,
    pub user_id: i64,
    pub device_id: i64,
    pub rule_type: RuleType,
    pub action: RuleAction,
    /// `None` when the stored configuration failed to decode.
    pub config: Option<RuleConfig>,
    pub enabled: bool,
    /// Lower runs first.
    pub priority: i64,
    pub last_triggered_at: Option<i64>,
}

impl Rule {
    pub open spec fn wf(&self) -> bool {
        match self.config {
            Some(c) => c.wf(),
            None => true,
        }
    }

    /// The decoded configuration, provided it matches the rule's type.
    pub open spec fn spec_usable_config(&self) -> Option<RuleConfig> {
        match self.config {
            Some(c) => if c.matches_type(self.rule_type) {
                Some(c)
            } else {
                None
            },
            None => None,
        }
    }
}


pub open spec fn sorted_by_priority(s: Seq<Rule>) -> bool {
    forall|i: int, j: int| 0 <= i < j < s.len() ==> (#[trigger] s[i]).priority <= (
    #[trigger] s[j]).priority
}

/// Reorders rules ascending by priority — the order they are evaluated in.
/// The result holds exactly the given rules (as a multiset).
pub fn rules_by_priority(v: Vec<Rule>) -> (r: Vec<Rule>)
    ensures
        r@.len() == v@.len(),
        r@.to_multiset() == v@.to_multiset(),
        sorted_by_priority(r@),
{
    broadcast use group_to_multiset_ensures;

    let mut rem = v;
    let mut out: Vec<Rule> = Vec::new();
    let ghost orig = rem@;
    while rem.len() > 0
        invariant
            out@.to_multiset().add(rem@.to_multiset()) =~= orig.to_multiset(),
            out@.len() + rem@.len() == orig.len(),
            sorted_by_priority(out@),
            forall|a: int, b: int|
                0 <= a < out@.len() && 0 <= b < rem@.len() ==> (#[trigger] out@[a]).priority <= (
                #[trigger] rem@[b]).priority,
        decreases rem@.len(),
    {
        let mut m: usize = 0;
        let mut k: usize = 1;
        while k < rem.len()
            invariant
                0 <= m < k <= rem@.len(),
                forall|j: int|
                    0 <= j < k ==> rem@[m as int].priority <= (#[trigger] rem@[j]).priority,
            decreases rem@.len() - k,
        {
            if rem[k].priority < rem[m].priority {
                m = k;
            }
            k += 1;
        }
        let ghost old_rem = rem@;
        let x = rem.remove(m);
        let ghost old_out = out@;
        out.push(x);
        proof {
            broadcast use vstd::multiset::group_multiset_axioms;

            vstd::seq_lib::to_multiset_remove::<Rule>(old_rem, m as int);
            vstd::seq_lib::to_multiset_build::<Rule>(old_out, x);
            vstd::seq_lib::to_multiset_contains::<Rule>(old_rem, x);
            assert(rem@ == old_rem.remove(m as int));
            assert(out@ == old_out.push(x));
            assert(old_rem.contains(x));
            assert(old_rem.to_multiset().count(x) > 0);
            assert(out@.to_multiset().add(rem@.to_multiset()) =~= orig.to_multiset());
            assert forall|b: int| 0 <= b < rem@.len() implies x.priority <= (
            #[trigger] rem@[b]).priority by {
                if b < m {
                    assert(rem@[b] == old_rem[b]);
                } else {
                    assert(rem@[b] == old_rem[b + 1]);
                }
            }
        }
    }
    proof {
        assert(rem@.to_multiset() =~= vstd::multiset::Multiset::<Rule>::empty());
        assert(out@.to_multiset() =~= orig.to_multiset());
    }
    out
}

} // verus!
