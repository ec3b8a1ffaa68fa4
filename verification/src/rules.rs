//! Countdown and schedule rules of the plug devices: the result types a
//! device query yields, the request parameter types a rule edit takes, and
//! the logic that picks the active countdown out of a rule list.

use vstd::prelude::*;

verus! {

/// Desired state for countdown/schedule
pub struct DesiredState {
    /// Whether device should be on
    pub on: Option<bool>,
}

/// A countdown timer rule
pub struct CountdownRule {
    /// Rule ID
    pub id: String,
    /// Whether the rule is enabled
    pub enable: bool,
    /// Delay in seconds until the action triggers
    pub delay: u64,
    /// Seconds remaining (if timer is active)
    pub remain: u64,
    /// Action when countdown completes
    pub desired_states: Option<DesiredState>,
}

/// A scheduled rule
pub struct ScheduleRule {
    /// Rule ID
    pub id: String,
    /// Whether the rule is enabled
    pub enable: bool,
    /// Weekday mask (bits for days, 127 = all days)
    pub week_day: u8,
    /// Start minute of day (0-1439)
    pub s_min: u16,
    /// End minute of day
    pub e_min: u16,
    /// Mode (e.g., "repeat")
    pub mode: Option<String>,
    /// Day of month
    pub day: Option<u8>,
    /// Month
    pub month: Option<u8>,
    /// Year
    pub year: Option<u16>,
    /// Action
    pub desired_states: Option<DesiredState>,
}

/// Result wrapper for countdown rules
pub struct CountdownRulesResult {
    /// Whether countdown is enabled globally
    pub enable: bool,
    /// Max countdown rules
    pub countdown_rule_max_count: u32,
    /// List of countdown rules
    pub rules: Vec<CountdownRule>,
}

/// Result wrapper for schedule rules
pub struct ScheduleRulesResult {
    /// Whether schedule is enabled globally
    pub enable: bool,
    /// Max schedule rules
    pub schedule_rule_max_count: u32,
    /// List of schedule rules
    pub rules: Vec<ScheduleRule>,
    /// Total count (for pagination)
    pub sum: u32,
    /// Start index (for pagination)
    pub start_index: u32,
}

/// Desired states for countdown edits
pub struct CountdownDesiredStates {
    /// Whether device should be on
    pub on: bool,
}

/// Parameters for editing a countdown rule
pub struct EditCountdownRuleParams {
    /// Rule ID to edit
    pub id: String,
    /// Delay in seconds
    pub delay: u64,
    /// Desired states when countdown completes
    pub desired_states: CountdownDesiredStates,
    /// Whether to enable the rule
    pub enable: bool,
}

impl EditCountdownRuleParams {
    pub fn new(id: String, delay: u64, turn_on: bool) -> (r: Self)
        ensures
            r.id@ == id@,
            r.delay == delay,
            r.desired_states.on == turn_on,
            r.enable,
    {
        Self { id, delay, desired_states: CountdownDesiredStates { on: turn_on }, enable: true }
    }
}

/// Parameters for adding a countdown rule
pub struct AddCountdownRuleParams {
    /// Delay in seconds
    pub delay: u64,
    /// Desired states when countdown completes
    pub desired_states: CountdownDesiredStates,
    /// Whether to enable the rule
    pub enable: bool,
}

impl AddCountdownRuleParams {
    pub fn new(delay: u64, turn_on: bool) -> (r: Self)
        ensures
            r.delay == delay,
            r.desired_states.on == turn_on,
            r.enable,
    {
        Self { delay, desired_states: CountdownDesiredStates { on: turn_on }, enable: true }
    }
}

/// Parameters for getting schedule/countdown rules
pub struct GetRulesParams {
    /// Pagination start index
    pub start_index: u32,
}

impl GetRulesParams {
    pub fn new(start_index: u32) -> (r: Self)
        ensures
            r.start_index == start_index,
    {
        Self { start_index }
    }
}

impl Default for GetRulesParams {
    fn default() -> (r: Self)
        ensures
            r.start_index == 0,
    {
        Self { start_index: 0 }
    }
}

/// The state of the active countdown on a plug: seconds remaining and the
/// state the device will take when it fires (`None` when the rule does not
/// say).
#[derive(PartialEq, Eq, Structural, Clone, Copy, Debug)]
pub struct CountdownStatus {
    /// Seconds remaining until the action triggers
    pub remain: u64,
    /// Whether the device will be turned on (`None` when unspecified)
    pub turn_on: Option<bool>,
}

/// The status carried by the first enabled rule of the list, if any.
pub open spec fn spec_active_countdown(rules: Seq<CountdownRule>) -> Option<CountdownStatus>
    decreases rules.len(),
{
    if rules.len() == 0 {
        None
    } else if rules[0].enable {
        Some(spec_status_of(rules[0]))
    } else {
        spec_active_countdown(rules.drop_first())
    }
}

/// The status a rule reports: its remaining seconds and its desired state.
pub open spec fn spec_status_of(rule: CountdownRule) -> CountdownStatus {
    CountdownStatus {
        remain: rule.remain,
        turn_on: match rule.desired_states {
            Some(ds) => ds.on,
            None => None,
        },
    }
}

/// Picks the countdown status to report for a device: the first enabled
/// rule wins; with no enabled rule there is no countdown to report.
pub fn active_countdown(rules: &Vec<CountdownRule>) -> (r: Option<CountdownStatus>)
    ensures
        r == spec_active_countdown(rules@),
{
    let n = rules.len();
    proof {
        assert(rules@.skip(0) =~= rules@);
    }
    for i in 0..n
        invariant
            n == rules@.len(),
            spec_active_countdown(rules@) == spec_active_countdown(rules@.skip(i as int)),
    {
        proof {
            assert(rules@.skip(i as int).drop_first() =~= rules@.skip(i as int + 1));
        }
        if rules[i].enable {
            let rule = &rules[i];
            let turn_on = match &rule.desired_states {
                Some(ds) => ds.on,
                None => None,
            };
            return Some(CountdownStatus { remain: rule.remain, turn_on });
        }
    }
    proof {
        assert(rules@.skip(n as int) =~= Seq::<CountdownRule>::empty());
    }
    None
}

/// What a just-set countdown looks like against the intent that set it.
#[derive(PartialEq, Eq, Structural, Clone, Copy, Debug)]
pub enum CountdownCheck {
    /// A running rule exists and fires towards the requested state
    Confirmed,
    /// A running rule exists but fires towards the opposite state
    Mismatch,
    /// No enabled rule with time remaining exists
    NoneActive,
}

/// The first enabled rule with time remaining, if any.
pub open spec fn spec_running_rule(rules: Seq<CountdownRule>) -> Option<CountdownRule>
    decreases rules.len(),
{
    if rules.len() == 0 {
        None
    } else if rules[0].enable && rules[0].remain > 0 {
        Some(rules[0])
    } else {
        spec_running_rule(rules.drop_first())
    }
}

/// Whether a rule fires towards `want_on`; an unspecified desired state
/// counts as "off".
pub open spec fn spec_rule_matches(rule: CountdownRule, want_on: bool) -> bool {
    (match rule.desired_states {
        Some(ds) => ds.on is Some && ds.on.unwrap(),
        None => false,
    }) == want_on
}

/// Checks a freshly set countdown: looks for the first enabled rule with
/// time remaining and compares the state it will fire towards with the one
/// that was requested.
pub fn verify_countdown(rules: &Vec<CountdownRule>, want_on: bool) -> (r: CountdownCheck)
    ensures
        match spec_running_rule(rules@) {
            Some(rule) => r == (if spec_rule_matches(rule, want_on) {
                CountdownCheck::Confirmed
            } else {
                CountdownCheck::Mismatch
            }),
            None => r == CountdownCheck::NoneActive,
        },
{
    let n = rules.len();
    proof {
        assert(rules@.skip(0) =~= rules@);
    }
    for i in 0..n
        invariant
            n == rules@.len(),
            spec_running_rule(rules@) == spec_running_rule(rules@.skip(i as int)),
    {
        proof {
            assert(rules@.skip(i as int).drop_first() =~= rules@.skip(i as int + 1));
        }
        if rules[i].enable && rules[i].remain > 0 {
            let will_turn_on = match &rules[i].desired_states {
                Some(ds) => match ds.on {
                    Some(on) => on,
                    None => false,
                },
                None => false,
            };
            if will_turn_on == want_on {
                return CountdownCheck::Confirmed;
            } else {
                return CountdownCheck::Mismatch;
            }
        }
    }
    proof {
        assert(rules@.skip(n as int) =~= Seq::<CountdownRule>::empty());
    }
    CountdownCheck::NoneActive
}

} // verus!
