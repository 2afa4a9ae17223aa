//! Alert rules and the engine that evaluates them: rule validation, the set of rules
//! (one per id), triggered/recovered state per rule, per-rule cooldowns, the bounded list
//! of active alerts, and the generation that lets a monitoring tick drop results computed
//! before an import replaced the rules.
//!
//! Metric values are floats, so comparing a metric with its threshold and formatting the
//! messages happen outside; each evaluation receives, per rule, whether it is triggered
//! and the two messages. A rule's threshold is kept as the bits of its `f64`.

use vstd::prelude::*;
use crate::strmap::StrMap;
use crate::sys::new_uuid;
use crate::text::{owned, str_eq, str_chars, trim, trim_chars, utf8_len, utf8_len_exceeds};

verus! {

/// Longest cooldown a rule may have (one day).
pub const MAX_COOLDOWN_SECONDS: u64 = 86400;

/// Most active alerts kept; older ones are dropped first.
pub const MAX_ACTIVE_ALERTS: usize = 50;

/// Cooldown of a rule stored without one (five minutes).
pub fn default_cooldown() -> (r: u64)
    ensures
        r == 300,
{
    300
}

#[derive(Clone, Copy, Debug, PartialEq, Eq, Structural)]
pub enum MetricType {
    CpuUsage,
    MemoryUsage,
    DiskUsage,
}

#[derive(Clone, Copy, Debug, PartialEq, Eq, Structural)]
pub enum ComparisonOperator {
    GreaterThan,
    LessThan,
    Equals,
    GreaterThanOrEqual,
    LessThanOrEqual,
}

#[derive(Clone, Copy, Debug, PartialEq, Eq, Structural)]
pub enum AlertSeverity {
    Info,
    Warning,
    Critical,
}

pub struct AlertRule {
    pub id: String,
    pub metric: MetricType,
    pub operator: ComparisonOperator,
    /// The IEEE-754 bits of the `f64` threshold.
    pub threshold_bits: u64,
    pub severity: AlertSeverity,
    pub enabled: bool,
    pub cooldown_seconds: u64,
}

impl AlertRule {
    pub fn copy(&self) -> (r: Self)
        ensures
            r == *self,
            r.id@ == self.id@,
    {
        AlertRule {
            id: self.id.clone(),
            metric: self.metric,
            operator: self.operator,
            threshold_bits: self.threshold_bits,
            severity: self.severity,
            enabled: self.enabled,
            cooldown_seconds: self.cooldown_seconds,
        }
    }
}

pub struct Alert {
    pub id: String,
    pub rule_id: String,
    pub message: String,
    pub severity: AlertSeverity,
    pub timestamp: u64,
    pub acknowledged: bool,
}

impl Alert {
    pub fn copy(&self) -> (r: Self)
        ensures
            r == *self,
    {
        Alert {
            id: self.id.clone(),
            rule_id: self.rule_id.clone(),
            message: self.message.clone(),
            severity: self.severity,
            timestamp: self.timestamp,
            acknowledged: self.acknowledged,
        }
    }
}

pub struct AlertRecovery {
    pub rule_id: String,
    pub message: String,
    pub recovered_at: u64,
}

/// What the caller worked out for one rule in one evaluation.
pub struct RuleObservation {
    /// The rule's comparison holds for the current metrics.
    pub triggered: bool,
    /// The message of an alert raised now.
    pub alert_message: String,
    /// The message of a recovery reported now.
    pub recovery_message: String,
}

/// The `f64` with these bits is finite and lies in [0, 100] (`-0.0` included): positive
/// floats are ordered like their bits, 100.0 has the bits `0x4059_0000_0000_0000`, and
/// every other value with the sign bit set is below zero or NaN.
pub open spec fn percent_bits(b: u64) -> bool {
    b <= 0x4059_0000_0000_0000 || b == 0x8000_0000_0000_0000
}

/// The first rule a rule breaks: an id of 1-64 bytes that isn't blank, a percentage
/// threshold, and a cooldown of at most one day.
pub open spec fn rule_error(id: Seq<char>, id_bytes: nat, threshold_bits: u64, cooldown: u64) -> Option<Seq<char>> {
    if trim(id).len() == 0 || id_bytes > 64 {
        Some("Alert rule id must be 1-64 characters"@)
    } else if !percent_bits(threshold_bits) {
        Some("Alert threshold must be a percentage between 0 and 100"@)
    } else if cooldown > MAX_COOLDOWN_SECONDS {
        Some("Alert cooldown can be at most one day"@)
    } else {
        None
    }
}

/// Rejects rules the engine can't evaluate meaningfully. The metrics are percentages.
pub fn validate_rule(rule: &AlertRule) -> (r: Result<(), String>)
    ensures
        r is Ok <==> rule_error(rule.id@, utf8_len(rule.id@), rule.threshold_bits, rule.cooldown_seconds) is None,
        r matches Err(e) ==> rule_error(rule.id@, utf8_len(rule.id@), rule.threshold_bits, rule.cooldown_seconds) == Some(e@),
{
    let idv = str_chars(rule.id.as_str());
    if trim_chars(&idv).len() == 0 || utf8_len_exceeds(&idv, 64) {
        return Err(owned("Alert rule id must be 1-64 characters"));
    }
    if !(rule.threshold_bits <= 0x4059_0000_0000_0000 || rule.threshold_bits == 0x8000_0000_0000_0000) {
        return Err(owned("Alert threshold must be a percentage between 0 and 100"));
    }
    if rule.cooldown_seconds > MAX_COOLDOWN_SECONDS {
        return Err(owned("Alert cooldown can be at most one day"));
    }
    Ok(())
}

/// Whole seconds from `from` to `now` (milliseconds), zero if `now` is earlier.
pub open spec fn elapsed_secs(from: u64, now: u64) -> u64 {
    if now >= from {
        ((now - from) / 1000) as u64
    } else {
        0
    }
}

/// The rule raises an alert: enabled, triggered, and not within its cooldown.
pub open spec fn fires(rule: AlertRule, obs: RuleObservation, cooldowns: Map<Seq<char>, u64>, now: u64) -> bool {
    rule.enabled && obs.triggered && !(cooldowns.contains_key(rule.id@) && elapsed_secs(
        cooldowns[rule.id@],
        now,
    ) < rule.cooldown_seconds)
}

/// The rule reports a recovery: enabled, was triggered, no longer is.
pub open spec fn recovers(rule: AlertRule, obs: RuleObservation, states: Map<Seq<char>, bool>) -> bool {
    rule.enabled && !obs.triggered && states.contains_key(rule.id@) && states[rule.id@]
}

/// Indices among the first `n` rules that raise an alert, in order.
pub open spec fn firing(rules: Seq<AlertRule>, obs: Seq<RuleObservation>, cooldowns: Map<Seq<char>, u64>, now: u64, n: nat) -> Seq<int>
    decreases n,
{
    if n == 0 {
        seq![]
    } else {
        let prev = firing(rules, obs, cooldowns, now, (n - 1) as nat);
        if fires(rules[n - 1], obs[n - 1], cooldowns, now) {
            prev.push(n - 1)
        } else {
            prev
        }
    }
}

/// Indices among the first `n` rules that report a recovery, in order.
pub open spec fn recovering(rules: Seq<AlertRule>, obs: Seq<RuleObservation>, states: Map<Seq<char>, bool>, n: nat) -> Seq<int>
    decreases n,
{
    if n == 0 {
        seq![]
    } else {
        let prev = recovering(rules, obs, states, (n - 1) as nat);
        if recovers(rules[n - 1], obs[n - 1], states) {
            prev.push(n - 1)
        } else {
            prev
        }
    }
}

/// The last `MAX_ACTIVE_ALERTS` of `s`.
pub open spec fn capped<T>(s: Seq<T>) -> Seq<T> {
    if s.len() > MAX_ACTIVE_ALERTS {
        s.subrange(s.len() - MAX_ACTIVE_ALERTS, s.len() as int)
    } else {
        s
    }
}

/// Distinct rule ids.
pub open spec fn ids_unique(rules: Seq<AlertRule>) -> bool {
    forall|a: int, b: int| 0 <= a < b < rules.len() ==> (#[trigger] rules[a]).id@ != (#[trigger] rules[b]).id@
}

/// The next generation (the counter wraps like `AtomicU64::fetch_add`).
pub open spec fn next_generation(g: u64) -> u64 {
    if g == u64::MAX {
        0
    } else {
        (g + 1) as u64
    }
}


/// The triggered state of each rule id after the first `n` rules were evaluated: an
/// enabled rule that triggers is marked triggered, one that recovers is marked clear.
pub open spec fn states_after(rules: Seq<AlertRule>, obs: Seq<RuleObservation>, states: Map<Seq<char>, bool>, n: nat) -> Map<Seq<char>, bool>
    decreases n,
{
    if n == 0 {
        states
    } else {
        let m = states_after(rules, obs, states, (n - 1) as nat);
        let rule = rules[n - 1];
        if rule.enabled && obs[n - 1].triggered {
            m.insert(rule.id@, true)
        } else if recovers(rule, obs[n - 1], states) {
            m.insert(rule.id@, false)
        } else {
            m
        }
    }
}

/// The time of the last alert of each rule id after the first `n` rules were evaluated:
/// a rule that raises an alert starts its cooldown now, one that recovers loses it.
pub open spec fn cooldowns_after(
    rules: Seq<AlertRule>,
    obs: Seq<RuleObservation>,
    states: Map<Seq<char>, bool>,
    cooldowns: Map<Seq<char>, u64>,
    now: u64,
    n: nat,
) -> Map<Seq<char>, u64>
    decreases n,
{
    if n == 0 {
        cooldowns
    } else {
        let m = cooldowns_after(rules, obs, states, cooldowns, now, (n - 1) as nat);
        let rule = rules[n - 1];
        if fires(rule, obs[n - 1], cooldowns, now) {
            m.insert(rule.id@, now)
        } else if recovers(rule, obs[n - 1], states) {
            m.remove(rule.id@)
        } else {
            m
        }
    }
}

/// `a` is the alert raised for `rule` at `timestamp` (its id is a fresh UUID).
pub open spec fn alert_for(a: Alert, rule: AlertRule, o: RuleObservation, timestamp: u64) -> bool {
    &&& a.rule_id@ == rule.id@
    &&& a.message@ == o.alert_message@
    &&& a.severity == rule.severity
    &&& a.timestamp == timestamp
    &&& !a.acknowledged
}

/// `rc` is the recovery reported for `rule` at `timestamp`.
pub open spec fn recovery_for(rc: AlertRecovery, rule: AlertRule, o: RuleObservation, timestamp: u64) -> bool {
    &&& rc.rule_id@ == rule.id@
    &&& rc.message@ == o.recovery_message@
    &&& rc.recovered_at == timestamp
}

pub struct AlertEngine {
    store: Option<String>,
    rules: Vec<AlertRule>,
    active_alerts: Vec<Alert>,
    cooldowns: StrMap<u64>,
    states: StrMap<bool>,
    generation: u64,
}

impl AlertEngine {
    pub closed spec fn rules(&self) -> Seq<AlertRule> {
        self.rules@
    }

    pub closed spec fn active(&self) -> Seq<Alert> {
        self.active_alerts@
    }

    pub closed spec fn cooldown_map(&self) -> Map<Seq<char>, u64> {
        self.cooldowns@
    }

    pub closed spec fn state_map(&self) -> Map<Seq<char>, bool> {
        self.states@
    }

    pub closed spec fn gen(&self) -> u64 {
        self.generation
    }

    pub closed spec fn store_path(&self) -> Option<Seq<char>> {
        match self.store {
            Some(s) => Some(s@),
            None => None,
        }
    }

    /// Rule ids are distinct and at most `MAX_ACTIVE_ALERTS` alerts are active.
    pub closed spec fn wf(&self) -> bool {
        &&& ids_unique(self.rules@)
        &&& self.active_alerts@.len() <= MAX_ACTIVE_ALERTS
        &&& self.cooldowns.wf()
        &&& self.states.wf()
    }

    pub fn new() -> (r: Self)
        ensures
            r.wf(),
            r.rules() == Seq::<AlertRule>::empty(),
            r.active() == Seq::<Alert>::empty(),
            r.cooldown_map() == Map::<Seq<char>, u64>::empty(),
            r.state_map() == Map::<Seq<char>, bool>::empty(),
            r.gen() == 0,
            r.store_path() is None,
    {
        let r = AlertEngine {
            store: None,
            rules: Vec::new(),
            active_alerts: Vec::new(),
            cooldowns: StrMap::new(),
            states: StrMap::new(),
            generation: 0,
        };
        assert(r.rules() =~= Seq::<AlertRule>::empty());
        assert(r.active() =~= Seq::<Alert>::empty());
        r
    }

    /// The current rule generation; read it before `evaluate`.
    pub fn generation(&self) -> (r: u64)
        ensures
            r == self.gen(),
    {
        self.generation
    }

    /// Whether the results of an evaluation that read `generation` may still be
    /// persisted: no `suspend` happened since.
    pub fn is_current(&self, generation: u64) -> (r: bool)
        ensures
            r == (generation == self.gen()),
    {
        self.generation == generation
    }

    /// What a tick that read `generation` before evaluating may emit and save: its alerts
    /// and recoveries when no `suspend` happened since (the rules it evaluated are still
    /// the current ones), `None` when they are stale and must be dropped.
    pub fn persist_if_current(&self, generation: u64, alerts: Vec<Alert>, recoveries: Vec<AlertRecovery>) -> (r: Option<(Vec<Alert>, Vec<AlertRecovery>)>)
        ensures
            r is Some <==> generation == self.gen(),
            r matches Some(p) ==> p.0@ == alerts@ && p.1@ == recoveries@,
    {
        if self.is_current(generation) {
            Some((alerts, recoveries))
        } else {
            None
        }
    }

    /// The database the rules are persisted to, once attached.
    pub fn store(&self) -> (r: Option<String>)
        ensures
            match r {
                Some(s) => self.store_path() == Some(s@),
                None => self.store_path() is None,
            },
    {
        match &self.store {
            Some(s) => Some(s.clone()),
            None => None,
        }
    }

    /// Installs the rules loaded from the database at `db_path` and persists every later
    /// change there. A later rule replaces an earlier one with the same id. Returns the
    /// number of rules loaded.
    pub fn attach_store(&mut self, db_path: String, loaded: Vec<AlertRule>) -> (r: usize)
        requires
            old(self).wf(),
            ids_unique(loaded@),
        ensures
            final(self).wf(),
            r == loaded@.len(),
            final(self).rules() == loaded@,
            final(self).store_path() == Some(db_path@),
            final(self).active() == old(self).active(),
            final(self).cooldown_map() == old(self).cooldown_map(),
            final(self).state_map() == old(self).state_map(),
            final(self).gen() == old(self).gen(),
    {
        let n = loaded.len();
        self.rules = loaded;
        self.store = Some(db_path);
        n
    }

    /// Drops every rule and every piece of alert state (active alerts, cooldowns,
    /// triggered state) until the next load, and starts a new generation.
    pub fn suspend(&mut self)
        requires
            old(self).wf(),
        ensures
            final(self).wf(),
            final(self).rules() == Seq::<AlertRule>::empty(),
            final(self).active() == Seq::<Alert>::empty(),
            final(self).cooldown_map() == Map::<Seq<char>, u64>::empty(),
            final(self).state_map() == Map::<Seq<char>, bool>::empty(),
            final(self).gen() == next_generation(old(self).gen()),
            final(self).store_path() == old(self).store_path(),
    {
        self.generation = if self.generation == u64::MAX { 0 } else { self.generation + 1 };
        self.rules = Vec::new();
        self.active_alerts = Vec::new();
        self.cooldowns.clear();
        self.states.clear();
        assert(self.rules() =~= Seq::<AlertRule>::empty());
        assert(self.active() =~= Seq::<Alert>::empty());
    }

    /// Adds a rule, replacing the one with the same id (which keeps no position).
    pub fn add_rule(&mut self, rule: AlertRule) -> (r: Result<(), String>)
        requires
            old(self).wf(),
        ensures
            final(self).wf(),
            r is Ok <==> rule_error(rule.id@, utf8_len(rule.id@), rule.threshold_bits, rule.cooldown_seconds) is None,
            r matches Err(e) ==> rule_error(rule.id@, utf8_len(rule.id@), rule.threshold_bits, rule.cooldown_seconds) == Some(e@)
                && final(self).rules() == old(self).rules(),
            r is Ok ==> final(self).rules() == old(self).rules().filter(|x: AlertRule| x.id@ != rule.id@).push(rule),
            final(self).active() == old(self).active(),
            final(self).cooldown_map() == old(self).cooldown_map(),
            final(self).state_map() == old(self).state_map(),
            final(self).gen() == old(self).gen(),
            final(self).store_path() == old(self).store_path(),
    {
        validate_rule(&rule)?;
        self.retain_other_ids(rule.id.as_str());
        let ghost kept = self.rules@;
        self.rules.push(rule);
        assert forall|a: int, b: int| 0 <= a < b < self.rules@.len() implies (#[trigger] self.rules@[a]).id@ != (#[trigger] self.rules@[b]).id@ by {
            if b == kept.len() {
                assert(self.rules@[a] == kept[a]);
                old(self).rules@.lemma_filter_pred(|x: AlertRule| x.id@ != self.rules@[b].id@, a);
            } else {
                assert(self.rules@[a] == kept[a] && self.rules@[b] == kept[b]);
            }
        }
        Ok(())
    }

    /// Keeps the rules whose id is not `id`.
    fn retain_other_ids(&mut self, id: &str)
        requires
            old(self).wf(),
        ensures
            final(self).wf(),
            final(self).rules() == old(self).rules().filter(|x: AlertRule| x.id@ != id@),
            final(self).active() == old(self).active(),
            final(self).cooldown_map() == old(self).cooldown_map(),
            final(self).state_map() == old(self).state_map(),
            final(self).gen() == old(self).gen(),
            final(self).store_path() == old(self).store_path(),
    {
        let ghost pred = |x: AlertRule| x.id@ != id@;
        let mut old_rules: Vec<AlertRule> = Vec::new();
        std::mem::swap(&mut old_rules, &mut self.rules);
        let mut kept: Vec<AlertRule> = Vec::new();
        let mut i: usize = 0;
        while i < old_rules.len()
            invariant
                i <= old_rules@.len(),
                old_rules@ == old(self).rules@,
                ids_unique(old_rules@),
                kept@ == old_rules@.subrange(0, i as int).filter(pred),
                forall|x: AlertRule| #[trigger] pred(x) == (x.id@ != id@),
            decreases old_rules@.len() - i,
        {
            let keep = !str_eq(old_rules[i].id.as_str(), id);
            if keep {
                kept.push(old_rules[i].copy());
            }
            proof {
                reveal_with_fuel(Seq::<_>::filter, 1);
                let t = old_rules@.subrange(0, i + 1);
                assert(t.drop_last() =~= old_rules@.subrange(0, i as int));
                assert(t.last() == old_rules@[i as int]);
                assert(keep == (old_rules@[i as int].id@ != id@));
                assert(pred(old_rules@[i as int]) == keep);
            }
            i = i + 1;
        }
        assert(old_rules@.subrange(0, old_rules@.len() as int) =~= old_rules@);
        proof {
            assert forall|a: int, b: int| 0 <= a < b < kept@.len() implies (#[trigger] kept@[a]).id@ != (#[trigger] kept@[b]).id@ by {
                lemma_filter_keeps_unique(old_rules@, pred, a, b);
            }
        }
        self.rules = kept;
    }

    /// Removes the rule with this id, if any.
    pub fn remove_rule(&mut self, rule_id: &str)
        requires
            old(self).wf(),
        ensures
            final(self).wf(),
            final(self).rules() == old(self).rules().filter(|x: AlertRule| x.id@ != rule_id@),
            final(self).active() == old(self).active(),
            final(self).cooldown_map() == old(self).cooldown_map(),
            final(self).state_map() == old(self).state_map(),
            final(self).gen() == old(self).gen(),
            final(self).store_path() == old(self).store_path(),
    {
        self.retain_other_ids(rule_id);
    }

    pub fn get_rules(&self) -> (r: Vec<AlertRule>)
        ensures
            r@ == self.rules(),
    {
        let mut out: Vec<AlertRule> = Vec::new();
        let mut i: usize = 0;
        while i < self.rules.len()
            invariant
                i <= self.rules@.len(),
                out@ == self.rules@.subrange(0, i as int),
            decreases self.rules@.len() - i,
        {
            out.push(self.rules[i].copy());
            i = i + 1;
            assert(out@ =~= self.rules@.subrange(0, i as int));
        }
        assert(self.rules@.subrange(0, self.rules@.len() as int) =~= self.rules@);
        out
    }

    pub fn get_active_alerts(&self) -> (r: Vec<Alert>)
        ensures
            r@.len() == self.active().len(),
            forall|i: int| 0 <= i < r@.len() ==> (#[trigger] r@[i]).id@ == self.active()[i].id@
                && r@[i].rule_id@ == self.active()[i].rule_id@ && r@[i].message@ == self.active()[i].message@
                && r@[i].severity == self.active()[i].severity && r@[i].timestamp == self.active()[i].timestamp
                && r@[i].acknowledged == self.active()[i].acknowledged,
    {
        let mut out: Vec<Alert> = Vec::new();
        let mut i: usize = 0;
        while i < self.active_alerts.len()
            invariant
                i <= self.active_alerts@.len(),
                out@.len() == i,
                forall|k: int| 0 <= k < i ==> (#[trigger] out@[k]).id@ == self.active_alerts@[k].id@
                    && out@[k].rule_id@ == self.active_alerts@[k].rule_id@ && out@[k].message@ == self.active_alerts@[k].message@
                    && out@[k].severity == self.active_alerts@[k].severity && out@[k].timestamp == self.active_alerts@[k].timestamp
                    && out@[k].acknowledged == self.active_alerts@[k].acknowledged,
            decreases self.active_alerts@.len() - i,
        {
            out.push(self.active_alerts[i].copy());
            i = i + 1;
        }
        out
    }

    /// Marks the first active alert with this id acknowledged.
    pub fn acknowledge_alert(&mut self, alert_id: &str)
        requires
            old(self).wf(),
        ensures
            final(self).wf(),
            final(self).active().len() == old(self).active().len(),
            forall|i: int| 0 <= i < old(self).active().len() ==> {
                let a = old(self).active()[i];
                let b = #[trigger] final(self).active()[i];
                &&& b.id == a.id && b.rule_id == a.rule_id && b.message == a.message
                &&& b.severity == a.severity && b.timestamp == a.timestamp
                &&& b.acknowledged == (a.acknowledged || (a.id@ == alert_id@ && forall|k: int| 0 <= k < i ==> old(self).active()[k].id@ != alert_id@))
            },
            final(self).rules() == old(self).rules(),
            final(self).cooldown_map() == old(self).cooldown_map(),
            final(self).state_map() == old(self).state_map(),
            final(self).gen() == old(self).gen(),
            final(self).store_path() == old(self).store_path(),
    {
        let mut i: usize = 0;
        while i < self.active_alerts.len()
            invariant
                self.wf(),
                self.rules@ == old(self).rules@,
                self.cooldowns@ == old(self).cooldowns@,
                self.states@ == old(self).states@,
                self.generation == old(self).generation,
                self.store == old(self).store,
                i <= self.active_alerts@.len(),
                self.active_alerts@ == old(self).active_alerts@,
                forall|k: int| 0 <= k < i ==> self.active_alerts@[k].id@ != alert_id@,
            decreases self.active_alerts@.len() - i,
        {
            if str_eq(self.active_alerts[i].id.as_str(), alert_id) {
                let mut a = self.active_alerts[i].copy();
                a.acknowledged = true;
                let ghost before = self.active_alerts@;
                self.active_alerts.set(i, a);
                assert forall|j: int| 0 <= j < before.len() implies {
                    let x = before[j];
                    let y = #[trigger] self.active_alerts@[j];
                    &&& y.id == x.id && y.rule_id == x.rule_id && y.message == x.message
                    &&& y.severity == x.severity && y.timestamp == x.timestamp
                    &&& y.acknowledged == (x.acknowledged || (x.id@ == alert_id@ && forall|k: int| 0 <= k < j ==> before[k].id@ != alert_id@))
                } by {
                    if j > i as int {
                        assert(before[i as int].id@ == alert_id@);
                    }
                }
                return;
            }
            i = i + 1;
        }
    }

    /// Evaluates every rule against what the caller observed for it (`observations[i]`
    /// belongs to the `i`-th rule of `get_rules`). Returns the alerts raised and the
    /// recoveries reported; the alerts are appended to the active ones, of which the
    /// newest `MAX_ACTIVE_ALERTS` are kept. `now_ms` is a monotonic clock in milliseconds.
    pub fn evaluate(&mut self, observations: &Vec<RuleObservation>, timestamp: u64, now_ms: u64) -> (r: (
        Vec<Alert>,
        Vec<AlertRecovery>,
    ))
        requires
            old(self).wf(),
            observations@.len() == old(self).rules().len(),
        ensures
            final(self).wf(),
            ({
                let rules = old(self).rules();
                let n = rules.len();
                let fired = firing(rules, observations@, old(self).cooldown_map(), now_ms, n);
                let recovered = recovering(rules, observations@, old(self).state_map(), n);
                &&& r.0@.len() == fired.len()
                &&& forall|k: int| 0 <= k < fired.len() ==> alert_for(#[trigger] r.0@[k], rules[fired[k]], observations@[fired[k]], timestamp)
                &&& r.1@.len() == recovered.len()
                &&& forall|k: int| 0 <= k < recovered.len() ==> recovery_for(#[trigger] r.1@[k], rules[recovered[k]], observations@[recovered[k]], timestamp)
                &&& final(self).state_map() == states_after(rules, observations@, old(self).state_map(), n)
                &&& final(self).cooldown_map() == cooldowns_after(rules, observations@, old(self).state_map(), old(self).cooldown_map(), now_ms, n)
            }),
            final(self).active() == capped(old(self).active() + r.0@),
            final(self).rules() == old(self).rules(),
            final(self).gen() == old(self).gen(),
            final(self).store_path() == old(self).store_path(),
    {
        let ghost rules = self.rules@;
        let ghost obs = observations@;
        let ghost states0 = self.states@;
        let ghost cds0 = self.cooldowns@;
        let mut new_alerts: Vec<Alert> = Vec::new();
        let mut recoveries: Vec<AlertRecovery> = Vec::new();
        let n = self.rules.len();
        let mut i: usize = 0;
        while i < n
            invariant
                n == rules.len(),
                obs.len() == n,
                obs == observations@,
                i <= n,
                self.rules@ == rules,
                rules == old(self).rules@,
                states0 == old(self).states@,
                cds0 == old(self).cooldowns@,
                self.active_alerts@ == old(self).active_alerts@,
                self.generation == old(self).generation,
                self.store == old(self).store,
                self.wf(),
                self.states@ == states_after(rules, obs, states0, i as nat),
                self.cooldowns@ == cooldowns_after(rules, obs, states0, cds0, now_ms, i as nat),
                new_alerts@.len() == firing(rules, obs, cds0, now_ms, i as nat).len(),
                forall|k: int| 0 <= k < new_alerts@.len() ==> alert_for(
                    #[trigger] new_alerts@[k],
                    rules[firing(rules, obs, cds0, now_ms, i as nat)[k]],
                    obs[firing(rules, obs, cds0, now_ms, i as nat)[k]],
                    timestamp,
                ),
                recoveries@.len() == recovering(rules, obs, states0, i as nat).len(),
                forall|k: int| 0 <= k < recoveries@.len() ==> recovery_for(
                    #[trigger] recoveries@[k],
                    rules[recovering(rules, obs, states0, i as nat)[k]],
                    obs[recovering(rules, obs, states0, i as nat)[k]],
                    timestamp,
                ),
            decreases n - i,
        {
            let ghost ii = i as int;
            proof {
                lemma_frame_before(rules, obs, states0, cds0, now_ms, i as nat);
                lemma_firing_bounds(rules, obs, cds0, now_ms, i as nat);
                lemma_recovering_bounds(rules, obs, states0, i as nat);
            }
            let ghost fired_before = firing(rules, obs, cds0, now_ms, i as nat);
            let ghost recovered_before = recovering(rules, obs, states0, i as nat);
            if self.rules[i].enabled {
                let id: String = self.rules[i].id.clone();
                let triggered = observations[i].triggered;
                let was = match self.states.get(id.as_str()) {
                    Some(b) => *b,
                    None => false,
                };
                if was && !triggered {
                    recoveries.push(
                        AlertRecovery {
                            rule_id: id.clone(),
                            message: observations[i].recovery_message.clone(),
                            recovered_at: timestamp,
                        },
                    );
                    self.states.insert(id.as_str(), false);
                    self.cooldowns.remove(id.as_str());
                }
                if triggered {
                    self.states.insert(id.as_str(), true);
                    let cooling = match self.cooldowns.get(id.as_str()) {
                        Some(t) => {
                            let since: u64 = if now_ms >= *t { (now_ms - *t) / 1000 } else { 0 };
                            since < self.rules[i].cooldown_seconds
                        },
                        None => false,
                    };
                    if !cooling {
                        let alert_id = new_uuid();
                        new_alerts.push(
                            Alert {
                                id: alert_id,
                                rule_id: id.clone(),
                                message: observations[i].alert_message.clone(),
                                severity: self.rules[i].severity,
                                timestamp,
                                acknowledged: false,
                            },
                        );
                        self.cooldowns.insert(id.as_str(), now_ms);
                    }
                }
            }
            proof {
                let fired_after = firing(rules, obs, cds0, now_ms, (i + 1) as nat);
                let recovered_after = recovering(rules, obs, states0, (i + 1) as nat);
                assert forall|k: int| 0 <= k < fired_before.len() implies fired_after[k] == fired_before[k] by {}
                assert forall|k: int| 0 <= k < recovered_before.len() implies recovered_after[k] == recovered_before[k] by {}
            }
            i = i + 1;
        }
        let mut combined: Vec<Alert> = Vec::new();
        std::mem::swap(&mut combined, &mut self.active_alerts);
        let ghost prefix = combined@;
        let mut j: usize = 0;
        while j < new_alerts.len()
            invariant
                j <= new_alerts@.len(),
                combined@ == prefix + new_alerts@.subrange(0, j as int),
            decreases new_alerts@.len() - j,
        {
            combined.push(new_alerts[j].copy());
            j = j + 1;
            assert(combined@ =~= prefix + new_alerts@.subrange(0, j as int));
        }
        assert(new_alerts@.subrange(0, new_alerts@.len() as int) =~= new_alerts@);
        let len = combined.len();
        if len > MAX_ACTIVE_ALERTS {
            let tail = combined.split_off(len - MAX_ACTIVE_ALERTS);
            self.active_alerts = tail;
        } else {
            self.active_alerts = combined;
        }
        (new_alerts, recoveries)
    }

    /// Removes every active alert with this id.
    pub fn dismiss_alert(&mut self, alert_id: &str)
        requires
            old(self).wf(),
        ensures
            final(self).wf(),
            final(self).active() == old(self).active().filter(|a: Alert| a.id@ != alert_id@),
            final(self).rules() == old(self).rules(),
            final(self).cooldown_map() == old(self).cooldown_map(),
            final(self).state_map() == old(self).state_map(),
            final(self).gen() == old(self).gen(),
            final(self).store_path() == old(self).store_path(),
    {
        let ghost pred = |a: Alert| a.id@ != alert_id@;
        let mut old_active: Vec<Alert> = Vec::new();
        std::mem::swap(&mut old_active, &mut self.active_alerts);
        let mut kept: Vec<Alert> = Vec::new();
        let mut i: usize = 0;
        while i < old_active.len()
            invariant
                i <= old_active@.len(),
                old_active@ == old(self).active_alerts@,
                kept@ == old_active@.subrange(0, i as int).filter(pred),
                forall|x: Alert| #[trigger] pred(x) == (x.id@ != alert_id@),
            decreases old_active@.len() - i,
        {
            let keep = !str_eq(old_active[i].id.as_str(), alert_id);
            if keep {
                kept.push(old_active[i].copy());
            }
            proof {
                reveal_with_fuel(Seq::<_>::filter, 1);
                let t = old_active@.subrange(0, i + 1);
                assert(t.drop_last() =~= old_active@.subrange(0, i as int));
                assert(t.last() == old_active@[i as int]);
                assert(keep == (old_active@[i as int].id@ != alert_id@));
                assert(pred(old_active@[i as int]) == keep);
            }
            i = i + 1;
        }
        assert(old_active@.subrange(0, old_active@.len() as int) =~= old_active@);
        proof {
            old_active@.lemma_filter_len(pred);
        }
        self.active_alerts = kept;
    }
}

/// Rules evaluated before the `n`-th leave its id's entries as they were.
proof fn lemma_frame_before(
    rules: Seq<AlertRule>,
    obs: Seq<RuleObservation>,
    states: Map<Seq<char>, bool>,
    cooldowns: Map<Seq<char>, u64>,
    now: u64,
    n: nat,
)
    requires
        ids_unique(rules),
        n < rules.len(),
    ensures
        states_after(rules, obs, states, n).contains_key(rules[n as int].id@) == states.contains_key(rules[n as int].id@),
        states.contains_key(rules[n as int].id@) ==> states_after(rules, obs, states, n)[rules[n as int].id@] == states[rules[n as int].id@],
        cooldowns_after(rules, obs, states, cooldowns, now, n).contains_key(rules[n as int].id@) == cooldowns.contains_key(rules[n as int].id@),
        cooldowns.contains_key(rules[n as int].id@) ==> cooldowns_after(rules, obs, states, cooldowns, now, n)[rules[n as int].id@] == cooldowns[rules[n as int].id@],
{
    lemma_frame(rules, obs, states, cooldowns, now, n, rules[n as int].id@);
}

/// Entries of an id that none of the first `n` rules has stay as they were.
proof fn lemma_frame(
    rules: Seq<AlertRule>,
    obs: Seq<RuleObservation>,
    states: Map<Seq<char>, bool>,
    cooldowns: Map<Seq<char>, u64>,
    now: u64,
    n: nat,
    key: Seq<char>,
)
    requires
        n <= rules.len(),
        forall|j: int| 0 <= j < n ==> (#[trigger] rules[j]).id@ != key,
    ensures
        states_after(rules, obs, states, n).contains_key(key) == states.contains_key(key),
        states.contains_key(key) ==> states_after(rules, obs, states, n)[key] == states[key],
        cooldowns_after(rules, obs, states, cooldowns, now, n).contains_key(key) == cooldowns.contains_key(key),
        cooldowns.contains_key(key) ==> cooldowns_after(rules, obs, states, cooldowns, now, n)[key] == cooldowns[key],
    decreases n,
{
    if n > 0 {
        assert(rules[n - 1].id@ != key);
        lemma_frame(rules, obs, states, cooldowns, now, (n - 1) as nat, key);
    }
}

proof fn lemma_firing_bounds(rules: Seq<AlertRule>, obs: Seq<RuleObservation>, cooldowns: Map<Seq<char>, u64>, now: u64, n: nat)
    ensures
        firing(rules, obs, cooldowns, now, n).len() <= n,
        forall|k: int| 0 <= k < firing(rules, obs, cooldowns, now, n).len() ==> 0 <= #[trigger] firing(rules, obs, cooldowns, now, n)[k] < n,
    decreases n,
{
    if n > 0 {
        lemma_firing_bounds(rules, obs, cooldowns, now, (n - 1) as nat);
    }
}

proof fn lemma_recovering_bounds(rules: Seq<AlertRule>, obs: Seq<RuleObservation>, states: Map<Seq<char>, bool>, n: nat)
    ensures
        recovering(rules, obs, states, n).len() <= n,
        forall|k: int| 0 <= k < recovering(rules, obs, states, n).len() ==> 0 <= #[trigger] recovering(rules, obs, states, n)[k] < n,
    decreases n,
{
    if n > 0 {
        lemma_recovering_bounds(rules, obs, states, (n - 1) as nat);
    }
}

/// Entries of an id that none of the rules `m..n` has are the same after `n` rules as
/// after `m`.
proof fn lemma_frame_range(
    rules: Seq<AlertRule>,
    obs: Seq<RuleObservation>,
    states: Map<Seq<char>, bool>,
    cooldowns: Map<Seq<char>, u64>,
    now: u64,
    m: nat,
    n: nat,
    key: Seq<char>,
)
    requires
        m <= n <= rules.len(),
        forall|j: int| m <= j < n ==> (#[trigger] rules[j]).id@ != key,
    ensures
        states_after(rules, obs, states, n).contains_key(key) == states_after(rules, obs, states, m).contains_key(key),
        states_after(rules, obs, states, n).contains_key(key) ==> states_after(rules, obs, states, n)[key]
            == states_after(rules, obs, states, m)[key],
        cooldowns_after(rules, obs, states, cooldowns, now, n).contains_key(key)
            == cooldowns_after(rules, obs, states, cooldowns, now, m).contains_key(key),
        cooldowns_after(rules, obs, states, cooldowns, now, n).contains_key(key)
            ==> cooldowns_after(rules, obs, states, cooldowns, now, n)[key]
            == cooldowns_after(rules, obs, states, cooldowns, now, m)[key],
    decreases n - m,
{
    if n > m {
        assert(rules[n - 1].id@ != key);
        lemma_frame_range(rules, obs, states, cooldowns, now, m, (n - 1) as nat, key);
    }
}

/// An enabled rule that was triggered and is found no longer triggered reports a
/// recovery, and that evaluation clears its cooldown: the next evaluation that finds it
/// triggered raises an alert at once, however little time has passed.
pub proof fn law_recovery_clears_the_cooldown(
    rules: Seq<AlertRule>,
    obs1: Seq<RuleObservation>,
    states: Map<Seq<char>, bool>,
    cooldowns: Map<Seq<char>, u64>,
    now1: u64,
    obs2: Seq<RuleObservation>,
    now2: u64,
    i: int,
)
    requires
        ids_unique(rules),
        obs1.len() == rules.len(),
        0 <= i < rules.len(),
        rules[i].enabled,
        states.contains_key(rules[i].id@) && states[rules[i].id@],
        !obs1[i].triggered,
        obs2[i].triggered,
    ensures
        recovering(rules, obs1, states, rules.len()).contains(i),
        !cooldowns_after(rules, obs1, states, cooldowns, now1, rules.len()).contains_key(rules[i].id@),
        fires(rules[i], obs2[i], cooldowns_after(rules, obs1, states, cooldowns, now1, rules.len()), now2),
{
    lemma_recovering_exact(rules, obs1, states, rules.len());
    assert(!cooldowns_after(rules, obs1, states, cooldowns, now1, (i + 1) as nat).contains_key(rules[i].id@));
    assert forall|j: int| i + 1 <= j < rules.len() implies (#[trigger] rules[j]).id@ != rules[i].id@ by {}
    lemma_frame_range(rules, obs1, states, cooldowns, now1, (i + 1) as nat, rules.len(), rules[i].id@);
}

/// What an alert and a recovery report: the alert names its rule, carries the rule's
/// severity, the message observed and the evaluation's timestamp, and starts
/// unacknowledged; the recovery names its rule, carries the recovery message and is
/// dated at the evaluation.
pub proof fn law_reports_carry_their_rule(a: Alert, rc: AlertRecovery, rule: AlertRule, o: RuleObservation, timestamp: u64)
    ensures
        alert_for(a, rule, o, timestamp) ==> a.rule_id@ == rule.id@ && a.severity == rule.severity
            && a.message@ == o.alert_message@ && a.timestamp == timestamp && !a.acknowledged,
        recovery_for(rc, rule, o, timestamp) ==> rc.rule_id@ == rule.id@ && rc.message@ == o.recovery_message@
            && rc.recovered_at == timestamp,
{
}

/// After an evaluation, an enabled rule found triggered is remembered as triggered, and
/// an enabled rule that was triggered and is found no longer triggered is remembered as
/// not triggered; a disabled rule's state is left as it was.
pub proof fn law_triggered_state_follows_observation(
    rules: Seq<AlertRule>,
    obs: Seq<RuleObservation>,
    states: Map<Seq<char>, bool>,
    i: int,
)
    requires
        ids_unique(rules),
        obs.len() == rules.len(),
        0 <= i < rules.len(),
    ensures
        rules[i].enabled && obs[i].triggered ==> states_after(rules, obs, states, rules.len()).contains_key(rules[i].id@)
            && states_after(rules, obs, states, rules.len())[rules[i].id@],
        rules[i].enabled && !obs[i].triggered && states.contains_key(rules[i].id@) && states[rules[i].id@]
            ==> states_after(rules, obs, states, rules.len()).contains_key(rules[i].id@)
            && !states_after(rules, obs, states, rules.len())[rules[i].id@],
        !rules[i].enabled ==> (states_after(rules, obs, states, rules.len()).contains_key(rules[i].id@)
            == states.contains_key(rules[i].id@)),
{
    assert forall|j: int| i + 1 <= j < rules.len() implies (#[trigger] rules[j]).id@ != rules[i].id@ by {}
    lemma_frame_range(rules, obs, states, Map::empty(), 0, (i + 1) as nat, rules.len(), rules[i].id@);
    assert forall|j: int| 0 <= j < i implies (#[trigger] rules[j]).id@ != rules[i].id@ by {}
    lemma_frame_range(rules, obs, states, Map::empty(), 0, 0, i as nat, rules[i].id@);
}

/// After an evaluation in which a rule raised an alert, the next evaluation raises none
/// for it while fewer than its cooldown's seconds have passed, however it observes.
pub proof fn law_cooldown_suppresses_repeat(
    rules: Seq<AlertRule>,
    obs1: Seq<RuleObservation>,
    states: Map<Seq<char>, bool>,
    cooldowns: Map<Seq<char>, u64>,
    now1: u64,
    obs2: Seq<RuleObservation>,
    now2: u64,
    i: int,
)
    requires
        ids_unique(rules),
        0 <= i < rules.len(),
        fires(rules[i], obs1[i], cooldowns, now1),
        elapsed_secs(now1, now2) < rules[i].cooldown_seconds,
    ensures
        !fires(rules[i], obs2[i], cooldowns_after(rules, obs1, states, cooldowns, now1, rules.len()), now2),
{
    assert forall|j: int| i + 1 <= j < rules.len() implies (#[trigger] rules[j]).id@ != rules[i].id@ by {}
    lemma_frame_range(rules, obs1, states, cooldowns, now1, (i + 1) as nat, rules.len(), rules[i].id@);
}

/// An enabled rule that was triggered at one evaluation reports a recovery at the next
/// evaluation that finds it no longer triggered.
pub proof fn law_trigger_then_recovery(
    rules: Seq<AlertRule>,
    obs1: Seq<RuleObservation>,
    states: Map<Seq<char>, bool>,
    obs2: Seq<RuleObservation>,
    i: int,
)
    requires
        ids_unique(rules),
        0 <= i < rules.len(),
        rules[i].enabled,
        obs1[i].triggered,
        !obs2[i].triggered,
    ensures
        recovers(rules[i], obs2[i], states_after(rules, obs1, states, rules.len())),
{
    assert forall|j: int| i + 1 <= j < rules.len() implies (#[trigger] rules[j]).id@ != rules[i].id@ by {}
    lemma_frame_range(rules, obs1, states, Map::empty(), 0, (i + 1) as nat, rules.len(), rules[i].id@);
}

/// A reload (`suspend`, which empties the triggered state, then the new database's rules
/// attached) reports no recovery at the first evaluation after it, whatever the rules
/// had triggered before: evaluating from an empty triggered state recovers nothing.
pub proof fn law_reload_forgets_triggered_state(rules: Seq<AlertRule>, obs: Seq<RuleObservation>, n: nat)
    requires
        n <= rules.len(),
    ensures
        recovering(rules, obs, Map::<Seq<char>, bool>::empty(), n) == Seq::<int>::empty(),
    decreases n,
{
    if n > 0 {
        law_reload_forgets_triggered_state(rules, obs, (n - 1) as nat);
    }
}

proof fn lemma_firing_exact(rules: Seq<AlertRule>, obs: Seq<RuleObservation>, cooldowns: Map<Seq<char>, u64>, now: u64, n: nat)
    requires
        n <= rules.len(),
        n <= obs.len(),
    ensures
        forall|i: int| firing(rules, obs, cooldowns, now, n).contains(i) <==> 0 <= i < n && fires(rules[i], obs[i], cooldowns, now),
        forall|a: int, b: int| 0 <= a < b < firing(rules, obs, cooldowns, now, n).len() ==> #[trigger] firing(rules, obs, cooldowns, now, n)[a] < #[trigger] firing(rules, obs, cooldowns, now, n)[b],
        forall|a: int| 0 <= a < firing(rules, obs, cooldowns, now, n).len() ==> 0 <= #[trigger] firing(rules, obs, cooldowns, now, n)[a] < n,
    decreases n,
{
    if n > 0 {
        lemma_firing_exact(rules, obs, cooldowns, now, (n - 1) as nat);
        let prev = firing(rules, obs, cooldowns, now, (n - 1) as nat);
        let cur = firing(rules, obs, cooldowns, now, n);
        assert forall|i: int| cur.contains(i) <==> 0 <= i < n && fires(rules[i], obs[i], cooldowns, now) by {
            if fires(rules[n - 1], obs[n - 1], cooldowns, now) {
                if i == n - 1 {
                    assert(cur[prev.len() as int] == i);
                } else if prev.contains(i) {
                    let k = choose|k: int| 0 <= k < prev.len() && prev[k] == i;
                    assert(cur[k] == i);
                }
                if cur.contains(i) && i != n - 1 {
                    let k = choose|k: int| 0 <= k < cur.len() && cur[k] == i;
                    assert(k < prev.len());
                    assert(prev[k] == i);
                }
            }
        }
    }
}

proof fn lemma_recovering_exact(rules: Seq<AlertRule>, obs: Seq<RuleObservation>, states: Map<Seq<char>, bool>, n: nat)
    requires
        n <= rules.len(),
        n <= obs.len(),
    ensures
        forall|i: int| recovering(rules, obs, states, n).contains(i) <==> 0 <= i < n && recovers(rules[i], obs[i], states),
        forall|a: int, b: int| 0 <= a < b < recovering(rules, obs, states, n).len() ==> #[trigger] recovering(rules, obs, states, n)[a] < #[trigger] recovering(rules, obs, states, n)[b],
        forall|a: int| 0 <= a < recovering(rules, obs, states, n).len() ==> 0 <= #[trigger] recovering(rules, obs, states, n)[a] < n,
    decreases n,
{
    if n > 0 {
        lemma_recovering_exact(rules, obs, states, (n - 1) as nat);
        let prev = recovering(rules, obs, states, (n - 1) as nat);
        let cur = recovering(rules, obs, states, n);
        assert forall|i: int| cur.contains(i) <==> 0 <= i < n && recovers(rules[i], obs[i], states) by {
            if recovers(rules[n - 1], obs[n - 1], states) {
                if i == n - 1 {
                    assert(cur[prev.len() as int] == i);
                } else if prev.contains(i) {
                    let k = choose|k: int| 0 <= k < prev.len() && prev[k] == i;
                    assert(cur[k] == i);
                }
                if cur.contains(i) && i != n - 1 {
                    let k = choose|k: int| 0 <= k < cur.len() && cur[k] == i;
                    assert(k < prev.len());
                    assert(prev[k] == i);
                }
            }
        }
    }
}

/// What one `evaluate` does, in the terms of its contract: the active alerts stay at
/// most `MAX_ACTIVE_ALERTS`, the oldest dropped first and the new ones kept at the end;
/// a rule reports a recovery exactly when it is enabled, was triggered and no longer
/// is; a rule raises an alert exactly when it is enabled, triggered now and out of its
/// cooldown; each of those at most once, in rule order.
pub proof fn law_evaluate_outcome(
    rules: Seq<AlertRule>,
    obs: Seq<RuleObservation>,
    states: Map<Seq<char>, bool>,
    cooldowns: Map<Seq<char>, u64>,
    now: u64,
    active: Seq<Alert>,
    new: Seq<Alert>,
)
    requires
        obs.len() == rules.len(),
        active.len() <= MAX_ACTIVE_ALERTS,
    ensures
        capped(active + new).len() <= MAX_ACTIVE_ALERTS,
        new.len() <= MAX_ACTIVE_ALERTS ==> capped(active + new).subrange(capped(active + new).len() - new.len(), capped(active + new).len() as int) == new,
        forall|k: int| 0 <= k < capped(active + new).len() ==> capped(active + new)[k] == (active + new)[(active + new).len() - capped(active + new).len() + k],
        forall|i: int| recovering(rules, obs, states, rules.len()).contains(i) <==> 0 <= i < rules.len() && rules[i].enabled
            && !obs[i].triggered && states.contains_key(rules[i].id@) && states[rules[i].id@],
        forall|i: int| firing(rules, obs, cooldowns, now, rules.len()).contains(i) <==> 0 <= i < rules.len() && rules[i].enabled
            && obs[i].triggered && !(cooldowns.contains_key(rules[i].id@) && (if now >= cooldowns[rules[i].id@] {
                (now - cooldowns[rules[i].id@]) / 1000
            } else {
                0
            }) < rules[i].cooldown_seconds),
        forall|a: int, b: int| 0 <= a < b < recovering(rules, obs, states, rules.len()).len() ==> #[trigger] recovering(rules, obs, states, rules.len())[a] < #[trigger] recovering(rules, obs, states, rules.len())[b],
        forall|a: int, b: int| 0 <= a < b < firing(rules, obs, cooldowns, now, rules.len()).len() ==> #[trigger] firing(rules, obs, cooldowns, now, rules.len())[a] < #[trigger] firing(rules, obs, cooldowns, now, rules.len())[b],
{
    lemma_firing_exact(rules, obs, cooldowns, now, rules.len());
    lemma_recovering_exact(rules, obs, states, rules.len());
    let all = active + new;
    let c = capped(all);
    if new.len() <= MAX_ACTIVE_ALERTS {
        assert(c.subrange(c.len() - new.len(), c.len() as int) =~= new) by {
            assert forall|k: int| 0 <= k < new.len() implies c.subrange(c.len() - new.len(), c.len() as int)[k] == new[k] by {
                assert(all[active.len() + k] == new[k]);
            }
        }
    }
}

proof fn lemma_filter_keeps_unique(s: Seq<AlertRule>, pred: spec_fn(AlertRule) -> bool, a: int, b: int)
    requires
        ids_unique(s),
        0 <= a < b < s.filter(pred).len(),
    ensures
        s.filter(pred)[a].id@ != s.filter(pred)[b].id@,
    decreases s.len(),
{
    reveal_with_fuel(Seq::<_>::filter, 1);
    if s.len() > 0 {
        let init = s.drop_last();
        assert(ids_unique(init));
        if pred(s.last()) {
            if b < init.filter(pred).len() {
                lemma_filter_keeps_unique(init, pred, a, b);
            } else {
                let x = init.filter(pred)[a];
                assert(init.filter(pred).contains(x));
                init.lemma_filter_contains_rev(pred, x);
                let k = choose|k: int| 0 <= k < init.len() && init[k] == x;
                assert(s[k] == x);
                assert(s[s.len() - 1] == s.last());
            }
        } else {
            lemma_filter_keeps_unique(init, pred, a, b);
        }
    }
}

} // verus!
