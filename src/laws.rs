//! Properties of the detector that relate several ticks or hold of every input.

use vstd::prelude::*;
use crate::config::Config;
use crate::detector::{
    chosen, cooled, counted, damped, elapsed, inhibited, lemma_pick_from, memory_finding, pick_from,
    present, raw_findings, step, swap_finding, AlertLevel, DetectorModel, Finding, PRESSURE_PERCENT,
    growth_finding, load_finding, watchlist_finding,
};
use crate::metrics::SystemMetrics;
use crate::detector::{all_processes, first_watched, next_load_start};
use crate::table::{lookup, type_at, AnomalyType};

verus! {

/// The state of a detector that has seen no tick.
pub open spec fn fresh_model() -> DetectorModel {
    DetectorModel {
        last_notified: Map::empty(),
        counters: Map::empty(),
        active: Map::empty(),
        load_start: None,
    }
}

/// Each raw finding belongs to the signal of its position.
proof fn lemma_raw_types(c: Config, s: DetectorModel, m: SystemMetrics, now: u64)
    ensures
        forall|i: int| 0 <= i < 5 ==> (#[trigger] raw_findings(c, s, m, now)[i] matches Some(f)
            ==> f.anomaly_type == type_at(i)),
        raw_findings(c, s, m, now).len() == 5,
{
    let raw = raw_findings(c, s, m, now);
    assert(raw[0] == memory_finding(c, s.active, m));
    assert(raw[1] == swap_finding(c, s.active, m));
    assert(raw[2] == load_finding(c, s.active, s.load_start, m, now));
    assert(raw[3] == growth_finding(c, m));
    assert(raw[4] == watchlist_finding(c, m));
}

/// The reported finding is a damped-through finding at the chosen position.
proof fn lemma_reported(c: Config, s: DetectorModel, m: SystemMetrics, now: u64)
    ensures
        ({
            let raw = raw_findings(c, s, m, now);
            let surv = inhibited(raw);
            let counts = counted(s.counters, surv);
            let ds = damped(surv, counts, c.detection.persistent_breach_threshold);
            let minutes = c.detection.notification_cooldown_minutes;
            match chosen(ds, s.last_notified, now, minutes) {
                Some(i) => {
                    &&& 0 <= i < 5
                    &&& ds[i] is Some
                    &&& surv[i] == ds[i]
                    &&& step(c, s, m, now).1 == ds[i]
                    &&& ds[i]->0.anomaly_type == type_at(i)
                    &&& cooled(s.last_notified, type_at(i), ds[i]->0.level, now, minutes)
                },
                None => step(c, s, m, now).1 is None,
            }
        }),
{
    let raw = raw_findings(c, s, m, now);
    let surv = inhibited(raw);
    let counts = counted(s.counters, surv);
    let ds = damped(surv, counts, c.detection.persistent_breach_threshold);
    let minutes = c.detection.notification_cooldown_minutes;
    lemma_raw_types(c, s, m, now);
    lemma_pick_from(ds, AlertLevel::Critical, s.last_notified, now, minutes, 0);
    lemma_pick_from(ds, AlertLevel::Warning, s.last_notified, now, minutes, 0);
    match chosen(ds, s.last_notified, now, minutes) {
        Some(i) => {
            assert(surv[i] == raw[i] || surv[i] is None);
        },
        None => {},
    }
}

/// Inhibition: while the memory signal is flagged, no growth-rate anomaly is
/// ever reported.
pub proof fn law_inhibition(c: Config, s: DetectorModel, m: SystemMetrics, now: u64)
    requires
        memory_finding(c, s.active, m) is Some,
    ensures
        step(c, s, m, now).1 matches Some(f) ==> f.anomaly_type != AnomalyType::MemoryGrowthRate,
{
    lemma_reported(c, s, m, now);
}

/// Swap correlation: with memory at most 80 % used, the swap signal neither
/// reports nor keeps any alarm state.
pub proof fn law_swap_needs_memory_pressure(c: Config, s: DetectorModel, m: SystemMetrics, now: u64)
    requires
        m.memory_percent <= PRESSURE_PERCENT,
    ensures
        step(c, s, m, now).1 matches Some(f) ==> f.anomaly_type != AnomalyType::Swap,
        !step(c, s, m, now).0.counters.contains_key(AnomalyType::Swap),
        !step(c, s, m, now).0.active.contains_key(AnomalyType::Swap),
{
    lemma_reported(c, s, m, now);
    lemma_raw_types(c, s, m, now);
}

/// Swap correlation: with memory above 80 % and swap at or above its warning
/// threshold, the swap signal qualifies.
pub proof fn law_swap_under_memory_pressure(c: Config, s: DetectorModel, m: SystemMetrics, now: u64)
    requires
        m.memory_percent > PRESSURE_PERCENT,
        m.swap_total > 0,
        m.swap_percent >= c.thresholds.swap_warning,
    ensures
        swap_finding(c, s.active, m) is Some,
{
}

/// Cooldown: a recurring Warning of a type last notified at Warning is not
/// reported again before the cooldown has elapsed.
pub proof fn law_cooldown_suppresses_repeat(c: Config, s: DetectorModel, m: SystemMetrics, now: u64, t: AnomalyType)
    requires
        s.last_notified.contains_key(t),
        s.last_notified[t].1 == AlertLevel::Warning,
        elapsed(now, s.last_notified[t].0) < c.detection.notification_cooldown_minutes * 60,
    ensures
        step(c, s, m, now).1 matches Some(f) ==> !(f.anomaly_type == t && f.level == AlertLevel::Warning),
{
    lemma_reported(c, s, m, now);
}

/// Escalation: a Critical finding of a type last notified at Warning always
/// passes cooldown, however little time has passed.
pub proof fn law_escalation_bypasses_cooldown(
    last: Map<AnomalyType, (u64, AlertLevel)>,
    t: AnomalyType,
    now: u64,
    minutes: u64,
)
    requires
        last.contains_key(t),
        last[t].1 == AlertLevel::Warning,
    ensures
        cooled(last, t, AlertLevel::Critical, now, minutes),
{
}

/// Escalation: when a Critical finding passes damping, the tick reports a
/// Critical anomaly, whatever the cooldown of Warning notifications.
pub proof fn law_escalation_is_reported(c: Config, s: DetectorModel, m: SystemMetrics, now: u64, i: int)
    requires
        0 <= i < 5,
        ({
            let surv = inhibited(raw_findings(c, s, m, now));
            let ds = damped(surv, counted(s.counters, surv), c.detection.persistent_breach_threshold);
            &&& ds[i] is Some
            &&& ds[i]->0.level == AlertLevel::Critical
        }),
        lookup(s.last_notified, type_at(i)) matches Some(p) ==> p.1 == AlertLevel::Warning,
    ensures
        step(c, s, m, now).1 matches Some(f) && f.level == AlertLevel::Critical,
{
    let surv = inhibited(raw_findings(c, s, m, now));
    let ds = damped(surv, counted(s.counters, surv), c.detection.persistent_breach_threshold);
    let minutes = c.detection.notification_cooldown_minutes;
    lemma_reported(c, s, m, now);
    assert(cooled(s.last_notified, type_at(i), AlertLevel::Critical, now, minutes));
    lemma_pick_critical(ds, s.last_notified, now, minutes, 0, i);
    lemma_pick_from(ds, AlertLevel::Critical, s.last_notified, now, minutes, 0);
    let k = pick_from(ds, AlertLevel::Critical, s.last_notified, now, minutes, 0)->0;
    assert(chosen(ds, s.last_notified, now, minutes) == Some(k));
}

/// A Critical finding that passes cooldown is found by the Critical pass.
proof fn lemma_pick_critical(
    ds: Seq<Option<Finding>>,
    last: Map<AnomalyType, (u64, AlertLevel)>,
    now: u64,
    minutes: u64,
    j: int,
    i: int,
)
    requires
        0 <= j <= i < 5,
        ds[i] is Some,
        ds[i]->0.level == AlertLevel::Critical,
        cooled(last, type_at(i), AlertLevel::Critical, now, minutes),
    ensures
        pick_from(ds, AlertLevel::Critical, last, now, minutes, j) is Some,
    decreases i - j,
{
    if j < i {
        lemma_pick_critical(ds, last, now, minutes, j + 1, i);
    }
}

/// The state after one tick.
pub open spec fn tick(c: Config, s: DetectorModel, m: SystemMetrics, now: u64) -> DetectorModel {
    step(c, s, m, now).0
}

/// The anomaly reported by one tick.
pub open spec fn report(c: Config, s: DetectorModel, m: SystemMetrics, now: u64) -> Option<Finding> {
    step(c, s, m, now).1
}

/// Every breach counter is at most `k`.
pub open spec fn counters_at_most(counters: Map<AnomalyType, u32>, k: int) -> bool {
    forall|t: AnomalyType| #[trigger] counters.contains_key(t) ==> counters[t] <= k
}

/// One tick raises no breach counter by more than one.
proof fn lemma_counters_grow_by_one(c: Config, s: DetectorModel, m: SystemMetrics, now: u64, k: int)
    requires
        0 <= k,
        counters_at_most(s.counters, k),
    ensures
        counters_at_most(counted(s.counters, inhibited(raw_findings(c, s, m, now))), k + 1),
        counters_at_most(tick(c, s, m, now).counters, k + 1),
{
    let surv = inhibited(raw_findings(c, s, m, now));
    let counts = counted(s.counters, surv);
    assert forall|t: AnomalyType| #[trigger] counts.contains_key(t) implies counts[t] <= k + 1 by {
        if s.counters.contains_key(t) {
            assert(s.counters[t] <= k);
        }
    }
    lemma_reported(c, s, m, now);
}

/// No finding passes damping while every counter stays below the threshold.
proof fn lemma_all_damped(c: Config, s: DetectorModel, m: SystemMetrics, now: u64)
    requires
        counters_at_most(
            counted(s.counters, inhibited(raw_findings(c, s, m, now))),
            c.detection.persistent_breach_threshold - 1,
        ),
    ensures
        report(c, s, m, now) is None,
{
    let surv = inhibited(raw_findings(c, s, m, now));
    let counts = counted(s.counters, surv);
    let ds = damped(surv, counts, c.detection.persistent_breach_threshold);
    let minutes = c.detection.notification_cooldown_minutes;
    assert forall|i: int| 0 <= i < 5 implies #[trigger] ds[i] is None by {
        assert(type_at(i).index() == i);
        if surv[i] is Some {
            assert(counts.contains_key(type_at(i)));
        }
    }
    lemma_pick_from(ds, AlertLevel::Critical, s.last_notified, now, minutes, 0);
    lemma_pick_from(ds, AlertLevel::Warning, s.last_notified, now, minutes, 0);
    lemma_reported(c, s, m, now);
}

/// Damping: with a persistence threshold of 3 and memory at or above its
/// critical threshold on every tick, a fresh detector reports nothing on the
/// first two ticks, its memory breach counter reading 1 and then 2, and reports
/// a Critical memory anomaly on the third.
pub proof fn law_damping(c: Config, m: SystemMetrics, t1: u64, t2: u64, t3: u64)
    requires
        c.detection.persistent_breach_threshold == 3,
        m.memory_percent >= c.thresholds.memory_critical,
    ensures
        report(c, fresh_model(), m, t1) is None,
        lookup(tick(c, fresh_model(), m, t1).counters, AnomalyType::Memory) == Some(1u32),
        report(c, tick(c, fresh_model(), m, t1), m, t2) is None,
        lookup(tick(c, tick(c, fresh_model(), m, t1), m, t2).counters, AnomalyType::Memory) == Some(2u32),
        report(c, tick(c, tick(c, fresh_model(), m, t1), m, t2), m, t3) matches Some(f)
            && f.anomaly_type == AnomalyType::Memory && f.level == AlertLevel::Critical,
{
    let s0 = fresh_model();
    let s1 = tick(c, s0, m, t1);
    let s2 = tick(c, s1, m, t2);
    lemma_counters_grow_by_one(c, s0, m, t1, 0);
    lemma_all_damped(c, s0, m, t1);
    lemma_reported(c, s0, m, t1);
    assert(s1.active =~= Map::<AnomalyType, AlertLevel>::empty());
    assert(s1.last_notified == s0.last_notified);
    lemma_counters_grow_by_one(c, s1, m, t2, 1);
    lemma_all_damped(c, s1, m, t2);
    lemma_reported(c, s1, m, t2);
    assert(s2.active =~= Map::<AnomalyType, AlertLevel>::empty());
    assert(s2.last_notified == s0.last_notified);

    let raw = raw_findings(c, s2, m, t3);
    let surv = inhibited(raw);
    let counts = counted(s2.counters, surv);
    let ds = damped(surv, counts, 3);
    assert(surv[0] is Some && surv[0]->0.level == AlertLevel::Critical);
    assert(counts[AnomalyType::Memory] == 3);
    assert(type_at(0) == AnomalyType::Memory);
    assert(ds[0] == surv[0]);
    assert(cooled(s2.last_notified, type_at(0), AlertLevel::Critical, t3, c.detection.notification_cooldown_minutes));
    assert(pick_from(ds, AlertLevel::Critical, s2.last_notified, t3, c.detection.notification_cooldown_minutes, 0) == Some(0int));
    lemma_raw_types(c, s2, m, t3);
    lemma_reported(c, s2, m, t3);
}

/// Only the memory signal can speak: no swap, load below its warning
/// threshold, no growth estimate and no watched process.
pub open spec fn only_memory_signal(c: Config, m: SystemMetrics) -> bool {
    &&& m.swap_total == 0
    &&& m.load_1m < c.thresholds.load_warning
    &&& m.memory_growth_rate is None
    &&& first_watched(c, all_processes(m), 0) is None
}

/// Hysteresis: with a warning threshold of 80 %, a recovery margin of 5 %,
/// cooldown disabled and no damping, readings of 82 %, 78 % and 74 % report a
/// memory Warning, then a memory Warning again, then nothing, the last tick
/// clearing the memory signal's active alert.
pub proof fn law_hysteresis(c: Config, m1: SystemMetrics, m2: SystemMetrics, m3: SystemMetrics, t1: u64, t2: u64, t3: u64)
    requires
        c.thresholds.memory_warning == 8000,
        c.thresholds.recovery_margin == 500,
        c.thresholds.memory_critical > 8200,
        c.detection.notification_cooldown_minutes == 0,
        c.detection.persistent_breach_threshold <= 1,
        m1.memory_percent == 8200,
        m2.memory_percent == 7800,
        m3.memory_percent == 7400,
        only_memory_signal(c, m1),
        only_memory_signal(c, m2),
        only_memory_signal(c, m3),
    ensures
        report(c, fresh_model(), m1, t1) matches Some(f)
            && f.anomaly_type == AnomalyType::Memory && f.level == AlertLevel::Warning,
        report(c, tick(c, fresh_model(), m1, t1), m2, t2) matches Some(f)
            && f.anomaly_type == AnomalyType::Memory && f.level == AlertLevel::Warning,
        report(c, tick(c, tick(c, fresh_model(), m1, t1), m2, t2), m3, t3) is None,
        !tick(c, tick(c, tick(c, fresh_model(), m1, t1), m2, t2), m3, t3).active.contains_key(AnomalyType::Memory),
{
    let s0 = fresh_model();
    lemma_memory_alone(c, s0, m1, t1);
    let s1 = tick(c, s0, m1, t1);
    assert(lookup(s1.active, AnomalyType::Memory) == Some(AlertLevel::Warning));
    lemma_memory_alone(c, s1, m2, t2);
    let s2 = tick(c, s1, m2, t2);
    lemma_memory_alone(c, s2, m3, t3);
}

/// With only the memory signal able to speak, a tick reports the memory
/// finding whenever it passes damping and cooldown.
proof fn lemma_memory_alone(c: Config, s: DetectorModel, m: SystemMetrics, now: u64)
    requires
        only_memory_signal(c, m),
        c.detection.persistent_breach_threshold <= 1,
        c.detection.notification_cooldown_minutes == 0,
    ensures
        memory_finding(c, s.active, m) matches Some(f) ==> {
            &&& report(c, s, m, now) == Some(f)
            &&& lookup(tick(c, s, m, now).active, AnomalyType::Memory) == Some(f.level)
        },
        memory_finding(c, s.active, m) is None ==> {
            &&& report(c, s, m, now) is None
            &&& !tick(c, s, m, now).active.contains_key(AnomalyType::Memory)
        },
{
    let raw = raw_findings(c, s, m, now);
    let surv = inhibited(raw);
    let counts = counted(s.counters, surv);
    let ds = damped(surv, counts, c.detection.persistent_breach_threshold);
    let minutes = c.detection.notification_cooldown_minutes;
    assert(next_load_start(c, s.load_start, m, now) is None);
    assert(raw[1] is None && raw[2] is None && raw[3] is None && raw[4] is None);
    assert(type_at(0) == AnomalyType::Memory);
    lemma_raw_types(c, s, m, now);
    lemma_reported(c, s, m, now);
    lemma_pick_from(ds, AlertLevel::Critical, s.last_notified, now, minutes, 0);
    lemma_pick_from(ds, AlertLevel::Warning, s.last_notified, now, minutes, 0);
    match memory_finding(c, s.active, m) {
        Some(f) => {
            assert(counts.contains_key(AnomalyType::Memory));
            assert(ds[0] == Some(f));
            assert(cooled(s.last_notified, type_at(0), f.level, now, minutes));
            if f.level == AlertLevel::Critical {
                assert(pick_from(ds, AlertLevel::Critical, s.last_notified, now, minutes, 0) == Some(0int));
            } else {
                assert(pick_from(ds, AlertLevel::Critical, s.last_notified, now, minutes, 1) is None);
                assert(pick_from(ds, AlertLevel::Warning, s.last_notified, now, minutes, 0) == Some(0int));
            }
            assert(present(raw).contains(AnomalyType::Memory));
        },
        None => {
            assert(!present(raw).contains(AnomalyType::Memory));
        },
    }
}

/// Pruning: after every tick, breach counters and active alerts are kept only
/// for the signals that produced a finding in that tick.
pub proof fn law_state_pruned(c: Config, s: DetectorModel, m: SystemMetrics, now: u64, t: AnomalyType)
    ensures
        tick(c, s, m, now).counters.contains_key(t) ==> raw_findings(c, s, m, now)[t.index()] is Some,
        tick(c, s, m, now).active.contains_key(t) ==> raw_findings(c, s, m, now)[t.index()] is Some,
{
    lemma_reported(c, s, m, now);
}

} // verus!
