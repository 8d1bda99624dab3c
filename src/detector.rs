//! Anomaly detection: five signal checks, then inhibition, damping, severity
//! ranking and cooldown, yielding at most one anomaly per tick.

use vstd::prelude::*;
pub use crate::table::AnomalyType;
use crate::config::Config;
use crate::metrics::{display_name, opt_chars, ProcessInfo, SystemMetrics};
use crate::table::{lemma_lookup_ext, lemma_type_index, lookup, type_at, type_at_exec, TypeTable, TYPE_COUNT};
use crate::text::{
    chars_of, contains, contains_exec, decimal, push_all, push_decimal, push_str, round_div,
    round_half_even, string_of,
};

verus! {

/// Severity of an anomaly; `Warning < Critical`.
#[derive(Debug, Clone, Copy, PartialEq, Eq, Structural)]
pub enum AlertLevel {
    Warning,
    Critical,
}

impl AlertLevel {
    pub open spec fn rank(self) -> int {
        match self {
            AlertLevel::Warning => 0,
            AlertLevel::Critical => 1,
        }
    }

    /// Whether this level is strictly more severe than `other`.
    pub fn exceeds(&self, other: &AlertLevel) -> (r: bool)
        ensures
            r == (self.rank() > other.rank()),
    {
        match (self, other) {
            (AlertLevel::Critical, AlertLevel::Warning) => true,
            _ => false,
        }
    }

    /// The level in capitals, as shown to the user.
    pub fn label(&self) -> (r: String)
        ensures
            r@ == (match self {
                AlertLevel::Warning => "WARNING"@,
                AlertLevel::Critical => "CRITICAL"@,
            }),
    {
        match self {
            AlertLevel::Warning => String::from_str("WARNING"),
            AlertLevel::Critical => String::from_str("CRITICAL"),
        }
    }
}

/// What the detector reports about one signal in one tick.
pub struct Finding {
    pub anomaly_type: AnomalyType,
    pub level: AlertLevel,
    pub message: Seq<char>,
}

/// Result of anomaly detection.
pub struct Anomaly {
    pub anomaly_type: AnomalyType,
    pub level: AlertLevel,
    pub message: String,
    pub details: Vec<String>,
}

impl Anomaly {
    pub open spec fn finding(&self) -> Finding {
        Finding { anomaly_type: self.anomaly_type, level: self.level, message: self.message@ }
    }
}

/// The finding of an optional anomaly.
pub open spec fn finding_of(a: Option<Anomaly>) -> Option<Finding> {
    match a {
        Some(x) => Some(x.finding()),
        None => None,
    }
}

/// An anomaly carries no detail lines.
pub open spec fn no_details(a: Option<Anomaly>) -> bool {
    a matches Some(x) ==> x.details@.len() == 0
}

/// One gigabyte, in bytes.
pub const GIB: u64 = 1073741824;

/// One megabyte, in bytes.
pub const MIB: u64 = 1048576;

/// The percentage above which memory counts as under pressure (80.00 %).
pub const PRESSURE_PERCENT: u64 = 8000;

/// The percentage below which memory growth is not worth reporting (60.00 %).
pub const GROWTH_FLOOR_PERCENT: u64 = 6000;

/// A growth rate that counts as an emergency at any pressure (10.00 GB/h).
pub const EMERGENCY_GROWTH: i64 = 1000;

/// How long load must stay high before it is reported, in seconds.
pub const LOAD_SUSTAIN_SECS: u64 = 120;

/// The fixed recovery margin of the load signal (1.00).
pub const LOAD_RECOVERY: u64 = 100;

/// Seconds from `since` to `now`, zero if the clock went backwards.
pub open spec fn elapsed(now: u64, since: u64) -> int {
    if now >= since { now - since } else { 0 }
}

/// The warning and critical thresholds in force, lowered by the recovery
/// margin while the signal is active: both at Critical, the warning one at Warning.
pub open spec fn effective_thresholds(warn: int, crit: int, margin: int, active: Option<AlertLevel>) -> (int, int) {
    match active {
        Some(AlertLevel::Critical) => (warn - margin, crit - margin),
        Some(AlertLevel::Warning) => (warn - margin, crit),
        None => (warn, crit),
    }
}

/// The level a value reaches against thresholds with hysteresis.
pub open spec fn level_for(value: int, warn: int, crit: int, margin: int, active: Option<AlertLevel>) -> Option<AlertLevel> {
    let (w, c) = effective_thresholds(warn, crit, margin, active);
    if value >= c {
        Some(AlertLevel::Critical)
    } else if value >= w {
        Some(AlertLevel::Warning)
    } else {
        None
    }
}

/// Both process lists together can be counted in a `usize`.
pub open spec fn lists_fit(m: SystemMetrics) -> bool {
    m.top_processes@.len() + m.aggregated_processes@.len() <= usize::MAX
}

/// The raw processes followed by the aggregated groups.
pub open spec fn all_processes(m: SystemMetrics) -> Seq<ProcessInfo> {
    m.top_processes@ + m.aggregated_processes@
}

/// The first index of a largest memory figure.
pub open spec fn top_by_memory(s: Seq<ProcessInfo>) -> int
    decreases s.len(),
{
    if s.len() <= 1 {
        0
    } else {
        let k = top_by_memory(s.drop_last());
        if s.last().memory_bytes > s[k].memory_bytes { s.len() - 1 } else { k }
    }
}

/// The first index of a largest CPU figure.
pub open spec fn top_by_cpu(s: Seq<ProcessInfo>) -> int
    decreases s.len(),
{
    if s.len() <= 1 {
        0
    } else {
        let k = top_by_cpu(s.drop_last());
        if s.last().cpu_usage > s[k].cpu_usage { s.len() - 1 } else { k }
    }
}

/// The display name of a process record.
pub open spec fn shown_name(p: ProcessInfo) -> Seq<char> {
    display_name(p.name@, opt_chars(p.exe))
}

/// Memory in whole gigabytes, rounded.
pub open spec fn whole_gb(bytes: u64) -> nat {
    round_half_even(bytes as nat, GIB as nat)
}

/// `NAME (NGB)` for the largest memory user, or `Unknown`.
pub open spec fn memory_culprit(m: SystemMetrics) -> Seq<char> {
    let s = all_processes(m);
    if s.len() == 0 {
        "Unknown"@
    } else {
        let p = s[top_by_memory(s)];
        shown_name(p) + " ("@ + decimal(whole_gb(p.memory_bytes)) + "GB)"@
    }
}

/// `NAME (N%)` for the largest CPU user, or `Unknown`.
pub open spec fn cpu_culprit(m: SystemMetrics) -> Seq<char> {
    let s = all_processes(m);
    if s.len() == 0 {
        "Unknown"@
    } else {
        let p = s[top_by_cpu(s)];
        shown_name(p) + " ("@ + decimal(round_half_even(p.cpu_usage as nat, 100)) + "%)"@
    }
}

/// A value in hundredths, rendered with one decimal.
pub open spec fn one_decimal(v: u64) -> Seq<char> {
    let t = round_half_even(v as nat, 10);
    decimal(t / 10) + "."@ + decimal(t % 10)
}

/// A percentage in hundredths, rendered as a whole number.
pub open spec fn whole_percent(v: u64) -> Seq<char> {
    decimal(round_half_even(v as nat, 100))
}

pub open spec fn memory_message(m: SystemMetrics) -> Seq<char> {
    "Mem "@ + whole_percent(m.memory_percent) + "%: "@ + memory_culprit(m)
}

pub open spec fn swap_message(m: SystemMetrics) -> Seq<char> {
    "Swap "@ + whole_percent(m.swap_percent) + "%: "@ + memory_culprit(m)
}

pub open spec fn load_message(m: SystemMetrics) -> Seq<char> {
    "Load "@ + one_decimal(m.load_1m) + ": "@ + cpu_culprit(m)
}

pub open spec fn growth_message(m: SystemMetrics, rate: u64) -> Seq<char> {
    "Growth "@ + whole_percent(rate) + "GB/h: "@ + memory_culprit(m)
}

pub open spec fn heavy_app_message(p: ProcessInfo) -> Seq<char> {
    "Heavy App: "@ + shown_name(p) + " ("@ + decimal(whole_gb(p.memory_bytes)) + "GB)"@
}

/// The finding of a signal at a level.
pub open spec fn finding_at(t: AnomalyType, level: Option<AlertLevel>, message: Seq<char>) -> Option<Finding> {
    match level {
        Some(l) => Some(Finding { anomaly_type: t, level: l, message }),
        None => None,
    }
}

/// The memory signal.
pub open spec fn memory_finding(c: Config, active: Map<AnomalyType, AlertLevel>, m: SystemMetrics) -> Option<Finding> {
    let th = c.thresholds;
    finding_at(
        AnomalyType::Memory,
        level_for(m.memory_percent as int, th.memory_warning as int, th.memory_critical as int,
            th.recovery_margin as int, lookup(active, AnomalyType::Memory)),
        memory_message(m),
    )
}

/// The swap signal: silent without swap, or while memory is at most 80 %.
pub open spec fn swap_finding(c: Config, active: Map<AnomalyType, AlertLevel>, m: SystemMetrics) -> Option<Finding> {
    let th = c.thresholds;
    if m.swap_total == 0 || m.memory_percent <= PRESSURE_PERCENT {
        None
    } else {
        finding_at(
            AnomalyType::Swap,
            level_for(m.swap_percent as int, th.swap_warning as int, th.swap_critical as int,
                th.recovery_margin as int, lookup(active, AnomalyType::Swap)),
            swap_message(m),
        )
    }
}

/// Start of the current high-load episode after this tick's reading.
pub open spec fn next_load_start(c: Config, start: Option<u64>, m: SystemMetrics, now: u64) -> Option<u64> {
    if m.load_1m >= c.thresholds.load_warning {
        match start {
            Some(s) => Some(s),
            None => Some(now),
        }
    } else {
        None
    }
}

/// The load signal: reported once high load has lasted two minutes.
pub open spec fn load_finding(
    c: Config,
    active: Map<AnomalyType, AlertLevel>,
    start: Option<u64>,
    m: SystemMetrics,
    now: u64,
) -> Option<Finding> {
    let th = c.thresholds;
    match next_load_start(c, start, m, now) {
        Some(s) => if elapsed(now, s) >= LOAD_SUSTAIN_SECS {
            finding_at(
                AnomalyType::Load,
                level_for(m.load_1m as int, th.load_warning as int, th.load_critical as int,
                    LOAD_RECOVERY as int, lookup(active, AnomalyType::Load)),
                load_message(m),
            )
        } else {
            None
        },
        None => None,
    }
}

/// The growth signal: only for positive growth, under pressure or in an
/// emergency, and with memory at least 60 % used.
pub open spec fn growth_finding(c: Config, m: SystemMetrics) -> Option<Finding> {
    let th = c.thresholds;
    match m.memory_growth_rate {
        Some(rate) => if rate <= 0 {
            None
        } else if !(m.memory_percent > PRESSURE_PERCENT || m.swap_percent > PRESSURE_PERCENT
            || rate >= EMERGENCY_GROWTH) {
            None
        } else if m.memory_percent < GROWTH_FLOOR_PERCENT {
            None
        } else {
            finding_at(
                AnomalyType::MemoryGrowthRate,
                level_for(rate as int, th.memory_growth_rate_warning as int,
                    th.memory_growth_rate_critical as int, 0, None),
                growth_message(m, rate as u64),
            )
        },
        None => None,
    }
}

/// What `str::to_lowercase` makes of a string.
pub uninterp spec fn lower_of(s: Seq<char>) -> Seq<char>;

/// Relies on str::to_lowercase: the result depends on the characters alone.
#[verifier::external_body]
fn lowercase(s: &str) -> (r: String)
    ensures
        r@ == lower_of(s@),
{
    s.to_lowercase()
}

/// A lowered name contains one of the lowered watched substrings.
pub open spec fn matches_any(lower_name: Seq<char>, lower_watched: Seq<Seq<char>>) -> bool {
    exists|j: int| 0 <= j < lower_watched.len() && contains(lower_name, #[trigger] lower_watched[j])
}

/// The lowered watchlist.
pub open spec fn lowered(watchlist: Seq<String>) -> Seq<Seq<char>> {
    watchlist.map_values(|w: String| lower_of(w@))
}

/// A process is heavy enough and its shown name is on the watchlist.
pub open spec fn is_watched(c: Config, p: ProcessInfo) -> bool {
    &&& p.memory_bytes >= c.detection.process_memory_threshold_mb * MIB
    &&& matches_any(lower_of(shown_name(p)), lowered(c.detection.process_watchlist@))
}

/// The first watched process at or after position `i`.
pub open spec fn first_watched(c: Config, s: Seq<ProcessInfo>, i: int) -> Option<int>
    decreases s.len() - i,
{
    if i < 0 || i >= s.len() {
        None
    } else if is_watched(c, s[i]) {
        Some(i)
    } else {
        first_watched(c, s, i + 1)
    }
}

/// The watchlist signal: the first watched process, at Warning.
pub open spec fn watchlist_finding(c: Config, m: SystemMetrics) -> Option<Finding> {
    let s = all_processes(m);
    match first_watched(c, s, 0) {
        Some(i) => Some(Finding {
            anomaly_type: AnomalyType::ProcessWatchlist,
            level: AlertLevel::Warning,
            message: heavy_app_message(s[i]),
        }),
        None => None,
    }
}

/// Whether a lowered name contains one of the lowered watched substrings.
pub fn matches_watchlist(lower_name: &Vec<char>, lower_watched: &Vec<Vec<char>>) -> (r: bool)
    ensures
        r == matches_any(lower_name@, lower_watched@.map_values(|w: Vec<char>| w@)),
{
    let ghost ws = lower_watched@.map_values(|w: Vec<char>| w@);
    let mut j: usize = 0;
    while j < lower_watched.len()
        invariant
            j <= lower_watched.len(),
            ws == lower_watched@.map_values(|w: Vec<char>| w@),
            forall|k: int| 0 <= k < j ==> !contains(lower_name@, #[trigger] ws[k]),
        decreases lower_watched.len() - j,
    {
        if contains_exec(lower_name, &lower_watched[j]) {
            assert(contains(lower_name@, ws[j as int]));
            return true;
        }
        j = j + 1;
    }
    false
}

/// The process at a position of the raw-then-aggregated list.
fn process_at(m: &SystemMetrics, i: usize) -> (r: &ProcessInfo)
    requires
        i < m.top_processes@.len() + m.aggregated_processes@.len(),
    ensures
        *r == all_processes(*m)[i as int],
{
    if i < m.top_processes.len() {
        &m.top_processes[i]
    } else {
        &m.aggregated_processes[i - m.top_processes.len()]
    }
}

/// The position of the largest memory user.
fn top_memory_index(m: &SystemMetrics) -> (r: usize)
    requires
        all_processes(*m).len() > 0,
        lists_fit(*m),
    ensures
        r == top_by_memory(all_processes(*m)),
        r < all_processes(*m).len(),
{
    let ghost s = all_processes(*m);
    let n = m.top_processes.len() + m.aggregated_processes.len();
    let mut best: usize = 0;
    let mut i: usize = 1;
    while i < n
        invariant
            n == s.len(),
            1 <= i <= n,
            best < i,
            best == top_by_memory(s.subrange(0, i as int)),
            s == all_processes(*m),
        decreases n - i,
    {
        assert(s.subrange(0, i + 1).drop_last() =~= s.subrange(0, i as int));
        if process_at(m, i).memory_bytes > process_at(m, best).memory_bytes {
            best = i;
        }
        i = i + 1;
    }
    assert(s.subrange(0, n as int) =~= s);
    best
}

/// The position of the largest CPU user.
fn top_cpu_index(m: &SystemMetrics) -> (r: usize)
    requires
        all_processes(*m).len() > 0,
        lists_fit(*m),
    ensures
        r == top_by_cpu(all_processes(*m)),
        r < all_processes(*m).len(),
{
    let ghost s = all_processes(*m);
    let n = m.top_processes.len() + m.aggregated_processes.len();
    let mut best: usize = 0;
    let mut i: usize = 1;
    while i < n
        invariant
            n == s.len(),
            1 <= i <= n,
            best < i,
            best == top_by_cpu(s.subrange(0, i as int)),
            s == all_processes(*m),
        decreases n - i,
    {
        assert(s.subrange(0, i + 1).drop_last() =~= s.subrange(0, i as int));
        if process_at(m, i).cpu_usage > process_at(m, best).cpu_usage {
            best = i;
        }
        i = i + 1;
    }
    assert(s.subrange(0, n as int) =~= s);
    best
}

fn push_memory_culprit(out: &mut Vec<char>, m: &SystemMetrics)
    requires
        lists_fit(*m),
    ensures
        final(out)@ == old(out)@ + memory_culprit(*m),
{
    if m.top_processes.len() + m.aggregated_processes.len() == 0 {
        push_str(out, "Unknown");
    } else {
        let p = process_at(m, top_memory_index(m));
        let name = p.display_chars();
        push_all(out, &name);
        push_str(out, " (");
        push_decimal(out, round_div(p.memory_bytes, GIB));
        push_str(out, "GB)");
        assert(out@ =~= old(out)@ + memory_culprit(*m));
    }
}

fn push_cpu_culprit(out: &mut Vec<char>, m: &SystemMetrics)
    requires
        lists_fit(*m),
    ensures
        final(out)@ == old(out)@ + cpu_culprit(*m),
{
    if m.top_processes.len() + m.aggregated_processes.len() == 0 {
        push_str(out, "Unknown");
    } else {
        let p = process_at(m, top_cpu_index(m));
        let name = p.display_chars();
        push_all(out, &name);
        push_str(out, " (");
        push_decimal(out, round_div(p.cpu_usage, 100));
        push_str(out, "%)");
        assert(out@ =~= old(out)@ + cpu_culprit(*m));
    }
}

/// Whether a value reaches the lowered threshold: `value >= threshold - margin`.
fn reaches(value: u64, threshold: u64, margin: u64) -> (r: bool)
    ensures
        r == (value as int >= threshold as int - margin as int),
{
    (value as u128) + (margin as u128) >= threshold as u128
}

/// The level a value reaches against thresholds with hysteresis.
fn level_exec(value: u64, warn: u64, crit: u64, margin: u64, active: Option<AlertLevel>) -> (r: Option<AlertLevel>)
    ensures
        r == level_for(value as int, warn as int, crit as int, margin as int, active),
{
    let (warn_margin, crit_margin) = match active {
        Some(AlertLevel::Critical) => (margin, margin),
        Some(AlertLevel::Warning) => (margin, 0),
        None => (0, 0),
    };
    if reaches(value, crit, crit_margin) {
        Some(AlertLevel::Critical)
    } else if reaches(value, warn, warn_margin) {
        Some(AlertLevel::Warning)
    } else {
        None
    }
}

fn make_anomaly(t: AnomalyType, level: Option<AlertLevel>, message: &Vec<char>) -> (r: Option<Anomaly>)
    ensures
        finding_of(r) == finding_at(t, level, message@),
        no_details(r),
{
    match level {
        Some(l) => Some(Anomaly {
            anomaly_type: t,
            level: l,
            message: string_of(message),
            details: Vec::new(),
        }),
        None => None,
    }
}

} // verus!

verus! {

/// What the detector remembers between ticks.
pub struct DetectorModel {
    /// Time and level of the last notification of each type.
    pub last_notified: Map<AnomalyType, (u64, AlertLevel)>,
    /// Consecutive qualifying ticks of each type.
    pub counters: Map<AnomalyType, u32>,
    /// The level each signal is currently alerting at.
    pub active: Map<AnomalyType, AlertLevel>,
    /// Start of the current high-load episode.
    pub load_start: Option<u64>,
}

/// The five raw findings of a tick, in evaluation order.
pub open spec fn raw_findings(c: Config, s: DetectorModel, m: SystemMetrics, now: u64) -> Seq<Option<Finding>> {
    seq![
        memory_finding(c, s.active, m),
        swap_finding(c, s.active, m),
        load_finding(c, s.active, s.load_start, m, now),
        growth_finding(c, m),
        watchlist_finding(c, m),
    ]
}

/// Inhibition: a growth finding is dropped while memory itself is flagged.
pub open spec fn inhibited(raw: Seq<Option<Finding>>) -> Seq<Option<Finding>> {
    if raw[0] is Some {
        raw.update(3, None)
    } else {
        raw
    }
}

/// A breach counter after one more qualifying tick.
pub open spec fn bumped(count: Option<u32>) -> u32 {
    match count {
        Some(n) => if n == u32::MAX { n } else { (n + 1) as u32 },
        None => 1,
    }
}

/// The breach counters after the surviving findings are counted.
pub open spec fn counted(counters: Map<AnomalyType, u32>, surv: Seq<Option<Finding>>) -> Map<AnomalyType, u32> {
    Map::new(
        |t: AnomalyType| surv[t.index()] is Some || counters.contains_key(t),
        |t: AnomalyType| if surv[t.index()] is Some { bumped(lookup(counters, t)) } else { counters[t] },
    )
}

/// Damping: the findings whose counter has reached the persistence threshold.
pub open spec fn damped(surv: Seq<Option<Finding>>, counts: Map<AnomalyType, u32>, threshold: u32) -> Seq<Option<Finding>> {
    Seq::new(5, |i: int| if surv[i] is Some && counts[type_at(i)] >= threshold { surv[i] } else { None })
}

/// Cooldown: a type may notify if it never did, if the level escalates, or
/// once the cooldown has elapsed since its last notification.
pub open spec fn cooled(
    last: Map<AnomalyType, (u64, AlertLevel)>,
    t: AnomalyType,
    level: AlertLevel,
    now: u64,
    minutes: u64,
) -> bool {
    match lookup(last, t) {
        None => true,
        Some(prev) => level.rank() > prev.1.rank() || elapsed(now, prev.0) >= minutes * 60,
    }
}

/// The first position at or after `i` holding a finding of `level` that passes cooldown.
pub open spec fn pick_from(
    ds: Seq<Option<Finding>>,
    level: AlertLevel,
    last: Map<AnomalyType, (u64, AlertLevel)>,
    now: u64,
    minutes: u64,
    i: int,
) -> Option<int>
    decreases 5 - i,
{
    if i < 0 || i >= 5 {
        None
    } else if ds[i] is Some && ds[i]->0.level == level && cooled(last, type_at(i), level, now, minutes) {
        Some(i)
    } else {
        pick_from(ds, level, last, now, minutes, i + 1)
    }
}

/// A picked position holds a finding of the level that passes cooldown.
pub proof fn lemma_pick_from(
    ds: Seq<Option<Finding>>,
    level: AlertLevel,
    last: Map<AnomalyType, (u64, AlertLevel)>,
    now: u64,
    minutes: u64,
    i: int,
)
    ensures
        pick_from(ds, level, last, now, minutes, i) matches Some(k) ==> {
            &&& i <= k < 5
            &&& ds[k] is Some
            &&& ds[k]->0.level == level
            &&& cooled(last, type_at(k), level, now, minutes)
        },
    decreases 5 - i,
{
    if 0 <= i < 5 && !(ds[i] is Some && ds[i]->0.level == level && cooled(last, type_at(i), level, now, minutes)) {
        lemma_pick_from(ds, level, last, now, minutes, i + 1);
    }
}

/// Severity ranking then cooldown: Critical findings are tried before Warning ones.
pub open spec fn chosen(
    ds: Seq<Option<Finding>>,
    last: Map<AnomalyType, (u64, AlertLevel)>,
    now: u64,
    minutes: u64,
) -> Option<int> {
    match pick_from(ds, AlertLevel::Critical, last, now, minutes, 0) {
        Some(i) => Some(i),
        None => pick_from(ds, AlertLevel::Warning, last, now, minutes, 0),
    }
}

/// The types that produced a raw finding this tick.
pub open spec fn present(raw: Seq<Option<Finding>>) -> Set<AnomalyType> {
    Set::new(|t: AnomalyType| raw[t.index()] is Some)
}

/// One tick of the detector: the state after it and the reported finding.
pub open spec fn step(c: Config, s: DetectorModel, m: SystemMetrics, now: u64) -> (DetectorModel, Option<Finding>) {
    let raw = raw_findings(c, s, m, now);
    let surv = inhibited(raw);
    let counts = counted(s.counters, surv);
    let ds = damped(surv, counts, c.detection.persistent_breach_threshold);
    let keep = present(raw);
    match chosen(ds, s.last_notified, now, c.detection.notification_cooldown_minutes) {
        Some(i) => {
            let f = ds[i]->0;
            (DetectorModel {
                last_notified: s.last_notified.insert(f.anomaly_type, (now, f.level)),
                counters: counts.restrict(keep),
                active: s.active.insert(f.anomaly_type, f.level).restrict(keep),
                load_start: next_load_start(c, s.load_start, m, now),
            }, Some(f))
        },
        None => (DetectorModel {
            last_notified: s.last_notified,
            counters: counts.restrict(keep),
            active: s.active.restrict(keep),
            load_start: next_load_start(c, s.load_start, m, now),
        }, None),
    }
}

#[verifier::external_type_specification]
#[verifier::external_body]
pub struct ExInstant(std::time::Instant);

/// Relies on Instant::now: a reading of the monotonic clock.
#[verifier::external_body]
fn clock_now() -> std::time::Instant {
    std::time::Instant::now()
}

/// Relies on Instant::elapsed: the time passed since `origin`.
#[verifier::external_body]
fn elapsed_since(origin: &std::time::Instant) -> std::time::Duration {
    origin.elapsed()
}

/// Relies on Duration::as_secs: the whole seconds of a duration.
#[verifier::external_body]
fn whole_seconds(d: &std::time::Duration) -> u64 {
    d.as_secs()
}

/// Anomaly detection with damping, hysteresis and cooldown tracking.
pub struct AnomalyDetector {
    config: Config,
    last_notification: TypeTable<(u64, AlertLevel)>,
    breach_counters: TypeTable<u32>,
    active_alerts: TypeTable<AlertLevel>,
    load_start_time: Option<u64>,
    origin: std::time::Instant,
}

impl AnomalyDetector {
    pub closed spec fn wf(&self) -> bool {
        &&& self.last_notification.wf()
        &&& self.breach_counters.wf()
        &&& self.active_alerts.wf()
    }

    /// The configuration the detector runs with.
    pub closed spec fn settings(&self) -> Config {
        self.config
    }

    /// The state the detector keeps between ticks.
    pub closed spec fn model(&self) -> DetectorModel {
        DetectorModel {
            last_notified: self.last_notification@,
            counters: self.breach_counters@,
            active: self.active_alerts@,
            load_start: self.load_start_time,
        }
    }

    pub fn new(config: &Config) -> (r: Self)
        ensures
            r.wf(),
            r.settings().same_as(*config),
            r.model() == (DetectorModel {
                last_notified: Map::empty(),
                counters: Map::empty(),
                active: Map::empty(),
                load_start: None,
            }),
    {
        AnomalyDetector {
            config: config.copied(),
            last_notification: TypeTable::new(),
            breach_counters: TypeTable::new(),
            active_alerts: TypeTable::new(),
            load_start_time: None,
            origin: clock_now(),
        }
    }

    /// The consecutive-breach count of a type, if it has one.
    pub fn breach_count(&self, t: AnomalyType) -> (r: Option<u32>)
        requires
            self.wf(),
        ensures
            r == lookup(self.model().counters, t),
    {
        self.breach_counters.get(t)
    }

    /// The level a type is alerting at, if it is.
    pub fn active_alert(&self, t: AnomalyType) -> (r: Option<AlertLevel>)
        requires
            self.wf(),
        ensures
            r == lookup(self.model().active, t),
    {
        self.active_alerts.get(t)
    }

    /// Time and level of the last notification of a type.
    pub fn last_notified(&self, t: AnomalyType) -> (r: Option<(u64, AlertLevel)>)
        requires
            self.wf(),
        ensures
            r == lookup(self.model().last_notified, t),
    {
        self.last_notification.get(t)
    }

    /// Start of the current high-load episode.
    pub fn load_started_at(&self) -> (r: Option<u64>)
        ensures
            r == self.model().load_start,
    {
        self.load_start_time
    }

    fn check_memory_percent(&self, m: &SystemMetrics) -> (r: Option<Anomaly>)
        requires
            self.wf(),
            lists_fit(*m),
        ensures
            finding_of(r) == memory_finding(self.config, self.active_alerts@, *m),
            no_details(r),
    {
        let th = self.config.thresholds;
        let level = level_exec(m.memory_percent, th.memory_warning, th.memory_critical,
            th.recovery_margin, self.active_alerts.get(AnomalyType::Memory));
        if level.is_none() {
            return None;
        }
        let mut msg: Vec<char> = Vec::new();
        push_str(&mut msg, "Mem ");
        push_decimal(&mut msg, round_div(m.memory_percent, 100));
        push_str(&mut msg, "%: ");
        push_memory_culprit(&mut msg, m);
        assert(msg@ =~= memory_message(*m));
        make_anomaly(AnomalyType::Memory, level, &msg)
    }

    fn check_swap_percent(&self, m: &SystemMetrics) -> (r: Option<Anomaly>)
        requires
            self.wf(),
            lists_fit(*m),
        ensures
            finding_of(r) == swap_finding(self.config, self.active_alerts@, *m),
            no_details(r),
    {
        if m.swap_total == 0 || m.memory_percent <= PRESSURE_PERCENT {
            return None;
        }
        let th = self.config.thresholds;
        let level = level_exec(m.swap_percent, th.swap_warning, th.swap_critical,
            th.recovery_margin, self.active_alerts.get(AnomalyType::Swap));
        if level.is_none() {
            return None;
        }
        let mut msg: Vec<char> = Vec::new();
        push_str(&mut msg, "Swap ");
        push_decimal(&mut msg, round_div(m.swap_percent, 100));
        push_str(&mut msg, "%: ");
        push_memory_culprit(&mut msg, m);
        assert(msg@ =~= swap_message(*m));
        make_anomaly(AnomalyType::Swap, level, &msg)
    }

    fn check_load_average(&mut self, m: &SystemMetrics, now: u64) -> (r: Option<Anomaly>)
        requires
            old(self).wf(),
            lists_fit(*m),
        ensures
            final(self).wf(),
            final(self).config == old(self).config,
            final(self).last_notification == old(self).last_notification,
            final(self).breach_counters == old(self).breach_counters,
            final(self).active_alerts == old(self).active_alerts,
            final(self).load_start_time == next_load_start(old(self).config, old(self).load_start_time, *m, now),
            finding_of(r) == load_finding(old(self).config, old(self).active_alerts@,
                old(self).load_start_time, *m, now),
            no_details(r),
    {
        let th = self.config.thresholds;
        if m.load_1m < th.load_warning {
            self.load_start_time = None;
            return None;
        }
        let start = match self.load_start_time {
            Some(s) => s,
            None => now,
        };
        self.load_start_time = Some(start);
        let sustained = if now >= start { now - start } else { 0 };
        if sustained < LOAD_SUSTAIN_SECS {
            return None;
        }
        let level = level_exec(m.load_1m, th.load_warning, th.load_critical, LOAD_RECOVERY,
            self.active_alerts.get(AnomalyType::Load));
        if level.is_none() {
            return None;
        }
        let tenths = round_div(m.load_1m, 10);
        let mut msg: Vec<char> = Vec::new();
        push_str(&mut msg, "Load ");
        push_decimal(&mut msg, tenths / 10);
        push_str(&mut msg, ".");
        push_decimal(&mut msg, tenths % 10);
        push_str(&mut msg, ": ");
        push_cpu_culprit(&mut msg, m);
        assert(msg@ =~= load_message(*m));
        make_anomaly(AnomalyType::Load, level, &msg)
    }

    fn check_memory_growth_rate(&self, m: &SystemMetrics) -> (r: Option<Anomaly>)
        requires
            self.wf(),
            lists_fit(*m),
        ensures
            finding_of(r) == growth_finding(self.config, *m),
            no_details(r),
    {
        let rate = match m.memory_growth_rate {
            Some(rate) => rate,
            None => return None,
        };
        if rate <= 0 {
            return None;
        }
        let high_pressure = m.memory_percent > PRESSURE_PERCENT || m.swap_percent > PRESSURE_PERCENT;
        let critical_growth = rate >= EMERGENCY_GROWTH;
        if !high_pressure && !critical_growth {
            return None;
        }
        if m.memory_percent < GROWTH_FLOOR_PERCENT {
            return None;
        }
        let th = self.config.thresholds;
        let rate = rate as u64;
        let level = level_exec(rate, th.memory_growth_rate_warning, th.memory_growth_rate_critical, 0, None);
        if level.is_none() {
            return None;
        }
        let mut msg: Vec<char> = Vec::new();
        push_str(&mut msg, "Growth ");
        push_decimal(&mut msg, round_div(rate, 100));
        push_str(&mut msg, "GB/h: ");
        push_memory_culprit(&mut msg, m);
        assert(msg@ =~= growth_message(*m, rate));
        make_anomaly(AnomalyType::MemoryGrowthRate, level, &msg)
    }

    fn check_process_watchlist(&self, m: &SystemMetrics) -> (r: Option<Anomaly>)
        requires
            self.wf(),
            lists_fit(*m),
        ensures
            finding_of(r) == watchlist_finding(self.config, *m),
            no_details(r),
    {
        let ghost c = self.config;
        let ghost s = all_processes(*m);
        let watchlist = &self.config.detection.process_watchlist;
        let mut lw: Vec<Vec<char>> = Vec::new();
        let mut j: usize = 0;
        while j < watchlist.len()
            invariant
                j <= watchlist.len(),
                lw@.len() == j,
                forall|k: int| 0 <= k < j ==> (#[trigger] lw@[k])@ == lower_of(watchlist@[k]@),
            decreases watchlist.len() - j,
        {
            let low = lowercase(watchlist[j].as_str());
            lw.push(chars_of(low.as_str()));
            j = j + 1;
        }
        assert(lw@.map_values(|w: Vec<char>| w@) =~= lowered(watchlist@));
        let limit = (self.config.detection.process_memory_threshold_mb as u128) * (MIB as u128);
        let n = m.top_processes.len() + m.aggregated_processes.len();
        let mut i: usize = 0;
        while i < n
            invariant
                n == s.len(),
                i <= n,
                s == all_processes(*m),
                c == self.config,
                lw@.map_values(|w: Vec<char>| w@) == lowered(c.detection.process_watchlist@),
                limit == c.detection.process_memory_threshold_mb * MIB,
                first_watched(c, s, 0) == first_watched(c, s, i as int),
            decreases n - i,
        {
            let p = process_at(m, i);
            if p.memory_bytes as u128 >= limit {
                let name = p.display_chars();
                let low = lowercase(string_of(&name).as_str());
                if matches_watchlist(&chars_of(low.as_str()), &lw) {
                    assert(is_watched(c, s[i as int]));
                    let mut msg: Vec<char> = Vec::new();
                    push_str(&mut msg, "Heavy App: ");
                    push_all(&mut msg, &name);
                    push_str(&mut msg, " (");
                    push_decimal(&mut msg, round_div(p.memory_bytes, GIB));
                    push_str(&mut msg, "GB)");
                    assert(msg@ =~= heavy_app_message(s[i as int]));
                    return make_anomaly(AnomalyType::ProcessWatchlist, Some(AlertLevel::Warning), &msg);
                }
            }
            i = i + 1;
        }
        None
    }
}


impl AnomalyDetector {
    /// Whether a notification of `t` at `level` passes cooldown at time `now`.
    fn check_cooldown(&self, t: AnomalyType, level: AlertLevel, now: u64) -> (r: bool)
        requires
            self.wf(),
        ensures
            r == cooled(self.last_notification@, t, level, now,
                self.config.detection.notification_cooldown_minutes),
    {
        let minutes = self.config.detection.notification_cooldown_minutes;
        match self.last_notification.get(t) {
            Some((last_time, last_level)) => {
                if level.exceeds(&last_level) {
                    return true;
                }
                let waited = if now >= last_time { now - last_time } else { 0 };
                minutes <= u64::MAX / 60 && waited >= minutes * 60
            },
            None => true,
        }
    }

    /// The first position holding a damped-through finding of `level` that passes cooldown.
    fn pick(&self, slots: &Vec<Option<Anomaly>>, passed: &Vec<bool>, level: AlertLevel, now: u64,
        ds: Ghost<Seq<Option<Finding>>>) -> (r: Option<usize>)
        requires
            self.wf(),
            slots@.len() == TYPE_COUNT,
            passed@.len() == TYPE_COUNT,
            ds@.len() == TYPE_COUNT,
            forall|j: int| 0 <= j < TYPE_COUNT ==> #[trigger] ds@[j] == (if passed@[j] {
                finding_of(slots@[j])
            } else {
                None
            }),
            forall|j: int| 0 <= j < TYPE_COUNT ==> (#[trigger] slots@[j] matches Some(a) ==> a.anomaly_type == type_at(j)),
        ensures
            match r {
                Some(i) => pick_from(ds@, level, self.last_notification@, now,
                    self.config.detection.notification_cooldown_minutes, 0) == Some(i as int),
                None => pick_from(ds@, level, self.last_notification@, now,
                    self.config.detection.notification_cooldown_minutes, 0) is None,
            },
    {
        let ghost minutes = self.config.detection.notification_cooldown_minutes;
        let mut i: usize = 0;
        while i < TYPE_COUNT
            invariant
                i <= TYPE_COUNT,
                slots@.len() == TYPE_COUNT,
                passed@.len() == TYPE_COUNT,
                ds@.len() == TYPE_COUNT,
                self.wf(),
                forall|j: int| 0 <= j < TYPE_COUNT ==> #[trigger] ds@[j] == (if passed@[j] {
                    finding_of(slots@[j])
                } else {
                    None
                }),
                forall|j: int| 0 <= j < TYPE_COUNT ==> (#[trigger] slots@[j] matches Some(a) ==> a.anomaly_type == type_at(j)),
                minutes == self.config.detection.notification_cooldown_minutes,
                pick_from(ds@, level, self.last_notification@, now, minutes, 0)
                    == pick_from(ds@, level, self.last_notification@, now, minutes, i as int),
            decreases TYPE_COUNT - i,
        {
            assert(ds@[i as int] == (if passed@[i as int] { finding_of(slots@[i as int]) } else { None }));
            if passed[i] {
                match &slots[i] {
                    Some(a) => {
                        assert(slots@[i as int] matches Some(x) ==> x.anomaly_type == type_at(i as int));
                        assert(ds@[i as int] == Some(a.finding()));
                        if a.level == level && self.check_cooldown(a.anomaly_type, level, now) {
                            return Some(i);
                        }
                    },
                    None => {},
                }
            }
            i = i + 1;
        }
        None
    }

    /// Evaluates one tick at time `now` (seconds on the detector's clock) and
    /// returns the single most severe anomaly that survives inhibition,
    /// damping and cooldown.
    pub fn check_at(&mut self, m: &SystemMetrics, now: u64) -> (r: Option<Anomaly>)
        requires
            old(self).wf(),
            lists_fit(*m),
        ensures
            final(self).wf(),
            final(self).settings() == old(self).settings(),
            step(old(self).settings(), old(self).model(), *m, now) == (final(self).model(), finding_of(r)),
            no_details(r),
    {
        let ghost c = self.config;
        let ghost s0 = self.model();
        let ghost raw = raw_findings(c, s0, *m, now);
        let ghost surv = inhibited(raw);
        let ghost counts = counted(s0.counters, surv);
        let ghost ds = damped(surv, counts, c.detection.persistent_breach_threshold);

        let mem = self.check_memory_percent(m);
        let swap = self.check_swap_percent(m);
        let load = self.check_load_average(m, now);
        let growth = self.check_memory_growth_rate(m);
        let watch = self.check_process_watchlist(m);
        let present_flags: Vec<bool> = vec![
            mem.is_some(),
            swap.is_some(),
            load.is_some(),
            growth.is_some(),
            watch.is_some(),
        ];
        let mut slots: Vec<Option<Anomaly>> = vec![mem, swap, load, growth, watch];
        assert(forall|j: int| 0 <= j < TYPE_COUNT ==> #[trigger] finding_of(slots@[j]) == raw[j]);
        assert(forall|j: int| 0 <= j < TYPE_COUNT ==> #[trigger] present_flags@[j] == (raw[j] is Some));

        // Inhibition: growth is redundant once memory itself is flagged.
        if slots[0].is_some() {
            slots.set(3, None);
        }
        assert(forall|j: int| 0 <= j < TYPE_COUNT ==> #[trigger] finding_of(slots@[j]) == surv[j]);
        assert(forall|j: int| 0 <= j < TYPE_COUNT ==> (#[trigger] slots@[j] matches Some(a) ==> a.anomaly_type == type_at(j)));
        assert(forall|j: int| 0 <= j < TYPE_COUNT ==> no_details(#[trigger] slots@[j]));

        // Damping: count every surviving finding, pass those that persisted long enough.
        let threshold = self.config.detection.persistent_breach_threshold;
        let ghost mid = *self;
        let mut passed: Vec<bool> = Vec::new();
        let mut i: usize = 0;
        while i < TYPE_COUNT
            invariant
                i <= TYPE_COUNT,
                passed@.len() == i,
                slots@.len() == TYPE_COUNT,
                self.wf(),
                self.config == c,
                threshold == c.detection.persistent_breach_threshold,
                s0 == old(self).model(),
                self.last_notification == mid.last_notification,
                self.active_alerts == mid.active_alerts,
                self.load_start_time == mid.load_start_time,
                surv.len() == TYPE_COUNT,
                counts == counted(s0.counters, surv),
                ds == damped(surv, counts, c.detection.persistent_breach_threshold),
                forall|j: int| 0 <= j < TYPE_COUNT ==> #[trigger] finding_of(slots@[j]) == surv[j],
                forall|t: AnomalyType| #[trigger] lookup(self.breach_counters@, t) == (if t.index() < i {
                    lookup(counts, t)
                } else {
                    lookup(s0.counters, t)
                }),
                forall|j: int| 0 <= j < i ==> #[trigger] passed@[j] == (ds[j] is Some),
            decreases TYPE_COUNT - i,
        {
            let t = type_at_exec(i);
            proof {
                lemma_type_index(t);
                assert(finding_of(slots@[i as int]) == surv[i as int]);
            }
            if slots[i].is_some() {
                let n = match self.breach_counters.get(t) {
                    Some(n) => if n == u32::MAX { n } else { n + 1 },
                    None => 1,
                };
                proof {
                    assert(surv[t.index()] is Some);
                    assert(lookup(self.breach_counters@, t) == lookup(s0.counters, t));
                    assert(counts.contains_key(t));
                    assert(counts[t] == n);
                    assert(ds[i as int] == (if n >= threshold { surv[i as int] } else { None }));
                }
                let ghost before = self.breach_counters@;
                self.breach_counters.insert(t, n);
                proof {
                    assert forall|u: AnomalyType| #[trigger] lookup(self.breach_counters@, u) == (if u.index() < i + 1 {
                        lookup(counts, u)
                    } else {
                        lookup(s0.counters, u)
                    }) by {
                        lemma_type_index(u);
                        assert(lookup(before, u) == (if u.index() < i {
                            lookup(counts, u)
                        } else {
                            lookup(s0.counters, u)
                        }));
                        if u != t {
                            assert(u.index() != t.index());
                        }
                    }
                }
                passed.push(n >= threshold);
            } else {
                proof {
                    assert(surv[t.index()] is None);
                    assert(lookup(counts, t) == lookup(s0.counters, t));
                    assert(ds[i as int] is None);
                    assert forall|u: AnomalyType| #[trigger] lookup(self.breach_counters@, u) == (if u.index() < i + 1 {
                        lookup(counts, u)
                    } else {
                        lookup(s0.counters, u)
                    }) by {
                        lemma_type_index(u);
                    }
                }
                passed.push(false);
            }
            i = i + 1;
        }
        proof {
            assert forall|t: AnomalyType| #[trigger] lookup(self.breach_counters@, t) == lookup(counts, t) by {
                lemma_type_index(t);
            }
            lemma_lookup_ext(self.breach_counters@, counts);
            assert forall|j: int| 0 <= j < TYPE_COUNT implies #[trigger] ds[j] == (if passed@[j] {
                finding_of(slots@[j])
            } else {
                None
            }) by {
                assert(lookup(counts, type_at(j)) == lookup(counts, type_at(j)));
            }
        }

        // Severity ranking, then cooldown.
        let minutes = self.config.detection.notification_cooldown_minutes;
        let pick = match self.pick(&slots, &passed, AlertLevel::Critical, now, Ghost(ds)) {
            Some(k) => Some(k),
            None => self.pick(&slots, &passed, AlertLevel::Warning, now, Ghost(ds)),
        };
        proof {
            lemma_pick_from(ds, AlertLevel::Critical, s0.last_notified, now, minutes, 0);
            lemma_pick_from(ds, AlertLevel::Warning, s0.last_notified, now, minutes, 0);
        }
        let result = match pick {
            Some(k) => {
                let a = slots.remove(k);
                match a {
                    Some(x) => {
                        let t = type_at_exec(k);
                        self.last_notification.insert(t, (now, x.level));
                        self.active_alerts.insert(t, x.level);
                        Some(x)
                    },
                    None => None,
                }
            },
            None => None,
        };

        // A clean tick resets a signal's alarm state entirely.
        self.breach_counters.keep_only(&present_flags);
        self.active_alerts.keep_only(&present_flags);
        proof {
            assert(present(raw) =~= Set::new(|t: AnomalyType| present_flags@[t.index()]));
            assert(self.breach_counters@ =~= counts.restrict(present(raw)));
        }
        result
    }

    /// Checks the metrics for anomalies on the detector's own clock.
    pub fn check(&mut self, m: &SystemMetrics) -> (r: Option<Anomaly>)
        requires
            old(self).wf(),
            lists_fit(*m),
        ensures
            final(self).wf(),
            final(self).settings() == old(self).settings(),
            exists|now: u64| step(old(self).settings(), old(self).model(), *m, now) == (final(self).model(), finding_of(r)),
            no_details(r),
    {
        let now = whole_seconds(&elapsed_since(&self.origin));
        self.check_at(m, now)
    }
}

} // verus!
