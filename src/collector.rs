//! The metrics aggregator: turns host readings into snapshots, keeps a rolling
//! window of memory samples and estimates the memory growth trend.

use vstd::prelude::*;
use crate::metrics::{ProcessInfo, SystemMetrics};
use crate::aggregate::{aggregate_groups, aggregation_of};
use vstd::arithmetic::div_mod::lemma_div_multiples_vanish;

verus! {

/// Raw readings of the host at one tick, as the operating system reports them.
pub struct HostSample {
    /// Seconds since the Unix epoch.
    pub timestamp: i64,
    pub memory_total: u64,
    pub memory_used: u64,
    pub memory_free: u64,
    pub swap_total: u64,
    pub swap_used: u64,
    /// Load averages in hundredths.
    pub load_1m: u64,
    pub load_5m: u64,
    pub load_15m: u64,
    pub processes: Vec<ProcessInfo>,
}

/// How many processes a snapshot lists verbatim.
pub const TOP_PROCESSES: usize = 10;

/// Samples kept for the growth estimate: 30 minutes at a 30 s tick.
pub const HISTORY_CAPACITY: usize = 60;

/// `part` as a share of `whole` in hundredths of a percent, rounded down;
/// zero when `whole` is zero.
pub open spec fn percent_of(part: u64, whole: u64) -> int {
    if whole == 0 {
        0
    } else {
        let p: int = part as int * 10000 / whole as int;
        if p > u64::MAX { u64::MAX as int } else { p }
    }
}

/// `part` as a share of `whole` in hundredths of a percent, rounded down.
pub fn percent_exec(part: u64, whole: u64) -> (r: u64)
    ensures
        r == percent_of(part, whole),
{
    if whole == 0 {
        return 0;
    }
    let p = (part as u128) * 10000 / (whole as u128);
    if p > u64::MAX as u128 { u64::MAX } else { p as u64 }
}

/// The position where a record goes in a list ordered by memory, largest
/// first: after every record with at least as much memory.
pub open spec fn insert_position(sorted: Seq<ProcessInfo>, p: ProcessInfo, i: int) -> int
    decreases sorted.len() - i,
{
    if i < 0 || i >= sorted.len() {
        sorted.len() as int
    } else if sorted[i].memory_bytes < p.memory_bytes {
        i
    } else {
        insert_position(sorted, p, i + 1)
    }
}

/// The records ordered by memory, largest first; records with equal memory
/// keep their order.
pub open spec fn sort_by_memory(s: Seq<ProcessInfo>) -> Seq<ProcessInfo>
    decreases s.len(),
{
    if s.len() == 0 {
        s
    } else {
        let rest = sort_by_memory(s.drop_last());
        rest.insert(insert_position(rest, s.last(), 0), s.last())
    }
}

proof fn lemma_insert_position_bound(sorted: Seq<ProcessInfo>, p: ProcessInfo, i: int)
    requires
        0 <= i <= sorted.len(),
    ensures
        i <= insert_position(sorted, p, i) <= sorted.len(),
    decreases sorted.len() - i,
{
    if i < sorted.len() && sorted[i].memory_bytes >= p.memory_bytes {
        lemma_insert_position_bound(sorted, p, i + 1);
    }
}

/// Orders the records by memory, largest first, keeping the order of equals.
pub fn sort_by_memory_exec(procs: Vec<ProcessInfo>) -> (r: Vec<ProcessInfo>)
    ensures
        r@ == sort_by_memory(procs@),
{
    let ghost orig = procs@;
    let mut rest = procs;
    let mut sorted: Vec<ProcessInfo> = Vec::new();
    assert(orig.subrange(0, 0) =~= Seq::<ProcessInfo>::empty());
    while rest.len() > 0
        invariant
            sorted@.len() + rest@.len() == orig.len(),
            rest@ == orig.subrange(sorted@.len() as int, orig.len() as int),
            sorted@ == sort_by_memory(orig.subrange(0, sorted@.len() as int)),
        decreases rest@.len(),
    {
        let ghost k = sorted@.len() as int;
        let p = rest.remove(0);
        assert(p == orig[k]);
        let mut pos: usize = 0;
        while pos < sorted.len() && sorted[pos].memory_bytes >= p.memory_bytes
            invariant
                pos <= sorted@.len(),
                insert_position(sorted@, p, 0) == insert_position(sorted@, p, pos as int),
            decreases sorted@.len() - pos,
        {
            pos = pos + 1;
        }
        proof {
            lemma_insert_position_bound(sorted@, p, 0);
            assert(orig.subrange(0, k + 1).drop_last() =~= orig.subrange(0, k));
            assert(orig.subrange(0, k + 1).last() == p);
        }
        sorted.insert(pos, p);
        assert(rest@ =~= orig.subrange(k + 1, orig.len() as int));
    }
    assert(orig.subrange(0, orig.len() as int) =~= orig);
    sorted
}

/// One gigabyte, in bytes.
pub const GIB_BYTES: i128 = 1073741824;

/// Bound on the offset of a sample from the oldest one, in seconds (about 194 days).
pub const MAX_OFFSET: i128 = 16777216;

/// Bound on the number of samples the estimate is computed over.
pub const MAX_SAMPLES: usize = 256;

/// Seconds from the oldest sample to sample `i`.
pub open spec fn offset(h: Seq<(i64, u64)>, i: int) -> int {
    h[i].0 - h[0].0
}

pub open spec fn sum_x(h: Seq<(i64, u64)>, k: int) -> int
    decreases k,
{
    if k <= 0 { 0 } else { sum_x(h, k - 1) + offset(h, k - 1) }
}

pub open spec fn sum_y(h: Seq<(i64, u64)>, k: int) -> int
    decreases k,
{
    if k <= 0 { 0 } else { sum_y(h, k - 1) + h[k - 1].1 }
}

pub open spec fn sum_xy(h: Seq<(i64, u64)>, k: int) -> int
    decreases k,
{
    if k <= 0 { 0 } else { sum_xy(h, k - 1) + offset(h, k - 1) * h[k - 1].1 }
}

pub open spec fn sum_xx(h: Seq<(i64, u64)>, k: int) -> int
    decreases k,
{
    if k <= 0 { 0 } else { sum_xx(h, k - 1) + offset(h, k - 1) * offset(h, k - 1) }
}

/// `N·Σxy − Σx·Σy` over the first `k` samples.
pub open spec fn slope_numerator(h: Seq<(i64, u64)>, k: int) -> int {
    k * sum_xy(h, k) - sum_x(h, k) * sum_y(h, k)
}

/// `N·Σx² − (Σx)²` over the first `k` samples.
pub open spec fn slope_denominator(h: Seq<(i64, u64)>, k: int) -> int {
    k * sum_xx(h, k) - sum_x(h, k) * sum_x(h, k)
}

/// The window is small enough, and its samples close enough in time, for the
/// estimate to be computed exactly.
pub open spec fn regression_fits(h: Seq<(i64, u64)>) -> bool {
    &&& h.len() <= MAX_SAMPLES
    &&& forall|i: int| 0 <= i < h.len() ==> -MAX_OFFSET < #[trigger] offset(h, i) < MAX_OFFSET
}

/// Clamps a value into the range of `i64`.
pub open spec fn clamp_i64(v: int) -> int {
    if v > i64::MAX { i64::MAX as int } else if v < i64::MIN { i64::MIN as int } else { v }
}

/// The least-squares slope of memory over time, in hundredths of a gigabyte
/// per hour, rounded down (and clamped to `i64`). Unknown with fewer than two
/// samples, when all samples share one timestamp, or when the window does not
/// fit the exact computation.
pub open spec fn growth_rate_of(h: Seq<(i64, u64)>) -> Option<i64> {
    let n = h.len() as int;
    if n < 2 || !regression_fits(h) || slope_denominator(h, n) <= 0 {
        None
    } else {
        Some(clamp_i64(slope_numerator(h, n) * 360000 / (slope_denominator(h, n) * GIB_BYTES)) as i64)
    }
}

/// The least-squares growth estimate over a window of (timestamp, bytes) samples.
pub fn growth_rate_exec(h: &Vec<(i64, u64)>) -> (r: Option<i64>)
    ensures
        r == growth_rate_of(h@),
{
    let n = h.len();
    if n < 2 || n > MAX_SAMPLES {
        return None;
    }
    let t0 = h[0].0 as i128;
    let mut sx: i128 = 0;
    let mut sy: i128 = 0;
    let mut sxy: i128 = 0;
    let mut sxx: i128 = 0;
    let mut i: usize = 0;
    while i < n
        invariant
            n == h@.len(),
            2 <= n <= MAX_SAMPLES,
            i <= n,
            t0 == h@[0].0,
            forall|j: int| 0 <= j < i ==> -MAX_OFFSET < #[trigger] offset(h@, j) < MAX_OFFSET,
            sx == sum_x(h@, i as int),
            sy == sum_y(h@, i as int),
            sxy == sum_xy(h@, i as int),
            sxx == sum_xx(h@, i as int),
            -(i as int) * MAX_OFFSET <= sx <= (i as int) * MAX_OFFSET,
            0 <= sy <= (i as int) * 0x1_0000_0000_0000_0000,
            -(i as int) * MAX_OFFSET * 0x1_0000_0000_0000_0000 <= sxy <= (i as int) * MAX_OFFSET * 0x1_0000_0000_0000_0000,
            0 <= sxx <= (i as int) * MAX_OFFSET * MAX_OFFSET,
        decreases n - i,
    {
        let x = (h[i].0 as i128) - t0;
        assert(x == offset(h@, i as int));
        if x <= -MAX_OFFSET || x >= MAX_OFFSET {
            assert(!regression_fits(h@));
            return None;
        }
        let y = h[i].1 as i128;
        proof {
            assert(-MAX_OFFSET * 0x1_0000_0000_0000_0000 <= x * y <= MAX_OFFSET * 0x1_0000_0000_0000_0000) by (nonlinear_arith)
                requires -MAX_OFFSET < x < MAX_OFFSET, 0 <= y < 0x1_0000_0000_0000_0000;
            assert(0 <= x * x <= MAX_OFFSET * MAX_OFFSET) by (nonlinear_arith)
                requires -MAX_OFFSET < x < MAX_OFFSET;
        }
        sx = sx + x;
        sy = sy + y;
        sxy = sxy + x * y;
        sxx = sxx + x * x;
        i = i + 1;
    }
    let nn = n as i128;
    proof {
        assert(-(n as int) * MAX_OFFSET <= sx <= (n as int) * MAX_OFFSET);
        assert(0 <= sy <= 256 * 0x1_0000_0000_0000_0000) by (nonlinear_arith)
            requires 0 <= sy <= (n as int) * 0x1_0000_0000_0000_0000, n <= 256;
        assert(-256 * MAX_OFFSET <= sx <= 256 * MAX_OFFSET) by (nonlinear_arith)
            requires -(n as int) * MAX_OFFSET <= sx <= (n as int) * MAX_OFFSET, n <= 256;
        assert(-256 * MAX_OFFSET * 0x1_0000_0000_0000_0000 <= sxy <= 256 * MAX_OFFSET * 0x1_0000_0000_0000_0000) by (nonlinear_arith)
            requires -(n as int) * MAX_OFFSET * 0x1_0000_0000_0000_0000 <= sxy <= (n as int) * MAX_OFFSET * 0x1_0000_0000_0000_0000, n <= 256;
        assert(0 <= sxx <= 256 * MAX_OFFSET * MAX_OFFSET) by (nonlinear_arith)
            requires 0 <= sxx <= (n as int) * MAX_OFFSET * MAX_OFFSET, n <= 256;
        assert(-256 * 256 * MAX_OFFSET * 0x1_0000_0000_0000_0000 <= nn * sxy <= 256 * 256 * MAX_OFFSET * 0x1_0000_0000_0000_0000) by (nonlinear_arith)
            requires -256 * MAX_OFFSET * 0x1_0000_0000_0000_0000 <= sxy <= 256 * MAX_OFFSET * 0x1_0000_0000_0000_0000, 0 <= nn <= 256;
        assert(-256 * 256 * MAX_OFFSET * 0x1_0000_0000_0000_0000 <= sx * sy <= 256 * 256 * MAX_OFFSET * 0x1_0000_0000_0000_0000) by (nonlinear_arith)
            requires -256 * MAX_OFFSET <= sx <= 256 * MAX_OFFSET, 0 <= sy <= 256 * 0x1_0000_0000_0000_0000;
        assert(0 <= nn * sxx <= 256 * 256 * MAX_OFFSET * MAX_OFFSET) by (nonlinear_arith)
            requires 0 <= sxx <= 256 * MAX_OFFSET * MAX_OFFSET, 0 <= nn <= 256;
        assert(0 <= sx * sx <= 256 * 256 * MAX_OFFSET * MAX_OFFSET) by (nonlinear_arith)
            requires -256 * MAX_OFFSET <= sx <= 256 * MAX_OFFSET;
    }
    let num = nn * sxy - sx * sy;
    let den = nn * sxx - sx * sx;
    if den <= 0 {
        return None;
    }
    proof {
        assert(-2 * 256 * 256 * MAX_OFFSET * 0x1_0000_0000_0000_0000 * 360000 <= num * 360000 <= 2 * 256 * 256 * MAX_OFFSET * 0x1_0000_0000_0000_0000 * 360000) by (nonlinear_arith)
            requires -2 * 256 * 256 * MAX_OFFSET * 0x1_0000_0000_0000_0000 <= num <= 2 * 256 * 256 * MAX_OFFSET * 0x1_0000_0000_0000_0000;
        assert(0 < den * GIB_BYTES <= 256 * 256 * MAX_OFFSET * MAX_OFFSET * GIB_BYTES) by (nonlinear_arith)
            requires 0 < den <= 256 * 256 * MAX_OFFSET * MAX_OFFSET;
    }
    let a = num * 360000;
    let b = den * GIB_BYTES;
    let q0 = a / b;
    proof {
        let ai = a as int;
        let bi = b as int;
        let qi = q0 as int;
        assert(qi == (if ai >= 0 { ai / bi } else { -((-ai) / bi) }));
        assert(-ai <= qi * bi <= ai || ai <= qi * bi <= -ai) by (nonlinear_arith)
            requires bi > 0, qi == (if ai >= 0 { ai / bi } else { -((-ai) / bi) });
    }
    let q = if q0 * b != a && a < 0 { q0 - 1 } else { q0 };
    proof {
        lemma_floor_div(a as int, b as int, q0 as int, q as int);
    }
    let clamped = if q > i64::MAX as i128 {
        i64::MAX
    } else if q < i64::MIN as i128 {
        i64::MIN
    } else {
        q as i64
    };
    Some(clamped)
}

/// Rust's truncating division, adjusted downwards for an inexact negative
/// quotient, is the floor (Euclidean) division of the specification.
proof fn lemma_floor_div(a: int, b: int, q0: int, q: int)
    requires
        b > 0,
        q0 == (if a >= 0 { a / b } else { -((-a) / b) }),
        q == (if q0 * b != a && a < 0 { q0 - 1 } else { q0 }),
    ensures
        q == a / b,
{
    if a < 0 {
        let m = (-a) / b;
        let r = (-a) % b;
        assert(-a == m * b + r && 0 <= r < b) by (nonlinear_arith)
            requires m == (-a) / b, r == (-a) % b, b > 0;
        if r == 0 {
            assert(a == (-m) * b) by (nonlinear_arith) requires -a == m * b + r, r == 0;
            assert(a / b == -m) by (nonlinear_arith) requires a == (-m) * b, b > 0;
        } else {
            assert(q0 * b != a) by (nonlinear_arith) requires q0 == -m, -a == m * b + r, 0 < r < b;
            assert(a == (-m - 1) * b + (b - r)) by (nonlinear_arith) requires -a == m * b + r;
            assert(a / b == -m - 1 && a % b == b - r) by (nonlinear_arith)
                requires a == (-m - 1) * b + (b - r), 0 < b - r < b;
        }
    }
}

/// At most the first `n` elements.
pub open spec fn first_n<A>(s: Seq<A>, n: int) -> Seq<A> {
    if s.len() > n { s.subrange(0, n) } else { s }
}

/// The most recent `cap` samples.
pub open spec fn window(s: Seq<(i64, u64)>, cap: int) -> Seq<(i64, u64)> {
    if s.len() > cap { s.subrange(s.len() - cap, s.len() as int) } else { s }
}

/// Collects metrics snapshots and keeps the rolling memory history.
pub struct MetricsCollector {
    memory_history: Vec<(i64, u64)>,
    max_history: usize,
}

impl MetricsCollector {
    /// The retained (timestamp, bytes used) samples, oldest first.
    pub closed spec fn history(&self) -> Seq<(i64, u64)> {
        self.memory_history@
    }

    pub closed spec fn wf(&self) -> bool {
        &&& self.max_history == HISTORY_CAPACITY
        &&& self.memory_history@.len() <= self.max_history
    }

    pub fn new() -> (r: Self)
        ensures
            r.wf(),
            r.history() == Seq::<(i64, u64)>::empty(),
    {
        MetricsCollector { memory_history: Vec::new(), max_history: HISTORY_CAPACITY }
    }

    /// The memory growth rate over the retained history, in hundredths of a
    /// gigabyte per hour.
    pub fn calculate_growth_rate(&self) -> (r: Option<i64>)
        ensures
            r == growth_rate_of(self.history()),
    {
        growth_rate_exec(&self.memory_history)
    }

    /// Builds the snapshot of one tick from the host's readings: percentages
    /// of the same totals, the ten largest processes by memory, and the growth
    /// rate over the history with this sample appended.
    pub fn collect(&mut self, sample: HostSample) -> (r: SystemMetrics)
        requires
            old(self).wf(),
        ensures
            final(self).wf(),
            final(self).history() == window(
                old(self).history().push((sample.timestamp, sample.memory_used)),
                HISTORY_CAPACITY as int,
            ),
            r.timestamp == sample.timestamp,
            r.memory_total == sample.memory_total,
            r.memory_used == sample.memory_used,
            r.memory_free == sample.memory_free,
            r.memory_percent == percent_of(sample.memory_used, sample.memory_total),
            r.swap_total == sample.swap_total,
            r.swap_used == sample.swap_used,
            r.swap_percent == percent_of(sample.swap_used, sample.swap_total),
            r.load_1m == sample.load_1m,
            r.load_5m == sample.load_5m,
            r.load_15m == sample.load_15m,
            r.top_processes@ == first_n(sort_by_memory(sample.processes@), TOP_PROCESSES as int),
            r.aggregated_processes@.len() == 0,
            r.memory_growth_rate == growth_rate_of(final(self).history()),
    {
        let memory_percent = percent_exec(sample.memory_used, sample.memory_total);
        let swap_percent = percent_exec(sample.swap_used, sample.swap_total);
        let mut top = sort_by_memory_exec(sample.processes);
        top.truncate(TOP_PROCESSES);

        let ghost before = self.memory_history@.push((sample.timestamp, sample.memory_used));
        self.memory_history.push((sample.timestamp, sample.memory_used));
        if self.memory_history.len() > self.max_history {
            self.memory_history.remove(0);
            assert(self.memory_history@ =~= before.subrange(before.len() - HISTORY_CAPACITY, before.len() as int));
        }
        let memory_growth_rate = self.calculate_growth_rate();

        SystemMetrics {
            timestamp: sample.timestamp,
            memory_total: sample.memory_total,
            memory_used: sample.memory_used,
            memory_free: sample.memory_free,
            memory_percent,
            swap_total: sample.swap_total,
            swap_used: sample.swap_used,
            swap_percent,
            load_1m: sample.load_1m,
            load_5m: sample.load_5m,
            load_15m: sample.load_15m,
            top_processes: top,
            aggregated_processes: Vec::new(),
            memory_growth_rate,
        }
    }
}

/// `Σ (xᵢ − x)²` over the first `k` samples.
pub open spec fn sum_sq_dev(h: Seq<(i64, u64)>, k: int, x: int) -> int
    decreases k,
{
    if k <= 0 { 0 } else { sum_sq_dev(h, k - 1, x) + (offset(h, k - 1) - x) * (offset(h, k - 1) - x) }
}

proof fn lemma_sum_sq_dev(h: Seq<(i64, u64)>, k: int, x: int)
    requires
        0 <= k,
    ensures
        sum_sq_dev(h, k, x) == sum_xx(h, k) - 2 * x * sum_x(h, k) + k * x * x,
        sum_sq_dev(h, k, x) >= 0,
    decreases k,
{
    if k > 0 {
        lemma_sum_sq_dev(h, k - 1, x);
        let d = offset(h, k - 1);
        let q0 = sum_sq_dev(h, k - 1, x);
        let q1 = sum_sq_dev(h, k, x);
        let a0 = sum_x(h, k - 1);
        let a1 = sum_x(h, k);
        let b0 = sum_xx(h, k - 1);
        let b1 = sum_xx(h, k);
        assert(a1 == a0 + d);
        assert(b1 == b0 + d * d);
        assert(q1 == q0 + (d - x) * (d - x));
        assert(q1 == b1 - 2 * x * a1 + k * x * x) by (nonlinear_arith)
            requires
                q1 == q0 + (d - x) * (d - x),
                q0 == b0 - 2 * x * a0 + (k - 1) * x * x,
                a1 == a0 + d,
                b1 == b0 + d * d;
        assert((d - x) * (d - x) >= 0) by (nonlinear_arith);
    } else {
        assert(k * x * x == 0) by (nonlinear_arith) requires k == 0;
    }
}

/// Adding a sample raises the denominator by the squared deviations of the
/// earlier samples from it (Lagrange's identity, one step).
proof fn lemma_denominator_step(h: Seq<(i64, u64)>, k: int)
    requires
        0 <= k,
    ensures
        slope_denominator(h, k + 1) == slope_denominator(h, k) + sum_sq_dev(h, k, offset(h, k)),
        slope_denominator(h, k + 1) >= slope_denominator(h, k),
{
    lemma_sum_sq_dev(h, k, offset(h, k));
    let x = offset(h, k);
    let sx = sum_x(h, k);
    let sxx = sum_xx(h, k);
    assert(sum_x(h, k + 1) == sx + x);
    assert(sum_xx(h, k + 1) == sxx + x * x);
    assert((k + 1) * (sxx + x * x) - (sx + x) * (sx + x)
        == (k * sxx - sx * sx) + (sxx - 2 * x * sx + k * x * x)) by (nonlinear_arith);
}

/// With the first two samples at different times, the denominator is positive.
proof fn lemma_denominator_positive(h: Seq<(i64, u64)>, k: int)
    requires
        2 <= k,
        offset(h, 1) != 0,
    ensures
        slope_denominator(h, k) > 0,
    decreases k,
{
    if k == 2 {
        let x1 = offset(h, 1);
        assert(offset(h, 0) == 0);
        assert(sum_x(h, 0) == 0);
        assert(sum_xx(h, 0) == 0);
        assert(sum_x(h, 1) == 0);
        assert(sum_xx(h, 1) == 0);
        assert(sum_x(h, 2) == x1);
        assert(sum_xx(h, 2) == x1 * x1);
        assert(2 * (x1 * x1) - x1 * x1 > 0) by (nonlinear_arith) requires x1 != 0;
    } else {
        lemma_denominator_positive(h, k - 1);
        lemma_denominator_step(h, k - 1);
    }
}

/// The sums of an exactly linear history, growing `g / 360000` bytes per second.
proof fn lemma_linear_sums(h: Seq<(i64, u64)>, g: int, k: int)
    requires
        0 <= k <= h.len(),
        forall|i: int| 0 <= i < h.len() ==> (#[trigger] h[i].1 - h[0].1) * 360000 == g * offset(h, i),
    ensures
        360000 * sum_y(h, k) == k * 360000 * h[0].1 + g * sum_x(h, k),
        360000 * sum_xy(h, k) == 360000 * h[0].1 * sum_x(h, k) + g * sum_xx(h, k),
    decreases k,
{
    if k > 0 {
        lemma_linear_sums(h, g, k - 1);
        let x = offset(h, k - 1);
        let y = h[k - 1].1 as int;
        let y0 = h[0].1 as int;
        assert((y - y0) * 360000 == g * x);
        assert(360000 * (sum_y(h, k - 1) + y) == 360000 * sum_y(h, k - 1) + 360000 * y) by (nonlinear_arith);
        assert(k * 360000 * y0 == (k - 1) * 360000 * y0 + 360000 * y0) by (nonlinear_arith);
        assert(g * (sum_x(h, k - 1) + x) == g * sum_x(h, k - 1) + g * x) by (nonlinear_arith);
        assert(360000 * (x * y) == 360000 * y0 * x + g * (x * x)) by (nonlinear_arith)
            requires (y - y0) * 360000 == g * x;
        assert(360000 * (sum_xy(h, k - 1) + x * y) == 360000 * sum_xy(h, k - 1) + 360000 * (x * y)) by (nonlinear_arith);
        assert(360000 * y0 * (sum_x(h, k - 1) + x) == 360000 * y0 * sum_x(h, k - 1) + 360000 * y0 * x) by (nonlinear_arith);
        assert(g * (sum_xx(h, k - 1) + x * x) == g * sum_xx(h, k - 1) + g * (x * x)) by (nonlinear_arith);
    }
}

/// Growth-rate regression: a history whose memory grows by exactly `k`
/// hundredths of a gigabyte per hour of elapsed time, with its first two
/// samples at different times, has growth rate exactly `k`.
pub proof fn law_linear_growth_rate(h: Seq<(i64, u64)>, k: int)
    requires
        h.len() >= 2,
        regression_fits(h),
        offset(h, 1) != 0,
        i64::MIN <= k <= i64::MAX,
        forall|i: int| 0 <= i < h.len() ==> (#[trigger] h[i].1 - h[0].1) * 360000 == k * GIB_BYTES * offset(h, i),
    ensures
        growth_rate_of(h) == Some(k as i64),
{
    let n = h.len() as int;
    let g = k * GIB_BYTES;
    lemma_linear_sums(h, g, n);
    lemma_denominator_positive(h, n);
    let sx = sum_x(h, n);
    let sy = sum_y(h, n);
    let sxy = sum_xy(h, n);
    let sxx = sum_xx(h, n);
    let y0 = h[0].1 as int;
    let num = slope_numerator(h, n);
    let den = slope_denominator(h, n);
    assert(num * 360000 == n * (360000 * sxy) - sx * (360000 * sy)) by (nonlinear_arith)
        requires num == n * sxy - sx * sy;
    assert(n * (360000 * y0 * sx + g * sxx) - sx * (n * 360000 * y0 + g * sx) == g * (n * sxx - sx * sx))
        by (nonlinear_arith);
    assert(num * 360000 == g * den);
    assert(num * 360000 == (den * GIB_BYTES) * k) by (nonlinear_arith)
        requires num * 360000 == g * den, g == k * GIB_BYTES;
    lemma_div_multiples_vanish(k, den * GIB_BYTES);
}

/// Growth-rate regression: fewer than two samples, or samples that all share
/// one timestamp, leave the growth rate unknown.
pub proof fn law_growth_rate_unknown(h: Seq<(i64, u64)>)
    requires
        h.len() < 2 || forall|i: int| 0 <= i < h.len() ==> #[trigger] h[i].0 == h[0].0,
    ensures
        growth_rate_of(h) is None,
{
    if h.len() >= 2 {
        lemma_flat_sums(h, h.len() as int);
    }
}

proof fn lemma_flat_sums(h: Seq<(i64, u64)>, k: int)
    requires
        0 <= k <= h.len(),
        forall|i: int| 0 <= i < h.len() ==> #[trigger] h[i].0 == h[0].0,
    ensures
        sum_x(h, k) == 0,
        sum_xx(h, k) == 0,
    decreases k,
{
    if k > 0 {
        lemma_flat_sums(h, k - 1);
        assert(h[k - 1].0 == h[0].0);
    }
}

/// The parent the oracle reports for a process id: its last entry, if any.
pub open spec fn oracle_parent(map: Seq<(u32, u32)>, pid: u32) -> Option<u32>
    decreases map.len(),
{
    if map.len() == 0 {
        None
    } else if map.last().0 == pid {
        Some(map.last().1)
    } else {
        oracle_parent(map.drop_last(), pid)
    }
}

/// Parent links: the oracle's where it has one, else the record's own.
pub open spec fn merged_parents(procs: Seq<ProcessInfo>, map: Seq<(u32, u32)>) -> Seq<Option<u32>> {
    Seq::new(procs.len(), |i: int| match oracle_parent(map, procs[i].pid) {
        Some(pp) => Some(pp),
        None => procs[i].parent_pid,
    })
}

fn oracle_parent_exec(map: &Vec<(u32, u32)>, pid: u32) -> (r: Option<u32>)
    ensures
        r == oracle_parent(map@, pid),
{
    let mut k: usize = map.len();
    assert(map@.subrange(0, k as int) =~= map@);
    while k > 0
        invariant
            k <= map@.len(),
            oracle_parent(map@, pid) == oracle_parent(map@.subrange(0, k as int), pid),
        decreases k,
    {
        assert(map@.subrange(0, k as int).drop_last() =~= map@.subrange(0, k - 1));
        if map[k - 1].0 == pid {
            return Some(map[k - 1].1);
        }
        k = k - 1;
    }
    None
}

/// Parent links with the oracle's preferred.
pub fn merge_parents(procs: &Vec<ProcessInfo>, map: &Vec<(u32, u32)>) -> (r: Vec<Option<u32>>)
    ensures
        r@ == merged_parents(procs@, map@),
{
    let mut r: Vec<Option<u32>> = Vec::new();
    let mut i: usize = 0;
    while i < procs.len()
        invariant
            i <= procs@.len(),
            r@ == merged_parents(procs@, map@).subrange(0, i as int),
        decreases procs@.len() - i,
    {
        let p = match oracle_parent_exec(map, procs[i].pid) {
            Some(pp) => Some(pp),
            None => procs[i].parent_pid,
        };
        r.push(p);
        i = i + 1;
        assert(r@ =~= merged_parents(procs@, map@).subrange(0, i as int));
    }
    assert(merged_parents(procs@, map@).subrange(0, procs@.len() as int) =~= merged_parents(procs@, map@));
    r
}

impl MetricsCollector {
    /// Collects a snapshot and aggregates its processes per application.
    /// `parent_map` is the best-effort (pid, parent pid) map of the
    /// process-listing oracle; it may be empty.
    pub fn collect_aggregated(&mut self, sample: HostSample, parent_map: &Vec<(u32, u32)>) -> (r: SystemMetrics)
        requires
            old(self).wf(),
        ensures
            final(self).wf(),
            final(self).history() == window(
                old(self).history().push((sample.timestamp, sample.memory_used)),
                HISTORY_CAPACITY as int,
            ),
            r.timestamp == sample.timestamp,
            r.memory_total == sample.memory_total,
            r.memory_used == sample.memory_used,
            r.memory_free == sample.memory_free,
            r.memory_percent == percent_of(sample.memory_used, sample.memory_total),
            r.swap_total == sample.swap_total,
            r.swap_used == sample.swap_used,
            r.swap_percent == percent_of(sample.swap_used, sample.swap_total),
            r.load_1m == sample.load_1m,
            r.load_5m == sample.load_5m,
            r.load_15m == sample.load_15m,
            r.top_processes@ == first_n(sort_by_memory(sample.processes@), TOP_PROCESSES as int),
            r.memory_growth_rate == growth_rate_of(final(self).history()),
            exists|owner: Seq<Option<int>>, names: Seq<Seq<char>>| aggregation_of(sample.processes@,
                merged_parents(sample.processes@, parent_map@), owner, names, r.aggregated_processes@),
    {
        let parents = merge_parents(&sample.processes, parent_map);
        let groups = aggregate_groups(&sample.processes, &parents);
        let ghost procs = sample.processes@;
        let mut metrics = self.collect(sample);
        metrics.aggregated_processes = groups;
        proof {
            let (o, nm) = choose|o: Seq<Option<int>>, nm: Seq<Seq<char>>| aggregation_of(procs, parents@, o, nm, groups@);
            assert(aggregation_of(procs, merged_parents(procs, parent_map@), o, nm, metrics.aggregated_processes@));
        }
        metrics
    }
}

} // verus!
