//! Samples of the system: what is measured, how rates are taken, how long a
//! sample is served again.

use crate::history;
use crate::history::{HistoryPoint, MetricsHistory};
use crate::number;
use crate::number::Single;
use crate::process_top::ProcessTopSnapshot;
use crate::temperature_lhm::{FanMetrics, GpuMetrics, LhmExtras};
use vstd::arithmetic::power2::*;
use vstd::prelude::*;
use vstd::string::*;

verus! {

/// For how long a sample is served again, in nanoseconds: windows that ask at the
/// same time do not disturb the network rates.
pub const METRICS_CACHE_MIN_INTERVAL: u64 = 700_000_000;

/// The longest span over which a network rate means something, in nanoseconds.
pub const NET_DIFF_MAX_INTERVAL: u64 = 5_000_000_000;

/// For how long the list of the top processes is served again, in nanoseconds.
pub const PROCESS_TOP_MIN_INTERVAL: u64 = 4_000_000_000;

/// How many processes a list of the top ones holds at most.
pub const PROCESS_TOP_N: usize = 5;

/// One disk.
#[derive(Debug)]
pub struct DiskStat {
    pub name: String,
    pub mount_point: String,
    pub total_bytes: u64,
    pub available_bytes: u64,
    pub used_percent: Single,
}

impl Clone for DiskStat {
    fn clone(&self) -> (r: DiskStat)
        ensures
            r == *self,
    {
        DiskStat {
            name: self.name.clone(),
            mount_point: self.mount_point.clone(),
            total_bytes: self.total_bytes,
            available_bytes: self.available_bytes,
            used_percent: self.used_percent,
        }
    }
}

/// One sample of the system.
#[derive(Debug)]
pub struct Metrics {
    pub cpu_percent: Single,
    pub memory_used_bytes: u64,
    pub memory_total_bytes: u64,
    pub memory_percent: Single,
    pub swap_used_bytes: u64,
    pub swap_total_bytes: u64,
    pub net_down_bps: u64,
    pub net_up_bps: u64,
    pub disks: Vec<DiskStat>,
    pub cpu_temp_celsius: Option<Single>,
    /// Known from LibreHardwareMonitor only.
    pub gpu: Option<GpuMetrics>,
    /// Known from LibreHardwareMonitor only; empty without it.
    pub fans: Vec<FanMetrics>,
    pub sampled_at_ms: u128,
}

/// A sample with its lists as sequences.
pub ghost struct MetricsView {
    pub cpu_percent: Single,
    pub memory_used_bytes: u64,
    pub memory_total_bytes: u64,
    pub memory_percent: Single,
    pub swap_used_bytes: u64,
    pub swap_total_bytes: u64,
    pub net_down_bps: u64,
    pub net_up_bps: u64,
    pub disks: Seq<DiskStat>,
    pub cpu_temp_celsius: Option<Single>,
    pub gpu: Option<GpuMetrics>,
    pub fans: Seq<FanMetrics>,
    pub sampled_at_ms: u128,
}

impl View for Metrics {
    type V = MetricsView;

    open spec fn view(&self) -> MetricsView {
        MetricsView {
            cpu_percent: self.cpu_percent,
            memory_used_bytes: self.memory_used_bytes,
            memory_total_bytes: self.memory_total_bytes,
            memory_percent: self.memory_percent,
            swap_used_bytes: self.swap_used_bytes,
            swap_total_bytes: self.swap_total_bytes,
            net_down_bps: self.net_down_bps,
            net_up_bps: self.net_up_bps,
            disks: self.disks@,
            cpu_temp_celsius: self.cpu_temp_celsius,
            gpu: self.gpu,
            fans: self.fans@,
            sampled_at_ms: self.sampled_at_ms,
        }
    }
}

fn copy_disks(v: &Vec<DiskStat>) -> (r: Vec<DiskStat>)
    ensures
        r@ == v@,
{
    let mut r: Vec<DiskStat> = Vec::new();
    let n = v.len();
    for i in 0..n
        invariant
            n == v@.len(),
            r@ == v@.take(i as int),
    {
        r.push(v[i].clone());
    }
    r
}

fn copy_fans(v: &Vec<FanMetrics>) -> (r: Vec<FanMetrics>)
    ensures
        r@ == v@,
{
    let mut r: Vec<FanMetrics> = Vec::new();
    let n = v.len();
    for i in 0..n
        invariant
            n == v@.len(),
            r@ == v@.take(i as int),
    {
        r.push(v[i].clone());
    }
    r
}

fn copy_gpu(gpu: &Option<GpuMetrics>) -> (r: Option<GpuMetrics>)
    ensures
        r == *gpu,
{
    match gpu {
        Some(g) => Some(g.clone()),
        None => None,
    }
}

impl Clone for Metrics {
    fn clone(&self) -> (r: Metrics)
        ensures
            r@ == self@,
    {
        Metrics {
            cpu_percent: self.cpu_percent,
            memory_used_bytes: self.memory_used_bytes,
            memory_total_bytes: self.memory_total_bytes,
            memory_percent: self.memory_percent,
            swap_used_bytes: self.swap_used_bytes,
            swap_total_bytes: self.swap_total_bytes,
            net_down_bps: self.net_down_bps,
            net_up_bps: self.net_up_bps,
            disks: copy_disks(&self.disks),
            cpu_temp_celsius: self.cpu_temp_celsius,
            gpu: copy_gpu(&self.gpu),
            fans: copy_fans(&self.fans),
            sampled_at_ms: self.sampled_at_ms,
        }
    }
}

/// One disk as the system reports it.
#[derive(Debug)]
pub struct DiskReading {
    pub name: String,
    pub mount_point: String,
    pub total_bytes: u64,
    pub available_bytes: u64,
}

/// What the system reports at one time. Each network interface has the bytes that
/// it has received and sent since it came up.
#[derive(Debug)]
pub struct SystemReadings {
    pub cpu_percent: Single,
    pub memory_used_bytes: u64,
    pub memory_total_bytes: u64,
    pub swap_used_bytes: u64,
    pub swap_total_bytes: u64,
    pub networks: Vec<(u64, u64)>,
    pub disks: Vec<DiskReading>,
    pub sampled_at_ms: u128,
}

/// `a + b`, or the largest `u64` where that is larger.
pub open spec fn capped_sum(a: int, b: int) -> int {
    if a + b > u64::MAX {
        u64::MAX as int
    } else {
        a + b
    }
}

/// The bytes received and sent over all interfaces.
pub open spec fn network_totals(networks: Seq<(u64, u64)>) -> (int, int)
    decreases networks.len(),
{
    if networks.len() == 0 {
        (0, 0)
    } else {
        let (down, up) = network_totals(networks.drop_last());
        (capped_sum(down, networks.last().0 as int), capped_sum(up, networks.last().1 as int))
    }
}

pub fn sum_network(networks: &Vec<(u64, u64)>) -> (r: (u64, u64))
    ensures
        (r.0 as int, r.1 as int) == network_totals(networks@),
{
    let mut down: u64 = 0;
    let mut up: u64 = 0;
    let n = networks.len();
    for i in 0..n
        invariant
            n == networks@.len(),
            (down as int, up as int) == network_totals(networks@.take(i as int)),
    {
        proof {
            assert(networks@.take(i + 1).drop_last() =~= networks@.take(i as int));
            assert(networks@.take(i + 1).last() == networks@[i as int]);
        }
        down = down.saturating_add(networks[i].0);
        up = up.saturating_add(networks[i].1);
    }
    assert(networks@.take(n as int) =~= networks@);
    (down, up)
}

/// What is in use in percent of the whole; none of nothing.
pub open spec fn share(used: int, total: int) -> Single {
    if total == 0 {
        number::single_whole(0)
    } else {
        number::percent(used as nat, total as nat)
    }
}

fn share_of(used: u64, total: u64) -> (r: Single)
    ensures
        r == share(used as int, total as int),
{
    if total == 0 {
        Single::whole(0)
    } else {
        number::percent_of(used, total)
    }
}

/// A disk with the share of it in use.
pub open spec fn disk_stat(d: DiskReading) -> DiskStat {
    DiskStat {
        name: d.name,
        mount_point: d.mount_point,
        total_bytes: d.total_bytes,
        available_bytes: d.available_bytes,
        used_percent: share(d.total_bytes - d.available_bytes, d.total_bytes as int),
    }
}

/// No disk has more room left than there is.
pub open spec fn disks_fit(disks: Seq<DiskReading>) -> bool {
    forall|i: int|
        0 <= i < disks.len() ==> (#[trigger] disks[i]).total_bytes == 0
            || disks[i].available_bytes <= disks[i].total_bytes
}

/// Whether no disk has more room left than there is.
pub fn do_disks_fit(disks: &Vec<DiskReading>) -> (r: bool)
    ensures
        r == disks_fit(disks@),
{
    let n = disks.len();
    for i in 0..n
        invariant
            n == disks@.len(),
            forall|j: int|
                0 <= j < i ==> (#[trigger] disks@[j]).total_bytes == 0 || disks@[j].available_bytes
                    <= disks@[j].total_bytes,
    {
        if disks[i].total_bytes != 0 && disks[i].available_bytes > disks[i].total_bytes {
            return false;
        }
    }
    true
}

fn disk_stats(disks: &Vec<DiskReading>) -> (r: Vec<DiskStat>)
    requires
        disks_fit(disks@),
    ensures
        r@ == disks@.map_values(|d: DiskReading| disk_stat(d)),
{
    let mut r: Vec<DiskStat> = Vec::new();
    let n = disks.len();
    for i in 0..n
        invariant
            n == disks@.len(),
            disks_fit(disks@),
            r@ == disks@.map_values(|d: DiskReading| disk_stat(d)).take(i as int),
    {
        let d = &disks[i];
        let used_percent = if d.total_bytes == 0 {
            Single::whole(0)
        } else {
            share_of(d.total_bytes - d.available_bytes, d.total_bytes)
        };
        r.push(
            DiskStat {
                name: d.name.clone(),
                mount_point: d.mount_point.clone(),
                total_bytes: d.total_bytes,
                available_bytes: d.available_bytes,
                used_percent,
            },
        );
        assert(r@.last() == disk_stat(disks@[i as int]));
    }
    r
}

/// What one of the counters has grown by; nothing where it has started over.
pub open spec fn growth(before: u64, now: int) -> nat {
    if now > before {
        (now - before) as nat
    } else {
        0
    }
}

/// The bytes a second that a growth over so many nanoseconds comes to; none over a
/// span that is too long to mean something.
pub open spec fn net_rate(grown: nat, nanos: nat) -> int {
    if nanos > NET_DIFF_MAX_INTERVAL {
        0
    } else {
        number::rate(grown, nanos)
    }
}

fn net_rate_of(grown: u64, nanos: u64) -> (r: u64)
    ensures
        r == net_rate(grown as nat, nanos as nat),
{
    if nanos > NET_DIFF_MAX_INTERVAL {
        0
    } else {
        number::per_second(grown, nanos)
    }
}

/// What a sample that may be missing holds.
pub open spec fn sample_view(m: Option<Metrics>) -> Option<MetricsView> {
    match m {
        Some(m) => Some(m@),
        None => None,
    }
}

/// The state of the monitor between samples. Times are nanoseconds of one clock.
pub struct MonitorState {
    pub history: MetricsHistory,
    pub last_sample_at: u64,
    pub last_net_down: u64,
    pub last_net_up: u64,
    /// The last sample, served again for a while.
    pub last_metrics: Option<Metrics>,
    pub last_process_top_at: Option<u64>,
    pub last_process_top: Option<ProcessTopSnapshot>,
}

/// What a monitor state remembers, apart from the history and the processes.
pub ghost struct Memory {
    pub last_sample_at: u64,
    pub last_net_down: u64,
    pub last_net_up: u64,
    pub last_metrics: Option<MetricsView>,
}

/// The nanoseconds from `from` to `to`; none where the clock stands before `from`.
pub open spec fn elapsed(from: u64, to: u64) -> nat {
    if to > from {
        (to - from) as nat
    } else {
        0
    }
}

/// The sample made of what the system reports at `now`. The temperature, the
/// graphics card and the fans are those of the last sample until they are read.
pub open spec fn sample(memory: Memory, readings: SystemReadings, now: u64) -> MetricsView {
    let nanos = elapsed(memory.last_sample_at, now);
    let (down, up) = network_totals(readings.networks@);
    MetricsView {
        cpu_percent: readings.cpu_percent,
        memory_used_bytes: readings.memory_used_bytes,
        memory_total_bytes: readings.memory_total_bytes,
        memory_percent: share(
            readings.memory_used_bytes as int,
            readings.memory_total_bytes as int,
        ),
        swap_used_bytes: readings.swap_used_bytes,
        swap_total_bytes: readings.swap_total_bytes,
        net_down_bps: net_rate(growth(memory.last_net_down, down), nanos) as u64,
        net_up_bps: net_rate(growth(memory.last_net_up, up), nanos) as u64,
        disks: readings.disks@.map_values(|d: DiskReading| disk_stat(d)),
        cpu_temp_celsius: match memory.last_metrics {
            Some(m) => m.cpu_temp_celsius,
            None => None,
        },
        gpu: match memory.last_metrics {
            Some(m) => m.gpu,
            None => None,
        },
        fans: match memory.last_metrics {
            Some(m) => m.fans,
            None => Seq::empty(),
        },
        sampled_at_ms: readings.sampled_at_ms,
    }
}

/// What is remembered after such a sample.
pub open spec fn after_sample(memory: Memory, readings: SystemReadings, now: u64) -> Memory {
    Memory {
        last_sample_at: now,
        last_net_down: network_totals(readings.networks@).0 as u64,
        last_net_up: network_totals(readings.networks@).1 as u64,
        last_metrics: Some(sample(memory, readings, now)),
    }
}

/// The last sample, if it may still be served at `now`.
pub open spec fn served(memory: Memory, now: u64, min_interval: u64) -> Option<MetricsView> {
    if elapsed(memory.last_sample_at, now) < min_interval {
        memory.last_metrics
    } else {
        None
    }
}

/// A sample with the temperature, the graphics card and the fans that were read.
pub open spec fn filled(
    m: MetricsView,
    temp: Option<Single>,
    gpu: Option<GpuMetrics>,
    fans: Seq<FanMetrics>,
) -> MetricsView {
    MetricsView { cpu_temp_celsius: temp, gpu, fans, ..m }
}

/// Whether a completed sample is still the last one taken.
pub open spec fn is_current(memory: Memory, m: MetricsView) -> bool {
    memory.last_metrics is Some && memory.last_metrics->0.sampled_at_ms == m.sampled_at_ms
}

/// What is remembered after a sample is completed.
pub open spec fn completed(memory: Memory, m: MetricsView) -> Memory {
    if is_current(memory, m) {
        Memory { last_metrics: Some(m), ..memory }
    } else {
        memory
    }
}

/// The points of the history after a sample is completed.
pub open spec fn completed_points(
    memory: Memory,
    points: Seq<HistoryPoint>,
    capacity: usize,
    m: MetricsView,
) -> Seq<HistoryPoint> {
    if is_current(memory, m) {
        history::latest(points.push(history::point_of(m)), capacity as nat)
    } else {
        points
    }
}

impl MonitorState {
    pub open spec fn memory(&self) -> Memory {
        Memory {
            last_sample_at: self.last_sample_at,
            last_net_down: self.last_net_down,
            last_net_up: self.last_net_up,
            last_metrics: sample_view(self.last_metrics),
        }
    }

    pub open spec fn well_formed(&self) -> bool {
        self.history.well_formed()
    }

    /// A monitor that has taken no sample yet; the rates of the first one count from
    /// `now` and from what the interfaces show.
    pub fn with_history_capacity(capacity: usize, networks: &Vec<(u64, u64)>, now: u64) -> (r:
        MonitorState)
        ensures
            r.well_formed(),
            r.history.capacity() == history::at_least_one(capacity),
            r.history.points() == Seq::<HistoryPoint>::empty(),
            r.memory() == (Memory {
                last_sample_at: now,
                last_net_down: network_totals(networks@).0 as u64,
                last_net_up: network_totals(networks@).1 as u64,
                last_metrics: None,
            }),
            r.last_process_top_at is None,
            r.last_process_top is None,
    {
        let (net_down, net_up) = sum_network(networks);
        MonitorState {
            history: MetricsHistory::new(capacity),
            last_sample_at: now,
            last_net_down: net_down,
            last_net_up: net_up,
            last_metrics: None,
            last_process_top_at: None,
            last_process_top: None,
        }
    }

    pub fn set_history_capacity(&mut self, capacity: usize)
        ensures
            final(self).well_formed(),
            final(self).history.capacity() == history::at_least_one(capacity),
            final(self).history.points() == history::latest(
                old(self).history.points(),
                history::at_least_one(capacity) as nat,
            ),
            final(self).memory() == old(self).memory(),
            final(self).last_process_top_at == old(self).last_process_top_at,
            final(self).last_process_top == old(self).last_process_top,
    {
        self.history.set_capacity(capacity);
    }

    pub fn history_snapshot(&self) -> (r: Vec<HistoryPoint>)
        ensures
            r@ == self.history.points(),
    {
        self.history.snapshot()
    }

    /// The last sample, if it was taken less than `min_interval` ago.
    pub fn cached_metrics(&self, now: u64, min_interval: u64) -> (r: Option<Metrics>)
        ensures
            r is Some <==> self.last_metrics is Some && min_interval > 0 && now
                - self.last_sample_at < min_interval,
            r is Some ==> r->0@ == self.last_metrics->0@,
            sample_view(r) == served(self.memory(), now, min_interval),
    {
        match &self.last_metrics {
            Some(m) => if now.saturating_sub(self.last_sample_at) < min_interval {
                Some(m.clone())
            } else {
                None
            },
            None => None,
        }
    }

    /// Takes a sample of what the system reports at `now`.
    pub fn sample_system_only(&mut self, readings: &SystemReadings, now: u64) -> (r: Metrics)
        requires
            disks_fit(readings.disks@),
        ensures
            r.cpu_percent == readings.cpu_percent,
            r.memory_used_bytes == readings.memory_used_bytes,
            r.memory_total_bytes == readings.memory_total_bytes,
            r.swap_used_bytes == readings.swap_used_bytes,
            r.swap_total_bytes == readings.swap_total_bytes,
            r.sampled_at_ms == readings.sampled_at_ms,
            r.memory_percent == (if r.memory_total_bytes == 0 {
                number::single_whole(0)
            } else {
                number::percent(r.memory_used_bytes as nat, r.memory_total_bytes as nat)
            }),
            r.disks@.len() == readings.disks@.len(),
            forall|i: int|
                0 <= i < readings.disks@.len() ==> {
                    let disk = #[trigger] r.disks@[i];
                    let reading = readings.disks@[i];
                    &&& disk.name == reading.name
                    &&& disk.mount_point == reading.mount_point
                    &&& disk.total_bytes == reading.total_bytes
                    &&& disk.available_bytes == reading.available_bytes
                    &&& disk.used_percent == (if disk.total_bytes == 0 {
                        number::single_whole(0)
                    } else {
                        number::percent(
                            (disk.total_bytes - disk.available_bytes) as nat,
                            disk.total_bytes as nat,
                        )
                    })
                },
            now - old(self).last_sample_at > 5_000_000_000 ==> r.net_down_bps == 0 && r.net_up_bps
                == 0,
            final(self).last_net_down <= old(self).last_net_down ==> r.net_down_bps == 0,
            final(self).last_net_up <= old(self).last_net_up ==> r.net_up_bps == 0,
            now - old(self).last_sample_at <= 5_000_000_000 && final(self).last_net_down
                > old(self).last_net_down ==> r.net_down_bps == number::rate(
                (final(self).last_net_down - old(self).last_net_down) as nat,
                if now > old(self).last_sample_at {
                    (now - old(self).last_sample_at) as nat
                } else {
                    0
                },
            ),
            now - old(self).last_sample_at <= 5_000_000_000 && final(self).last_net_up
                > old(self).last_net_up ==> r.net_up_bps == number::rate(
                (final(self).last_net_up - old(self).last_net_up) as nat,
                if now > old(self).last_sample_at {
                    (now - old(self).last_sample_at) as nat
                } else {
                    0
                },
            ),
            old(self).last_metrics is None ==> r.cpu_temp_celsius is None && r.gpu is None
                && r.fans@.len() == 0,
            old(self).last_metrics is Some ==> {
                let last = old(self).last_metrics->0;
                &&& r.cpu_temp_celsius == last.cpu_temp_celsius
                &&& r.gpu == last.gpu
                &&& r.fans@ == last.fans@
            },
            final(self).last_sample_at == now,
            final(self).last_net_down == network_totals(readings.networks@).0,
            final(self).last_net_up == network_totals(readings.networks@).1,
            final(self).last_metrics is Some,
            r@ == sample(old(self).memory(), *readings, now),
            final(self).memory() == after_sample(old(self).memory(), *readings, now),
            final(self).history == old(self).history,
            final(self).last_process_top_at == old(self).last_process_top_at,
            final(self).last_process_top == old(self).last_process_top,
    {
        let nanos = now.saturating_sub(self.last_sample_at);
        let (net_down, net_up) = sum_network(&readings.networks);
        let down_delta = net_down.saturating_sub(self.last_net_down);
        let up_delta = net_up.saturating_sub(self.last_net_up);
        let (cpu_temp_celsius, gpu, fans) = match &self.last_metrics {
            Some(m) => (m.cpu_temp_celsius, copy_gpu(&m.gpu), copy_fans(&m.fans)),
            None => (None, None, Vec::new()),
        };
        let metrics = Metrics {
            cpu_percent: readings.cpu_percent,
            memory_used_bytes: readings.memory_used_bytes,
            memory_total_bytes: readings.memory_total_bytes,
            memory_percent: share_of(readings.memory_used_bytes, readings.memory_total_bytes),
            swap_used_bytes: readings.swap_used_bytes,
            swap_total_bytes: readings.swap_total_bytes,
            net_down_bps: net_rate_of(down_delta, nanos),
            net_up_bps: net_rate_of(up_delta, nanos),
            disks: disk_stats(&readings.disks),
            cpu_temp_celsius,
            gpu,
            fans,
            sampled_at_ms: readings.sampled_at_ms,
        };
        assert(metrics@ == sample(old(self).memory(), *readings, now));
        proof {
            number::lemma_no_rate_of_nothing(nanos as nat);
            assert forall|i: int| 0 <= i < readings.disks@.len() implies #[trigger] metrics.disks@[i]
                == disk_stat(readings.disks@[i]) by {}
        }
        self.last_net_down = net_down;
        self.last_net_up = net_up;
        self.last_sample_at = now;
        self.last_metrics = Some(metrics.clone());
        metrics
    }

    /// Keeps a completed sample, unless another one has been taken since.
    pub fn complete_sample(&mut self, metrics: Metrics)
        requires
            old(self).well_formed(),
        ensures
            final(self).well_formed(),
            old(self).last_metrics is Some && old(self).last_metrics->0.sampled_at_ms
                == metrics.sampled_at_ms ==> final(self).last_metrics is Some
                && final(self).last_metrics->0@ == metrics@ && final(self).history.points().last()
                == history::point_of(metrics@),
            old(self).last_metrics is None || old(self).last_metrics->0.sampled_at_ms
                != metrics.sampled_at_ms ==> final(self).last_metrics == old(self).last_metrics
                && final(self).history.points() == old(self).history.points(),
            final(self).last_sample_at == old(self).last_sample_at,
            final(self).last_net_down == old(self).last_net_down,
            final(self).last_net_up == old(self).last_net_up,
            final(self).memory() == completed(old(self).memory(), metrics@),
            final(self).history.capacity() == old(self).history.capacity(),
            final(self).history.points() == completed_points(
                old(self).memory(),
                old(self).history.points(),
                old(self).history.capacity(),
                metrics@,
            ),
            final(self).last_process_top_at == old(self).last_process_top_at,
            final(self).last_process_top == old(self).last_process_top,
    {
        let current = match &self.last_metrics {
            Some(last) => last.sampled_at_ms == metrics.sampled_at_ms,
            None => false,
        };
        if current {
            self.history.push_from_metrics(&metrics);
            self.last_metrics = Some(metrics);
        }
    }

    /// Fills in what was read after a sample was taken, keeps it, and gives it back.
    pub fn finish_sample(&mut self, metrics: Metrics, temp: Option<Single>, extras: LhmExtras) -> (r:
        Metrics)
        requires
            old(self).well_formed(),
        ensures
            final(self).well_formed(),
            r.cpu_temp_celsius == temp,
            r.gpu == extras.gpu,
            r.fans@ == extras.fans@,
            r.cpu_percent == metrics.cpu_percent,
            r.memory_used_bytes == metrics.memory_used_bytes,
            r.memory_total_bytes == metrics.memory_total_bytes,
            r.memory_percent == metrics.memory_percent,
            r.swap_used_bytes == metrics.swap_used_bytes,
            r.swap_total_bytes == metrics.swap_total_bytes,
            r.net_down_bps == metrics.net_down_bps,
            r.net_up_bps == metrics.net_up_bps,
            r.disks@ == metrics.disks@,
            r.sampled_at_ms == metrics.sampled_at_ms,
            r@ == filled(metrics@, temp, extras.gpu, extras.fans@),
            final(self).memory() == completed(old(self).memory(), r@),
            final(self).history.capacity() == old(self).history.capacity(),
            final(self).history.points() == completed_points(
                old(self).memory(),
                old(self).history.points(),
                old(self).history.capacity(),
                r@,
            ),
            final(self).last_process_top_at == old(self).last_process_top_at,
            final(self).last_process_top == old(self).last_process_top,
    {
        let mut metrics = metrics;
        metrics.cpu_temp_celsius = temp;
        metrics.gpu = extras.gpu;
        metrics.fans = extras.fans;
        self.complete_sample(metrics.clone());
        metrics
    }
}

/// A sample is served again, as it was taken, until the interval is over, and not
/// after it.
pub proof fn law_sample_is_served_again(
    memory: Memory,
    readings: SystemReadings,
    now: u64,
    later: u64,
    min_interval: u64,
)
    requires
        now <= later,
    ensures
        served(after_sample(memory, readings, now), later, min_interval) == (if later - now
            < min_interval {
            Some(sample(memory, readings, now))
        } else {
            None
        }),
{
}

/// A sample that is completed after a newer one was taken changes nothing.
pub proof fn law_stale_sample_is_dropped(
    memory: Memory,
    newer: SystemReadings,
    now: u64,
    m: MetricsView,
    points: Seq<HistoryPoint>,
    capacity: usize,
)
    requires
        newer.sampled_at_ms != m.sampled_at_ms,
    ensures
        completed(after_sample(memory, newer, now), m) == after_sample(memory, newer, now),
        completed_points(after_sample(memory, newer, now), points, capacity, m) == points,
{
}

/// A sample that is completed in time is what is served, and its point is the last
/// one of the history.
pub proof fn law_current_sample_is_kept(
    memory: Memory,
    readings: SystemReadings,
    now: u64,
    temp: Option<Single>,
    gpu: Option<GpuMetrics>,
    fans: Seq<FanMetrics>,
    points: Seq<HistoryPoint>,
    capacity: usize,
)
    requires
        capacity >= 1,
    ensures
        ({
            let taken = after_sample(memory, readings, now);
            let m = filled(sample(memory, readings, now), temp, gpu, fans);
            &&& completed(taken, m).last_metrics == Some(m)
            &&& completed_points(taken, points, capacity, m).last() == history::point_of(m)
        }),
{
}

/// Over a span that is too long, and where a counter has started over, no rate is
/// shown.
pub proof fn law_no_rate_without_meaning(before: u64, now: int, nanos: nat)
    requires
        nanos > NET_DIFF_MAX_INTERVAL || now <= before,
    ensures
        net_rate(growth(before, now), nanos) == 0,
{
    if nanos <= NET_DIFF_MAX_INTERVAL {
        number::lemma_no_rate_of_nothing(nanos);
    }
}

/// What is in use of something is shown as 0 to 100 percent of it.
pub proof fn law_shares_are_percentages(used: int, total: int)
    requires
        0 <= used <= total <= u64::MAX,
    ensures
        share(used, total).between(0, 100),
{
    if total == 0 {
        number::lemma_small_whole(0);
        lemma_pow2_pos(149);
        assert(0 * pow2(149) == 0 && 0 <= 100 * pow2(149)) by (nonlinear_arith);
    } else {
        number::law_percent_is_at_most_all(used as nat, total as nat);
    }
}

/// A sample is seen as what it holds.
pub proof fn law_sample_is_seen_whole(m: Metrics)
    ensures
        m@.cpu_percent == m.cpu_percent,
        m@.memory_used_bytes == m.memory_used_bytes,
        m@.memory_total_bytes == m.memory_total_bytes,
        m@.memory_percent == m.memory_percent,
        m@.swap_used_bytes == m.swap_used_bytes,
        m@.swap_total_bytes == m.swap_total_bytes,
        m@.net_down_bps == m.net_down_bps,
        m@.net_up_bps == m.net_up_bps,
        m@.disks == m.disks@,
        m@.cpu_temp_celsius == m.cpu_temp_celsius,
        m@.gpu == m.gpu,
        m@.fans == m.fans@,
        m@.sampled_at_ms == m.sampled_at_ms,
{
}

/// What a monitor remembers is seen as what it holds.
pub proof fn law_memory_is_seen_whole(s: MonitorState)
    ensures
        s.memory().last_sample_at == s.last_sample_at,
        s.memory().last_net_down == s.last_net_down,
        s.memory().last_net_up == s.last_net_up,
        s.last_metrics is None <==> s.memory().last_metrics is None,
        s.last_metrics is Some ==> s.memory().last_metrics == Some(s.last_metrics->0@),
{
}

/// Without an interface nothing is received or sent, and one more adds what it has
/// received and sent, up to the largest number.
pub proof fn law_interfaces_add_up(networks: Seq<(u64, u64)>, one: (u64, u64))
    ensures
        network_totals(Seq::empty()) == (0int, 0int),
        network_totals(networks.push(one)).0 == (if network_totals(networks).0 + one.0 > u64::MAX {
            u64::MAX as int
        } else {
            network_totals(networks).0 + one.0
        }),
        network_totals(networks.push(one)).1 == (if network_totals(networks).1 + one.1 > u64::MAX {
            u64::MAX as int
        } else {
            network_totals(networks).1 + one.1
        }),
{
    assert(networks.push(one).drop_last() =~= networks);
}

/// The sample of the readings has their numbers, each in its own place.
pub proof fn law_sample_shows_the_readings(memory: Memory, readings: SystemReadings, now: u64)
    ensures
        ({
            let m = sample(memory, readings, now);
            &&& m.cpu_percent == readings.cpu_percent
            &&& m.memory_used_bytes == readings.memory_used_bytes
            &&& m.memory_total_bytes == readings.memory_total_bytes
            &&& m.swap_used_bytes == readings.swap_used_bytes
            &&& m.swap_total_bytes == readings.swap_total_bytes
            &&& m.sampled_at_ms == readings.sampled_at_ms
            &&& m.memory_total_bytes == 0 ==> m.memory_percent == number::single_whole(0)
            &&& m.memory_total_bytes > 0 ==> m.memory_percent == number::percent(
                m.memory_used_bytes as nat,
                m.memory_total_bytes as nat,
            )
        }),
{
}

/// A disk of which more is left than there is does not fit, unless its size is not known.
pub proof fn law_disks_that_fit(disks: Seq<DiskReading>)
    ensures
        !disks_fit(disks) <==> exists|i: int|
            0 <= i < disks.len() && 0 < (#[trigger] disks[i]).total_bytes
                < disks[i].available_bytes,
{
    if !disks_fit(disks) {
        let i = choose|i: int|
            0 <= i < disks.len() && !((#[trigger] disks[i]).total_bytes == 0
                || disks[i].available_bytes <= disks[i].total_bytes);
        assert(0 < disks[i].total_bytes < disks[i].available_bytes);
    }
}

/// A monitor that is well formed has a history that is.
pub proof fn law_well_formed_monitors(s: MonitorState)
    ensures
        s.well_formed() <==> s.history.well_formed(),
{
}

/// A completed sample that is still the last one taken adds its point after the others;
/// where there is no room for it the oldest goes. One that is not adds none.
pub proof fn law_completed_samples_in_the_history(
    memory: Memory,
    points: Seq<HistoryPoint>,
    capacity: usize,
    m: MetricsView,
    i: int,
)
    requires
        1 <= capacity,
        points.len() <= capacity,
    ensures
        ({
            let current = memory.last_metrics is Some && memory.last_metrics->0.sampled_at_ms
                == m.sampled_at_ms;
            let after = completed_points(memory, points, capacity, m);
            &&& !current ==> after == points
            &&& current ==> after.last() == history::point_of(m)
            &&& current && points.len() < capacity ==> after.len() == points.len() + 1 && (0 <= i
                < points.len() ==> after[i] == points[i])
            &&& current && points.len() == capacity ==> after.len() == capacity && (0 <= i
                < points.len() - 1 ==> after[i] == points[i + 1])
        }),
{
}

/// A sample is served for less than the interval after it was taken, and one that is
/// completed changes nothing else that is remembered.
pub proof fn law_what_is_remembered(memory: Memory, m: MetricsView, now: u64, min_interval: u64)
    ensures
        min_interval > 0 && now - memory.last_sample_at < min_interval ==> served(
            memory,
            now,
            min_interval,
        ) == memory.last_metrics,
        min_interval == 0 || now - memory.last_sample_at >= min_interval ==> served(
            memory,
            now,
            min_interval,
        ) is None,
        completed(memory, m).last_sample_at == memory.last_sample_at,
        completed(memory, m).last_net_down == memory.last_net_down,
        completed(memory, m).last_net_up == memory.last_net_up,
{
}

} // verus!
