//! What LibreHardwareMonitor reports: its sensor tree, the graphics card and
//! fans read from it, and when it may be asked.

use crate::gpu;
use crate::lhm_tree;
use crate::lhm_tree::{JsonValue, LhmNode};
use crate::number::Single;
use crate::temperature;
use crate::text;
use vstd::prelude::*;
use vstd::string::*;

verus! {

/// How many failures in a row stop the requests for a while.
pub const CIRCUIT_FAIL_THRESHOLD: u32 = 5;

/// How long the requests then stop, in nanoseconds.
pub const CIRCUIT_COOLDOWN_NANOS: u64 = 30_000_000_000;

/// Whether LibreHardwareMonitor is to be asked, and where. Both can change while
/// the monitor runs; the epoch counts the changes.
#[derive(Debug)]
pub struct LhmRuntimeConfig {
    pub enabled: bool,
    pub base_url: String,
    pub epoch: u64,
}

impl LhmRuntimeConfig {
    pub fn new(enabled: bool, base_url: String) -> (r: LhmRuntimeConfig)
        ensures
            r == (LhmRuntimeConfig { enabled, base_url, epoch: 0 }),
    {
        LhmRuntimeConfig { enabled, base_url, epoch: 0 }
    }

    pub fn is_enabled(&self) -> (r: bool)
        ensures
            r == self.enabled,
    {
        self.enabled
    }

    pub fn set_enabled(&mut self, enabled: bool)
        ensures
            *final(self) == (LhmRuntimeConfig {
                enabled,
                base_url: old(self).base_url,
                epoch: next_epoch(old(self).epoch),
            }),
    {
        self.enabled = enabled;
        self.epoch = self.epoch.wrapping_add(1);
    }

    pub fn base_url(&self) -> (r: String)
        ensures
            r == self.base_url,
    {
        self.base_url.clone()
    }

    pub fn set_base_url(&mut self, url: String)
        ensures
            *final(self) == (LhmRuntimeConfig {
                enabled: old(self).enabled,
                base_url: url,
                epoch: next_epoch(old(self).epoch),
            }),
    {
        self.base_url = url;
        self.epoch = self.epoch.wrapping_add(1);
    }

    pub fn epoch(&self) -> (r: u64)
        ensures
            r == self.epoch,
    {
        self.epoch
    }
}

/// The epoch after one more change; the count starts over at its end.
pub open spec fn next_epoch(epoch: u64) -> u64 {
    if epoch == u64::MAX {
        0
    } else {
        (epoch + 1) as u64
    }
}

/// A change gives another epoch.
pub proof fn law_a_change_is_seen(epoch: u64)
    ensures
        next_epoch(epoch) != epoch,
{
}

/// Where the last temperature came from.
#[derive(Clone, Copy, PartialEq, Eq, Structural, Debug)]
pub enum TempSourceKind {
    Unavailable,
    Lhm,
    Wmi,
    Sysinfo,
}

impl TempSourceKind {
    pub open spec fn name(self) -> Seq<char> {
        match self {
            TempSourceKind::Unavailable => "unavailable"@,
            TempSourceKind::Lhm => "lhm"@,
            TempSourceKind::Wmi => "wmi"@,
            TempSourceKind::Sysinfo => "sysinfo"@,
        }
    }

    pub open spec fn code(self) -> u8 {
        match self {
            TempSourceKind::Unavailable => 0,
            TempSourceKind::Lhm => 1,
            TempSourceKind::Wmi => 2,
            TempSourceKind::Sysinfo => 3,
        }
    }

    /// The source of the code; unavailable for any other number.
    pub open spec fn of_code(v: u8) -> TempSourceKind {
        if v == 1 {
            TempSourceKind::Lhm
        } else if v == 2 {
            TempSourceKind::Wmi
        } else if v == 3 {
            TempSourceKind::Sysinfo
        } else {
            TempSourceKind::Unavailable
        }
    }

    pub fn as_str(self) -> (r: &'static str)
        ensures
            r@ == self.name(),
    {
        match self {
            TempSourceKind::Unavailable => "unavailable",
            TempSourceKind::Lhm => "lhm",
            TempSourceKind::Wmi => "wmi",
            TempSourceKind::Sysinfo => "sysinfo",
        }
    }

    pub fn to_u8(self) -> (r: u8)
        ensures
            r == self.code(),
    {
        match self {
            TempSourceKind::Unavailable => 0,
            TempSourceKind::Lhm => 1,
            TempSourceKind::Wmi => 2,
            TempSourceKind::Sysinfo => 3,
        }
    }

    pub fn from_u8(v: u8) -> (r: TempSourceKind)
        ensures
            r == TempSourceKind::of_code(v),
    {
        match v {
            1 => TempSourceKind::Lhm,
            2 => TempSourceKind::Wmi,
            3 => TempSourceKind::Sysinfo,
            _ => TempSourceKind::Unavailable,
        }
    }
}

/// A source is found again by its code.
pub proof fn law_codes_are_distinct(kind: TempSourceKind)
    ensures
        TempSourceKind::of_code(kind.code()) == kind,
{
}

/// Remembers where the last temperature came from.
#[derive(Debug)]
pub struct TempSourceTracker {
    last_source: u8,
}

impl TempSourceTracker {
    /// Where the last temperature came from.
    pub closed spec fn source(&self) -> TempSourceKind {
        TempSourceKind::of_code(self.last_source)
    }

    pub fn new() -> (r: TempSourceTracker)
        ensures
            r.source() == TempSourceKind::Unavailable,
    {
        TempSourceTracker { last_source: TempSourceKind::Unavailable.to_u8() }
    }

    pub fn set(&mut self, kind: TempSourceKind)
        ensures
            final(self).source() == kind,
    {
        self.last_source = kind.to_u8();
    }

    pub fn get(&self) -> (r: TempSourceKind)
        ensures
            r == self.source(),
    {
        TempSourceKind::from_u8(self.last_source)
    }
}

/// One graphics card.
#[derive(Debug)]
pub struct GpuMetrics {
    pub name: String,
    pub load_percent: Option<Single>,
    pub memory_used_bytes: Option<u64>,
    pub memory_total_bytes: Option<u64>,
    pub memory_percent: Option<Single>,
    pub temp_celsius: Option<Single>,
}

impl Clone for GpuMetrics {
    fn clone(&self) -> (r: GpuMetrics)
        ensures
            r == *self,
    {
        GpuMetrics {
            name: self.name.clone(),
            load_percent: self.load_percent,
            memory_used_bytes: self.memory_used_bytes,
            memory_total_bytes: self.memory_total_bytes,
            memory_percent: self.memory_percent,
            temp_celsius: self.temp_celsius,
        }
    }
}

/// One fan. The kind is `cpu`, `pump`, `gpu`, `chassis` or another word.
#[derive(Debug)]
pub struct FanMetrics {
    pub name: String,
    pub rpm: u32,
    pub kind: String,
}

impl Clone for FanMetrics {
    fn clone(&self) -> (r: FanMetrics)
        ensures
            r == *self,
    {
        FanMetrics { name: self.name.clone(), rpm: self.rpm, kind: self.kind.clone() }
    }
}

/// What one report holds besides the processor's temperature.
#[derive(Debug)]
pub struct LhmExtras {
    pub gpu: Option<GpuMetrics>,
    pub fans: Vec<FanMetrics>,
}

/// What is read from one report.
#[derive(Debug)]
pub struct LhmParseResult {
    pub cpu_temp: Option<Single>,
    pub gpu: Option<GpuMetrics>,
}

/// The processor's temperature in a report.
pub open spec fn report_cpu_temp(root: JsonValue) -> Option<Single> {
    match lhm_tree::node_of(root) {
        Some(node) => temperature::cpu_temp(lhm_tree::node_readings(node)),
        None => temperature::cpu_temp(lhm_tree::loose_readings(root)),
    }
}

/// The main graphics card in a report. One that is not a tree of nodes throughout
/// has none.
pub open spec fn report_gpu(root: JsonValue) -> Option<gpu::GpuView> {
    match lhm_tree::node_of(root) {
        Some(node) => gpu::primary(gpu::candidates(node)),
        None => None,
    }
}

/// Reads the processor's temperature and the main graphics card from a report.
pub fn extract_lhm_metrics(root: &JsonValue) -> (r: LhmParseResult)
    ensures
        r.cpu_temp == report_cpu_temp(*root),
        match r.gpu {
            Some(g) => report_gpu(*root) == Some(g@),
            None => report_gpu(*root) is None,
        },
{
    let mut readings: Vec<(String, Single)> = Vec::new();
    assert(temperature::named(readings@) =~= Seq::<(Seq<char>, Single)>::empty());
    match LhmNode::from_json(root) {
        Some(node) => {
            lhm_tree::collect_temp_readings(&node, &mut readings);
            assert(temperature::named(readings@) =~= lhm_tree::node_readings(node@));
            let cpu_temp = temperature::pick_cpu_temp(&readings);
            let gpu = gpu::pick_primary_gpu(gpu::collect_gpu_candidates(&node));
            LhmParseResult { cpu_temp, gpu }
        },
        None => {
            lhm_tree::collect_temp_from_value(root, &mut readings);
            assert(temperature::named(readings@) =~= lhm_tree::loose_readings(*root));
            LhmParseResult { cpu_temp: temperature::pick_cpu_temp(&readings), gpu: None }
        },
    }
}

/// Whatever a report holds, a temperature that is read from it can be true.
pub proof fn law_report_temperature_is_plausible(root: JsonValue)
    ensures
        report_cpu_temp(root) matches Some(temp) ==> temperature::plausible(temp),
{
    match lhm_tree::node_of(root) {
        Some(node) => {
            lhm_tree::law_node_readings_are_plausible(node);
            temperature::law_picked_temperature_is_plausible(lhm_tree::node_readings(node));
        },
        None => {
            lhm_tree::law_loose_readings_are_plausible(root);
            temperature::law_picked_temperature_is_plausible(lhm_tree::loose_readings(root));
        },
    }
}

/// `s` without the given character at its end, however often it stands there.
pub open spec fn without_trailing(s: Seq<char>, c: char) -> Seq<char>
    decreases s.len(),
{
    if s.len() > 0 && s.last() == c {
        without_trailing(s.drop_last(), c)
    } else {
        s
    }
}

/// Where the report of the server at `base` is found.
pub open spec fn report_url(base: Seq<char>) -> Seq<char> {
    without_trailing(base, '/') + "/data.json"@
}

/// When LibreHardwareMonitor may be asked: after too many failures in a row it is
/// left alone for a while. Times are nanoseconds of one clock.
#[derive(Clone, Copy, PartialEq, Eq, Structural, Debug)]
pub struct LibreHardwareMonitorProvider {
    pub consecutive_failures: u32,
    pub circuit_open_until: Option<u128>,
    pub seen_epoch: u64,
}

impl LibreHardwareMonitorProvider {
    /// Whether no request may be made at `now`.
    pub open spec fn blocked(self, now: u64) -> bool {
        match self.circuit_open_until {
            Some(until) => now < until,
            None => false,
        }
    }

    /// A change of the settings makes the past failures forgotten.
    pub open spec fn synced(self, epoch: u64) -> LibreHardwareMonitorProvider {
        if epoch == self.seen_epoch {
            self
        } else {
            LibreHardwareMonitorProvider {
                consecutive_failures: 0,
                circuit_open_until: None,
                seen_epoch: epoch,
            }
        }
    }

    /// One more failure, at `now`.
    pub open spec fn failed(self, now: u64) -> LibreHardwareMonitorProvider {
        if self.consecutive_failures + 1 >= CIRCUIT_FAIL_THRESHOLD {
            LibreHardwareMonitorProvider {
                consecutive_failures: 0,
                circuit_open_until: Some((now + CIRCUIT_COOLDOWN_NANOS) as u128),
                seen_epoch: self.seen_epoch,
            }
        } else {
            LibreHardwareMonitorProvider {
                consecutive_failures: (self.consecutive_failures + 1) as u32,
                ..self
            }
        }
    }

    pub open spec fn succeeded(self) -> LibreHardwareMonitorProvider {
        LibreHardwareMonitorProvider {
            consecutive_failures: 0,
            circuit_open_until: None,
            seen_epoch: self.seen_epoch,
        }
    }

    pub fn new(runtime: &LhmRuntimeConfig) -> (r: LibreHardwareMonitorProvider)
        ensures
            r == (LibreHardwareMonitorProvider {
                consecutive_failures: 0,
                circuit_open_until: None,
                seen_epoch: runtime.epoch,
            }),
    {
        LibreHardwareMonitorProvider {
            consecutive_failures: 0,
            circuit_open_until: None,
            seen_epoch: runtime.epoch(),
        }
    }

    pub fn data_url(base: &str) -> (r: String)
        ensures
            r@ == report_url(base@),
    {
        let v = text::chars_of(base);
        let mut n: usize = v.len();
        assert(v@.take(n as int) =~= v@);
        while n > 0 && v[n - 1] == '/'
            invariant
                n <= v@.len(),
                without_trailing(v@, '/') == without_trailing(v@.take(n as int), '/'),
            decreases n,
        {
            assert(v@.take(n as int).drop_last() =~= v@.take(n - 1));
            n = n - 1;
        }
        let kept = text::part(&v, 0, n);
        assert(kept@ =~= v@.take(n as int));
        text::pair(text::string_of(&kept).as_str(), "/data.json")
    }

    pub fn sync_epoch(&mut self, runtime: &LhmRuntimeConfig)
        ensures
            *final(self) == old(self).synced(runtime.epoch),
    {
        let epoch = runtime.epoch();
        if epoch != self.seen_epoch {
            self.seen_epoch = epoch;
            self.consecutive_failures = 0;
            self.circuit_open_until = None;
        }
    }

    pub fn record_failure(&mut self, now: u64)
        ensures
            *final(self) == old(self).failed(now),
    {
        self.consecutive_failures = self.consecutive_failures.saturating_add(1);
        if self.consecutive_failures >= CIRCUIT_FAIL_THRESHOLD {
            self.circuit_open_until = Some(now as u128 + CIRCUIT_COOLDOWN_NANOS as u128);
            self.consecutive_failures = 0;
        }
    }

    pub fn record_success(&mut self)
        ensures
            *final(self) == old(self).succeeded(),
    {
        self.consecutive_failures = 0;
        self.circuit_open_until = None;
    }

    pub fn circuit_blocked(&self, now: u64) -> (r: bool)
        ensures
            r == self.blocked(now),
    {
        match self.circuit_open_until {
            Some(until) => (now as u128) < until,
            None => false,
        }
    }

    /// Starts a reading at `now`: the address to ask, if one is to be asked at all.
    /// Where none is, the graphics card last seen is forgotten.
    pub fn begin_reading(
        &mut self,
        runtime: &LhmRuntimeConfig,
        now: u64,
        gpu_cache: &mut Option<GpuMetrics>,
    ) -> (r: Option<String>)
        ensures
            ({
                let synced = old(self).synced(runtime.epoch);
                if !runtime.enabled || synced.blocked(now) {
                    &&& r is None
                    &&& *final(self) == synced
                    &&& *final(gpu_cache) is None
                } else {
                    &&& r is Some
                    &&& r->0@ == report_url(runtime.base_url@)
                    &&& *final(self) == (LibreHardwareMonitorProvider {
                        circuit_open_until: None,
                        ..synced
                    })
                    &&& *final(gpu_cache) == *old(gpu_cache)
                }
            }),
    {
        self.sync_epoch(runtime);
        if !runtime.is_enabled() || self.circuit_blocked(now) {
            *gpu_cache = None;
            return None;
        }
        self.circuit_open_until = None;
        Some(LibreHardwareMonitorProvider::data_url(runtime.base_url().as_str()))
    }

    /// Ends a reading at `now` with what the report held, or with nothing where it
    /// could not be had: the processor's temperature.
    pub fn read_cpu_temp_celsius(
        &mut self,
        parsed: Option<LhmParseResult>,
        now: u64,
        gpu_cache: &mut Option<GpuMetrics>,
    ) -> (r: Option<Single>)
        ensures
            match parsed {
                Some(p) => {
                    &&& r == p.cpu_temp
                    &&& *final(gpu_cache) == p.gpu
                    &&& *final(self) == old(self).succeeded()
                },
                None => {
                    &&& r is None
                    &&& *final(gpu_cache) is None
                    &&& *final(self) == old(self).failed(now)
                },
            },
    {
        match parsed {
            Some(p) => {
                self.record_success();
                *gpu_cache = p.gpu;
                p.cpu_temp
            },
            None => {
                self.record_failure(now);
                *gpu_cache = None;
                None
            },
        }
    }
}

/// The state after failures at the given times, one after another.
pub open spec fn after_failures(
    p: LibreHardwareMonitorProvider,
    times: Seq<u64>,
) -> LibreHardwareMonitorProvider
    decreases times.len(),
{
    if times.len() == 0 {
        p
    } else {
        after_failures(p, times.drop_last()).failed(times.last())
    }
}

/// From a state without failures, fewer than five failures in a row never stop the
/// requests.
pub proof fn law_few_failures_are_tolerated(
    p: LibreHardwareMonitorProvider,
    times: Seq<u64>,
    now: u64,
)
    requires
        p.consecutive_failures == 0,
        p.circuit_open_until is None,
        times.len() < CIRCUIT_FAIL_THRESHOLD,
    ensures
        !after_failures(p, times).blocked(now),
        after_failures(p, times).consecutive_failures == times.len(),
        after_failures(p, times).circuit_open_until is None,
    decreases times.len(),
{
    if times.len() > 0 {
        law_few_failures_are_tolerated(p, times.drop_last(), now);
    }
}

/// The fifth failure in a row stops the requests for thirty seconds from it, and no
/// longer.
pub proof fn law_fifth_failure_stops_requests(
    p: LibreHardwareMonitorProvider,
    times: Seq<u64>,
    now: u64,
)
    requires
        p.consecutive_failures == 0,
        p.circuit_open_until is None,
        times.len() == CIRCUIT_FAIL_THRESHOLD,
    ensures
        after_failures(p, times).blocked(now) <==> now < times.last() + CIRCUIT_COOLDOWN_NANOS,
        after_failures(p, times).consecutive_failures == 0,
{
    law_few_failures_are_tolerated(p, times.drop_last(), now);
}

/// A change of the settings lets the next request through at once.
pub proof fn law_change_lets_requests_through(
    p: LibreHardwareMonitorProvider,
    epoch: u64,
    now: u64,
)
    requires
        epoch != p.seen_epoch,
    ensures
        !p.synced(epoch).blocked(now),
        p.synced(epoch).consecutive_failures == 0,
{
}

/// A success makes the failures before it forgotten.
pub proof fn law_success_forgets_failures(p: LibreHardwareMonitorProvider, now: u64)
    ensures
        !p.succeeded().blocked(now),
        p.succeeded().consecutive_failures == 0,
{
}

/// One more change is one more in the count, which starts over after its largest number.
pub proof fn law_changes_are_counted(epoch: u64)
    ensures
        epoch < u64::MAX ==> next_epoch(epoch) == epoch + 1,
        epoch == u64::MAX ==> next_epoch(epoch) == 0,
{
}

/// Each source has its name and its number.
pub proof fn law_names_of_sources(v: u8)
    ensures
        TempSourceKind::Unavailable.name() == "unavailable"@,
        TempSourceKind::Lhm.name() == "lhm"@,
        TempSourceKind::Wmi.name() == "wmi"@,
        TempSourceKind::Sysinfo.name() == "sysinfo"@,
        TempSourceKind::of_code(v) == TempSourceKind::Lhm <==> v == 1,
        TempSourceKind::of_code(v) == TempSourceKind::Wmi <==> v == 2,
        TempSourceKind::of_code(v) == TempSourceKind::Sysinfo <==> v == 3,
        TempSourceKind::Unavailable.code() == 0,
        TempSourceKind::Lhm.code() == 1,
        TempSourceKind::Wmi.code() == 2,
        TempSourceKind::Sysinfo.code() == 3,
{
}

/// A report that is a tree of nodes throughout gives the temperature among the readings
/// of its nodes, and the main one of its graphics cards; any other gives the temperature
/// among the readings found anywhere in it, and no card.
pub proof fn law_reports(root: JsonValue)
    ensures
        lhm_tree::node_of(root) is Some ==> {
            let node = lhm_tree::node_of(root)->0;
            &&& report_cpu_temp(root) == temperature::cpu_temp(lhm_tree::node_readings(node))
            &&& report_gpu(root) == gpu::primary(gpu::candidates(node))
        },
        lhm_tree::node_of(root) is None ==> {
            &&& report_cpu_temp(root) == temperature::cpu_temp(lhm_tree::loose_readings(root))
            &&& report_gpu(root) is None
        },
{
}

/// The report is found at `data.json` below the address, whatever slashes that ends in.
pub proof fn law_where_the_report_is(base: Seq<char>, slashes: Seq<char>)
    requires
        base.len() > 0 ==> base.last() != '/',
        forall|i: int| 0 <= i < slashes.len() ==> slashes[i] == '/',
    ensures
        report_url(base + slashes) == base + "/data.json"@,
    decreases slashes.len(),
{
    if slashes.len() > 0 {
        let less = slashes.drop_last();
        assert((base + slashes).last() == slashes.last());
        assert((base + slashes).drop_last() =~= base + less);
        law_where_the_report_is(base, less);
    } else {
        assert(base + slashes =~= base);
    }
}

/// What a failure does: the first four in a row are counted and change nothing else; the
/// fifth stops the requests until thirty seconds have passed, and the count starts over.
pub proof fn law_failures_are_counted(p: LibreHardwareMonitorProvider, at: u64, now: u64)
    ensures
        p.failed(at).seen_epoch == p.seen_epoch,
        p.consecutive_failures < 4 ==> p.failed(at).consecutive_failures == p.consecutive_failures
            + 1 && p.failed(at).circuit_open_until == p.circuit_open_until,
        p.consecutive_failures >= 4 ==> p.failed(at).consecutive_failures == 0 && (p.failed(
            at,
        ).blocked(now) <==> now - at < 30_000_000_000),
{
}

/// Requests are stopped until the time that was set, and not without one.
pub proof fn law_requests_are_stopped(p: LibreHardwareMonitorProvider, now: u64)
    ensures
        p.circuit_open_until is None ==> !p.blocked(now),
        p.circuit_open_until is Some ==> (p.blocked(now) <==> now < p.circuit_open_until->0),
{
}

/// The same settings leave the count of failures as it is; a success and other settings
/// clear it.
pub proof fn law_what_clears_failures(p: LibreHardwareMonitorProvider, epoch: u64)
    ensures
        epoch == p.seen_epoch ==> p.synced(epoch) == p,
        p.synced(epoch).seen_epoch == epoch,
        epoch != p.seen_epoch ==> p.synced(epoch).consecutive_failures == 0 && p.synced(
            epoch,
        ).circuit_open_until is None,
        p.succeeded().consecutive_failures == 0,
        p.succeeded().circuit_open_until is None,
        p.succeeded().seen_epoch == p.seen_epoch,
{
}

} // verus!
