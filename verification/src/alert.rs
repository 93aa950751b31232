//! Alerts on a sample that reaches a threshold, and how often each kind of alert
//! may be announced.

use crate::monitor::{DiskStat, Metrics, MetricsView};
use crate::number;
use crate::number::Single;
use crate::text;
use vstd::arithmetic::power2::*;
use vstd::prelude::*;
use vstd::string::*;

verus! {

const DEFAULT_COOLDOWN_SECS: u64 = 60;

/// The share of a disk in use, in percent, that is an alert unless set otherwise.
pub fn default_disk_percent() -> (r: Single)
    ensures
        r == number::single_whole(90),
{
    Single::whole(90)
}

/// What a kind of alert is about.
#[derive(Clone, Copy, PartialEq, Eq, Structural, Debug)]
pub enum AlertKind {
    Cpu,
    Memory,
    Temperature,
    Disk,
}

/// The values at which an alert sets in.
#[derive(Clone, Copy, PartialEq, Eq, Structural, Debug)]
pub struct AlertThresholds {
    /// Processor load in percent.
    pub cpu_percent: Single,
    /// Memory in use in percent.
    pub memory_percent: Single,
    /// Processor temperature in degrees Celsius; not looked at without a reading.
    pub cpu_temp_celsius: Single,
    /// Disk space in use in percent; one disk is enough.
    pub disk_percent: Single,
    /// How many seconds a kind of alert stays quiet after it was announced.
    pub cooldown_secs: u64,
}

impl Default for AlertThresholds {
    fn default() -> (r: AlertThresholds)
        ensures
            r == default_thresholds(),
    {
        AlertThresholds {
            cpu_percent: Single::whole(90),
            memory_percent: Single::whole(90),
            cpu_temp_celsius: Single::whole(85),
            disk_percent: default_disk_percent(),
            cooldown_secs: DEFAULT_COOLDOWN_SECS,
        }
    }
}

pub open spec fn default_thresholds() -> AlertThresholds {
    AlertThresholds {
        cpu_percent: number::single_whole(90),
        memory_percent: number::single_whole(90),
        cpu_temp_celsius: number::single_whole(85),
        disk_percent: number::single_whole(90),
        cooldown_secs: 60,
    }
}

impl AlertThresholds {
    /// What is wrong with the thresholds, if anything is.
    pub open spec fn fault(self) -> Option<Seq<char>> {
        if !self.cpu_percent.between(1, 100) {
            Some("CPU 阈值须在 1–100"@)
        } else if !self.memory_percent.between(1, 100) {
            Some("内存阈值须在 1–100"@)
        } else if !self.cpu_temp_celsius.between(40, 120) {
            Some("温度阈值须在 40–120"@)
        } else if !self.disk_percent.between(1, 100) {
            Some("磁盘阈值须在 1–100"@)
        } else if !(5 <= self.cooldown_secs <= 3600) {
            Some("冷却秒数须在 5–3600"@)
        } else {
            None
        }
    }

    /// Checks the range of each threshold and names the first that is out of it.
    pub fn validate(&self) -> (r: Result<(), String>)
        ensures
            r is Ok <==> self.fault() is None,
            r matches Err(e) ==> self.fault() == Some(e@),
    {
        if !self.cpu_percent.is_between(1, 100) {
            return Err("CPU 阈值须在 1–100".to_string());
        }
        if !self.memory_percent.is_between(1, 100) {
            return Err("内存阈值须在 1–100".to_string());
        }
        if !self.cpu_temp_celsius.is_between(40, 120) {
            return Err("温度阈值须在 40–120".to_string());
        }
        if !self.disk_percent.is_between(1, 100) {
            return Err("磁盘阈值须在 1–100".to_string());
        }
        if !(5 <= self.cooldown_secs && self.cooldown_secs <= 3600) {
            return Err("冷却秒数须在 5–3600".to_string());
        }
        Ok(())
    }
}

/// The default thresholds are valid.
pub proof fn law_default_thresholds_are_valid()
    ensures
        default_thresholds().fault() is None,
{
    number::lemma_small_whole(90);
    number::lemma_small_whole(85);
    lemma_pow2_pos(149);
    let p = pow2(149) as int;
    assert(1 * p <= 90 * p <= 100 * p && 40 * p <= 85 * p <= 120 * p) by (nonlinear_arith)
        requires
            p > 0,
    ;
}

/// Which alerts a sample raises.
#[derive(Debug)]
pub struct AlertStatus {
    pub cpu: bool,
    pub memory: bool,
    pub temperature: bool,
    pub disk: bool,
    pub active: bool,
    pub messages: Vec<String>,
    pub thresholds: AlertThresholds,
}

impl AlertStatus {
    /// The text of the tray icon.
    pub open spec fn tooltip(self) -> Seq<char> {
        if self.active {
            "⚠ 告警："@ + text::join(text::views(self.messages@), " · "@)
        } else {
            "系统监测"@
        }
    }

    pub fn tooltip_text(&self) -> (r: String)
        ensures
            r@ == self.tooltip(),
    {
        if !self.active {
            return "系统监测".to_string();
        }
        text::pair("⚠ 告警：", text::joined(&self.messages, " · ").as_str())
    }
}

/// When each kind of alert was last announced, in nanoseconds of a clock that
/// never goes back.
#[derive(Clone, Copy, PartialEq, Eq, Structural, Debug)]
pub struct LastFired {
    pub cpu: Option<u64>,
    pub memory: Option<u64>,
    pub temperature: Option<u64>,
    pub disk: Option<u64>,
}

impl LastFired {
    pub open spec fn of(self, kind: AlertKind) -> Option<u64> {
        match kind {
            AlertKind::Cpu => self.cpu,
            AlertKind::Memory => self.memory,
            AlertKind::Temperature => self.temperature,
            AlertKind::Disk => self.disk,
        }
    }

    /// The same times, but for one kind.
    pub open spec fn with(self, kind: AlertKind, at: u64) -> LastFired {
        match kind {
            AlertKind::Cpu => LastFired { cpu: Some(at), ..self },
            AlertKind::Memory => LastFired { memory: Some(at), ..self },
            AlertKind::Temperature => LastFired { temperature: Some(at), ..self },
            AlertKind::Disk => LastFired { disk: Some(at), ..self },
        }
    }
}

/// For how many seconds a kind of alert stays quiet: for the cooldown, and for one at
/// least.
pub open spec fn silence(cooldown_secs: u64) -> int {
    if cooldown_secs < 1 {
        1
    } else {
        cooldown_secs as int
    }
}

/// Whether an alert announced at `last` may be announced again at `now`.
pub open spec fn may_fire(last: Option<u64>, now: u64, cooldown_secs: u64) -> bool {
    match last {
        Some(at) => now - at >= silence(cooldown_secs) * 1_000_000_000,
        None => true,
    }
}

/// Raises alerts and remembers when each kind was announced.
pub struct AlertEngine {
    pub thresholds: AlertThresholds,
    pub last_fired: LastFired,
}

pub open spec fn cpu_alert(m: MetricsView, t: AlertThresholds) -> bool {
    t.cpu_percent.at_most(m.cpu_percent)
}

pub open spec fn memory_alert(m: MetricsView, t: AlertThresholds) -> bool {
    t.memory_percent.at_most(m.memory_percent)
}

pub open spec fn temperature_alert(m: MetricsView, t: AlertThresholds) -> bool {
    match m.cpu_temp_celsius {
        Some(temp) => t.cpu_temp_celsius.at_most(temp),
        None => false,
    }
}

/// A disk raises an alert unless its use is known to be below the threshold.
pub open spec fn disk_full(d: DiskStat, t: AlertThresholds) -> bool {
    !d.used_percent.below(t.disk_percent)
}

pub open spec fn disk_alert(m: MetricsView, t: AlertThresholds) -> bool {
    exists|i: int| 0 <= i < m.disks.len() && disk_full(#[trigger] m.disks[i], t)
}

/// How a disk is called: by its mount point, or by its name without one.
pub open spec fn disk_label(d: DiskStat) -> Seq<char> {
    if d.mount_point@.len() == 0 {
        d.name@
    } else {
        d.mount_point@
    }
}

/// One message for each disk that raises an alert, in order.
pub open spec fn disk_messages(disks: Seq<DiskStat>, t: AlertThresholds) -> Seq<Seq<char>>
    decreases disks.len(),
{
    if disks.len() == 0 {
        Seq::empty()
    } else {
        let rest = disk_messages(disks.drop_last(), t);
        let d = disks.last();
        if disk_full(d, t) {
            rest.push(disk_label(d) + " "@ + number::fixed(d.used_percent, false) + "%"@)
        } else {
            rest
        }
    }
}

/// One announcement for each disk that raises an alert, in order.
pub open spec fn disk_notices(disks: Seq<DiskStat>, t: AlertThresholds) -> Seq<Seq<char>>
    decreases disks.len(),
{
    if disks.len() == 0 {
        Seq::empty()
    } else {
        let rest = disk_notices(disks.drop_last(), t);
        let d = disks.last();
        if disk_full(d, t) {
            rest.push(
                "磁盘 "@ + disk_label(d) + " 占用过高："@ + number::fixed(d.used_percent, true)
                    + "%（阈值 "@ + number::fixed(t.disk_percent, false) + "%）"@,
            )
        } else {
            rest
        }
    }
}

/// The text alone where the condition holds.
pub open spec fn only_if(condition: bool, text: Seq<char>) -> Seq<Seq<char>> {
    if condition {
        seq![text]
    } else {
        Seq::empty()
    }
}

/// The messages of a sample.
pub open spec fn alert_messages(m: MetricsView, t: AlertThresholds) -> Seq<Seq<char>> {
    only_if(cpu_alert(m, t), "CPU "@ + number::fixed(m.cpu_percent, false) + "%"@) + only_if(
        memory_alert(m, t),
        "内存 "@ + number::fixed(m.memory_percent, false) + "%"@,
    ) + only_if(
        temperature_alert(m, t),
        "温度 "@ + number::fixed(m.cpu_temp_celsius->0, false) + "°C"@,
    ) + disk_messages(m.disks, t)
}

/// The announcement of a value that reached its threshold.
pub open spec fn notice(
    head: Seq<char>,
    value: Single,
    unit: Seq<char>,
    threshold: Single,
) -> Seq<char> {
    head + number::fixed(value, true) + unit + "（阈值 "@ + number::fixed(threshold, false) + unit
        + "）"@
}

/// Whether an alert of the kind is due: the sample raises it, and the kind has
/// been quiet for long enough.
pub open spec fn announces(
    m: MetricsView,
    t: AlertThresholds,
    fired: LastFired,
    now: u64,
    kind: AlertKind,
) -> bool {
    &&& raises(m, t, kind)
    &&& may_fire(fired.of(kind), now, t.cooldown_secs)
}

/// The announcements of a sample.
pub open spec fn alert_notices(
    m: MetricsView,
    t: AlertThresholds,
    fired: LastFired,
    now: u64,
) -> Seq<Seq<char>> {
    only_if(
        announces(m, t, fired, now, AlertKind::Cpu),
        notice("CPU 占用过高："@, m.cpu_percent, "%"@, t.cpu_percent),
    ) + only_if(
        announces(m, t, fired, now, AlertKind::Memory),
        notice("内存占用过高："@, m.memory_percent, "%"@, t.memory_percent),
    ) + only_if(
        announces(m, t, fired, now, AlertKind::Temperature),
        notice("CPU 温度过高："@, m.cpu_temp_celsius->0, "°C"@, t.cpu_temp_celsius),
    ) + if announces(m, t, fired, now, AlertKind::Disk) {
        disk_notices(m.disks, t)
    } else {
        Seq::empty()
    }
}

/// Whether a sample raises an alert of the kind.
pub open spec fn raises(m: MetricsView, t: AlertThresholds, kind: AlertKind) -> bool {
    match kind {
        AlertKind::Cpu => cpu_alert(m, t),
        AlertKind::Memory => memory_alert(m, t),
        AlertKind::Temperature => temperature_alert(m, t),
        AlertKind::Disk => disk_alert(m, t),
    }
}

/// When each kind was last announced, after a sample.
pub open spec fn fired_after(
    m: MetricsView,
    t: AlertThresholds,
    fired: LastFired,
    now: u64,
) -> LastFired {
    LastFired {
        cpu: if announces(m, t, fired, now, AlertKind::Cpu) {
            Some(now)
        } else {
            fired.cpu
        },
        memory: if announces(m, t, fired, now, AlertKind::Memory) {
            Some(now)
        } else {
            fired.memory
        },
        temperature: if announces(m, t, fired, now, AlertKind::Temperature) {
            Some(now)
        } else {
            fired.temperature
        },
        disk: if announces(m, t, fired, now, AlertKind::Disk) {
            Some(now)
        } else {
            fired.disk
        },
    }
}

/// A kind of alert stays quiet until its cooldown, of a second at least, is over: within
/// that time no sample announces it, and the time of its last announcement stays.
pub proof fn law_cooldown_keeps_quiet(
    m: MetricsView,
    t: AlertThresholds,
    fired: LastFired,
    at: u64,
    now: u64,
    kind: AlertKind,
)
    requires
        fired.of(kind) == Some(at),
        now - at < silence(t.cooldown_secs) * 1_000_000_000,
    ensures
        !announces(m, t, fired, now, kind),
        fired_after(m, t, fired, now).of(kind) == Some(at),
{
}

/// When each kind was last announced, after the first `n` samples, each with its time.
pub open spec fn fired_over(
    t: AlertThresholds,
    fired: LastFired,
    samples: Seq<(MetricsView, u64)>,
    n: int,
) -> LastFired
    decreases n,
{
    if n <= 0 {
        fired
    } else {
        fired_after(
            samples[n - 1].0,
            t,
            fired_over(t, fired, samples, n - 1),
            samples[n - 1].1,
        )
    }
}

/// Whether the sample at `i` announces an alert of the kind.
pub open spec fn announced(
    t: AlertThresholds,
    fired: LastFired,
    samples: Seq<(MetricsView, u64)>,
    i: int,
    kind: AlertKind,
) -> bool {
    announces(samples[i].0, t, fired_over(t, fired, samples, i), samples[i].1, kind)
}

proof fn lemma_announcement_is_remembered(
    t: AlertThresholds,
    fired: LastFired,
    samples: Seq<(MetricsView, u64)>,
    i: int,
    n: int,
    kind: AlertKind,
)
    requires
        0 <= i < n <= samples.len(),
        announced(t, fired, samples, i, kind),
        forall|a: int, b: int|
            0 <= a <= b < samples.len() ==> (#[trigger] samples[a]).1 <= (#[trigger] samples[b]).1,
    ensures
        fired_over(t, fired, samples, n).of(kind) matches Some(at) && samples[i].1 <= at,
    decreases n,
{
    if i < n - 1 {
        lemma_announcement_is_remembered(t, fired, samples, i, n - 1, kind);
        assert(samples[i].1 <= samples[n - 1].1);
    }
}

/// However many samples come, two announcements of one kind are at least the cooldown
/// apart.
pub proof fn law_announcements_are_apart(
    t: AlertThresholds,
    fired: LastFired,
    samples: Seq<(MetricsView, u64)>,
    i: int,
    j: int,
    kind: AlertKind,
)
    requires
        0 <= i < j < samples.len(),
        forall|a: int, b: int|
            0 <= a <= b < samples.len() ==> (#[trigger] samples[a]).1 <= (#[trigger] samples[b]).1,
        announced(t, fired, samples, i, kind),
        announced(t, fired, samples, j, kind),
    ensures
        samples[j].1 - samples[i].1 >= silence(t.cooldown_secs) * 1_000_000_000,
{
    lemma_announcement_is_remembered(t, fired, samples, i, j, kind);
}

/// A kind of alert that the sample raises is announced once its cooldown, of a
/// second at least, has passed since the last announcement.
pub proof fn law_cooldown_ends(
    m: MetricsView,
    t: AlertThresholds,
    fired: LastFired,
    now: u64,
    kind: AlertKind,
)
    requires
        raises(m, t, kind),
        fired.of(kind) matches Some(at) ==> {
            now - at >= silence(t.cooldown_secs) * 1_000_000_000
        },
    ensures
        announces(m, t, fired, now, kind),
        fired_after(m, t, fired, now).of(kind) == Some(now),
{
}

/// A kind of alert that the sample does not raise is not announced, and the time
/// of its last announcement stays.
pub proof fn law_no_alert_no_announcement(
    m: MetricsView,
    t: AlertThresholds,
    fired: LastFired,
    now: u64,
    kind: AlertKind,
)
    requires
        !raises(m, t, kind),
    ensures
        !announces(m, t, fired, now, kind),
        fired_after(m, t, fired, now).of(kind) == fired.of(kind),
{
}

proof fn lemma_disk_texts(disks: Seq<DiskStat>, t: AlertThresholds)
    ensures
        disk_messages(disks, t).len() == disk_notices(disks, t).len(),
        (disk_messages(disks, t).len() > 0) == exists|i: int|
            0 <= i < disks.len() && disk_full(#[trigger] disks[i], t),
    decreases disks.len(),
{
    if disks.len() > 0 {
        let rest = disks.drop_last();
        lemma_disk_texts(rest, t);
        if disk_full(disks.last(), t) {
            assert(disk_full(disks[disks.len() - 1], t));
        } else if exists|i: int| 0 <= i < disks.len() && disk_full(#[trigger] disks[i], t) {
            let i = choose|i: int| 0 <= i < disks.len() && disk_full(#[trigger] disks[i], t);
            assert(rest[i] == disks[i]);
        }
        if exists|i: int| 0 <= i < rest.len() && disk_full(#[trigger] rest[i], t) {
            let i = choose|i: int| 0 <= i < rest.len() && disk_full(#[trigger] rest[i], t);
            assert(disks[i] == rest[i]);
        }
    }
}

/// A sample has messages exactly when it raises an alert, and announcements only
/// then.
pub proof fn law_messages_follow_alerts(
    m: MetricsView,
    t: AlertThresholds,
    fired: LastFired,
    now: u64,
)
    ensures
        (alert_messages(m, t).len() > 0) == (exists|kind: AlertKind| raises(m, t, kind)),
        (alert_notices(m, t, fired, now).len() > 0) == (exists|kind: AlertKind|
            announces(m, t, fired, now, kind)),
{
    lemma_disk_texts(m.disks, t);
    assert(raises(m, t, AlertKind::Cpu) == cpu_alert(m, t));
    assert(raises(m, t, AlertKind::Memory) == memory_alert(m, t));
    assert(raises(m, t, AlertKind::Temperature) == temperature_alert(m, t));
    assert(raises(m, t, AlertKind::Disk) == disk_alert(m, t));
    assert(announces(m, t, fired, now, AlertKind::Cpu) ==> cpu_alert(m, t));
    assert(announces(m, t, fired, now, AlertKind::Memory) ==> memory_alert(m, t));
    assert(announces(m, t, fired, now, AlertKind::Temperature) ==> temperature_alert(m, t));
    assert(announces(m, t, fired, now, AlertKind::Disk) ==> disk_alert(m, t));
}

fn value_message(head: &str, value: Single, unit: &str) -> (r: String)
    ensures
        r@ == head@ + number::fixed(value, false) + unit@,
{
    let mut r = text::pair(head, value.fixed_text(false).as_str());
    r.append(unit);
    r
}

fn notice_text(head: &str, value: Single, unit: &str, threshold: Single) -> (r: String)
    ensures
        r@ == notice(head@, value, unit@, threshold),
{
    let mut r = text::pair(head, value.fixed_text(true).as_str());
    r.append(unit);
    r.append("（阈值 ");
    r.append(threshold.fixed_text(false).as_str());
    r.append(unit);
    r.append("）");
    r
}

fn disk_label_text(d: &DiskStat) -> (r: &str)
    ensures
        r@ == disk_label(*d),
{
    if d.mount_point.as_str().is_empty() {
        d.name.as_str()
    } else {
        d.mount_point.as_str()
    }
}

fn disk_message_text(d: &DiskStat) -> (r: String)
    ensures
        r@ == disk_label(*d) + " "@ + number::fixed(d.used_percent, false) + "%"@,
{
    let mut r = text::pair(disk_label_text(d), " ");
    r.append(d.used_percent.fixed_text(false).as_str());
    r.append("%");
    r
}

fn disk_notice_text(d: &DiskStat, threshold: Single) -> (r: String)
    ensures
        r@ == "磁盘 "@ + disk_label(*d) + " 占用过高："@ + number::fixed(d.used_percent, true)
            + "%（阈值 "@ + number::fixed(threshold, false) + "%）"@,
{
    let mut r = text::pair("磁盘 ", disk_label_text(d));
    r.append(" 占用过高：");
    r.append(d.used_percent.fixed_text(true).as_str());
    r.append("%（阈值 ");
    r.append(threshold.fixed_text(false).as_str());
    r.append("%）");
    r
}

fn disk_texts(disks: &Vec<DiskStat>, t: AlertThresholds) -> (r: (Vec<String>, Vec<String>))
    ensures
        text::views(r.0@) == disk_messages(disks@, t),
        text::views(r.1@) == disk_notices(disks@, t),
{
    let mut messages: Vec<String> = Vec::new();
    let mut notices: Vec<String> = Vec::new();
    let n = disks.len();
    assert(text::views(messages@) =~= Seq::<Seq<char>>::empty());
    for i in 0..n
        invariant
            n == disks@.len(),
            text::views(messages@) == disk_messages(disks@.take(i as int), t),
            text::views(notices@) == disk_notices(disks@.take(i as int), t),
    {
        let d = &disks[i];
        proof {
            assert(disks@.take(i + 1).drop_last() =~= disks@.take(i as int));
            assert(disks@.take(i + 1).last() == *d);
        }
        if !d.used_percent.is_below(t.disk_percent) {
            let ghost messages0 = messages@;
            let ghost notices0 = notices@;
            let message = disk_message_text(d);
            let notice = disk_notice_text(d, t.disk_percent);
            messages.push(message);
            notices.push(notice);
            assert(text::views(messages@) =~= text::views(messages0).push(message@));
            assert(text::views(notices@) =~= text::views(notices0).push(notice@));
        }
    }
    assert(disks@.take(n as int) =~= disks@);
    (messages, notices)
}

impl AlertEngine {
    pub fn with_thresholds(thresholds: AlertThresholds) -> (r: AlertEngine)
        ensures
            r.thresholds == thresholds,
            forall|kind: AlertKind| r.last_fired.of(kind) is None,
    {
        AlertEngine {
            thresholds,
            last_fired: LastFired { cpu: None, memory: None, temperature: None, disk: None },
        }
    }

    pub fn thresholds(&self) -> (r: AlertThresholds)
        ensures
            r == self.thresholds,
    {
        self.thresholds
    }

    pub fn set_thresholds(&mut self, thresholds: AlertThresholds)
        ensures
            final(self).thresholds == thresholds,
            final(self).last_fired == old(self).last_fired,
    {
        self.thresholds = thresholds;
    }

    /// The alerts of a sample, and the announcements that are due at `now`.
    pub fn evaluate(&mut self, metrics: &Metrics, now: u64) -> (r: (AlertStatus, Vec<String>))
        ensures
            r.0.cpu == cpu_alert(metrics@, old(self).thresholds),
            r.0.memory == memory_alert(metrics@, old(self).thresholds),
            r.0.temperature == temperature_alert(metrics@, old(self).thresholds),
            r.0.disk == disk_alert(metrics@, old(self).thresholds),
            r.0.active == (r.0.cpu || r.0.memory || r.0.temperature || r.0.disk),
            r.0.cpu == old(self).thresholds.cpu_percent.at_most(metrics.cpu_percent),
            r.0.memory == old(self).thresholds.memory_percent.at_most(metrics.memory_percent),
            r.0.temperature == (metrics.cpu_temp_celsius is Some
                && old(self).thresholds.cpu_temp_celsius.at_most(metrics.cpu_temp_celsius->0)),
            r.0.disk == exists|i: int|
                0 <= i < metrics.disks@.len() && !(#[trigger] metrics.disks@[i]).used_percent.below(
                    old(self).thresholds.disk_percent,
                ),
            final(self).last_fired.cpu == (if r.0.cpu && (
            old(self).last_fired.cpu is None || (now - old(self).last_fired.cpu->0 >= 1_000_000_000 && now
                - old(self).last_fired.cpu->0 >= old(self).thresholds.cooldown_secs
                * 1_000_000_000)) {
                Some(now)
            } else {
                old(self).last_fired.cpu
            }),
            final(self).last_fired.memory == (if r.0.memory && (
            old(self).last_fired.memory is None || (now - old(self).last_fired.memory->0 >= 1_000_000_000 && now
                - old(self).last_fired.memory->0 >= old(self).thresholds.cooldown_secs
                * 1_000_000_000)) {
                Some(now)
            } else {
                old(self).last_fired.memory
            }),
            final(self).last_fired.temperature == (if r.0.temperature && (
            old(self).last_fired.temperature is None || (now - old(self).last_fired.temperature->0 >= 1_000_000_000 && now
                - old(self).last_fired.temperature->0 >= old(self).thresholds.cooldown_secs
                * 1_000_000_000)) {
                Some(now)
            } else {
                old(self).last_fired.temperature
            }),
            final(self).last_fired.disk == (if r.0.disk && (
            old(self).last_fired.disk is None || (now - old(self).last_fired.disk->0 >= 1_000_000_000 && now
                - old(self).last_fired.disk->0 >= old(self).thresholds.cooldown_secs
                * 1_000_000_000)) {
                Some(now)
            } else {
                old(self).last_fired.disk
            }),
            text::views(r.0.messages@) == alert_messages(metrics@, old(self).thresholds),
            r.0.thresholds == old(self).thresholds,
            text::views(r.1@) == alert_notices(
                metrics@,
                old(self).thresholds,
                old(self).last_fired,
                now,
            ),
            final(self).thresholds == old(self).thresholds,
            final(self).last_fired == fired_after(
                metrics@,
                old(self).thresholds,
                old(self).last_fired,
                now,
            ),
    {
        let t = self.thresholds;
        let ghost fired = self.last_fired;
        let ghost m = metrics@;
        let mut messages: Vec<String> = Vec::new();
        let mut newly_fired: Vec<String> = Vec::new();
        assert(text::views(messages@) =~= Seq::<Seq<char>>::empty());
        assert(text::views(newly_fired@) =~= Seq::<Seq<char>>::empty());

        let cpu = t.cpu_percent.is_at_most(metrics.cpu_percent);
        if cpu {
            self.raise(
                AlertKind::Cpu,
                now,
                metrics.cpu_percent,
                t.cpu_percent,
                "CPU ",
                "CPU 占用过高：",
                "%",
                &mut messages,
                &mut newly_fired,
            );
        }
        let ghost messages1 = text::views(messages@);
        let ghost notices1 = text::views(newly_fired@);
        assert(messages1 =~= only_if(
            cpu_alert(m, t),
            "CPU "@ + number::fixed(m.cpu_percent, false) + "%"@,
        ));
        assert(notices1 =~= only_if(
            announces(m, t, fired, now, AlertKind::Cpu),
            notice("CPU 占用过高："@, m.cpu_percent, "%"@, t.cpu_percent),
        ));

        let memory = t.memory_percent.is_at_most(metrics.memory_percent);
        if memory {
            self.raise(
                AlertKind::Memory,
                now,
                metrics.memory_percent,
                t.memory_percent,
                "内存 ",
                "内存占用过高：",
                "%",
                &mut messages,
                &mut newly_fired,
            );
        }
        let ghost messages2 = text::views(messages@);
        let ghost notices2 = text::views(newly_fired@);
        assert(messages2 =~= messages1 + only_if(
            memory_alert(m, t),
            "内存 "@ + number::fixed(m.memory_percent, false) + "%"@,
        ));
        assert(notices2 =~= notices1 + only_if(
            announces(m, t, fired, now, AlertKind::Memory),
            notice("内存占用过高："@, m.memory_percent, "%"@, t.memory_percent),
        ));

        let temperature = match metrics.cpu_temp_celsius {
            Some(temp) => t.cpu_temp_celsius.is_at_most(temp),
            None => false,
        };
        if temperature {
            if let Some(temp) = metrics.cpu_temp_celsius {
                self.raise(
                    AlertKind::Temperature,
                    now,
                    temp,
                    t.cpu_temp_celsius,
                    "温度 ",
                    "CPU 温度过高：",
                    "°C",
                    &mut messages,
                    &mut newly_fired,
                );
            }
        }
        let ghost messages3 = text::views(messages@);
        let ghost notices3 = text::views(newly_fired@);
        assert(messages3 =~= messages2 + only_if(
            temperature_alert(m, t),
            "温度 "@ + number::fixed(m.cpu_temp_celsius->0, false) + "°C"@,
        ));
        assert(notices3 =~= notices2 + only_if(
            announces(m, t, fired, now, AlertKind::Temperature),
            notice("CPU 温度过高："@, m.cpu_temp_celsius->0, "°C"@, t.cpu_temp_celsius),
        ));

        let (mut disk_messages, mut disk_notify) = disk_texts(&metrics.disks, t);
        let disk = disk_messages.len() > 0;
        let ghost extra_messages = disk_messages@;
        let ghost extra_notices = disk_notify@;
        let ghost before_messages = messages@;
        let ghost before_notices = newly_fired@;
        proof {
            lemma_disk_texts(m.disks, t);
            assert(text::views(extra_messages).len() == extra_messages.len());
        }
        messages.append(&mut disk_messages);
        if disk && self.try_fire(AlertKind::Disk, now) {
            newly_fired.append(&mut disk_notify);
            assert(newly_fired@ == before_notices + extra_notices);
        }
        proof {
            assert(text::views(before_messages + extra_messages) =~= messages3 + text::views(
                extra_messages,
            ));
            assert(text::views(before_notices + extra_notices) =~= notices3 + text::views(
                extra_notices,
            ));
            assert(notices3 + Seq::<Seq<char>>::empty() =~= notices3);
        }

        let active = cpu || memory || temperature || disk;
        (
            AlertStatus { cpu, memory, temperature, disk, active, messages, thresholds: t },
            newly_fired,
        )
    }

    /// Adds the message of an alert, and its announcement where that is due.
    fn raise(
        &mut self,
        kind: AlertKind,
        now: u64,
        value: Single,
        threshold: Single,
        head: &str,
        notice_head: &str,
        unit: &str,
        messages: &mut Vec<String>,
        notices: &mut Vec<String>,
    )
        ensures
            text::views(final(messages)@) == text::views(old(messages)@).push(
                head@ + number::fixed(value, false) + unit@,
            ),
            ({
                let due = may_fire(
                    old(self).last_fired.of(kind),
                    now,
                    old(self).thresholds.cooldown_secs,
                );
                &&& text::views(final(notices)@) == (if due {
                    text::views(old(notices)@).push(notice(notice_head@, value, unit@, threshold))
                } else {
                    text::views(old(notices)@)
                })
                &&& final(self).last_fired == (if due {
                    old(self).last_fired.with(kind, now)
                } else {
                    old(self).last_fired
                })
            }),
            final(self).thresholds == old(self).thresholds,
    {
        let ghost messages0 = messages@;
        let ghost notices0 = notices@;
        let message = value_message(head, value, unit);
        messages.push(message);
        assert(text::views(messages@) =~= text::views(messages0).push(message@));
        if self.try_fire(kind, now) {
            let announcement = notice_text(notice_head, value, unit, threshold);
            notices.push(announcement);
            assert(text::views(notices@) =~= text::views(notices0).push(announcement@));
        }
    }

    /// Announces a kind of alert, unless it was announced too short a time ago.
    pub fn try_fire(&mut self, kind: AlertKind, now: u64) -> (r: bool)
        ensures
            r <==> {
                let last = match kind {
                    AlertKind::Cpu => old(self).last_fired.cpu,
                    AlertKind::Memory => old(self).last_fired.memory,
                    AlertKind::Temperature => old(self).last_fired.temperature,
                    AlertKind::Disk => old(self).last_fired.disk,
                };
                last is None || (now - last->0 >= 1_000_000_000 && now
                    - last->0 >= old(self).thresholds.cooldown_secs * 1_000_000_000)
            },
            r == may_fire(old(self).last_fired.of(kind), now, old(self).thresholds.cooldown_secs),
            final(self).thresholds == old(self).thresholds,
            final(self).last_fired == (if r {
                old(self).last_fired.with(kind, now)
            } else {
                old(self).last_fired
            }),
    {
        let secs = if self.thresholds.cooldown_secs < 1 {
            1
        } else {
            self.thresholds.cooldown_secs
        };
        let cooldown: u128 = secs as u128 * 1_000_000_000;
        let last = match kind {
            AlertKind::Cpu => self.last_fired.cpu,
            AlertKind::Memory => self.last_fired.memory,
            AlertKind::Temperature => self.last_fired.temperature,
            AlertKind::Disk => self.last_fired.disk,
        };
        if let Some(at) = last {
            if (now.saturating_sub(at) as u128) < cooldown {
                return false;
            }
        }
        match kind {
            AlertKind::Cpu => {
                self.last_fired.cpu = Some(now);
            },
            AlertKind::Memory => {
                self.last_fired.memory = Some(now);
            },
            AlertKind::Temperature => {
                self.last_fired.temperature = Some(now);
            },
            AlertKind::Disk => {
                self.last_fired.disk = Some(now);
            },
        }
        true
    }
}

/// When an alert is raised, of the numbers alone. The load, the memory and the
/// temperature raise one where they are at least their threshold, the temperature only
/// where there is one; a disk does unless it is below its threshold.
pub proof fn law_alerts_are_raised_at_thresholds(m: MetricsView, t: AlertThresholds)
    ensures
        raises(m, t, AlertKind::Cpu) <==> t.cpu_percent.at_most(m.cpu_percent),
        raises(m, t, AlertKind::Memory) <==> t.memory_percent.at_most(m.memory_percent),
        raises(m, t, AlertKind::Temperature) <==> m.cpu_temp_celsius is Some
            && t.cpu_temp_celsius.at_most(m.cpu_temp_celsius->0),
        raises(m, t, AlertKind::Disk) <==> exists|i: int|
            0 <= i < m.disks.len() && !(#[trigger] m.disks[i]).used_percent.below(t.disk_percent),
        cpu_alert(m, t) == raises(m, t, AlertKind::Cpu),
        memory_alert(m, t) == raises(m, t, AlertKind::Memory),
        temperature_alert(m, t) == raises(m, t, AlertKind::Temperature),
        disk_alert(m, t) == raises(m, t, AlertKind::Disk),
{
    if disk_alert(m, t) {
        let i = choose|i: int| 0 <= i < m.disks.len() && disk_full(#[trigger] m.disks[i], t);
        assert(!m.disks[i].used_percent.below(t.disk_percent));
    }
    if exists|i: int|
        0 <= i < m.disks.len() && !(#[trigger] m.disks[i]).used_percent.below(t.disk_percent) {
        let i = choose|i: int|
            0 <= i < m.disks.len() && !(#[trigger] m.disks[i]).used_percent.below(t.disk_percent);
        assert(disk_full(m.disks[i], t));
    }
}

/// When a raised alert is announced: where its kind never was, or where the cooldown in
/// seconds, and one second at least, has passed since. An announcement is remembered by
/// its time, and nothing else changes what is remembered.
pub proof fn law_announcements_in_time(
    m: MetricsView,
    t: AlertThresholds,
    fired: LastFired,
    now: u64,
    kind: AlertKind,
)
    ensures
        announces(m, t, fired, now, kind) <==> raises(m, t, kind) && (fired.of(kind) is None || (
        now - fired.of(kind)->0 >= t.cooldown_secs * 1_000_000_000 && now - fired.of(kind)->0
            >= 1_000_000_000)),
        fired_after(m, t, fired, now).of(kind) == (if announces(m, t, fired, now, kind) {
            Some(now)
        } else {
            fired.of(kind)
        }),
{
}

/// The times are those of their kinds.
pub proof fn law_last_fired(fired: LastFired, kind: AlertKind, other: AlertKind, at: u64)
    ensures
        fired.of(AlertKind::Cpu) == fired.cpu,
        fired.of(AlertKind::Memory) == fired.memory,
        fired.of(AlertKind::Temperature) == fired.temperature,
        fired.of(AlertKind::Disk) == fired.disk,
        fired.with(kind, at).of(other) == (if kind == other {
            Some(at)
        } else {
            fired.of(other)
        }),
{
}

proof fn lemma_disk_texts_are_filtered(disks: Seq<DiskStat>, t: AlertThresholds)
    ensures
        disk_messages(disks, t) == disks.filter(
            |d: DiskStat| !d.used_percent.below(t.disk_percent),
        ).map_values(
            |d: DiskStat|
                (if d.mount_point@.len() == 0 {
                    d.name@
                } else {
                    d.mount_point@
                }) + " "@ + number::fixed(d.used_percent, false) + "%"@,
        ),
        disk_notices(disks, t) == disks.filter(
            |d: DiskStat| !d.used_percent.below(t.disk_percent),
        ).map_values(
            |d: DiskStat|
                "磁盘 "@ + (if d.mount_point@.len() == 0 {
                    d.name@
                } else {
                    d.mount_point@
                }) + " 占用过高："@ + number::fixed(d.used_percent, true) + "%（阈值 "@
                    + number::fixed(t.disk_percent, false) + "%）"@,
        ),
    decreases disks.len(),
{
    reveal(Seq::filter);
    let full = |d: DiskStat| !d.used_percent.below(t.disk_percent);
    if disks.len() > 0 {
        let rest = disks.drop_last();
        lemma_disk_texts_are_filtered(rest, t);
        let d = disks.last();
        if full(d) {
            assert(disks.filter(full) =~= rest.filter(full).push(d));
        } else {
            assert(disks.filter(full) =~= rest.filter(full));
        }
        assert(disk_messages(disks, t) =~= disks.filter(full).map_values(
            |d: DiskStat|
                (if d.mount_point@.len() == 0 {
                    d.name@
                } else {
                    d.mount_point@
                }) + " "@ + number::fixed(d.used_percent, false) + "%"@,
        ));
        assert(disk_notices(disks, t) =~= disks.filter(full).map_values(
            |d: DiskStat|
                "磁盘 "@ + (if d.mount_point@.len() == 0 {
                    d.name@
                } else {
                    d.mount_point@
                }) + " 占用过高："@ + number::fixed(d.used_percent, true) + "%（阈值 "@
                    + number::fixed(t.disk_percent, false) + "%）"@,
        ));
    } else {
        assert(disks.filter(full) =~= Seq::empty());
        assert(disk_messages(disks, t) =~= disks.filter(full).map_values(
            |d: DiskStat|
                (if d.mount_point@.len() == 0 {
                    d.name@
                } else {
                    d.mount_point@
                }) + " "@ + number::fixed(d.used_percent, false) + "%"@,
        ));
        assert(disk_notices(disks, t) =~= disks.filter(full).map_values(
            |d: DiskStat|
                "磁盘 "@ + (if d.mount_point@.len() == 0 {
                    d.name@
                } else {
                    d.mount_point@
                }) + " 占用过高："@ + number::fixed(d.used_percent, true) + "%（阈值 "@
                    + number::fixed(t.disk_percent, false) + "%）"@,
        ));
    }
}

/// The messages of a sample: one for each value that reaches its threshold, with that
/// value, in the order of load, memory, temperature and disks, and one for each disk
/// that is not below its threshold.
pub proof fn law_messages_of_a_sample(m: MetricsView, t: AlertThresholds)
    ensures
        alert_messages(m, t) == (if t.cpu_percent.at_most(m.cpu_percent) {
            seq!["CPU "@ + number::fixed(m.cpu_percent, false) + "%"@]
        } else {
            Seq::empty()
        }) + (if t.memory_percent.at_most(m.memory_percent) {
            seq!["内存 "@ + number::fixed(m.memory_percent, false) + "%"@]
        } else {
            Seq::empty()
        }) + (if m.cpu_temp_celsius is Some && t.cpu_temp_celsius.at_most(m.cpu_temp_celsius->0) {
            seq!["温度 "@ + number::fixed(m.cpu_temp_celsius->0, false) + "°C"@]
        } else {
            Seq::empty()
        }) + m.disks.filter(|d: DiskStat| !d.used_percent.below(t.disk_percent)).map_values(
            |d: DiskStat|
                (if d.mount_point@.len() == 0 {
                    d.name@
                } else {
                    d.mount_point@
                }) + " "@ + number::fixed(d.used_percent, false) + "%"@,
        ),
{
    lemma_disk_texts_are_filtered(m.disks, t);
}

/// The announcements of a sample: one for each kind that is announced, with the value
/// and its threshold, and for the disks one for each that is not below its threshold.
pub proof fn law_announcements_of_a_sample(
    m: MetricsView,
    t: AlertThresholds,
    fired: LastFired,
    now: u64,
)
    ensures
        alert_notices(m, t, fired, now) == (if announces(m, t, fired, now, AlertKind::Cpu) {
            seq![
                "CPU 占用过高："@ + number::fixed(m.cpu_percent, true) + "%"@ + "（阈值 "@
                    + number::fixed(t.cpu_percent, false) + "%"@ + "）"@,
            ]
        } else {
            Seq::empty()
        }) + (if announces(m, t, fired, now, AlertKind::Memory) {
            seq![
                "内存占用过高："@ + number::fixed(m.memory_percent, true) + "%"@ + "（阈值 "@
                    + number::fixed(t.memory_percent, false) + "%"@ + "）"@,
            ]
        } else {
            Seq::empty()
        }) + (if announces(m, t, fired, now, AlertKind::Temperature) {
            seq![
                "CPU 温度过高："@ + number::fixed(m.cpu_temp_celsius->0, true) + "°C"@ + "（阈值 "@
                    + number::fixed(t.cpu_temp_celsius, false) + "°C"@ + "）"@,
            ]
        } else {
            Seq::empty()
        }) + (if announces(m, t, fired, now, AlertKind::Disk) {
            m.disks.filter(|d: DiskStat| !d.used_percent.below(t.disk_percent)).map_values(
                |d: DiskStat|
                    "磁盘 "@ + (if d.mount_point@.len() == 0 {
                        d.name@
                    } else {
                        d.mount_point@
                    }) + " 占用过高："@ + number::fixed(d.used_percent, true) + "%（阈值 "@
                        + number::fixed(t.disk_percent, false) + "%）"@,
            )
        } else {
            Seq::empty()
        }),
{
    lemma_disk_texts_are_filtered(m.disks, t);
}

/// Which thresholds are valid, and what is said of the first that is not: percentages
/// from 1 to 100, a temperature from 40 to 120, a cooldown from 5 to 3600.
pub proof fn law_ranges_of_thresholds(t: AlertThresholds)
    ensures
        t.fault() is None <==> {
            &&& t.cpu_percent.between(1, 100)
            &&& t.memory_percent.between(1, 100)
            &&& t.cpu_temp_celsius.between(40, 120)
            &&& t.disk_percent.between(1, 100)
            &&& 5 <= t.cooldown_secs <= 3600
        },
        !t.cpu_percent.between(1, 100) ==> t.fault() == Some("CPU 阈值须在 1–100"@),
        t.cpu_percent.between(1, 100) && !t.memory_percent.between(1, 100) ==> t.fault() == Some(
            "内存阈值须在 1–100"@,
        ),
        t.cpu_percent.between(1, 100) && t.memory_percent.between(1, 100)
            && !t.cpu_temp_celsius.between(40, 120) ==> t.fault() == Some(
            "温度阈值须在 40–120"@,
        ),
        t.cpu_percent.between(1, 100) && t.memory_percent.between(1, 100)
            && t.cpu_temp_celsius.between(40, 120) && !t.disk_percent.between(1, 100) ==> t.fault()
            == Some("磁盘阈值须在 1–100"@),
        t.cpu_percent.between(1, 100) && t.memory_percent.between(1, 100)
            && t.cpu_temp_celsius.between(40, 120) && t.disk_percent.between(1, 100) && !(5
            <= t.cooldown_secs <= 3600) ==> t.fault() == Some("冷却秒数须在 5–3600"@),
{
}

/// The thresholds of a fresh start: 90 percent of the processor, of the memory and of a
/// disk, 85 degrees, and a minute between announcements.
pub proof fn law_default_thresholds()
    ensures
        default_thresholds().cpu_percent == number::single_whole(90),
        default_thresholds().memory_percent == number::single_whole(90),
        default_thresholds().cpu_temp_celsius == number::single_whole(85),
        default_thresholds().disk_percent == number::single_whole(90),
        default_thresholds().cooldown_secs == 60,
{
}

/// The text of the tray icon: the messages with dots between them where there is an
/// alert, else the application's name.
pub proof fn law_text_of_the_tray(s: AlertStatus)
    ensures
        !s.active ==> s.tooltip() == "系统监测"@,
        s.active ==> s.tooltip() == "⚠ 告警："@ + text::join(
            s.messages@.map_values(|m: String| m@),
            " · "@,
        ),
{
}

/// A temperature below its threshold, or none, raises no alert and is not announced.
pub proof fn law_cool_samples_are_quiet(
    m: MetricsView,
    t: AlertThresholds,
    fired: LastFired,
    now: u64,
)
    requires
        m.cpu_temp_celsius is Some ==> m.cpu_temp_celsius->0.below(t.cpu_temp_celsius),
    ensures
        !temperature_alert(m, t),
        !announces(m, t, fired, now, AlertKind::Temperature),
        fired_after(m, t, fired, now).temperature == fired.temperature,
{
}

} // verus!
