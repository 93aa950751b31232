//! The most recent samples, oldest first, up to a fixed number.

use crate::monitor::{Metrics, MetricsView};
use crate::number::Single;
use crate::temperature_lhm::FanMetrics;
use crate::text;
use std::collections::VecDeque;
use vstd::prelude::*;
use vstd::string::*;

verus! {

/// About a minute of samples, at one a second.
pub const DEFAULT_HISTORY_CAPACITY: usize = 60;

/// What is kept of one sample.
#[derive(Debug)]
pub struct HistoryPoint {
    pub cpu_percent: Single,
    pub memory_percent: Single,
    pub cpu_temp_celsius: Option<Single>,
    pub fan_rpm: Option<u32>,
    pub fan_name: Option<String>,
    pub timestamp_ms: u128,
}

impl Clone for HistoryPoint {
    fn clone(&self) -> (r: HistoryPoint)
        ensures
            r == *self,
    {
        HistoryPoint {
            cpu_percent: self.cpu_percent,
            memory_percent: self.memory_percent,
            cpu_temp_celsius: self.cpu_temp_celsius,
            fan_rpm: self.fan_rpm,
            fan_name: match &self.fan_name {
                Some(name) => Some(name.clone()),
                None => None,
            },
            timestamp_ms: self.timestamp_ms,
        }
    }
}

/// The most recent points, oldest first.
pub struct MetricsHistory {
    capacity: usize,
    points: VecDeque<HistoryPoint>,
}

/// The last `n` elements, or all of them where there are fewer.
pub open spec fn latest<A>(s: Seq<A>, n: nat) -> Seq<A> {
    if s.len() > n {
        s.skip(s.len() - n)
    } else {
        s
    }
}

/// A capacity of one at least.
pub open spec fn at_least_one(n: usize) -> usize {
    if n < 1 {
        1
    } else {
        n
    }
}

/// What is kept of a sample.
pub open spec fn point_of(m: MetricsView) -> HistoryPoint {
    HistoryPoint {
        cpu_percent: m.cpu_percent,
        memory_percent: m.memory_percent,
        cpu_temp_celsius: m.cpu_temp_celsius,
        fan_rpm: match primary_fan(m.fans) {
            Some(fan) => Some(fan.rpm),
            None => None,
        },
        fan_name: match primary_fan(m.fans) {
            Some(fan) => Some(fan.name),
            None => None,
        },
        timestamp_ms: m.sampled_at_ms,
    }
}

impl MetricsHistory {
    /// How many points are kept at most.
    pub closed spec fn capacity(&self) -> usize {
        self.capacity
    }

    /// The points, oldest first.
    pub closed spec fn points(&self) -> Seq<HistoryPoint> {
        self.points@
    }

    /// There is room for a point, and no more points than there is room for.
    pub open spec fn well_formed(&self) -> bool {
        1 <= self.capacity() && self.points().len() <= self.capacity()
    }

    pub fn new(capacity: usize) -> (r: MetricsHistory)
        ensures
            r.well_formed(),
            r.capacity() == at_least_one(capacity),
            r.points() == Seq::<HistoryPoint>::empty(),
    {
        let capacity = if capacity < 1 {
            1
        } else {
            capacity
        };
        MetricsHistory { capacity, points: VecDeque::new() }
    }

    /// Changes how many points are kept. A smaller number drops the oldest ones, a
    /// larger one keeps them all.
    pub fn set_capacity(&mut self, capacity: usize)
        ensures
            final(self).well_formed(),
            final(self).capacity() == at_least_one(capacity),
            final(self).points().len() <= old(self).points().len(),
            final(self).points() == latest(old(self).points(), at_least_one(capacity) as nat),
    {
        let capacity = if capacity < 1 {
            1
        } else {
            capacity
        };
        self.capacity = capacity;
        let ghost before = self.points@;
        while self.points.len() > capacity
            invariant
                capacity >= 1,
                self.capacity == capacity,
                self.points@.len() <= before.len(),
                self.points@ == before.skip(before.len() - self.points@.len()),
                self.points@.len() >= (if before.len() < capacity {
                    before.len()
                } else {
                    capacity as nat
                }),
            decreases self.points@.len(),
        {
            let _ = self.points.pop_front();
        }
        assert(before.skip(0) =~= before);
    }

    /// Adds what is kept of a sample, and drops the oldest point where there is no
    /// room for it.
    pub fn push_from_metrics(&mut self, metrics: &Metrics)
        requires
            old(self).well_formed(),
        ensures
            final(self).well_formed(),
            final(self).capacity() == old(self).capacity(),
            final(self).points() == latest(
                old(self).points().push(point_of(metrics@)),
                old(self).capacity() as nat,
            ),
            final(self).points().last().cpu_percent == metrics.cpu_percent,
            final(self).points().last().memory_percent == metrics.memory_percent,
            final(self).points().last().cpu_temp_celsius == metrics.cpu_temp_celsius,
            final(self).points().last().timestamp_ms == metrics.sampled_at_ms,
    {
        let ghost before = self.points@;
        if self.points.len() >= self.capacity {
            let _ = self.points.pop_front();
        }
        let primary = pick_primary_fan(metrics.fans.as_slice());
        let (fan_rpm, fan_name) = match primary {
            Some(fan) => (Some(fan.rpm), Some(fan.name.clone())),
            None => (None, None),
        };
        self.points.push_back(
            HistoryPoint {
                cpu_percent: metrics.cpu_percent,
                memory_percent: metrics.memory_percent,
                cpu_temp_celsius: metrics.cpu_temp_celsius,
                fan_rpm,
                fan_name,
                timestamp_ms: metrics.sampled_at_ms,
            },
        );
        assert(self.points@ =~= latest(
            before.push(point_of(metrics@)),
            old(self).capacity as nat,
        ));
    }

    /// The points, oldest first.
    pub fn snapshot(&self) -> (r: Vec<HistoryPoint>)
        ensures
            r@ == self.points(),
    {
        let mut r: Vec<HistoryPoint> = Vec::new();
        let n = self.points.len();
        for i in 0..n
            invariant
                n == self.points@.len(),
                r@ == self.points@.take(i as int),
        {
            r.push(self.points[i].clone());
        }
        r
    }
}

/// The index of the first fan of the kind, and the number of fans without one.
pub open spec fn first_of_kind(fans: Seq<FanMetrics>, kind: Seq<char>) -> int
    decreases fans.len(),
{
    if fans.len() == 0 || fans[0].kind@ == kind {
        0
    } else {
        1 + first_of_kind(fans.drop_first(), kind)
    }
}

/// The fan that stands for all: the first of the processor, else of a pump, else
/// of the graphics card, else of the chassis, else the first there is.
pub open spec fn primary_fan(fans: Seq<FanMetrics>) -> Option<FanMetrics> {
    let n = fans.len();
    if first_of_kind(fans, "cpu"@) < n {
        Some(fans[first_of_kind(fans, "cpu"@)])
    } else if first_of_kind(fans, "pump"@) < n {
        Some(fans[first_of_kind(fans, "pump"@)])
    } else if first_of_kind(fans, "gpu"@) < n {
        Some(fans[first_of_kind(fans, "gpu"@)])
    } else if first_of_kind(fans, "chassis"@) < n {
        Some(fans[first_of_kind(fans, "chassis"@)])
    } else if n > 0 {
        Some(fans[0])
    } else {
        None
    }
}

fn find_kind(fans: &[FanMetrics], kind: &str) -> (r: usize)
    ensures
        r == first_of_kind(fans@, kind@),
        r <= fans@.len(),
{
    let n = fans.len();
    let mut i: usize = 0;
    assert(fans@.skip(0) =~= fans@);
    while i < n
        invariant
            n == fans@.len(),
            i <= n,
            first_of_kind(fans@, kind@) == i + first_of_kind(fans@.skip(i as int), kind@),
        decreases n - i,
    {
        if text::same_text(fans[i].kind.as_str(), kind) {
            return i;
        }
        assert(fans@.skip(i as int).drop_first() =~= fans@.skip(i + 1));
        i = i + 1;
    }
    i
}

/// Picks the fan that stands for all of them.
pub fn pick_primary_fan(fans: &[FanMetrics]) -> (r: Option<&FanMetrics>)
    ensures
        r matches Some(fan) ==> primary_fan(fans@) == Some(*fan),
        r is None ==> primary_fan(fans@) is None,
{
    let n = fans.len();
    let i = find_kind(fans, "cpu");
    if i < n {
        return Some(&fans[i]);
    }
    let i = find_kind(fans, "pump");
    if i < n {
        return Some(&fans[i]);
    }
    let i = find_kind(fans, "gpu");
    if i < n {
        return Some(&fans[i]);
    }
    let i = find_kind(fans, "chassis");
    if i < n {
        return Some(&fans[i]);
    }
    if n > 0 {
        Some(&fans[0])
    } else {
        None
    }
}

/// The numbers of minutes that a history can reach back.
pub open spec fn is_allowed_range(minutes: u32) -> bool {
    minutes == 1 || minutes == 5 || minutes == 15 || minutes == 60
}

fn allowed_range(minutes: u32) -> (r: bool)
    ensures
        r == is_allowed_range(minutes),
{
    minutes == 1 || minutes == 5 || minutes == 15 || minutes == 60
}

/// How many points a history of so many minutes takes, at one a second.
pub fn history_capacity_for_minutes(minutes: u32) -> (r: Result<usize, String>)
    ensures
        r is Ok <==> minutes == 1 || minutes == 5 || minutes == 15 || minutes == 60,
        r is Ok <==> is_allowed_range(minutes),
        r matches Ok(capacity) ==> capacity == minutes * 60,
        r matches Err(e) ==> e@ == "历史时长仅支持 1/5/15/60 分钟"@,
{
    if !allowed_range(minutes) {
        return Err("历史时长仅支持 1/5/15/60 分钟".to_string());
    }
    Ok(minutes as usize * 60)
}

/// The number of minutes, and one where it is not allowed.
pub open spec fn normal_range(minutes: u32) -> u32 {
    if is_allowed_range(minutes) {
        minutes
    } else {
        1
    }
}

pub fn normalize_history_range_minutes(minutes: u32) -> (r: u32)
    ensures
        minutes == 1 || minutes == 5 || minutes == 15 || minutes == 60 ==> r == minutes,
        !(minutes == 1 || minutes == 5 || minutes == 15 || minutes == 60) ==> r == 1,
        r == normal_range(minutes),
{
    if allowed_range(minutes) {
        minutes
    } else {
        1
    }
}

/// What remains of the points `s` when they are added one after another to a
/// history that holds `kept`.
pub open spec fn after_pushes(
    kept: Seq<HistoryPoint>,
    capacity: nat,
    s: Seq<HistoryPoint>,
) -> Seq<HistoryPoint>
    decreases s.len(),
{
    if s.len() == 0 {
        kept
    } else {
        latest(after_pushes(kept, capacity, s.drop_last()).push(s.last()), capacity)
    }
}

/// However many points are added, the history holds the latest ones in the order
/// in which they came.
pub proof fn law_history_keeps_the_latest(capacity: nat, s: Seq<HistoryPoint>)
    requires
        capacity >= 1,
    ensures
        after_pushes(Seq::empty(), capacity, s) == latest(s, capacity),
    decreases s.len(),
{
    if s.len() > 0 {
        law_history_keeps_the_latest(capacity, s.drop_last());
        let kept = latest(s.drop_last(), capacity);
        assert(latest(kept.push(s.last()), capacity) =~= latest(s, capacity));
    } else {
        assert(latest(s, capacity) =~= Seq::<HistoryPoint>::empty());
    }
}

/// A history that is made smaller and then larger again has lost the oldest
/// points and no others; one that is made larger has lost none.
pub proof fn law_resizing_drops_the_oldest(s: Seq<HistoryPoint>, first: usize, second: usize)
    ensures
        latest(latest(s, first as nat), second as nat) == latest(
            s,
            (if first < second {
                first
            } else {
                second
            }) as nat,
        ),
        s.len() <= first ==> latest(s, first as nat) == s,
{
    let both = latest(latest(s, first as nat), second as nat);
    assert(both =~= latest(
        s,
        (if first < second {
            first
        } else {
            second
        }) as nat,
    ));
}

/// A number of minutes that has been normalized is accepted, and is then left as
/// it is.
pub proof fn law_normal_range_is_allowed(minutes: u32)
    ensures
        is_allowed_range(normal_range(minutes)),
        normal_range(normal_range(minutes)) == normal_range(minutes),
{
}

/// The latest of some points are as many as are asked for, as far as there are so many,
/// and stand at the end of them in the same order.
pub proof fn law_latest(s: Seq<HistoryPoint>, n: nat, i: int)
    ensures
        latest(s, n).len() == (if s.len() < n {
            s.len()
        } else {
            n
        }),
        0 <= i < latest(s, n).len() ==> latest(s, n)[i] == s[s.len() - latest(s, n).len() + i],
{
}

/// A history has room for as many points as were asked for, and for one at least.
pub proof fn law_room_for_one(n: usize)
    ensures
        n >= 1 ==> at_least_one(n) == n,
        n == 0 ==> at_least_one(n) == 1,
{
}

/// What is kept of a sample is what the sample holds, and of its fans the one that
/// stands for all.
pub proof fn law_point_of_a_sample(m: MetricsView)
    ensures
        point_of(m).cpu_percent == m.cpu_percent,
        point_of(m).memory_percent == m.memory_percent,
        point_of(m).cpu_temp_celsius == m.cpu_temp_celsius,
        point_of(m).timestamp_ms == m.sampled_at_ms,
        primary_fan(m.fans) is Some ==> point_of(m).fan_rpm == Some(primary_fan(m.fans)->0.rpm)
            && point_of(m).fan_name == Some(primary_fan(m.fans)->0.name),
        primary_fan(m.fans) is None ==> point_of(m).fan_rpm is None && point_of(m).fan_name
            is None,
{
}

proof fn lemma_first_of_kind(fans: Seq<FanMetrics>, kind: Seq<char>)
    ensures
        0 <= first_of_kind(fans, kind) <= fans.len(),
        first_of_kind(fans, kind) < fans.len() ==> fans[first_of_kind(fans, kind)].kind@ == kind,
        forall|j: int|
            0 <= j < first_of_kind(fans, kind) ==> (#[trigger] fans[j]).kind@ != kind,
    decreases fans.len(),
{
    if fans.len() > 0 && fans[0].kind@ != kind {
        let rest = fans.drop_first();
        lemma_first_of_kind(rest, kind);
        assert forall|j: int| 0 <= j < first_of_kind(fans, kind) implies (#[trigger] fans[j]).kind@
            != kind by {
            if j > 0 {
                assert(fans[j] == rest[j - 1]);
            }
        }
    }
}

/// Which fan stands for all: the first one of the processor; without it the first pump;
/// without these the first one of the graphics card; then of the chassis; else the first
/// there is. Without a fan there is none.
pub proof fn law_fan_for_all(fans: Seq<FanMetrics>, i: int)
    requires
        0 <= i < fans.len(),
    ensures
        ({
            let none = |kind: Seq<char>, n: int|
                forall|j: int| 0 <= j < n ==> (#[trigger] fans[j]).kind@ != kind;
            let n = fans.len() as int;
            &&& fans[i].kind@ == "cpu"@ && none("cpu"@, i) ==> primary_fan(fans) == Some(fans[i])
            &&& fans[i].kind@ == "pump"@ && none("pump"@, i) && none("cpu"@, n) ==> primary_fan(
                fans,
            ) == Some(fans[i])
            &&& fans[i].kind@ == "gpu"@ && none("gpu"@, i) && none("cpu"@, n) && none("pump"@, n)
                ==> primary_fan(fans) == Some(fans[i])
            &&& fans[i].kind@ == "chassis"@ && none("chassis"@, i) && none("cpu"@, n) && none(
                "pump"@,
                n,
            ) && none("gpu"@, n) ==> primary_fan(fans) == Some(fans[i])
            &&& none("cpu"@, n) && none("pump"@, n) && none("gpu"@, n) && none("chassis"@, n)
                ==> primary_fan(fans) == Some(fans[0])
        }),
        primary_fan(Seq::empty()) is None,
{
    lemma_first_of_kind(fans, "cpu"@);
    lemma_first_of_kind(fans, "pump"@);
    lemma_first_of_kind(fans, "gpu"@);
    lemma_first_of_kind(fans, "chassis"@);
    lemma_first_of_kind(Seq::empty(), "cpu"@);
    lemma_first_of_kind(Seq::empty(), "pump"@);
    lemma_first_of_kind(Seq::empty(), "gpu"@);
    lemma_first_of_kind(Seq::empty(), "chassis"@);
}

/// A history can reach back 1, 5, 15 or 60 minutes, and reaches back 1 where it was to
/// reach back another number of them.
pub proof fn law_ranges(minutes: u32)
    ensures
        is_allowed_range(minutes) <==> minutes == 1 || minutes == 5 || minutes == 15 || minutes
            == 60,
        is_allowed_range(minutes) ==> normal_range(minutes) == minutes,
        !is_allowed_range(minutes) ==> normal_range(minutes) == 1,
{
}

/// A history that is well formed has room for a point, and holds no more than there is
/// room for.
pub proof fn law_well_formed_histories(h: MetricsHistory)
    ensures
        h.well_formed() <==> 1 <= h.capacity() && h.points().len() <= h.capacity(),
{
}

} // verus!
