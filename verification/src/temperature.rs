//! The processor's temperature: which readings are believed, which of them is the
//! processor's, and which source is asked after which.

use crate::number;
use crate::number::Single;
use crate::ieee;
use crate::ieee::Format;
use crate::temperature_lhm::{TempSourceKind, TempSourceTracker};
use crate::text;
use vstd::arithmetic::power2::*;
use vstd::prelude::*;
use vstd::string::*;

verus! {

/// Whether a reading in degrees Celsius can be true.
pub open spec fn plausible(temp: Single) -> bool {
    temp.between(-40, 150)
}

pub fn is_plausible_celsius(temp: Single) -> (r: bool)
    ensures
        r == plausible(temp),
{
    temp.is_between(-40, 150)
}

/// What the name of a sensor says it measures.
#[derive(Clone, Copy, PartialEq, Eq, Structural, Debug)]
pub enum SensorClass {
    /// The processor's package.
    Package,
    /// The die, as AMD names it.
    Die,
    /// Some part of the processor.
    Processor,
}

impl SensorClass {
    /// Whether a sensor of this name is of the class.
    pub open spec fn covers(self, name: Seq<char>) -> bool {
        let n = text::lower(name);
        match self {
            SensorClass::Package => text::contains(n, "package"@),
            SensorClass::Die => text::contains(n, "tctl"@) || text::contains(n, "tdie"@),
            SensorClass::Processor => text::contains(n, "cpu"@) || text::contains(n, "proc"@),
        }
    }

    fn covers_text(self, name: &str) -> (r: bool)
        ensures
            r == self.covers(name@),
    {
        let n = text::lowered(&text::chars_of(name));
        match self {
            SensorClass::Package => text::has_text(&n, "package"),
            SensorClass::Die => text::has_text(&n, "tctl") || text::has_text(&n, "tdie"),
            SensorClass::Processor => text::has_text(&n, "cpu") || text::has_text(&n, "proc"),
        }
    }
}

/// Readings with their sensors' names as characters.
pub open spec fn named(readings: Seq<(String, Single)>) -> Seq<(Seq<char>, Single)> {
    readings.map_values(|r: (String, Single)| (r.0@, r.1))
}

/// The index of the first reading of the class, and the number of readings
/// without one.
pub open spec fn first_of_class(readings: Seq<(Seq<char>, Single)>, class: SensorClass) -> int
    decreases readings.len(),
{
    if readings.len() == 0 || class.covers(readings[0].0) {
        0
    } else {
        1 + first_of_class(readings.drop_first(), class)
    }
}

/// The highest of the readings; the last one of those that are as high.
pub open spec fn hottest(readings: Seq<(Seq<char>, Single)>) -> Single
    decreases readings.len(),
{
    let last = readings.last().1;
    if readings.len() <= 1 || !last.below(hottest(readings.drop_last())) {
        last
    } else {
        hottest(readings.drop_last())
    }
}

/// The processor's temperature among the readings: the first of its package, else
/// of its die, else of any part of it, else the highest reading.
pub open spec fn cpu_temp(readings: Seq<(Seq<char>, Single)>) -> Option<Single> {
    let n = readings.len();
    if n == 0 {
        None
    } else if first_of_class(readings, SensorClass::Package) < n {
        Some(readings[first_of_class(readings, SensorClass::Package)].1)
    } else if first_of_class(readings, SensorClass::Die) < n {
        Some(readings[first_of_class(readings, SensorClass::Die)].1)
    } else if first_of_class(readings, SensorClass::Processor) < n {
        Some(readings[first_of_class(readings, SensorClass::Processor)].1)
    } else {
        Some(hottest(readings))
    }
}

fn find_class(readings: &Vec<(String, Single)>, class: SensorClass) -> (r: usize)
    ensures
        r == first_of_class(named(readings@), class),
        r <= readings@.len(),
{
    let n = readings.len();
    let mut i: usize = 0;
    let ghost s = named(readings@);
    assert(s.skip(0) =~= s);
    while i < n
        invariant
            n == readings@.len(),
            s == named(readings@),
            i <= n,
            first_of_class(s, class) == i + first_of_class(s.skip(i as int), class),
        decreases n - i,
    {
        assert(s.skip(i as int)[0].0 == readings@[i as int].0@);
        if class.covers_text(readings[i].0.as_str()) {
            return i;
        }
        assert(s.skip(i as int).drop_first() =~= s.skip(i + 1));
        i = i + 1;
    }
    i
}

/// Picks the processor's temperature among the readings.
pub fn pick_cpu_temp(readings: &Vec<(String, Single)>) -> (r: Option<Single>)
    ensures
        r == cpu_temp(named(readings@)),
{
    let n = readings.len();
    if n == 0 {
        return None;
    }
    let ghost s = named(readings@);
    let i = find_class(readings, SensorClass::Package);
    if i < n {
        return Some(readings[i].1);
    }
    let i = find_class(readings, SensorClass::Die);
    if i < n {
        return Some(readings[i].1);
    }
    let i = find_class(readings, SensorClass::Processor);
    if i < n {
        return Some(readings[i].1);
    }
    let mut best = readings[0].1;
    assert(s.take(1).last() == s[0]);
    for i in 1..n
        invariant
            n == readings@.len(),
            s == named(readings@),
            1 <= i <= n,
            best == hottest(s.take(i as int)),
    {
        let next = readings[i].1;
        proof {
            assert(s.take(i + 1).drop_last() =~= s.take(i as int));
            assert(s.take(i + 1).last() == s[i as int]);
        }
        if !next.is_below(best) {
            best = next;
        }
    }
    assert(s.take(n as int) =~= s);
    Some(best)
}

proof fn lemma_first_of_class(readings: Seq<(Seq<char>, Single)>, class: SensorClass)
    ensures
        0 <= first_of_class(readings, class) <= readings.len(),
        first_of_class(readings, class) < readings.len() ==> class.covers(
            readings[first_of_class(readings, class)].0,
        ),
        forall|j: int|
            0 <= j < first_of_class(readings, class) ==> !class.covers((#[trigger] readings[j]).0),
    decreases readings.len(),
{
    if readings.len() > 0 && !class.covers(readings[0].0) {
        let rest = readings.drop_first();
        lemma_first_of_class(rest, class);
        assert forall|j: int| 0 <= j < first_of_class(readings, class) implies !class.covers(
            (#[trigger] readings[j]).0,
        ) by {
            if j > 0 {
                assert(readings[j] == rest[j - 1]);
            }
        }
    }
}

proof fn lemma_hottest(readings: Seq<(Seq<char>, Single)>) -> (i: int)
    requires
        readings.len() > 0,
    ensures
        0 <= i < readings.len(),
        hottest(readings) == readings[i].1,
        (forall|j: int| 0 <= j < readings.len() ==> !#[trigger] readings[j].1.nan()) ==> forall|
            j: int,
        |
            0 <= j < readings.len() ==> #[trigger] readings[j].1.at_most(readings[i].1),
    decreases readings.len(),
{
    if readings.len() == 1 {
        if forall|j: int| 0 <= j < readings.len() ==> !#[trigger] readings[j].1.nan() {
            assert(!readings[0].1.nan());
        }
        0
    } else {
        let rest = readings.drop_last();
        let k = lemma_hottest(rest);
        let last = readings.last().1;
        let i = if !last.below(hottest(rest)) {
            readings.len() - 1
        } else {
            k
        };
        if forall|j: int| 0 <= j < readings.len() ==> !#[trigger] readings[j].1.nan() {
            assert forall|j: int| 0 <= j < rest.len() implies !#[trigger] rest[j].1.nan() by {
                assert(rest[j] == readings[j]);
            }
            assert(!readings[readings.len() - 1].1.nan());
            assert(!rest[k].1.nan());
            assert forall|j: int| 0 <= j < readings.len() implies #[trigger] readings[j].1.at_most(
                readings[i].1,
            ) by {
                if j < rest.len() {
                    assert(rest[j] == readings[j]);
                    assert(rest[j].1.at_most(rest[k].1));
                }
            }
        }
        i
    }
}

/// The processor's temperature is one of the readings, and there is one where
/// there is any reading. Where no sensor's name speaks of the processor, no
/// reading is higher.
pub proof fn law_cpu_temp_is_a_reading(readings: Seq<(Seq<char>, Single)>)
    ensures
        cpu_temp(readings) is Some <==> readings.len() > 0,
        cpu_temp(readings) matches Some(temp) ==> exists|i: int|
            0 <= i < readings.len() && temp == (#[trigger] readings[i]).1,
        ({
            &&& readings.len() > 0
            &&& first_of_class(readings, SensorClass::Package) == readings.len()
            &&& first_of_class(readings, SensorClass::Die) == readings.len()
            &&& first_of_class(readings, SensorClass::Processor) == readings.len()
            &&& forall|j: int| 0 <= j < readings.len() ==> !#[trigger] readings[j].1.nan()
        }) ==> forall|j: int|
            0 <= j < readings.len() ==> #[trigger] readings[j].1.at_most(cpu_temp(readings)->0),
{
    lemma_first_of_class(readings, SensorClass::Package);
    lemma_first_of_class(readings, SensorClass::Die);
    lemma_first_of_class(readings, SensorClass::Processor);
    if readings.len() > 0 {
        let i = lemma_hottest(readings);
        assert(readings[i].1 == hottest(readings));
    }
}

/// What to do next while the sources are asked one after another.
#[derive(Clone, Copy, PartialEq, Eq, Structural, Debug)]
pub enum ChainStep {
    /// Ask the source at this index.
    Ask(usize),
    /// There is an answer, or there is none.
    Done(Option<Single>),
}

/// The sources of the processor's temperature, in the order in which they are
/// asked until one has a reading.
pub struct ChainedTemperatureProvider {
    pub providers: Vec<TempSourceKind>,
}

/// The step after the source at `asked` has answered.
pub open spec fn chain_next(
    providers: Seq<TempSourceKind>,
    asked: int,
    reading: Option<Single>,
) -> ChainStep {
    if reading is Some || asked + 1 >= providers.len() {
        ChainStep::Done(reading)
    } else {
        ChainStep::Ask((asked + 1) as usize)
    }
}

/// The source to remember once the asking is over.
pub open spec fn chain_source(
    providers: Seq<TempSourceKind>,
    asked: int,
    reading: Option<Single>,
) -> TempSourceKind {
    if reading is Some {
        providers[asked]
    } else {
        TempSourceKind::Unavailable
    }
}

/// The reading and its source when each source answers as in `answers`, and the
/// asking goes on from `asked`.
pub open spec fn chain_run(
    providers: Seq<TempSourceKind>,
    answers: Seq<Option<Single>>,
    asked: int,
) -> (Option<Single>, TempSourceKind)
    decreases providers.len() - asked,
{
    match chain_next(providers, asked, answers[asked]) {
        ChainStep::Done(reading) => (reading, chain_source(providers, asked, reading)),
        ChainStep::Ask(next) => if asked < providers.len() && next == asked + 1 {
            chain_run(providers, answers, asked + 1)
        } else {
            (None, TempSourceKind::Unavailable)
        },
    }
}

/// The first source that has a reading decides it; the sources before it had none.
/// Without any reading there is no source.
pub proof fn law_first_reading_wins(
    providers: Seq<TempSourceKind>,
    answers: Seq<Option<Single>>,
    asked: int,
)
    requires
        0 <= asked < providers.len() <= usize::MAX,
        answers.len() == providers.len(),
    ensures
        ({
            let (reading, source) = chain_run(providers, answers, asked);
            ||| exists|i: int|
                {
                    &&& asked <= i < providers.len()
                    &&& reading == #[trigger] answers[i]
                    &&& reading is Some
                    &&& source == providers[i]
                    &&& forall|j: int| asked <= j < i ==> #[trigger] answers[j] is None
                }
            ||| {
                &&& reading is None
                &&& source == TempSourceKind::Unavailable
                &&& forall|j: int| asked <= j < providers.len() ==> #[trigger] answers[j] is None
            }
        }),
    decreases providers.len() - asked,
{
    if answers[asked] is None && asked + 1 < providers.len() {
        law_first_reading_wins(providers, answers, asked + 1);
    }
}

impl ChainedTemperatureProvider {
    pub fn new(providers: Vec<TempSourceKind>) -> (r: ChainedTemperatureProvider)
        ensures
            r.providers@ == providers@,
    {
        ChainedTemperatureProvider { providers }
    }

    /// The sources of a platform: LibreHardwareMonitor, on Windows the firmware's
    /// thermal zones, and the system's components.
    pub fn platform_default(windows: bool) -> (r: ChainedTemperatureProvider)
        ensures
            r.providers@ == (if windows {
                seq![TempSourceKind::Lhm, TempSourceKind::Wmi, TempSourceKind::Sysinfo]
            } else {
                seq![TempSourceKind::Lhm, TempSourceKind::Sysinfo]
            }),
    {
        let mut providers: Vec<TempSourceKind> = Vec::new();
        providers.push(TempSourceKind::Lhm);
        if windows {
            providers.push(TempSourceKind::Wmi);
        }
        providers.push(TempSourceKind::Sysinfo);
        ChainedTemperatureProvider::new(providers)
    }

    /// The first step.
    pub fn start(&self, tracker: &mut TempSourceTracker) -> (r: ChainStep)
        ensures
            r == (if self.providers@.len() == 0 {
                ChainStep::Done(None)
            } else {
                ChainStep::Ask(0)
            }),
            final(tracker).source() == (if self.providers@.len() == 0 {
                TempSourceKind::Unavailable
            } else {
                old(tracker).source()
            }),
    {
        if self.providers.len() == 0 {
            tracker.set(TempSourceKind::Unavailable);
            ChainStep::Done(None)
        } else {
            ChainStep::Ask(0)
        }
    }

    /// The step after the source at `asked` has answered.
    pub fn read_cpu_temp_celsius(
        &self,
        asked: usize,
        reading: Option<Single>,
        tracker: &mut TempSourceTracker,
    ) -> (r: ChainStep)
        requires
            asked < self.providers@.len(),
        ensures
            reading is Some ==> r == ChainStep::Done(reading),
            reading is Some ==> final(tracker).source() == self.providers@[asked as int],
            reading is None && asked + 1 < self.providers@.len() ==> r == ChainStep::Ask(
                (asked + 1) as usize,
            ) && final(tracker).source() == old(tracker).source(),
            reading is None && asked + 1 == self.providers@.len() ==> r == ChainStep::Done(None)
                && final(tracker).source() == TempSourceKind::Unavailable,
            r == chain_next(self.providers@, asked as int, reading),
            final(tracker).source() == (if r is Done {
                chain_source(self.providers@, asked as int, reading)
            } else {
                old(tracker).source()
            }),
    {
        if reading.is_some() {
            tracker.set(self.providers[asked]);
            return ChainStep::Done(reading);
        }
        if self.providers.len() - asked > 1 {
            ChainStep::Ask(asked + 1)
        } else {
            tracker.set(TempSourceKind::Unavailable);
            ChainStep::Done(None)
        }
    }
}

/// The readings of the components that have one that can be true, in order.
pub open spec fn component_readings(
    components: Seq<(String, Option<Single>)>,
) -> Seq<(Seq<char>, Single)>
    decreases components.len(),
{
    if components.len() == 0 {
        Seq::empty()
    } else {
        let rest = component_readings(components.drop_last());
        let (label, temp) = components.last();
        match temp {
            Some(t) => if plausible(t) {
                rest.push((label@, t))
            } else {
                rest
            },
            None => rest,
        }
    }
}

/// The temperatures that the system reports of its components.
pub struct SysinfoComponentsProvider;

impl SysinfoComponentsProvider {
    pub fn new() -> (r: SysinfoComponentsProvider) {
        SysinfoComponentsProvider
    }

    /// The processor's temperature among the components' labels and temperatures.
    pub fn read_cpu_temp_celsius(&self, components: &Vec<(String, Option<Single>)>) -> (r: Option<
        Single,
    >)
        ensures
            r == cpu_temp(component_readings(components@)),
    {
        let mut readings: Vec<(String, Single)> = Vec::new();
        let n = components.len();
        assert(named(readings@) =~= Seq::<(Seq<char>, Single)>::empty());
        for i in 0..n
            invariant
                n == components@.len(),
                named(readings@) == component_readings(components@.take(i as int)),
        {
            proof {
                assert(components@.take(i + 1).drop_last() =~= components@.take(i as int));
                assert(components@.take(i + 1).last() == components@[i as int]);
            }
            if let Some(temp) = components[i].1 {
                if is_plausible_celsius(temp) {
                    let ghost before = readings@;
                    let name = components[i].0.clone();
                    readings.push((name, temp));
                    assert(named(readings@) =~= named(before).push((name@, temp)));
                }
            }
        }
        assert(components@.take(n as int) =~= components@);
        pick_cpu_temp(&readings)
    }
}

/// `s` without the given character at its start, however often it stands there.
pub open spec fn without_leading(s: Seq<char>, c: char) -> Seq<char>
    decreases s.len(),
{
    if s.len() > 0 && s[0] == c {
        without_leading(s.drop_first(), c)
    } else {
        s
    }
}

/// `s` without the places where `pattern` stands, taken from the start on.
pub open spec fn without(s: Seq<char>, pattern: Seq<char>) -> Seq<char>
    decreases s.len(),
{
    if s.len() == 0 || pattern.len() == 0 {
        s
    } else if text::stands_at(s, pattern, 0) {
        without(s.skip(pattern.len() as int), pattern)
    } else {
        seq![s[0]] + without(s.drop_first(), pattern)
    }
}

/// The name of a thermal zone without what all of them share.
pub open spec fn zone_name(name: Seq<char>) -> Seq<char> {
    let bare = without_leading(without_leading(text::trim(name), '\\'), '_');
    text::trim(without(without(bare, "TZ."@), "ThermalZone"@))
}

fn drop_leading(v: &Vec<char>, c: char) -> (r: Vec<char>)
    ensures
        r@ == without_leading(v@, c),
{
    let n = v.len();
    let mut i: usize = 0;
    assert(v@.skip(0) =~= v@);
    while i < n && v[i] == c
        invariant
            n == v@.len(),
            i <= n,
            without_leading(v@, c) == without_leading(v@.skip(i as int), c),
        decreases n - i,
    {
        assert(v@.skip(i as int).drop_first() =~= v@.skip(i + 1));
        i = i + 1;
    }
    let r = text::part(v, i, n);
    assert(r@ =~= v@.skip(i as int));
    r
}

fn drop_text(v: &Vec<char>, pattern: &str) -> (r: Vec<char>)
    requires
        pattern@.len() > 0,
    ensures
        r@ == without(v@, pattern@),
{
    let n = v.len();
    let m = text::chars_of(pattern).len();
    let mut r: Vec<char> = Vec::new();
    let mut i: usize = 0;
    assert(v@.skip(0) =~= v@);
    assert(r@ + without(v@, pattern@) =~= without(v@, pattern@));
    while i < n
        invariant
            n == v@.len(),
            m == pattern@.len(),
            m > 0,
            i <= n,
            without(v@, pattern@) == r@ + without(v@.skip(i as int), pattern@),
        decreases n - i,
    {
        let rest = text::part(v, i, n);
        assert(rest@ =~= v@.skip(i as int));
        if text::starts_with(&rest, pattern) {
            assert(rest@.skip(m as int) =~= v@.skip(i + m));
            i = i + m;
        } else {
            assert(rest@.drop_first() =~= v@.skip(i + 1));
            assert(r@ + (seq![v@[i as int]] + without(v@.skip(i + 1), pattern@)) =~= r@.push(
                v@[i as int],
            ) + without(v@.skip(i + 1), pattern@));
            r.push(v[i]);
            i = i + 1;
        }
    }
    assert(without(v@.skip(n as int), pattern@) =~= Seq::<char>::empty());
    assert(r@ + Seq::<char>::empty() =~= r@);
    r
}

pub fn clean_zone_name(name: &str) -> (r: String)
    ensures
        r@ == zone_name(name@),
{
    proof {
        reveal_strlit("TZ.");
        reveal_strlit("ThermalZone");
    }
    let trimmed = text::trimmed(&text::chars_of(name));
    let bare = drop_leading(&drop_leading(&trimmed, '\\'), '_');
    let short = drop_text(&drop_text(&bare, "TZ."), "ThermalZone");
    text::string_of(&text::trimmed(&short))
}

/// Tenths of a kelvin in degrees Celsius.
pub open spec fn celsius_of_decikelvin(value: u32) -> Single {
    number::single_whole(value as nat).quotient(number::single_whole(10)).difference(
        zero_celsius(),
    )
}

/// Kelvins in degrees Celsius.
pub open spec fn celsius_of_kelvin(value: u32) -> Single {
    number::single_whole(value as nat).difference(zero_celsius())
}

/// 273.15.
pub open spec fn zero_celsius() -> Single {
    number::single(ieee::fraction(Format::Single, 27315, 100))
}

pub fn decikelvin_to_celsius(value: u32) -> (r: Single)
    ensures
        r == celsius_of_decikelvin(value),
{
    Single::whole(value).over(Single::whole(10)).minus(Single::ratio(27315, 100))
}

pub fn kelvin_to_celsius(value: u32) -> (r: Single)
    ensures
        r == celsius_of_kelvin(value),
{
    Single::whole(value).minus(Single::ratio(27315, 100))
}

/// A thermal zone as the firmware reports it, in tenths of a kelvin.
#[derive(Debug)]
pub struct MsAcpiThermalZoneTemperature {
    pub instance_name: Option<String>,
    pub current_temperature: Option<u32>,
}

/// A thermal zone as the performance counters report it, in kelvins and in tenths
/// of them.
#[derive(Debug)]
pub struct ThermalZonePerfCounter {
    pub name: Option<String>,
    pub temperature: Option<u32>,
    pub high_precision_temperature: Option<u32>,
}

/// The name of a zone, which may have none.
pub open spec fn zone_label(name: Option<String>) -> Seq<char> {
    match name {
        Some(n) => zone_name(n@),
        None => zone_name("Thermal"@),
    }
}

impl MsAcpiThermalZoneTemperature {
    /// The zone's temperature, where there is one that can be true.
    pub open spec fn celsius(self) -> Option<Single> {
        match self.current_temperature {
            Some(raw) => if plausible(celsius_of_decikelvin(raw)) {
                Some(celsius_of_decikelvin(raw))
            } else {
                None
            },
            None => None,
        }
    }
}

impl ThermalZonePerfCounter {
    /// The zone's temperature, the finer value first, where there is one that can
    /// be true.
    pub open spec fn celsius(self) -> Option<Single> {
        if self.high_precision_temperature is Some && plausible(
            celsius_of_decikelvin(self.high_precision_temperature->0),
        ) {
            Some(celsius_of_decikelvin(self.high_precision_temperature->0))
        } else if self.temperature is Some && plausible(celsius_of_kelvin(self.temperature->0)) {
            Some(celsius_of_kelvin(self.temperature->0))
        } else {
            None
        }
    }
}

/// The readings of the firmware's zones, in order.
pub open spec fn msacpi_readings(rows: Seq<MsAcpiThermalZoneTemperature>) -> Seq<
    (Seq<char>, Single),
>
    decreases rows.len(),
{
    if rows.len() == 0 {
        Seq::empty()
    } else {
        let rest = msacpi_readings(rows.drop_last());
        match rows.last().celsius() {
            Some(temp) => rest.push((zone_label(rows.last().instance_name), temp)),
            None => rest,
        }
    }
}

/// The readings of the performance counters' zones, in order.
pub open spec fn perf_readings(rows: Seq<ThermalZonePerfCounter>) -> Seq<(Seq<char>, Single)>
    decreases rows.len(),
{
    if rows.len() == 0 {
        Seq::empty()
    } else {
        let rest = perf_readings(rows.drop_last());
        match rows.last().celsius() {
            Some(temp) => rest.push((zone_label(rows.last().name), temp)),
            None => rest,
        }
    }
}

fn zone_label_text(name: &Option<String>) -> (r: String)
    ensures
        r@ == zone_label(*name),
{
    match name {
        Some(n) => clean_zone_name(n.as_str()),
        None => clean_zone_name("Thermal"),
    }
}

/// What to do after the firmware's zones were asked.
#[derive(Debug)]
pub enum ZoneStep {
    /// They have readings.
    Done(Vec<(String, Single)>),
    /// Ask the performance counters.
    AskCounters,
}

/// The thermal zones that Windows reports. They are zones of the firmware, not
/// sensors of the processor's cores.
pub struct WindowsWmiThermalProvider;

impl WindowsWmiThermalProvider {
    pub fn new() -> (r: WindowsWmiThermalProvider) {
        WindowsWmiThermalProvider
    }

    /// The readings of the firmware's zones, if there is any.
    pub fn query_msacpi(rows: &Vec<MsAcpiThermalZoneTemperature>) -> (r: Option<
        Vec<(String, Single)>,
    >)
        ensures
            match r {
                Some(readings) => named(readings@) == msacpi_readings(rows@) && readings@.len() > 0,
                None => msacpi_readings(rows@).len() == 0,
            },
    {
        let mut readings: Vec<(String, Single)> = Vec::new();
        let n = rows.len();
        assert(named(readings@) =~= Seq::<(Seq<char>, Single)>::empty());
        for i in 0..n
            invariant
                n == rows@.len(),
                named(readings@) == msacpi_readings(rows@.take(i as int)),
        {
            proof {
                assert(rows@.take(i + 1).drop_last() =~= rows@.take(i as int));
                assert(rows@.take(i + 1).last() == rows@[i as int]);
            }
            if let Some(raw) = rows[i].current_temperature {
                let temp = decikelvin_to_celsius(raw);
                if is_plausible_celsius(temp) {
                    let ghost before = readings@;
                    let name = zone_label_text(&rows[i].instance_name);
                    readings.push((name, temp));
                    assert(named(readings@) =~= named(before).push((name@, temp)));
                }
            }
        }
        assert(rows@.take(n as int) =~= rows@);
        assert(named(readings@).len() == readings@.len());
        if readings.len() == 0 {
            None
        } else {
            Some(readings)
        }
    }

    /// The step after the firmware's zones were asked: the performance counters are
    /// asked only where those gave no reading.
    pub fn after_msacpi(readings: Option<Vec<(String, Single)>>) -> (r: ZoneStep)
        ensures
            r == (match readings {
                Some(v) => ZoneStep::Done(v),
                None => ZoneStep::AskCounters,
            }),
    {
        match readings {
            Some(v) => ZoneStep::Done(v),
            None => ZoneStep::AskCounters,
        }
    }

    /// The readings of the performance counters' zones, if there is any.
    pub fn query_perf_counters(rows: &Vec<ThermalZonePerfCounter>) -> (r: Option<
        Vec<(String, Single)>,
    >)
        ensures
            match r {
                Some(readings) => named(readings@) == perf_readings(rows@) && readings@.len() > 0,
                None => perf_readings(rows@).len() == 0,
            },
    {
        let mut readings: Vec<(String, Single)> = Vec::new();
        let n = rows.len();
        assert(named(readings@) =~= Seq::<(Seq<char>, Single)>::empty());
        for i in 0..n
            invariant
                n == rows@.len(),
                named(readings@) == perf_readings(rows@.take(i as int)),
        {
            proof {
                assert(rows@.take(i + 1).drop_last() =~= rows@.take(i as int));
                assert(rows@.take(i + 1).last() == rows@[i as int]);
            }
            if let Some(temp) = rows[i].read() {
                let ghost before = readings@;
                let name = zone_label_text(&rows[i].name);
                readings.push((name, temp));
                assert(named(readings@) =~= named(before).push((name@, temp)));
            }
        }
        assert(rows@.take(n as int) =~= rows@);
        assert(named(readings@).len() == readings@.len());
        if readings.len() == 0 {
            None
        } else {
            Some(readings)
        }
    }

    /// The processor's temperature among the zones' readings, if there are any.
    pub fn read_cpu_temp_celsius(&self, readings: &Option<Vec<(String, Single)>>) -> (r: Option<
        Single,
    >)
        ensures
            r == (match readings {
                Some(v) => cpu_temp(named(v@)),
                None => None,
            }),
    {
        match readings {
            Some(v) => pick_cpu_temp(v),
            None => None,
        }
    }
}

impl ThermalZonePerfCounter {
    fn read(&self) -> (r: Option<Single>)
        ensures
            r == self.celsius(),
    {
        if let Some(raw) = self.high_precision_temperature {
            let temp = decikelvin_to_celsius(raw);
            if is_plausible_celsius(temp) {
                return Some(temp);
            }
        }
        if let Some(raw) = self.temperature {
            let temp = kelvin_to_celsius(raw);
            if is_plausible_celsius(temp) {
                return Some(temp);
            }
        }
        None
    }
}

/// Whether every reading can be true.
pub open spec fn all_plausible(readings: Seq<(Seq<char>, Single)>) -> bool {
    forall|i: int| 0 <= i < readings.len() ==> plausible((#[trigger] readings[i]).1)
}

/// A temperature picked among readings that can be true can be true.
pub proof fn law_picked_temperature_is_plausible(readings: Seq<(Seq<char>, Single)>)
    requires
        all_plausible(readings),
    ensures
        cpu_temp(readings) matches Some(temp) ==> plausible(temp),
{
    law_cpu_temp_is_a_reading(readings);
}

/// Only readings that can be true are taken from the system's components.
pub proof fn law_component_readings_are_plausible(components: Seq<(String, Option<Single>)>)
    ensures
        all_plausible(component_readings(components)),
    decreases components.len(),
{
    if components.len() > 0 {
        law_component_readings_are_plausible(components.drop_last());
    }
}

/// Only readings that can be true are taken from the firmware's thermal zones.
pub proof fn law_zone_readings_are_plausible(
    zones: Seq<MsAcpiThermalZoneTemperature>,
    counters: Seq<ThermalZonePerfCounter>,
)
    ensures
        all_plausible(msacpi_readings(zones)),
        all_plausible(perf_readings(counters)),
    decreases zones.len() + counters.len(),
{
    if zones.len() > 0 {
        law_zone_readings_are_plausible(zones.drop_last(), counters);
    }
    if counters.len() > 0 {
        law_zone_readings_are_plausible(zones, counters.drop_last());
    }
}

proof fn lemma_hottest_is(readings: Seq<(Seq<char>, Single)>, i: int)
    requires
        0 <= i < readings.len(),
        forall|j: int| 0 <= j < readings.len() ==> (#[trigger] readings[j]).1.at_most(readings[i].1),
        forall|j: int| i < j < readings.len() ==> (#[trigger] readings[j]).1.below(readings[i].1),
    ensures
        hottest(readings) == readings[i].1,
    decreases readings.len(),
{
    let n = readings.len();
    assert(readings[n - 1] == readings.last());
    if n > 1 {
        let rest = readings.drop_last();
        if i == n - 1 {
            let k = lemma_hottest(rest);
            assert(rest[k] == readings[k]);
            assert(readings[k].1.at_most(readings[i].1));
        } else {
            assert(rest[i] == readings[i]);
            assert forall|j: int| 0 <= j < rest.len() implies (#[trigger] rest[j]).1.at_most(
                rest[i].1,
            ) by {
                assert(rest[j] == readings[j]);
            }
            assert forall|j: int| i < j < rest.len() implies (#[trigger] rest[j]).1.below(
                rest[i].1,
            ) by {
                assert(rest[j] == readings[j]);
            }
            lemma_hottest_is(rest, i);
        }
    }
}

/// Which reading is the processor's. The first one whose sensor has `package` in its
/// name, in any case of letters; without one, the first with `tctl` or `tdie`; without
/// these, the first with `cpu` or `proc`; without any of them, the highest one, and the
/// last of those that are as high.
pub proof fn law_processor_before_the_hottest(readings: Seq<(String, Single)>, i: int)
    requires
        0 <= i < readings.len(),
    ensures
        text::contains(text::lower(readings[i].0@), "package"@) && (forall|j: int|
            0 <= j < i ==> !text::contains(text::lower((#[trigger] readings[j]).0@), "package"@))
            ==> cpu_temp(named(readings)) == Some(readings[i].1),
        (forall|j: int|
            0 <= j < readings.len() ==> !text::contains(
                text::lower((#[trigger] readings[j]).0@),
                "package"@,
            )) && (text::contains(text::lower(readings[i].0@), "tctl"@) || text::contains(
            text::lower(readings[i].0@),
            "tdie"@,
        )) && (forall|j: int|
            0 <= j < i ==> !text::contains(text::lower((#[trigger] readings[j]).0@), "tctl"@)
                && !text::contains(text::lower(readings[j].0@), "tdie"@)) ==> cpu_temp(
            named(readings),
        ) == Some(readings[i].1),
        (forall|j: int|
            0 <= j < readings.len() ==> !text::contains(
                text::lower((#[trigger] readings[j]).0@),
                "package"@,
            ) && !text::contains(text::lower(readings[j].0@), "tctl"@) && !text::contains(
                text::lower(readings[j].0@),
                "tdie"@,
            )) && (text::contains(text::lower(readings[i].0@), "cpu"@) || text::contains(
            text::lower(readings[i].0@),
            "proc"@,
        )) && (forall|j: int|
            0 <= j < i ==> !text::contains(text::lower((#[trigger] readings[j]).0@), "cpu"@)
                && !text::contains(text::lower(readings[j].0@), "proc"@)) ==> cpu_temp(
            named(readings),
        ) == Some(readings[i].1),
        (forall|j: int|
            0 <= j < readings.len() ==> !text::contains(
                text::lower((#[trigger] readings[j]).0@),
                "package"@,
            ) && !text::contains(text::lower(readings[j].0@), "tctl"@) && !text::contains(
                text::lower(readings[j].0@),
                "tdie"@,
            ) && !text::contains(text::lower(readings[j].0@), "cpu"@) && !text::contains(
                text::lower(readings[j].0@),
                "proc"@,
            )) && (forall|j: int|
            0 <= j < readings.len() ==> (#[trigger] readings[j]).1.at_most(readings[i].1)) && (
        forall|j: int|
            i < j < readings.len() ==> (#[trigger] readings[j]).1.below(readings[i].1))
            ==> cpu_temp(named(readings)) == Some(readings[i].1),
        cpu_temp(named(Seq::empty())) is None,
{
    let s = named(readings);
    assert(named(Seq::empty()).len() == 0);
    assert forall|j: int| 0 <= j < s.len() implies (#[trigger] s[j]).0 == readings[j].0@ && s[j].1
        == readings[j].1 by {}
    let p = first_of_class(s, SensorClass::Package);
    let d = first_of_class(s, SensorClass::Die);
    let c = first_of_class(s, SensorClass::Processor);
    lemma_first_of_class(s, SensorClass::Package);
    lemma_first_of_class(s, SensorClass::Die);
    lemma_first_of_class(s, SensorClass::Processor);
    assert(s[i].0 == readings[i].0@);
    if p < s.len() {
        assert(s[p].0 == readings[p].0@);
    }
    if d < s.len() {
        assert(s[d].0 == readings[d].0@);
    }
    if c < s.len() {
        assert(s[c].0 == readings[c].0@);
    }
    if (forall|j: int|
        0 <= j < readings.len() ==> (#[trigger] readings[j]).1.at_most(readings[i].1)) && (forall|
        j: int,
    |
        i < j < readings.len() ==> (#[trigger] readings[j]).1.below(readings[i].1)) {
        assert forall|j: int| 0 <= j < s.len() implies (#[trigger] s[j]).1.at_most(s[i].1) by {
            assert(readings[j].1.at_most(readings[i].1));
        }
        assert forall|j: int| i < j < s.len() implies (#[trigger] s[j]).1.below(s[i].1) by {
            assert(readings[j].1.below(readings[i].1));
        }
        lemma_hottest_is(s, i);
    }
}

/// A reading can be true from 40 degrees below zero to 150 above it.
pub proof fn law_plausible_readings(temp: Single)
    ensures
        plausible(temp) <==> !temp.nan() && -40 * pow2(149) <= temp.scaled() <= 150 * pow2(149),
{
}

/// The source that is asked first and has a reading is the one that counts, and its
/// reading too.
pub proof fn law_sources_are_asked_in_order(
    providers: Seq<TempSourceKind>,
    answers: Seq<Option<Single>>,
    asked: int,
    i: int,
)
    requires
        0 <= asked <= i < providers.len() <= usize::MAX,
        answers.len() == providers.len(),
        answers[i] is Some,
        forall|j: int| asked <= j < i ==> #[trigger] answers[j] is None,
    ensures
        chain_run(providers, answers, asked) == (answers[i], providers[i]),
    decreases i - asked,
{
    if asked < i {
        assert(answers[asked] is None);
        law_sources_are_asked_in_order(providers, answers, asked + 1, i);
    }
}

/// One more component adds its reading, by its label, where it has one from 40 degrees
/// below zero to 150 above it.
pub proof fn law_components_that_count(
    components: Seq<(String, Option<Single>)>,
    one: (String, Option<Single>),
)
    ensures
        component_readings(Seq::empty()).len() == 0,
        one.1 is Some && one.1->0.between(-40, 150) ==> component_readings(components.push(one))
            == component_readings(components).push((one.0@, one.1->0)),
        one.1 is None || !one.1->0.between(-40, 150) ==> component_readings(components.push(one))
            == component_readings(components),
{
    assert(components.push(one).drop_last() =~= components);
}

/// One more zone of the firmware adds its reading, by its short name, where its tenths
/// of a kelvin are a temperature that can be true.
pub proof fn law_zones_that_count(
    rows: Seq<MsAcpiThermalZoneTemperature>,
    one: MsAcpiThermalZoneTemperature,
)
    ensures
        msacpi_readings(Seq::empty()).len() == 0,
        one.current_temperature is Some && celsius_of_decikelvin(
            one.current_temperature->0,
        ).between(-40, 150) ==> msacpi_readings(rows.push(one)) == msacpi_readings(rows).push(
            (
                zone_name(
                    if one.instance_name is Some {
                        one.instance_name->0@
                    } else {
                        "Thermal"@
                    },
                ),
                celsius_of_decikelvin(one.current_temperature->0),
            ),
        ),
        one.current_temperature is None || !celsius_of_decikelvin(
            one.current_temperature->0,
        ).between(-40, 150) ==> msacpi_readings(rows.push(one)) == msacpi_readings(rows),
{
    assert(rows.push(one).drop_last() =~= rows);
}

/// One more zone of the performance counters adds its reading, by its short name: its
/// tenths of a kelvin where they are a temperature that can be true, else its kelvins
/// where they are.
pub proof fn law_counters_that_count(rows: Seq<ThermalZonePerfCounter>, one: ThermalZonePerfCounter)
    ensures
        ({
            let name = zone_name(
                if one.name is Some {
                    one.name->0@
                } else {
                    "Thermal"@
                },
            );
            let fine = one.high_precision_temperature;
            let coarse = one.temperature;
            let fine_counts = fine is Some && celsius_of_decikelvin(fine->0).between(-40, 150);
            let coarse_counts = coarse is Some && celsius_of_kelvin(coarse->0).between(-40, 150);
            let before = perf_readings(rows);
            let after = perf_readings(rows.push(one));
            &&& perf_readings(Seq::empty()).len() == 0
            &&& fine_counts ==> after == before.push((name, celsius_of_decikelvin(fine->0)))
            &&& !fine_counts && coarse_counts ==> after == before.push(
                (name, celsius_of_kelvin(coarse->0)),
            )
            &&& !fine_counts && !coarse_counts ==> after == before
        }),
{
    assert(rows.push(one).drop_last() =~= rows);
}

proof fn lemma_without_leading(start: Seq<char>, rest: Seq<char>, c: char)
    requires
        forall|i: int| 0 <= i < start.len() ==> start[i] == c,
        rest.len() > 0 ==> rest[0] != c,
    ensures
        without_leading(start + rest, c) == rest,
    decreases start.len(),
{
    if start.len() > 0 {
        let less = start.drop_first();
        assert forall|i: int| 0 <= i < less.len() implies less[i] == c by {
            assert(less[i] == start[i + 1]);
        }
        lemma_without_leading(less, rest, c);
        assert((start + rest)[0] == start[0]);
        assert((start + rest).drop_first() =~= less + rest);
    } else {
        assert(start + rest =~= rest);
    }
}

/// The short name of a zone: without the space around it, the backslashes and then the
/// underscores at its start go, then every `TZ.`, then every `ThermalZone`, and then the
/// space around what is left.
pub proof fn law_short_names(
    name: Seq<char>,
    slashes: Seq<char>,
    lines: Seq<char>,
    rest: Seq<char>,
)
    requires
        text::trim(name) == slashes + (lines + rest),
        forall|i: int| 0 <= i < slashes.len() ==> slashes[i] == '\\',
        forall|i: int| 0 <= i < lines.len() ==> lines[i] == '_',
        rest.len() > 0 ==> rest[0] != '_',
        rest.len() > 0 && lines.len() == 0 ==> rest[0] != '\\',
    ensures
        zone_name(name) == text::trim(without(without(rest, "TZ."@), "ThermalZone"@)),
{
    let tail = lines + rest;
    if tail.len() > 0 {
        if lines.len() > 0 {
            assert(tail[0] == lines[0]);
        } else {
            assert(tail[0] == rest[0]);
        }
    }
    lemma_without_leading(slashes, tail, '\\');
    lemma_without_leading(lines, rest, '_');
}

/// Taking a pattern out of a text: where it does not occur the text stays; else what
/// stands before its first place stays, and it is taken out of what comes after it.
pub proof fn law_taking_out(s: Seq<char>, pattern: Seq<char>, at: int)
    requires
        pattern.len() > 0,
        0 <= at <= s.len(),
        at < s.len() ==> text::stands_at(s, pattern, at),
        forall|k: int| 0 <= k < at ==> !text::stands_at(s, pattern, k),
    ensures
        at == s.len() ==> without(s, pattern) == s,
        at < s.len() ==> without(s, pattern) == s.take(at) + without(
            s.skip(at + pattern.len()),
            pattern,
        ),
    decreases s.len(),
{
    if s.len() > 0 && at > 0 {
        let rest = s.drop_first();
        assert(!text::stands_at(s, pattern, 0));
        assert forall|k: int| 0 <= k < at - 1 implies !text::stands_at(rest, pattern, k) by {
            assert(!text::stands_at(s, pattern, k + 1));
            text::law_stands_at(rest, pattern, k);
            text::law_stands_at(s, pattern, k + 1);
            if text::stands_at(rest, pattern, k) {
                assert forall|m: int| 0 <= m < pattern.len() implies s[k + 1 + m]
                    == #[trigger] pattern[m] by {
                    assert(rest[k + m] == pattern[m]);
                }
            }
        }
        if at < s.len() {
            text::law_stands_at(rest, pattern, at - 1);
            text::law_stands_at(s, pattern, at);
            assert forall|m: int| 0 <= m < pattern.len() implies rest[at - 1 + m]
                == #[trigger] pattern[m] by {
                assert(s[at + m] == pattern[m]);
            }
        }
        law_taking_out(rest, pattern, at - 1);
        if at == s.len() {
            assert(seq![s[0]] + rest =~= s);
        } else {
            assert(rest.skip(at - 1 + pattern.len()) =~= s.skip(at + pattern.len()));
            assert(seq![s[0]] + (rest.take(at - 1) + without(
                s.skip(at + pattern.len()),
                pattern,
            )) =~= s.take(at) + without(s.skip(at + pattern.len()), pattern));
        }
    } else if s.len() > 0 {
        assert(s.take(0) + without(s.skip(pattern.len() as int), pattern) =~= without(
            s.skip(pattern.len() as int),
            pattern,
        ));
    }
}

/// Among readings of which none is the processor's by its name, one more is the one that
/// counts, unless it is below the one that did.
pub proof fn law_one_more_reading(readings: Seq<(String, Single)>, one: (String, Single))
    requires
        forall|j: int|
            0 <= j < readings.push(one).len() ==> {
                let name = text::lower((#[trigger] readings.push(one)[j]).0@);
                &&& !text::contains(name, "package"@)
                &&& !text::contains(name, "tctl"@) && !text::contains(name, "tdie"@)
                &&& !text::contains(name, "cpu"@) && !text::contains(name, "proc"@)
            },
    ensures
        readings.len() == 0 ==> cpu_temp(named(readings.push(one))) == Some(one.1),
        readings.len() > 0 ==> {
            let before = cpu_temp(named(readings));
            &&& before is Some
            &&& one.1.below(before->0) ==> cpu_temp(named(readings.push(one))) == before
            &&& !one.1.below(before->0) ==> cpu_temp(named(readings.push(one))) == Some(one.1)
        },
{
    let all = readings.push(one);
    let s = named(all);
    let t = named(readings);
    assert(s.drop_last() =~= t);
    assert(s.last() == (one.0@, one.1));
    lemma_first_of_class(s, SensorClass::Package);
    lemma_first_of_class(s, SensorClass::Die);
    lemma_first_of_class(s, SensorClass::Processor);
    lemma_first_of_class(t, SensorClass::Package);
    lemma_first_of_class(t, SensorClass::Die);
    lemma_first_of_class(t, SensorClass::Processor);
    assert forall|j: int| 0 <= j < s.len() implies !SensorClass::Package.covers(
        (#[trigger] s[j]).0,
    ) && !SensorClass::Die.covers(s[j].0) && !SensorClass::Processor.covers(s[j].0) by {
        assert(s[j].0 == all[j].0@);
    }
    assert forall|j: int| 0 <= j < t.len() implies #[trigger] t[j] == s[j] by {}
}

/// Readings are seen one by one.
pub proof fn law_readings_are_seen(readings: Seq<(String, Single)>)
    ensures
        named(readings).len() == readings.len(),
        forall|i: int|
            0 <= i < readings.len() ==> #[trigger] named(readings)[i] == (
                readings[i].0@,
                readings[i].1,
            ),
{
}

} // verus!
