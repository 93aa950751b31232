//! The graphics card in a sensor tree: which nodes are cards, what their sensors
//! say, and which card is the main one.

use crate::bignat::Side;
use crate::ieee;
use crate::ieee::Format;
use crate::lhm_tree;
use crate::lhm_tree::{parse_lhm_number, text_or_empty, LhmNode};
use crate::number;
use crate::number::Single;
use crate::temperature;
use crate::temperature_lhm::GpuMetrics;
use crate::text;
use vstd::arithmetic::power2::*;
use vstd::prelude::*;
use vstd::string::*;

verus! {

/// What the sensors of one card say. Memory is in mebibytes.
#[derive(Clone, Copy, PartialEq, Eq, Structural, Debug)]
pub struct GpuSensors {
    pub load_percent: Option<Single>,
    pub memory_used_mb: Option<Single>,
    pub memory_total_mb: Option<Single>,
    pub memory_percent: Option<Single>,
    pub temp_celsius: Option<Single>,
}

/// A card, with how much speaks for its being the main one.
#[derive(Debug)]
pub struct GpuCandidate {
    pub name: String,
    pub score: i64,
    pub sensors: GpuSensors,
}

/// What a candidate holds.
pub ghost struct CandidateView {
    pub name: Seq<char>,
    pub score: int,
    pub sensors: GpuSensors,
}

impl View for GpuCandidate {
    type V = CandidateView;

    open spec fn view(&self) -> CandidateView {
        CandidateView { name: self.name@, score: self.score as int, sensors: self.sensors }
    }
}

/// What is shown of a card.
pub ghost struct GpuView {
    pub name: Seq<char>,
    pub load_percent: Option<Single>,
    pub memory_used_bytes: Option<u64>,
    pub memory_total_bytes: Option<u64>,
    pub memory_percent: Option<Single>,
    pub temp_celsius: Option<Single>,
}

impl View for GpuMetrics {
    type V = GpuView;

    open spec fn view(&self) -> GpuView {
        GpuView {
            name: self.name@,
            load_percent: self.load_percent,
            memory_used_bytes: self.memory_used_bytes,
            memory_total_bytes: self.memory_total_bytes,
            memory_percent: self.memory_percent,
            temp_celsius: self.temp_celsius,
        }
    }
}

impl GpuSensors {
    /// Whether no sensor says anything.
    pub open spec fn silent(self) -> bool {
        &&& self.load_percent is None
        &&& self.memory_used_mb is None
        &&& self.memory_total_mb is None
        &&& self.memory_percent is None
        &&& self.temp_celsius is None
    }

    pub open spec fn none() -> GpuSensors {
        GpuSensors {
            load_percent: None,
            memory_used_mb: None,
            memory_total_mb: None,
            memory_percent: None,
            temp_celsius: None,
        }
    }

    pub fn new() -> (r: GpuSensors)
        ensures
            r == GpuSensors::none(),
    {
        GpuSensors {
            load_percent: None,
            memory_used_mb: None,
            memory_total_mb: None,
            memory_percent: None,
            temp_celsius: None,
        }
    }

    pub fn is_silent(&self) -> (r: bool)
        ensures
            r == self.silent(),
    {
        self.load_percent.is_none() && self.temp_celsius.is_none()
            && self.memory_used_mb.is_none() && self.memory_total_mb.is_none()
            && self.memory_percent.is_none()
    }
}

/// The number that a sensor shows.
pub open spec fn sensor_value(value: Option<Seq<char>>) -> Option<Single> {
    match value {
        Some(raw) => lhm_tree::lhm_number(raw),
        None => None,
    }
}

/// The number, if it is a percentage.
pub open spec fn as_percent(value: Option<Single>) -> Option<Single> {
    if value is Some && value->0.between(0, 100) {
        value
    } else {
        None
    }
}

/// The number, if it is an amount; above zero where it must be.
pub open spec fn as_amount(value: Option<Single>, above_zero: bool) -> Option<Single> {
    if value is Some && value->0.finite() && (if above_zero {
        value->0.scaled() > 0
    } else {
        value->0.scaled() >= 0
    }) {
        value
    } else {
        None
    }
}

/// The number, if it can be a temperature.
pub open spec fn as_temperature(value: Option<Single>) -> Option<Single> {
    if value is Some && temperature::plausible(value->0) {
        value
    } else {
        None
    }
}

/// The first of the two that there is.
pub open spec fn or(a: Option<Single>, b: Option<Single>) -> Option<Single> {
    if a is Some {
        a
    } else {
        b
    }
}

/// What is known of a card's load after a load sensor of this name.
pub open spec fn with_load(name: Seq<char>, value: Option<Single>, s: GpuSensors) -> GpuSensors {
    if name == "gpu core"@ || name == "d3d 3d"@ || name == "gpu render/compute"@ {
        GpuSensors { load_percent: or(s.load_percent, as_percent(value)), ..s }
    } else if name == "gpu memory"@ || name == "d3d dedicated memory used"@ {
        GpuSensors { memory_percent: or(s.memory_percent, as_percent(value)), ..s }
    } else {
        s
    }
}

/// What is known of a card's temperature after a temperature sensor of this name.
pub open spec fn with_temperature(
    name: Seq<char>,
    value: Option<Single>,
    s: GpuSensors,
) -> GpuSensors {
    if name == "gpu core"@ {
        GpuSensors { temp_celsius: or(as_temperature(value), s.temp_celsius), ..s }
    } else if name == "gpu hotspot"@ || name == "gpu hot spot"@ || name == "temperature"@ {
        GpuSensors { temp_celsius: or(s.temp_celsius, as_temperature(value)), ..s }
    } else {
        s
    }
}

/// What is known of a card's memory after a data sensor of this name. What the card
/// itself says replaces what the system said.
pub open spec fn with_data(name: Seq<char>, value: Option<Single>, s: GpuSensors) -> GpuSensors {
    if name == "gpu memory used"@ {
        GpuSensors { memory_used_mb: as_amount(value, false), ..s }
    } else if name == "d3d dedicated memory used"@ || name == "d3d shared memory used"@ {
        GpuSensors { memory_used_mb: or(s.memory_used_mb, as_amount(value, false)), ..s }
    } else if name == "gpu memory total"@ {
        GpuSensors { memory_total_mb: as_amount(value, true), ..s }
    } else if name == "d3d dedicated memory total"@ || name == "d3d shared memory total"@ {
        GpuSensors { memory_total_mb: or(s.memory_total_mb, as_amount(value, true)), ..s }
    } else {
        s
    }
}

/// What is known of a card after one more sensor.
pub open spec fn after_sensor(node: lhm_tree::NodeView, s: GpuSensors) -> GpuSensors {
    let name = text::lower(lhm_tree::or_empty(node.text));
    let value = sensor_value(node.value);
    if lhm_tree::is_kind(node.sensor_type, "Load"@) {
        with_load(name, value, s)
    } else if lhm_tree::is_kind(node.sensor_type, "Temperature"@) {
        with_temperature(name, value, s)
    } else if lhm_tree::is_kind(node.sensor_type, "SmallData"@) || lhm_tree::is_kind(
        node.sensor_type,
        "Data"@,
    ) {
        with_data(name, value, s)
    } else {
        s
    }
}

/// What is known of a card after the first `n` nodes and all below each.
pub open spec fn after_sensors(nodes: Seq<lhm_tree::NodeView>, n: int, s: GpuSensors) -> GpuSensors
    decreases nodes, n,
{
    if n <= 0 || n > nodes.len() {
        s
    } else {
        let own = after_sensor(nodes[n - 1], after_sensors(nodes, n - 1, s));
        match nodes[n - 1].children {
            Some(below) => after_sensors(below, below.len() as int, own),
            None => own,
        }
    }
}

fn percent_or_none(value: Option<Single>) -> (r: Option<Single>)
    ensures
        r == as_percent(value),
{
    match value {
        Some(v) => if v.is_between(0, 100) {
            value
        } else {
            None
        },
        None => None,
    }
}

fn amount_or_none(value: Option<Single>, above_zero: bool) -> (r: Option<Single>)
    ensures
        r == as_amount(value, above_zero),
{
    match value {
        Some(v) => {
            let zero = Single::whole(0);
            assert(0 * pow2(149) == 0) by (nonlinear_arith);
            if v.is_finite() && (if above_zero {
                zero.is_below(v)
            } else {
                zero.is_at_most(v)
            }) {
                value
            } else {
                None
            }
        },
        None => None,
    }
}

fn temperature_or_none(value: Option<Single>) -> (r: Option<Single>)
    ensures
        r == as_temperature(value),
{
    match value {
        Some(v) => if temperature::is_plausible_celsius(v) {
            value
        } else {
            None
        },
        None => None,
    }
}

fn either(a: Option<Single>, b: Option<Single>) -> (r: Option<Single>)
    ensures
        r == or(a, b),
{
    if a.is_some() {
        a
    } else {
        b
    }
}

fn note_load(name: &Vec<char>, value: Option<Single>, s: &mut GpuSensors)
    ensures
        *final(s) == with_load(name@, value, *old(s)),
{
    if text::is_text(name, "gpu core") || text::is_text(name, "d3d 3d") || text::is_text(
        name,
        "gpu render/compute",
    ) {
        s.load_percent = either(s.load_percent, percent_or_none(value));
    } else if text::is_text(name, "gpu memory") || text::is_text(name, "d3d dedicated memory used") {
        s.memory_percent = either(s.memory_percent, percent_or_none(value));
    }
}

fn note_temperature(name: &Vec<char>, value: Option<Single>, s: &mut GpuSensors)
    ensures
        *final(s) == with_temperature(name@, value, *old(s)),
{
    if text::is_text(name, "gpu core") {
        s.temp_celsius = either(temperature_or_none(value), s.temp_celsius);
    } else if text::is_text(name, "gpu hotspot") || text::is_text(name, "gpu hot spot")
        || text::is_text(name, "temperature") {
        s.temp_celsius = either(s.temp_celsius, temperature_or_none(value));
    }
}

fn note_data(name: &Vec<char>, value: Option<Single>, s: &mut GpuSensors)
    ensures
        *final(s) == with_data(name@, value, *old(s)),
{
    if text::is_text(name, "gpu memory used") {
        s.memory_used_mb = amount_or_none(value, false);
    } else if text::is_text(name, "d3d dedicated memory used") || text::is_text(
        name,
        "d3d shared memory used",
    ) {
        s.memory_used_mb = either(s.memory_used_mb, amount_or_none(value, false));
    } else if text::is_text(name, "gpu memory total") {
        s.memory_total_mb = amount_or_none(value, true);
    } else if text::is_text(name, "d3d dedicated memory total") || text::is_text(
        name,
        "d3d shared memory total",
    ) {
        s.memory_total_mb = either(s.memory_total_mb, amount_or_none(value, true));
    }
}

fn note_sensor(node: &LhmNode, s: &mut GpuSensors)
    ensures
        *final(s) == after_sensor(node@, *old(s)),
{
    let kind = text_or_empty(&node.sensor_type);
    let name = text::lowered(&text::chars_of(text_or_empty(&node.text)));
    let value = match &node.value {
        Some(raw) => parse_lhm_number(raw.as_str()),
        None => None,
    };
    if text::same_ignoring_case(kind, "Load") {
        note_load(&name, value, s);
    } else if text::same_ignoring_case(kind, "Temperature") {
        note_temperature(&name, value, s);
    } else if text::same_ignoring_case(kind, "SmallData") || text::same_ignoring_case(kind, "Data") {
        note_data(&name, value, s);
    }
}

/// Collects what the sensors among the nodes and all below them say of a card.
pub fn collect_gpu_sensors(nodes: &Vec<LhmNode>, s: &mut GpuSensors)
    ensures
        *final(s) == after_sensors(
            lhm_tree::nodes_view(nodes@, nodes@.len() as int),
            nodes@.len() as int,
            *old(s),
        ),
    decreases nodes,
{
    let n = nodes.len();
    let ghost seen = lhm_tree::nodes_view(nodes@, n as int);
    let ghost start = *s;
    proof {
        lhm_tree::lemma_nodes_view(nodes@, n as int);
    }
    for i in 0..n
        invariant
            n == nodes@.len(),
            seen.len() == n,
            forall|j: int| 0 <= j < n ==> #[trigger] seen[j] == lhm_tree::node_view(nodes@[j]),
            *s == after_sensors(seen, i as int, start),
    {
        assert(seen[i as int] == nodes@[i as int]@);
        note_sensor(&nodes[i], s);
        if let Some(below) = &nodes[i].children {
            assert(decreases_to!(nodes => nodes@[i as int].children->0));
            collect_gpu_sensors(below, s);
            proof {
                lhm_tree::lemma_nodes_view(below@, below@.len() as int);
            }
        }
    }
}

/// Whether an icon or a name is one of a graphics card.
pub open spec fn card_icon(image: Seq<char>) -> bool {
    ||| text::contains(image, "nvidia"@)
    ||| text::contains(image, "ati"@)
    ||| text::contains(image, "amd"@)
    ||| text::contains(image, "gpu"@)
}

pub open spec fn card_name(name: Seq<char>) -> bool {
    ||| text::contains(name, "nvidia"@)
    ||| text::contains(name, "geforce"@)
    ||| text::contains(name, "quadro"@)
    ||| text::contains(name, "rtx "@)
    ||| text::contains(name, "gtx "@)
    ||| text::contains(name, "radeon"@)
    ||| text::contains(name, "amd "@)
    ||| text::contains(name, "intel arc"@)
    ||| text::contains(name, "iris"@)
    ||| text::contains(name, "uhd graphics"@)
    ||| text::contains(name, "hd graphics"@)
}

/// Whether a node's name starts as that of a card's core does.
pub open spec fn core_name(node: lhm_tree::NodeView) -> bool {
    text::stands_at(text::lower(lhm_tree::or_empty(node.text)), "gpu core"@, 0)
}

/// Whether a node is a graphics card: by its icon, its name, or a core below it.
pub open spec fn is_card(node: lhm_tree::NodeView) -> bool {
    ||| card_icon(text::lower(lhm_tree::or_empty(node.image_url)))
    ||| card_name(text::lower(lhm_tree::or_empty(node.text)))
    ||| node.children is Some && exists|i: int|
        0 <= i < node.children->0.len() && core_name(#[trigger] node.children->0[i])
}

pub fn is_gpu_hardware(node: &LhmNode) -> (r: bool)
    ensures
        r == is_card(node@),
{
    let image = text::lowered(&text::chars_of(text_or_empty(&node.image_url)));
    if text::has_text(&image, "nvidia") || text::has_text(&image, "ati") || text::has_text(
        &image,
        "amd",
    ) || text::has_text(&image, "gpu") {
        return true;
    }
    let name = text::lowered(&text::chars_of(text_or_empty(&node.text)));
    if text::has_text(&name, "nvidia") || text::has_text(&name, "geforce") || text::has_text(
        &name,
        "quadro",
    ) || text::has_text(&name, "rtx ") || text::has_text(&name, "gtx ") || text::has_text(
        &name,
        "radeon",
    ) || text::has_text(&name, "amd ") || text::has_text(&name, "intel arc") || text::has_text(
        &name,
        "iris",
    ) || text::has_text(&name, "uhd graphics") || text::has_text(&name, "hd graphics") {
        return true;
    }
    if let Some(nodes) = &node.children {
        let n = nodes.len();
        let ghost seen = lhm_tree::nodes_view(nodes@, n as int);
        proof {
            lhm_tree::lemma_nodes_view(nodes@, n as int);
        }
        for i in 0..n
            invariant
                n == nodes@.len(),
                seen.len() == n,
                node@.children == Some(seen),
                forall|j: int| 0 <= j < n ==> #[trigger] seen[j] == lhm_tree::node_view(nodes@[j]),
                forall|j: int| 0 <= j < i ==> !core_name(#[trigger] seen[j]),
        {
            assert(seen[i as int] == nodes@[i as int]@);
            let below = text::lowered(&text::chars_of(text_or_empty(&nodes[i].text)));
            if text::starts_with(&below, "gpu core") {
                assert(core_name(node@.children->0[i as int]));
                return true;
            }
        }
    }
    false
}

/// How much a card's name and icon, in lower case, speak for its being the main one:
/// a card of its own before one that is part of the processor.
pub open spec fn priority(name: Seq<char>, image: Seq<char>) -> int {
    if {
        ||| text::contains(name, "nvidia"@)
        ||| text::contains(name, "geforce"@)
        ||| text::contains(name, "quadro"@)
        ||| text::contains(name, "rtx"@)
        ||| text::contains(name, "gtx"@)
        ||| text::contains(image, "nvidia"@)
        ||| text::contains(name, "radeon"@)
        ||| text::contains(name, "amd"@)
        ||| text::contains(image, "ati"@)
        ||| text::contains(image, "amd"@)
    } {
        100
    } else if text::contains(name, "intel arc"@) || text::contains(name, "arc "@) {
        80
    } else if {
        ||| text::contains(name, "iris"@)
        ||| text::contains(name, "uhd"@)
        ||| text::contains(name, "hd graphics"@)
        ||| text::contains(name, "intel"@)
    } {
        10
    } else {
        40
    }
}

pub fn gpu_priority_score(name: &str, image: &str) -> (r: i32)
    ensures
        r == priority(text::lower(name@), text::lower(image@)),
{
    let n = text::lowered(&text::chars_of(name));
    let img = text::lowered(&text::chars_of(image));
    if text::has_text(&n, "nvidia") || text::has_text(&n, "geforce") || text::has_text(&n, "quadro")
        || text::has_text(&n, "rtx") || text::has_text(&n, "gtx") || text::has_text(
        &img,
        "nvidia",
    ) {
        return 100;
    }
    if text::has_text(&n, "radeon") || text::has_text(&n, "amd") || text::has_text(&img, "ati")
        || text::has_text(&img, "amd") {
        return 100;
    }
    if text::has_text(&n, "intel arc") || text::has_text(&n, "arc ") {
        return 80;
    }
    if text::has_text(&n, "iris") || text::has_text(&n, "uhd") || text::has_text(&n, "hd graphics")
        || text::has_text(&n, "intel") {
        return 10;
    }
    40
}

/// What a card's memory adds to its score: one point for each full 256 mebibytes,
/// as many as an `i32` holds.
pub open spec fn memory_points(total_mb: Option<Single>) -> int {
    match total_mb {
        Some(total) => {
            let points = ieee::whole_part(Format::Single, total.parts().mag as nat, 157);
            if points > i32::MAX {
                i32::MAX as int
            } else {
                points as int
            }
        },
        None => 0,
    }
}

/// The card that a node describes, if it has a name and a sensor that says
/// something.
pub open spec fn candidate(node: lhm_tree::NodeView) -> Option<CandidateView> {
    let name = text::trim(lhm_tree::or_empty(node.text));
    let sensors = match node.children {
        Some(below) => after_sensors(below, below.len() as int, GpuSensors::none()),
        None => GpuSensors::none(),
    };
    if name.len() == 0 || sensors.silent() {
        None
    } else {
        Some(
            CandidateView {
                name,
                score: priority(
                    text::lower(name),
                    text::lower(lhm_tree::or_empty(node.image_url)),
                ) + memory_points(sensors.memory_total_mb) + if sensors.load_percent is Some {
                    20int
                } else {
                    0
                },
                sensors,
            },
        )
    }
}

/// Every number that a sensor says is a percentage, an amount or a temperature.
pub open spec fn sound(s: GpuSensors) -> bool {
    &&& s.load_percent == as_percent(s.load_percent)
    &&& s.memory_percent == as_percent(s.memory_percent)
    &&& s.memory_used_mb == as_amount(s.memory_used_mb, false)
    &&& s.memory_total_mb == as_amount(s.memory_total_mb, true)
    &&& s.temp_celsius == as_temperature(s.temp_celsius)
}

/// Sensors only ever add numbers in their range.
pub proof fn law_sensors_are_sound(nodes: Seq<lhm_tree::NodeView>, n: int, s: GpuSensors)
    requires
        sound(s),
    ensures
        sound(after_sensors(nodes, n, s)),
    decreases nodes, n,
{
    if 0 < n <= nodes.len() {
        law_sensors_are_sound(nodes, n - 1, s);
        let own = after_sensor(nodes[n - 1], after_sensors(nodes, n - 1, s));
        if let Some(below) = nodes[n - 1].children {
            law_sensors_are_sound(below, below.len() as int, own);
        }
    }
}

pub fn parse_gpu_hardware(node: &LhmNode) -> (r: Option<GpuCandidate>)
    ensures
        match r {
            Some(c) => candidate(node@) == Some(c@),
            None => candidate(node@) is None,
        },
{
    let name = text::trimmed(&text::chars_of(text_or_empty(&node.text)));
    if name.len() == 0 {
        return None;
    }
    let name = text::string_of(&name);
    let image = text_or_empty(&node.image_url);
    let mut sensors = GpuSensors::new();
    if let Some(nodes) = &node.children {
        collect_gpu_sensors(nodes, &mut sensors);
        proof {
            lhm_tree::lemma_nodes_view(nodes@, nodes@.len() as int);
            law_sensors_are_sound(
                lhm_tree::nodes_view(nodes@, nodes@.len() as int),
                nodes@.len() as int,
                GpuSensors::none(),
            );
        }
    }
    if sensors.is_silent() {
        return None;
    }
    let mut score: i64 = gpu_priority_score(name.as_str(), image) as i64;
    if let Some(total) = sensors.memory_total_mb {
        let points = ieee::whole(Format::Single, total.split().mag, 157);
        score = score + if points > i32::MAX as u128 {
            i32::MAX as i64
        } else {
            points as i64
        };
    }
    if sensors.load_percent.is_some() {
        score = score + 20;
    }
    Some(GpuCandidate { name, score, sensors })
}

/// The cards at and below a node; what is below a card is part of it.
pub open spec fn candidates(node: lhm_tree::NodeView) -> Seq<CandidateView>
    decreases node, 0int,
{
    if is_card(node) {
        match candidate(node) {
            Some(c) => seq![c],
            None => Seq::empty(),
        }
    } else {
        match node.children {
            Some(below) => candidates_of(below, below.len() as int),
            None => Seq::empty(),
        }
    }
}

/// The cards at and below the first `n` nodes.
pub open spec fn candidates_of(nodes: Seq<lhm_tree::NodeView>, n: int) -> Seq<CandidateView>
    decreases nodes, n,
{
    if n <= 0 || n > nodes.len() {
        Seq::empty()
    } else {
        candidates_of(nodes, n - 1) + candidates(nodes[n - 1])
    }
}

/// What each candidate holds.
pub open spec fn candidate_views(v: Seq<GpuCandidate>) -> Seq<CandidateView> {
    v.map_values(|c: GpuCandidate| c@)
}

pub fn walk_for_gpu(node: &LhmNode, out: &mut Vec<GpuCandidate>)
    ensures
        candidate_views(final(out)@) == candidate_views(old(out)@) + candidates(node@),
    decreases node,
{
    let ghost start = candidate_views(out@);
    if is_gpu_hardware(node) {
        if let Some(c) = parse_gpu_hardware(node) {
            out.push(c);
        }
        assert(candidate_views(out@) =~= start + candidates(node@));
        return;
    }
    match &node.children {
        Some(nodes) => {
            let n = nodes.len();
            let ghost seen = lhm_tree::nodes_view(nodes@, n as int);
            proof {
                lhm_tree::lemma_nodes_view(nodes@, n as int);
            }
            assert(start + candidates_of(seen, 0) =~= start);
            for i in 0..n
                invariant
                    n == nodes@.len(),
                    node.children == Some(*nodes),
                    seen.len() == n,
                    forall|j: int|
                        0 <= j < n ==> #[trigger] seen[j] == lhm_tree::node_view(nodes@[j]),
                    candidate_views(out@) == start + candidates_of(seen, i as int),
            {
                assert(decreases_to!(node => node.children->0@[i as int]));
                assert(seen[i as int] == nodes@[i as int]@);
                walk_for_gpu(&nodes[i], out);
                proof {
                    let more = candidates(seen[i as int]);
                    assert(start + candidates_of(seen, i as int) + more =~= start + (candidates_of(
                        seen,
                        i as int,
                    ) + more));
                }
            }
        },
        None => {
            assert(start + candidates(node@) =~= start);
        },
    }
}

pub fn collect_gpu_candidates(root: &LhmNode) -> (r: Vec<GpuCandidate>)
    ensures
        candidate_views(r@) == candidates(root@),
{
    let mut out: Vec<GpuCandidate> = Vec::new();
    walk_for_gpu(root, &mut out);
    assert(candidate_views(Seq::empty()) + candidates(root@) =~= candidates(root@));
    out
}

/// Whether `a` comes before `b`: by a higher score, or by its name where the scores
/// are equal.
pub open spec fn better(a: CandidateView, b: CandidateView) -> bool {
    a.score > b.score || (a.score == b.score && text::before(a.name, b.name))
}

/// The index of the best of the first `n` candidates, the first one of equals.
pub open spec fn best(s: Seq<CandidateView>, n: int) -> int
    decreases n,
{
    if n <= 1 {
        0
    } else {
        let b = best(s, n - 1);
        if better(s[n - 1], s[b]) {
            n - 1
        } else {
            b
        }
    }
}

/// No candidate comes before the best one.
pub proof fn law_nothing_beats_the_best(s: Seq<CandidateView>, n: int)
    requires
        1 <= n <= s.len(),
    ensures
        0 <= best(s, n) < n,
        forall|j: int| 0 <= j < n ==> !better(#[trigger] s[j], s[best(s, n)]),
    decreases n,
{
    text::lemma_before_order();
    if n > 1 {
        law_nothing_beats_the_best(s, n - 1);
        assert forall|j: int| 0 <= j < n implies !better(#[trigger] s[j], s[best(s, n)]) by {
            let b = best(s, n - 1);
            if j < n - 1 {
                assert(!better(s[j], s[b]));
                if better(s[n - 1], s[b]) && better(s[j], s[n - 1]) {
                    assert(better(s[j], s[b]));
                }
            }
        }
    } else {
        assert(!better(s[0], s[0]));
    }
}

/// Mebibytes in bytes, as many as a `u64` holds.
pub open spec fn mebibytes(mb: Option<Single>) -> Option<u64> {
    match mb {
        Some(v) => {
            let bytes = ieee::whole_part(Format::Single, v.parts().mag as nat, 129);
            Some(
                if v.nan() || v.parts().neg {
                    0
                } else if bytes > u64::MAX {
                    u64::MAX
                } else {
                    bytes as u64
                },
            )
        },
        None => None,
    }
}

/// `x` where it is between 0 and 100, else the nearer of the two.
pub open spec fn clamped(x: Single) -> Single {
    if x.below(number::single_whole(0)) {
        number::single_whole(0)
    } else if number::single_whole(100).below(x) {
        number::single_whole(100)
    } else {
        x
    }
}

/// The share of the memory in use: what the card says, or else what follows from
/// the amounts.
pub open spec fn memory_share(s: GpuSensors) -> Option<Single> {
    if s.memory_percent is Some {
        s.memory_percent
    } else if s.memory_used_mb is Some && s.memory_total_mb is Some && number::single_whole(
        0,
    ).below(s.memory_total_mb->0) {
        Some(
            clamped(
                s.memory_used_mb->0.quotient(s.memory_total_mb->0).product(
                    number::single_whole(100),
                ),
            ),
        )
    } else {
        None
    }
}

/// The share of the memory in use is 0 to 100 percent.
pub proof fn law_memory_share_is_a_percentage(s: GpuSensors)
    requires
        sound(s),
    ensures
        memory_share(s) matches Some(share) ==> share.between(0, 100),
{
    if s.memory_percent is None && s.memory_used_mb is Some && s.memory_total_mb is Some {
        let used = s.memory_used_mb->0;
        let total = s.memory_total_mb->0;
        let f = Format::Single;
        let quotient = used.quotient(total);
        let num = ieee::units(f, used.parts().mag as nat) * pow2(149);
        let den = ieee::units(f, total.parts().mag as nat);
        ieee::law_rounding_exists(f, num, den);
        assert(quotient.parts().mag <= f.infinity());
        number::lemma_small_whole(100);
        number::lemma_small_whole(0);
        let hundred = number::single_whole(100);
        assert(hundred.parts().mag != 0) by {
            lemma_pow2_pos(149);
            assert(ieee::units(f, 0) == 0);
        }
        ieee::law_rounding_exists(
            f,
            ieee::units(f, quotient.parts().mag as nat) * ieee::units(
                f,
                hundred.parts().mag as nat,
            ),
            pow2(149),
        );
        let x = quotient.product(hundred);
        assert(!x.nan());
        assert(0 * pow2(149) == 0 && 0 <= 100 * pow2(149)) by (nonlinear_arith);
    }
}

/// What is shown of a card.
pub open spec fn shown(c: CandidateView) -> GpuView {
    GpuView {
        name: c.name,
        load_percent: c.sensors.load_percent,
        memory_used_bytes: mebibytes(c.sensors.memory_used_mb),
        memory_total_bytes: mebibytes(c.sensors.memory_total_mb),
        memory_percent: memory_share(c.sensors),
        temp_celsius: c.sensors.temp_celsius,
    }
}

/// What is shown of the main card, if there is one.
pub open spec fn primary(cards: Seq<CandidateView>) -> Option<GpuView> {
    let b = best(cards, cards.len() as int);
    if cards.len() == 0 || cards[b].sensors.silent() {
        None
    } else {
        Some(shown(cards[b]))
    }
}

fn bytes_of(mb: Option<Single>) -> (r: Option<u64>)
    ensures
        r == mebibytes(mb),
{
    match mb {
        Some(v) => {
            let p = v.split();
            if v.is_nan() || p.neg {
                return Some(0);
            }
            let bytes = ieee::whole(Format::Single, p.mag, 129);
            Some(if bytes > u64::MAX as u128 {
                u64::MAX
            } else {
                bytes as u64
            })
        },
        None => None,
    }
}

fn share_of(s: &GpuSensors) -> (r: Option<Single>)
    ensures
        r == memory_share(*s),
{
    if s.memory_percent.is_some() {
        return s.memory_percent;
    }
    match (s.memory_used_mb, s.memory_total_mb) {
        (Some(used), Some(total)) => {
            let low = Single::whole(0);
            let high = Single::whole(100);
            if !low.is_below(total) {
                return None;
            }
            let x = used.over(total).times(high);
            Some(if x.is_below(low) {
                low
            } else if high.is_below(x) {
                high
            } else {
                x
            })
        },
        _ => None,
    }
}

/// Picks the main card.
pub fn pick_primary_gpu(candidates: Vec<GpuCandidate>) -> (r: Option<GpuMetrics>)
    ensures
        match r {
            Some(g) => primary(candidate_views(candidates@)) == Some(g@),
            None => primary(candidate_views(candidates@)) is None,
        },
{
    let n = candidates.len();
    if n == 0 {
        return None;
    }
    let ghost cards = candidate_views(candidates@);
    let mut b: usize = 0;
    for i in 1..n
        invariant
            n == candidates@.len(),
            cards == candidate_views(candidates@),
            1 <= i <= n,
            b < n,
            b == best(cards, i as int),
    {
        assert(cards[i as int] == candidates@[i as int]@);
        assert(cards[b as int] == candidates@[b as int]@);
        if candidates[i].score > candidates[b].score || (candidates[i].score == candidates[b].score
            && text::order(candidates[i].name.as_str(), candidates[b].name.as_str())
            == Side::Below) {
            b = i;
        }
    }
    assert(cards[b as int] == candidates@[b as int]@);
    let sensors = candidates[b].sensors;
    let memory_used_bytes = bytes_of(sensors.memory_used_mb);
    let memory_total_bytes = bytes_of(sensors.memory_total_mb);
    let memory_percent = share_of(&sensors);
    if sensors.load_percent.is_none() && sensors.temp_celsius.is_none()
        && memory_used_bytes.is_none() && memory_total_bytes.is_none() && memory_percent.is_none() {
        return None;
    }
    Some(
        GpuMetrics {
            name: candidates[b].name.clone(),
            load_percent: sensors.load_percent,
            memory_used_bytes,
            memory_total_bytes,
            memory_percent,
            temp_celsius: sensors.temp_celsius,
        },
    )
}

/// A card is shown exactly where the tree has one with a name and a sensor that says
/// something.
pub proof fn law_a_card_is_shown(root: lhm_tree::NodeView)
    ensures
        primary(candidates(root)) is Some <==> candidates(root).len() > 0,
{
    lemma_candidates_speak(root);
    let cards = candidates(root);
    if cards.len() > 0 {
        law_nothing_beats_the_best(cards, cards.len() as int);
    }
}

proof fn lemma_candidates_speak(node: lhm_tree::NodeView)
    ensures
        forall|i: int|
            0 <= i < candidates(node).len() ==> !(#[trigger] candidates(node)[i]).sensors.silent(),
    decreases node, 0int,
{
    if !is_card(node) {
        if let Some(below) = node.children {
            lemma_candidates_of_speak(below, below.len() as int);
        }
    }
}

proof fn lemma_candidates_of_speak(nodes: Seq<lhm_tree::NodeView>, n: int)
    ensures
        forall|i: int|
            0 <= i < candidates_of(nodes, n).len() ==> !(#[trigger] candidates_of(
                nodes,
                n,
            )[i]).sensors.silent(),
    decreases nodes, n,
{
    if 0 < n <= nodes.len() {
        lemma_candidates_of_speak(nodes, n - 1);
        lemma_candidates_speak(nodes[n - 1]);
        let a = candidates_of(nodes, n - 1);
        let b = candidates(nodes[n - 1]);
        assert forall|i: int| 0 <= i < (a + b).len() implies !(#[trigger] (a + b)[i]).sensors.silent() by {
            if i < a.len() {
                assert((a + b)[i] == a[i]);
            } else {
                assert((a + b)[i] == b[i - a.len()]);
            }
        }
    }
}

/// No two cards have both the same score and the same name.
pub open spec fn cards_differ(cards: Seq<CandidateView>) -> bool {
    forall|i: int, j: int|
        0 <= i < j < cards.len() ==> (#[trigger] cards[i]).score != (#[trigger] cards[j]).score
            || cards[i].name != cards[j].name
}

/// Among cards that each say something, one is shown exactly where there is one, and
/// it is the best: none has a higher score, and none of the same score an earlier
/// name.
pub proof fn law_the_best_card_is_shown(cards: Seq<CandidateView>)
    requires
        forall|i: int| 0 <= i < cards.len() ==> !(#[trigger] cards[i]).sensors.silent(),
    ensures
        primary(cards) is None <==> cards.len() == 0,
        cards.len() > 0 ==> exists|b: int|
            {
                &&& 0 <= b < cards.len()
                &&& primary(cards) == Some(shown(#[trigger] cards[b]))
                &&& forall|j: int|
                    0 <= j < cards.len() ==> (#[trigger] cards[j]).score < cards[b].score || (
                    cards[j].score == cards[b].score && !text::before(cards[j].name, cards[b].name))
            },
{
    if cards.len() > 0 {
        law_nothing_beats_the_best(cards, cards.len() as int);
        let b = best(cards, cards.len() as int);
        assert(!cards[b].sensors.silent());
        assert(primary(cards) == Some(shown(cards[b])));
        assert forall|j: int| 0 <= j < cards.len() implies (#[trigger] cards[j]).score
            < cards[b].score || (cards[j].score == cards[b].score && !text::before(
            cards[j].name,
            cards[b].name,
        )) by {
            assert(!better(cards[j], cards[b]));
        }
    }
}

/// The order in which cards are found does not matter, as long as each can be told
/// from the others.
pub proof fn law_order_of_cards_does_not_matter(a: Seq<CandidateView>, b: Seq<CandidateView>)
    requires
        a.to_multiset() == b.to_multiset(),
        cards_differ(a),
    ensures
        primary(a) == primary(b),
{
    a.to_multiset_ensures();
    b.to_multiset_ensures();
    if a.len() > 0 {
        let n = a.len() as int;
        law_nothing_beats_the_best(a, n);
        law_nothing_beats_the_best(b, n);
        let x = a[best(a, n)];
        let y = b[best(b, n)];
        assert(a.contains(x) && b.contains(y));
        assert(a.to_multiset().count(x) > 0 && b.to_multiset().count(y) > 0);
        let i = choose|i: int| 0 <= i < b.len() && b[i] == x;
        let j = choose|j: int| 0 <= j < a.len() && a[j] == y;
        assert(!better(b[i], y));
        assert(!better(a[j], x));
        text::lemma_before_order();
        assert(x.score == y.score && x.name == y.name);
        if best(a, n) < j {
            assert(a[best(a, n)] == x && a[j] == y);
        } else if j < best(a, n) {
            assert(a[j] == y && a[best(a, n)] == x);
        }
        assert(x == y);
    }
}

/// A card is seen as what it holds.
pub proof fn law_cards_are_seen_whole(c: GpuCandidate, g: GpuMetrics)
    ensures
        c@.name == c.name@ && c@.score == c.score && c@.sensors == c.sensors,
        g@.name == g.name@,
        g@.load_percent == g.load_percent,
        g@.memory_used_bytes == g.memory_used_bytes,
        g@.memory_total_bytes == g.memory_total_bytes,
        g@.memory_percent == g.memory_percent,
        g@.temp_celsius == g.temp_celsius,
{
}

/// Sensors are silent where none of the five numbers is known, as at the start.
pub proof fn law_silence(s: GpuSensors)
    ensures
        s.silent() <==> s.load_percent is None && s.memory_used_mb is None && s.memory_total_mb
            is None && s.memory_percent is None && s.temp_celsius is None,
        s == GpuSensors::none() <==> s.silent(),
{
}

proof fn lemma_kinds()
    ensures
        text::lower("Load"@) == "load"@,
        text::lower("Temperature"@) == "temperature"@,
        text::lower("SmallData"@) == "smalldata"@,
        text::lower("Data"@) == "data"@,
        "load"@ != "temperature"@,
        "load"@ != "smalldata"@,
        "load"@ != "data"@,
        "temperature"@ != "smalldata"@,
        "temperature"@ != "data"@,
{
    reveal_strlit("Load");
    reveal_strlit("load");
    reveal_strlit("Temperature");
    reveal_strlit("temperature");
    reveal_strlit("SmallData");
    reveal_strlit("smalldata");
    reveal_strlit("Data");
    reveal_strlit("data");
    assert(text::lower("Load"@) =~= "load"@);
    assert(text::lower("Temperature"@) =~= "temperature"@);
    assert(text::lower("SmallData"@) =~= "smalldata"@);
    assert(text::lower("Data"@) =~= "data"@);
    assert("load"@[0] == 'l' && "data"@[0] == 'd');
    assert("load"@.len() == 4 && "temperature"@.len() == 11 && "smalldata"@.len() == 9
        && "data"@.len() == 4);
}

/// What a load sensor says: its percentage is the load, or the share of the memory in
/// use, by its name, unless that is known already; a number from 0 to 100 counts only.
pub proof fn law_load_sensors(node: lhm_tree::NodeView, s: GpuSensors)
    requires
        node.sensor_type is Some,
        text::lower(node.sensor_type->0) == "load"@,
        node.text is Some,
    ensures
        ({
            let name = text::lower(node.text->0);
            let value = if node.value is Some {
                lhm_tree::lhm_number(node.value->0)
            } else {
                None
            };
            let counts = value is Some && value->0.between(0, 100);
            let load = name == "gpu core"@ || name == "d3d 3d"@ || name == "gpu render/compute"@;
            let memory = name == "gpu memory"@ || name == "d3d dedicated memory used"@;
            let r = after_sensor(node, s);
            &&& r.temp_celsius == s.temp_celsius
            &&& r.memory_used_mb == s.memory_used_mb
            &&& r.memory_total_mb == s.memory_total_mb
            &&& load && s.load_percent is None && counts ==> r.load_percent == value
            &&& !load || s.load_percent is Some || !counts ==> r.load_percent == s.load_percent
            &&& memory && s.memory_percent is None && counts ==> r.memory_percent == value
            &&& !memory || s.memory_percent is Some || !counts ==> r.memory_percent
                == s.memory_percent
        }),
{
    lemma_kinds();
    lemma_names();
}

proof fn lemma_names()
    ensures
        "gpu core"@ != "gpu memory"@,
        "gpu core"@ != "d3d dedicated memory used"@,
        "d3d 3d"@ != "gpu memory"@,
        "d3d 3d"@ != "d3d dedicated memory used"@,
        "gpu render/compute"@ != "gpu memory"@,
        "gpu render/compute"@ != "d3d dedicated memory used"@,
        "gpu core"@ != "gpu hotspot"@,
        "gpu core"@ != "gpu hot spot"@,
        "gpu core"@ != "temperature"@,
        "gpu memory used"@ != "gpu memory total"@,
        "gpu memory used"@ != "d3d dedicated memory total"@,
        "gpu memory used"@ != "d3d shared memory total"@,
        "gpu memory used"@ != "d3d dedicated memory used"@,
        "gpu memory used"@ != "d3d shared memory used"@,
        "gpu memory total"@ != "d3d dedicated memory total"@,
        "gpu memory total"@ != "d3d shared memory total"@,
        "gpu memory total"@ != "d3d dedicated memory used"@,
        "gpu memory total"@ != "d3d shared memory used"@,
        "d3d dedicated memory used"@ != "d3d dedicated memory total"@,
        "d3d dedicated memory used"@ != "d3d shared memory total"@,
        "d3d shared memory used"@ != "d3d dedicated memory total"@,
        "d3d shared memory used"@ != "d3d shared memory total"@,
{
    reveal_strlit("gpu core");
    reveal_strlit("d3d 3d");
    reveal_strlit("gpu render/compute");
    reveal_strlit("gpu memory");
    reveal_strlit("d3d dedicated memory used");
    reveal_strlit("gpu hotspot");
    reveal_strlit("gpu hot spot");
    reveal_strlit("temperature");
    reveal_strlit("gpu memory used");
    reveal_strlit("d3d shared memory used");
    reveal_strlit("gpu memory total");
    reveal_strlit("d3d dedicated memory total");
    reveal_strlit("d3d shared memory total");
    assert("gpu core"@.len() == 8 && "d3d 3d"@.len() == 6 && "gpu render/compute"@.len() == 18);
    assert("gpu memory"@.len() == 10 && "d3d dedicated memory used"@.len() == 25);
    assert("gpu hotspot"@.len() == 11 && "gpu hot spot"@.len() == 12 && "temperature"@.len() == 11);
    assert("gpu memory used"@.len() == 15 && "d3d shared memory used"@.len() == 22);
    assert("gpu memory total"@.len() == 16 && "d3d dedicated memory total"@.len() == 26);
    assert("d3d shared memory total"@.len() == 23);
}

/// What a temperature sensor says: the one of the core is the card's temperature, in
/// place of any other; one of a hot spot is where none is known. A number from 40 degrees
/// below zero to 150 above it counts only.
pub proof fn law_temperature_sensors(node: lhm_tree::NodeView, s: GpuSensors)
    requires
        node.sensor_type is Some,
        text::lower(node.sensor_type->0) == "temperature"@,
        node.text is Some,
    ensures
        ({
            let name = text::lower(node.text->0);
            let value = if node.value is Some {
                lhm_tree::lhm_number(node.value->0)
            } else {
                None
            };
            let counts = value is Some && value->0.between(-40, 150);
            let core = name == "gpu core"@;
            let other = name == "gpu hotspot"@ || name == "gpu hot spot"@ || name == "temperature"@;
            let r = after_sensor(node, s);
            &&& r.load_percent == s.load_percent
            &&& r.memory_percent == s.memory_percent
            &&& r.memory_used_mb == s.memory_used_mb
            &&& r.memory_total_mb == s.memory_total_mb
            &&& core && counts ==> r.temp_celsius == value
            &&& other && s.temp_celsius is None && counts ==> r.temp_celsius == value
            &&& !counts || (!core && !other) || (!core && s.temp_celsius is Some)
                ==> r.temp_celsius == s.temp_celsius
        }),
{
    lemma_kinds();
    lemma_names();
}

/// What a data sensor says: the amount of memory in use, which is zero or more, or the
/// whole of it, which is more than zero, in mebibytes. What the card says of itself
/// replaces what was known, even by nothing; what the system says counts where nothing
/// was known.
pub proof fn law_data_sensors(node: lhm_tree::NodeView, s: GpuSensors)
    requires
        node.sensor_type is Some,
        text::lower(node.sensor_type->0) == "smalldata"@ || text::lower(node.sensor_type->0)
            == "data"@,
        node.text is Some,
    ensures
        ({
            let name = text::lower(node.text->0);
            let value = if node.value is Some {
                lhm_tree::lhm_number(node.value->0)
            } else {
                None
            };
            let used = if value is Some && value->0.finite() && value->0.scaled() >= 0 {
                value
            } else {
                None
            };
            let total = if value is Some && value->0.finite() && value->0.scaled() > 0 {
                value
            } else {
                None
            };
            let own_used = name == "gpu memory used"@;
            let other_used = name == "d3d dedicated memory used"@ || name
                == "d3d shared memory used"@;
            let own_total = name == "gpu memory total"@;
            let other_total = name == "d3d dedicated memory total"@ || name
                == "d3d shared memory total"@;
            let r = after_sensor(node, s);
            &&& r.load_percent == s.load_percent
            &&& r.memory_percent == s.memory_percent
            &&& r.temp_celsius == s.temp_celsius
            &&& own_used || (other_used && s.memory_used_mb is None) ==> r.memory_used_mb == used
            &&& !own_used && !(other_used && s.memory_used_mb is None) ==> r.memory_used_mb
                == s.memory_used_mb
            &&& own_total || (other_total && s.memory_total_mb is None) ==> r.memory_total_mb
                == total
            &&& !own_total && !(other_total && s.memory_total_mb is None) ==> r.memory_total_mb
                == s.memory_total_mb
        }),
{
    lemma_kinds();
    lemma_names();
}

/// A sensor of another kind says nothing of a card, nor does one without a name.
pub proof fn law_other_sensors(node: lhm_tree::NodeView, s: GpuSensors)
    requires
        node.text is None || node.sensor_type is None || {
            let kind = text::lower(node.sensor_type->0);
            kind != "load"@ && kind != "temperature"@ && kind != "smalldata"@ && kind != "data"@
        },
    ensures
        after_sensor(node, s) == s,
{
    lemma_kinds();
    lemma_names();
    let none = Seq::<char>::empty();
    assert(text::lower(none).len() == 0);
    reveal_strlit("load");
    reveal_strlit("smalldata");
    reveal_strlit("data");
    reveal_strlit("temperature");
    reveal_strlit("gpu core");
    reveal_strlit("d3d 3d");
    reveal_strlit("gpu render/compute");
    reveal_strlit("gpu memory");
    reveal_strlit("d3d dedicated memory used");
    reveal_strlit("gpu hotspot");
    reveal_strlit("gpu hot spot");
    reveal_strlit("gpu memory used");
    reveal_strlit("d3d shared memory used");
    reveal_strlit("gpu memory total");
    reveal_strlit("d3d dedicated memory total");
    reveal_strlit("d3d shared memory total");
    assert("load"@.len() == 4 && "temperature"@.len() == 11 && "smalldata"@.len() == 9
        && "data"@.len() == 4);
    assert("gpu core"@.len() == 8 && "d3d 3d"@.len() == 6 && "gpu render/compute"@.len() == 18);
    assert("gpu memory"@.len() == 10 && "d3d dedicated memory used"@.len() == 25);
    assert("gpu hotspot"@.len() == 11 && "gpu hot spot"@.len() == 12);
    assert("gpu memory used"@.len() == 15 && "d3d shared memory used"@.len() == 22);
    assert("gpu memory total"@.len() == 16 && "d3d dedicated memory total"@.len() == 26);
    assert("d3d shared memory total"@.len() == 23);
}

/// The sensors of a card are taken in one after another, each before those below it.
pub proof fn law_sensors_one_after_another(
    nodes: Seq<lhm_tree::NodeView>,
    n: int,
    s: GpuSensors,
)
    requires
        0 <= n < nodes.len(),
    ensures
        after_sensors(nodes, 0, s) == s,
        nodes[n].children is None ==> after_sensors(nodes, n + 1, s) == after_sensor(
            nodes[n],
            after_sensors(nodes, n, s),
        ),
        nodes[n].children is Some ==> after_sensors(nodes, n + 1, s) == after_sensors(
            nodes[n].children->0,
            nodes[n].children->0.len() as int,
            after_sensor(nodes[n], after_sensors(nodes, n, s)),
        ),
{
}

/// A node is a graphics card where its icon or its name, in lower case, has a word of
/// one in it, or where the name of a node right below it starts with `gpu core`.
pub proof fn law_what_a_card_is(node: lhm_tree::NodeView)
    requires
        node.text is Some,
        node.image_url is Some,
    ensures
        is_card(node) <==> {
            let image = text::lower(node.image_url->0);
            let name = text::lower(node.text->0);
            ||| text::contains(image, "nvidia"@)
            ||| text::contains(image, "ati"@)
            ||| text::contains(image, "amd"@)
            ||| text::contains(image, "gpu"@)
            ||| text::contains(name, "nvidia"@)
            ||| text::contains(name, "geforce"@)
            ||| text::contains(name, "quadro"@)
            ||| text::contains(name, "rtx "@)
            ||| text::contains(name, "gtx "@)
            ||| text::contains(name, "radeon"@)
            ||| text::contains(name, "amd "@)
            ||| text::contains(name, "intel arc"@)
            ||| text::contains(name, "iris"@)
            ||| text::contains(name, "uhd graphics"@)
            ||| text::contains(name, "hd graphics"@)
            ||| node.children is Some && exists|i: int|
                0 <= i < node.children->0.len() && (#[trigger] node.children->0[i]).text is Some
                    && text::stands_at(
                    text::lower(node.children->0[i].text->0),
                    "gpu core"@,
                    0,
                )
        },
{
    reveal_strlit("gpu core");
    assert("gpu core"@.len() == 8);
    assert(text::lower(Seq::<char>::empty()).len() == 0);
    if let Some(below) = node.children {
        if exists|i: int| 0 <= i < below.len() && core_name(#[trigger] below[i]) {
            let i = choose|i: int| 0 <= i < below.len() && core_name(#[trigger] below[i]);
            assert(below[i].text is Some);
            assert(text::stands_at(text::lower(node.children->0[i].text->0), "gpu core"@, 0));
        }
        if exists|i: int|
            0 <= i < below.len() && (#[trigger] below[i]).text is Some && text::stands_at(
                text::lower(below[i].text->0),
                "gpu core"@,
                0,
            ) {
            let i = choose|i: int|
                0 <= i < below.len() && (#[trigger] below[i]).text is Some && text::stands_at(
                    text::lower(below[i].text->0),
                    "gpu core"@,
                    0,
                );
            assert(core_name(node.children->0[i]));
        }
    }
}

/// A name or an icon that is missing counts as an empty one.
pub proof fn law_missing_texts_are_empty(node: lhm_tree::NodeView)
    ensures
        node.text is None ==> is_card(node) == is_card(
            lhm_tree::NodeView { text: Some(Seq::empty()), ..node },
        ),
        node.image_url is None ==> is_card(node) == is_card(
            lhm_tree::NodeView { image_url: Some(Seq::empty()), ..node },
        ),
        node.image_url is None ==> candidate(node) == candidate(
            lhm_tree::NodeView { image_url: Some(Seq::empty()), ..node },
        ),
        node.text is None ==> candidate(node) is None,
{
    assert(text::trim_start(Seq::empty()) =~= Seq::<char>::empty());
    assert(text::trim(Seq::empty()) =~= Seq::<char>::empty());
}

/// How much a name and an icon in lower case speak for a card: 100 for one of NVIDIA or
/// of AMD, 80 for an Arc, 10 for another one of Intel, and 40 for what is unknown.
pub proof fn law_points_for_names(name: Seq<char>, image: Seq<char>)
    ensures
        ({
            let apart = {
                ||| text::contains(name, "nvidia"@)
                ||| text::contains(name, "geforce"@)
                ||| text::contains(name, "quadro"@)
                ||| text::contains(name, "rtx"@)
                ||| text::contains(name, "gtx"@)
                ||| text::contains(name, "radeon"@)
                ||| text::contains(name, "amd"@)
                ||| text::contains(image, "nvidia"@)
                ||| text::contains(image, "ati"@)
                ||| text::contains(image, "amd"@)
            };
            let arc = text::contains(name, "intel arc"@) || text::contains(name, "arc "@);
            let shared = {
                ||| text::contains(name, "iris"@)
                ||| text::contains(name, "uhd"@)
                ||| text::contains(name, "hd graphics"@)
                ||| text::contains(name, "intel"@)
            };
            &&& apart ==> priority(name, image) == 100
            &&& !apart && arc ==> priority(name, image) == 80
            &&& !apart && !arc && shared ==> priority(name, image) == 10
            &&& !apart && !arc && !shared ==> priority(name, image) == 40
        }),
{
}

/// A card gains a point for each full 256 mebibytes of its memory, up to the largest
/// `i32`, and none where its memory is not known.
pub proof fn law_points_for_memory(total: Single)
    requires
        total.finite(),
        total.scaled() >= 0,
    ensures
        memory_points(None) == 0,
        0 <= memory_points(Some(total)) <= i32::MAX,
        memory_points(Some(total)) * 256 * pow2(149) <= total.scaled(),
        memory_points(Some(total)) < i32::MAX ==> total.scaled() < (memory_points(Some(total)) + 1)
            * 256 * pow2(149),
{
    lemma_full_parts(total, 157);
    lemma2_to64();
    lemma_pow2_adds(8, 149);
    let n = memory_points(Some(total));
    let all = total.scaled() / (pow2(157) as int);
    assert(n * 256 * pow2(149) == n * (256 * pow2(149))) by (nonlinear_arith);
    assert((n + 1) * 256 * pow2(149) == (n + 1) * (256 * pow2(149))) by (nonlinear_arith);
    if n < all {
        assert(n * pow2(157) <= all * pow2(157)) by (nonlinear_arith)
            requires
                n < all,
        ;
    }
}

/// Units in full parts: how many there are, and what is left is less than one.
proof fn lemma_full_parts(x: Single, k: nat)
    requires
        x.finite(),
        x.scaled() >= 0,
    ensures
        ({
            let all = x.scaled() / (pow2(k) as int);
            &&& 0 <= all
            &&& all * pow2(k) <= x.scaled() < (all + 1) * pow2(k)
            &&& ieee::whole_part(Format::Single, x.parts().mag as nat, k) == (if all
                <= u128::MAX {
                all
            } else {
                u128::MAX as int
            })
        }),
{
    let u = ieee::units(Format::Single, x.parts().mag as nat) as int;
    lemma_pow2_pos(k);
    let p = pow2(k) as int;
    if x.parts().neg {
        assert(u == 0);
    }
    assert(x.scaled() == u);
    vstd::arithmetic::div_mod::lemma_fundamental_div_mod(u, p);
    let all = u / p;
    assert(all * p <= u < (all + 1) * p) by (nonlinear_arith)
        requires
            u == p * all + u % p,
            0 <= u % p < p,
    ;
    assert(0 <= all) by (nonlinear_arith)
        requires
            0 <= u,
            u < (all + 1) * p,
            p > 0,
    ;
}

/// Mebibytes in bytes: as many full bytes as they make, 1048576 of them to one, up to the
/// largest `u64`.
pub proof fn law_bytes_of_mebibytes(mb: Single)
    requires
        mb.finite(),
        mb.scaled() >= 0,
    ensures
        mebibytes(None) is None,
        mebibytes(Some(mb)) is Some,
        ({
            let bytes = mebibytes(Some(mb))->0 as int;
            &&& bytes * pow2(149) <= mb.scaled() * 1_048_576
            &&& bytes < u64::MAX ==> mb.scaled() * 1_048_576 < (bytes + 1) * pow2(149)
        }),
{
    lemma_full_parts(mb, 129);
    lemma2_to64();
    lemma_pow2_adds(20, 129);
    let all = mb.scaled() / (pow2(129) as int);
    let bytes = mebibytes(Some(mb))->0 as int;
    let p = pow2(129) as int;
    let x = mb.scaled();
    if mb.parts().neg {
        assert(x == 0);
        assert(all == 0) by (nonlinear_arith)
            requires
                x == 0,
                all * p <= x < (all + 1) * p,
                p > 0,
        ;
    }
    lemma_pow2_pos(129);
    assert(bytes <= all);
    assert(bytes * p <= all * p) by (nonlinear_arith)
        requires
            bytes <= all,
            p > 0,
    ;
    assert(bytes * pow2(149) == bytes * p * 1_048_576) by (nonlinear_arith)
        requires
            pow2(149) == 1_048_576 * p,
    ;
    assert((bytes + 1) * pow2(149) == (bytes + 1) * p * 1_048_576) by (nonlinear_arith)
        requires
            pow2(149) == 1_048_576 * p,
    ;
}

/// A node describes a card where it has a name besides space and a sensor below it that
/// says something. Its score is what its name and its icon are worth, what its memory
/// adds, and 20 more where its load is known.
pub proof fn law_card_of_a_node(node: lhm_tree::NodeView)
    requires
        node.text is Some,
        node.image_url is Some,
    ensures
        ({
            let name = text::trim(node.text->0);
            let sensors = if node.children is Some {
                after_sensors(
                    node.children->0,
                    node.children->0.len() as int,
                    GpuSensors::none(),
                )
            } else {
                GpuSensors::none()
            };
            let card = candidate(node);
            &&& card is Some <==> name.len() > 0 && !sensors.silent()
            &&& card is Some ==> {
                &&& card->0.name == name
                &&& card->0.sensors == sensors
                &&& card->0.score == priority(text::lower(name), text::lower(node.image_url->0))
                    + memory_points(sensors.memory_total_mb) + if sensors.load_percent is Some {
                    20int
                } else {
                    0int
                }
            }
        }),
{
}

/// The cards of a tree: the node itself where it is one, and then none below it; else
/// those of its children, one after another.
pub proof fn law_cards_of_a_tree(
    node: lhm_tree::NodeView,
    children: Seq<lhm_tree::NodeView>,
    n: int,
)
    requires
        0 <= n < children.len(),
    ensures
        is_card(node) && candidate(node) is Some ==> candidates(node) == seq![candidate(node)->0],
        is_card(node) && candidate(node) is None ==> candidates(node).len() == 0,
        !is_card(node) && node.children is None ==> candidates(node).len() == 0,
        !is_card(node) && node.children is Some ==> candidates(node) == candidates_of(
            node.children->0,
            node.children->0.len() as int,
        ),
        candidates_of(children, 0).len() == 0,
        candidates_of(children, n + 1) == candidates_of(children, n) + candidates(children[n]),
{
}

/// What is shown of a card: its name, load and temperature as they are, its memory in
/// bytes, and the share of it in use: the one that the card says, else used of total in
/// percent, held from 0 to 100; none where these are not known or the total is not above
/// zero.
pub proof fn law_what_is_shown(c: CandidateView)
    ensures
        ({
            let s = c.sensors;
            let r = shown(c);
            let zero = number::single_whole(0);
            let hundred = number::single_whole(100);
            let x = s.memory_used_mb->0.quotient(s.memory_total_mb->0).product(hundred);
            let known = s.memory_used_mb is Some && s.memory_total_mb is Some && zero.below(
                s.memory_total_mb->0,
            );
            &&& r.name == c.name
            &&& r.load_percent == s.load_percent
            &&& r.temp_celsius == s.temp_celsius
            &&& r.memory_used_bytes == mebibytes(s.memory_used_mb)
            &&& r.memory_total_bytes == mebibytes(s.memory_total_mb)
            &&& s.memory_percent is Some ==> r.memory_percent == s.memory_percent
            &&& s.memory_percent is None && !known ==> r.memory_percent is None
            &&& s.memory_percent is None && known && x.below(zero) ==> r.memory_percent == Some(zero)
            &&& s.memory_percent is None && known && !x.below(zero) && hundred.below(x)
                ==> r.memory_percent == Some(hundred)
            &&& s.memory_percent is None && known && !x.below(zero) && !hundred.below(x)
                ==> r.memory_percent == Some(x)
        }),
{
}

/// The card at `b` is the main one where none has a higher score, none of the same score
/// an earlier name, and none before it both the same; it is shown where its sensors say
/// something.
pub proof fn law_the_main_card(cards: Seq<CandidateView>, b: int)
    requires
        0 <= b < cards.len(),
        forall|j: int|
            0 <= j < cards.len() ==> (#[trigger] cards[j]).score < cards[b].score || (cards[j].score
                == cards[b].score && !text::before(cards[j].name, cards[b].name)),
        forall|j: int|
            0 <= j < b ==> (#[trigger] cards[j]).score != cards[b].score || cards[j].name
                != cards[b].name,
    ensures
        cards[b].sensors.silent() ==> primary(cards) is None,
        !cards[b].sensors.silent() ==> primary(cards) == Some(shown(cards[b])),
        primary(Seq::empty()) is None,
{
    text::lemma_before_order();
    lemma_best_is(cards, cards.len() as int, b);
}

proof fn lemma_best_is(cards: Seq<CandidateView>, n: int, b: int)
    requires
        0 <= b < n <= cards.len(),
        forall|j: int|
            0 <= j < n ==> (#[trigger] cards[j]).score < cards[b].score || (cards[j].score
                == cards[b].score && !text::before(cards[j].name, cards[b].name)),
        forall|j: int|
            0 <= j < b ==> (#[trigger] cards[j]).score != cards[b].score || cards[j].name
                != cards[b].name,
    ensures
        best(cards, n) == b,
    decreases n,
{
    text::lemma_before_order();
    if n > 1 {
        if b < n - 1 {
            lemma_best_is(cards, n - 1, b);
            assert(!better(cards[n - 1], cards[b]));
        } else {
            law_nothing_beats_the_best(cards, n - 1);
            let x = best(cards, n - 1);
            assert(cards[x].score < cards[b].score || cards[x].score == cards[b].score);
            assert(better(cards[b], cards[x]));
        }
    }
}

/// What is no number, and what is below zero, counts as no bytes; an infinity as the
/// largest `u64`.
pub proof fn law_bytes_of_other_values(mb: Single)
    ensures
        mb.nan() || mb.bits >= 0x8000_0000 ==> mebibytes(Some(mb)) == Some(0u64),
        mb.bits == 0x7f80_0000 ==> mebibytes(Some(mb)) == Some(u64::MAX),
{
    if mb.bits == 0x7f80_0000 {
        let f = Format::Single;
        lemma2_to64();
        lemma2_to64_rest();
        assert(0x7f80_0000nat / 0x80_0000 == 255 && 0x7f80_0000nat % 0x80_0000 == 0);
        assert(ieee::units(f, 0x7f80_0000) == 0x80_0000 * pow2(254));
        lemma_pow2_adds(125, 129);
        lemma_pow2_adds(23, 254);
        lemma_pow2_adds(148, 129);
        lemma_pow2_strictly_increases(64, 148);
        lemma_pow2_pos(129);
        vstd::arithmetic::div_mod::lemma_div_by_multiple(pow2(148) as int, pow2(129) as int);
        assert(ieee::units(f, 0x7f80_0000) / pow2(129) == pow2(148));
    }
}

/// Cards are seen one by one.
pub proof fn law_cards_are_seen_one_by_one(v: Seq<GpuCandidate>)
    ensures
        candidate_views(v).len() == v.len(),
        forall|i: int| 0 <= i < v.len() ==> #[trigger] candidate_views(v)[i] == v[i]@,
{
}

} // verus!
