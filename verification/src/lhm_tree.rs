//! The sensor tree that LibreHardwareMonitor reports, and the temperatures in it.

use crate::number;
use crate::number::Single;
use crate::temperature;
use crate::text;
use vstd::prelude::*;
use vstd::string::*;

verus! {

/// A JSON value, as far as a report is read. An object's members stand in order,
/// each under its name.
#[derive(Debug)]
pub enum JsonValue {
    Null,
    Bool,
    Number,
    Text(String),
    Array(Vec<JsonValue>),
    Object(Vec<(String, JsonValue)>),
}

/// A sensor, or what holds sensors.
#[derive(Debug)]
pub struct LhmNode {
    pub text: Option<String>,
    pub value: Option<String>,
    pub sensor_type: Option<String>,
    pub image_url: Option<String>,
    pub children: Option<Vec<LhmNode>>,
}

/// What a node holds.
pub ghost struct NodeView {
    pub text: Option<Seq<char>>,
    pub value: Option<Seq<char>>,
    pub sensor_type: Option<Seq<char>>,
    pub image_url: Option<Seq<char>>,
    pub children: Option<Seq<NodeView>>,
}

/// The characters of a text that may be missing.
pub open spec fn text_view(s: Option<String>) -> Option<Seq<char>> {
    match s {
        Some(t) => Some(t@),
        None => None,
    }
}

/// The characters of a text; none where the text is missing.
pub open spec fn or_empty(s: Option<Seq<char>>) -> Seq<char> {
    match s {
        Some(t) => t,
        None => Seq::empty(),
    }
}

/// What a node holds.
pub open spec fn node_view(node: LhmNode) -> NodeView
    decreases node, 0int,
{
    NodeView {
        text: text_view(node.text),
        value: text_view(node.value),
        sensor_type: text_view(node.sensor_type),
        image_url: text_view(node.image_url),
        children: match node.children {
            Some(nodes) => Some(nodes_view(nodes@, nodes@.len() as int)),
            None => None,
        },
    }
}

/// What the first `n` nodes hold.
pub open spec fn nodes_view(nodes: Seq<LhmNode>, n: int) -> Seq<NodeView>
    decreases nodes, n,
{
    if n <= 0 || n > nodes.len() {
        Seq::empty()
    } else {
        nodes_view(nodes, n - 1).push(node_view(nodes[n - 1]))
    }
}

impl View for LhmNode {
    type V = NodeView;

    open spec fn view(&self) -> NodeView {
        node_view(*self)
    }
}

/// The nodes' views stand in the order of the nodes.
pub proof fn lemma_nodes_view(nodes: Seq<LhmNode>, n: int)
    requires
        0 <= n <= nodes.len(),
    ensures
        nodes_view(nodes, n).len() == n,
        forall|i: int| 0 <= i < n ==> #[trigger] nodes_view(nodes, n)[i] == node_view(nodes[i]),
    decreases n,
{
    if n > 0 {
        lemma_nodes_view(nodes, n - 1);
    }
}

/// The index of the first member of that name, and the number of members where
/// there is none.
pub open spec fn member(members: Seq<(String, JsonValue)>, name: Seq<char>) -> int
    decreases members.len(),
{
    if members.len() == 0 || members[0].0@ == name {
        0
    } else {
        1 + member(members.drop_first(), name)
    }
}

/// The text that a value is read as, where it may be missing; `None` where the
/// value is of another kind.
pub open spec fn text_or_null(value: JsonValue) -> Option<Option<Seq<char>>> {
    match value {
        JsonValue::Null => Some(None),
        JsonValue::Text(s) => Some(Some(s@)),
        _ => None,
    }
}

/// The text of the member of that name, in the same way.
pub open spec fn text_member(
    members: Seq<(String, JsonValue)>,
    name: Seq<char>,
) -> Option<Option<Seq<char>>> {
    let i = member(members, name);
    if 0 <= i < members.len() {
        text_or_null(members[i].1)
    } else {
        Some(None)
    }
}

/// The node made of its parts, if each could be read.
pub open spec fn assembled(
    text: Option<Option<Seq<char>>>,
    value: Option<Option<Seq<char>>>,
    sensor_type: Option<Option<Seq<char>>>,
    image_url: Option<Option<Seq<char>>>,
    children: Option<Option<Seq<NodeView>>>,
) -> Option<NodeView> {
    if text is Some && value is Some && sensor_type is Some && image_url is Some && children is Some {
        Some(
            NodeView {
                text: text->0,
                value: value->0,
                sensor_type: sensor_type->0,
                image_url: image_url->0,
                children: children->0,
            },
        )
    } else {
        None
    }
}

/// The node that a JSON value writes: an object with the members `Text`, `Value`,
/// `Type`, `ImageURL` and `Children`, each of which may be missing or null, or an
/// array of these five in this order. Other members are passed over.
pub open spec fn node_of(json: JsonValue) -> Option<NodeView>
    decreases json, 0int,
{
    match json {
        JsonValue::Object(members) => {
            let i = member(members@, "Children"@);
            assembled(
                text_member(members@, "Text"@),
                text_member(members@, "Value"@),
                text_member(members@, "Type"@),
                text_member(members@, "ImageURL"@),
                if 0 <= i < members@.len() {
                    children_of(members@[i].1)
                } else {
                    Some(None)
                },
            )
        },
        JsonValue::Array(items) => {
            if items@.len() == 5 {
                assembled(
                    text_or_null(items@[0]),
                    text_or_null(items@[1]),
                    text_or_null(items@[2]),
                    text_or_null(items@[3]),
                    children_of(items@[4]),
                )
            } else {
                None
            }
        },
        _ => None,
    }
}

/// The nodes that a JSON value lists.
pub open spec fn children_of(json: JsonValue) -> Option<Option<Seq<NodeView>>>
    decreases json, 0int,
{
    match json {
        JsonValue::Null => Some(None),
        JsonValue::Array(items) => match nodes_of(items@, items@.len() as int) {
            Some(nodes) => Some(Some(nodes)),
            None => None,
        },
        _ => None,
    }
}

/// The nodes that the first `n` values write, if each writes one.
pub open spec fn nodes_of(items: Seq<JsonValue>, n: int) -> Option<Seq<NodeView>>
    decreases items, n,
{
    if n <= 0 || n > items.len() {
        Some(Seq::empty())
    } else {
        match (nodes_of(items, n - 1), node_of(items[n - 1])) {
            (Some(nodes), Some(node)) => Some(nodes.push(node)),
            _ => None,
        }
    }
}

fn find_member(members: &Vec<(String, JsonValue)>, name: &str) -> (r: usize)
    ensures
        r == member(members@, name@),
        r <= members@.len(),
{
    let n = members.len();
    let mut i: usize = 0;
    assert(members@.skip(0) =~= members@);
    while i < n
        invariant
            n == members@.len(),
            i <= n,
            member(members@, name@) == i + member(members@.skip(i as int), name@),
        decreases n - i,
    {
        if text::same_text(members[i].0.as_str(), name) {
            return i;
        }
        assert(members@.skip(i as int).drop_first() =~= members@.skip(i + 1));
        i = i + 1;
    }
    i
}

fn read_text(value: &JsonValue) -> (r: Option<Option<String>>)
    ensures
        match r {
            Some(t) => text_or_null(*value) == Some(text_view(t)),
            None => text_or_null(*value) is None,
        },
{
    match value {
        JsonValue::Null => Some(None),
        JsonValue::Text(s) => Some(Some(s.clone())),
        _ => None,
    }
}

fn read_text_member(members: &Vec<(String, JsonValue)>, name: &str) -> (r: Option<Option<String>>)
    ensures
        match r {
            Some(t) => text_member(members@, name@) == Some(text_view(t)),
            None => text_member(members@, name@) is None,
        },
{
    let i = find_member(members, name);
    if i < members.len() {
        read_text(&members[i].1)
    } else {
        Some(None)
    }
}

/// What a list of nodes that may be missing holds.
pub open spec fn children_view(children: Option<Vec<LhmNode>>) -> Option<Seq<NodeView>> {
    match children {
        Some(nodes) => Some(nodes_view(nodes@, nodes@.len() as int)),
        None => None,
    }
}

impl LhmNode {
    /// Reads a node from a JSON value.
    pub fn from_json(json: &JsonValue) -> (r: Option<LhmNode>)
        ensures
            match r {
                Some(node) => node_of(*json) == Some(node@),
                None => node_of(*json) is None,
            },
        decreases json, 1int,
    {
        let (text, value, sensor_type, image_url, children) = match json {
            JsonValue::Object(members) => {
                let i = find_member(members, "Children");
                let children = if i < members.len() {
                    LhmNode::children_from_json(&members[i].1)
                } else {
                    Some(None)
                };
                (
                    read_text_member(members, "Text"),
                    read_text_member(members, "Value"),
                    read_text_member(members, "Type"),
                    read_text_member(members, "ImageURL"),
                    children,
                )
            },
            JsonValue::Array(items) => {
                if items.len() != 5 {
                    return None;
                }
                (
                    read_text(&items[0]),
                    read_text(&items[1]),
                    read_text(&items[2]),
                    read_text(&items[3]),
                    LhmNode::children_from_json(&items[4]),
                )
            },
            _ => {
                return None;
            },
        };
        match (text, value, sensor_type, image_url, children) {
            (
                Some(text),
                Some(value),
                Some(sensor_type),
                Some(image_url),
                Some(children),
            ) => Some(LhmNode { text, value, sensor_type, image_url, children }),
            _ => None,
        }
    }

    fn children_from_json(json: &JsonValue) -> (r: Option<Option<Vec<LhmNode>>>)
        ensures
            match r {
                Some(children) => children_of(*json) == Some(children_view(children)),
                None => children_of(*json) is None,
            },
        decreases json, 0int,
    {
        match json {
            JsonValue::Null => Some(None),
            JsonValue::Array(items) => {
                let mut nodes: Vec<LhmNode> = Vec::new();
                let n = items.len();
                for i in 0..n
                    invariant
                        n == items@.len(),
                        json == JsonValue::Array(*items),
                        nodes@.len() == i,
                        nodes_of(items@, i as int) == Some(nodes_view(nodes@, i as int)),
                {
                    match LhmNode::from_json(&items[i]) {
                        Some(node) => {
                            let ghost before = nodes@;
                            nodes.push(node);
                            proof {
                                lemma_nodes_view(before, i as int);
                                lemma_nodes_view(nodes@, i as int);
                                assert(nodes_view(nodes@, i as int) =~= nodes_view(
                                    before,
                                    i as int,
                                ));
                            }
                        },
                        None => {
                            proof {
                                lemma_refused(items@, i + 1, n as int);
                            }
                            return None;
                        },
                    }
                }
                Some(Some(nodes))
            },
            _ => None,
        }
    }
}

proof fn lemma_refused(items: Seq<JsonValue>, i: int, n: int)
    requires
        nodes_of(items, i) is None,
        0 <= i <= n <= items.len(),
    ensures
        nodes_of(items, n) is None,
    decreases n - i,
{
    if i < n {
        lemma_refused(items, i, n - 1);
    }
}

/// Whether a number may hold the character.
pub open spec fn numeric(c: char) -> bool {
    text::is_digit(c) || c == '.' || c == '-' || c == '+'
}

/// The characters at the start of `s` that a number may hold.
pub open spec fn numeric_start(s: Seq<char>) -> Seq<char>
    decreases s.len(),
{
    if s.len() > 0 && numeric(s[0]) {
        seq![s[0]] + numeric_start(s.drop_first())
    } else {
        Seq::empty()
    }
}

/// The number at the start of a value such as `46.9 °C`.
pub open spec fn lhm_number(raw: Seq<char>) -> Option<Single> {
    number::decimal_number(numeric_start(text::trim(raw)))
}

/// Reads the number at the start of a value; what follows it, such as a unit, is
/// passed over.
pub fn parse_lhm_number(raw: &str) -> (r: Option<Single>)
    ensures
        r == lhm_number(raw@),
{
    let v = text::trimmed(&text::chars_of(raw));
    let n = v.len();
    let mut i: usize = 0;
    assert(v@.skip(0) =~= v@);
    assert(v@.take(0) + numeric_start(v@) =~= numeric_start(v@));
    while i < n && (('0' <= v[i] && v[i] <= '9') || v[i] == '.' || v[i] == '-' || v[i] == '+')
        invariant
            n == v@.len(),
            i <= n,
            numeric_start(v@) == v@.take(i as int) + numeric_start(v@.skip(i as int)),
        decreases n - i,
    {
        proof {
            let rest = v@.skip(i as int);
            assert(rest.drop_first() =~= v@.skip(i + 1));
            assert(v@.take(i as int) + (seq![rest[0]] + numeric_start(rest.drop_first()))
                =~= v@.take(i + 1) + numeric_start(v@.skip(i + 1)));
        }
        i = i + 1;
    }
    let num = text::part(&v, 0, i);
    assert(num@ =~= numeric_start(v@));
    number::parse_decimal(&num)
}

/// The temperature of a sensor, where the value is one that can be true.
pub open spec fn temp_value(value: Option<Seq<char>>) -> Option<Single> {
    match value {
        Some(raw) => match lhm_number(raw) {
            Some(temp) => if temperature::plausible(temp) {
                Some(temp)
            } else {
                None
            },
            None => None,
        },
        None => None,
    }
}

/// Whether a sensor's kind is the given one, in any case of letters.
pub open spec fn is_kind(sensor_type: Option<Seq<char>>, kind: Seq<char>) -> bool {
    text::lower(or_empty(sensor_type)) == text::lower(kind)
}

/// The reading of the node itself, if it is a temperature sensor that has one.
pub open spec fn own_reading(node: NodeView) -> Seq<(Seq<char>, Single)> {
    let temp = temp_value(node.value);
    if is_kind(node.sensor_type, "Temperature"@) && node.text is Some && temp is Some {
        seq![(node.text->0, temp->0)]
    } else {
        Seq::empty()
    }
}

/// The temperature readings of the node and all below it, from the top down.
pub open spec fn node_readings(node: NodeView) -> Seq<(Seq<char>, Single)>
    decreases node, 0int,
{
    own_reading(node) + match node.children {
        Some(nodes) => readings_of(nodes, nodes.len() as int),
        None => Seq::empty(),
    }
}

/// The readings of the first `n` nodes and all below them.
pub open spec fn readings_of(nodes: Seq<NodeView>, n: int) -> Seq<(Seq<char>, Single)>
    decreases nodes, n,
{
    if n <= 0 || n > nodes.len() {
        Seq::empty()
    } else {
        readings_of(nodes, n - 1) + node_readings(nodes[n - 1])
    }
}

/// The characters of a text that may be missing, as a string.
pub fn text_or_empty(s: &Option<String>) -> (r: &str)
    ensures
        r@ == or_empty(text_view(*s)),
{
    match s {
        Some(t) => t.as_str(),
        None => {
            proof {
                reveal_strlit("");
            }
            assert(""@ =~= Seq::<char>::empty());
            ""
        },
    }
}

fn read_temp(raw: &str) -> (r: Option<Single>)
    ensures
        r == temp_value(Some(raw@)),
{
    match parse_lhm_number(raw) {
        Some(temp) => if temperature::is_plausible_celsius(temp) {
            Some(temp)
        } else {
            None
        },
        None => None,
    }
}

proof fn lemma_named_push(readings: Seq<(String, Single)>, name: String, temp: Single)
    ensures
        temperature::named(readings.push((name, temp))) == temperature::named(readings).push(
            (name@, temp),
        ),
{
    assert(temperature::named(readings.push((name, temp))) =~= temperature::named(readings).push(
        (name@, temp),
    ));
}

/// Collects the temperature readings of the node and all below it.
pub fn collect_temp_readings(node: &LhmNode, out: &mut Vec<(String, Single)>)
    ensures
        temperature::named(final(out)@) == temperature::named(old(out)@) + node_readings(node@),
    decreases node,
{
    let ghost start = temperature::named(out@);
    if text::same_ignoring_case(text_or_empty(&node.sensor_type), "Temperature") {
        if let (Some(name), Some(value)) = (&node.text, &node.value) {
            if let Some(temp) = read_temp(value.as_str()) {
                let name = name.clone();
                proof {
                    lemma_named_push(out@, name, temp);
                }
                out.push((name, temp));
            }
        }
    }
    assert(temperature::named(out@) =~= start + own_reading(node@));
    match &node.children {
        Some(nodes) => {
            let n = nodes.len();
            let ghost nodes_seen = nodes_view(nodes@, n as int);
            proof {
                lemma_nodes_view(nodes@, n as int);
            }
            let ghost before = temperature::named(out@);
            assert(before + readings_of(nodes_seen, 0) =~= before);
            for i in 0..n
                invariant
                    n == nodes@.len(),
                    node.children == Some(*nodes),
                    nodes_seen.len() == n,
                    forall|j: int| 0 <= j < n ==> #[trigger] nodes_seen[j] == node_view(nodes@[j]),
                    temperature::named(out@) == before + readings_of(nodes_seen, i as int),
            {
                assert(decreases_to!(node => node.children->0@[i as int]));
                collect_temp_readings(&nodes[i], out);
                proof {
                    let more = node_readings(nodes_seen[i as int]);
                    assert(nodes_seen[i as int] == nodes@[i as int]@);
                    assert(before + readings_of(nodes_seen, i as int) + more =~= before + (
                    readings_of(nodes_seen, i as int) + more));
                }
            }
            assert(start + own_reading(node@) + readings_of(nodes_seen, n as int) =~= start + (
            own_reading(node@) + readings_of(nodes_seen, n as int)));
        },
        None => {
            assert(own_reading(node@) + Seq::empty() =~= own_reading(node@));
        },
    }
}

/// The text that a member holds, if it holds one.
pub open spec fn plain_text(members: Seq<(String, JsonValue)>, name: Seq<char>) -> Option<
    Seq<char>,
> {
    match text_member(members, name) {
        Some(t) => t,
        None => None,
    }
}

/// The reading that an object itself writes.
pub open spec fn member_reading(members: Seq<(String, JsonValue)>) -> Seq<(Seq<char>, Single)> {
    let temp = temp_value(plain_text(members, "Value"@));
    if is_kind(plain_text(members, "Type"@), "Temperature"@) && temp is Some {
        seq![(or_empty(plain_text(members, "Text"@)), temp->0)]
    } else {
        Seq::empty()
    }
}

/// The temperature readings in a JSON value that is not a tree of nodes throughout:
/// in its arrays, its objects and their `Children`.
pub open spec fn loose_readings(json: JsonValue) -> Seq<(Seq<char>, Single)>
    decreases json, 0int,
{
    match json {
        JsonValue::Object(members) => {
            let i = member(members@, "Children"@);
            member_reading(members@) + if 0 <= i < members@.len() {
                match members@[i].1 {
                    JsonValue::Array(items) => loose_readings_of(items@, items@.len() as int),
                    _ => Seq::empty(),
                }
            } else {
                Seq::empty()
            }
        },
        JsonValue::Array(items) => loose_readings_of(items@, items@.len() as int),
        _ => Seq::empty(),
    }
}

/// The readings in the first `n` values.
pub open spec fn loose_readings_of(items: Seq<JsonValue>, n: int) -> Seq<(Seq<char>, Single)>
    decreases items, n,
{
    if n <= 0 || n > items.len() {
        Seq::empty()
    } else {
        loose_readings_of(items, n - 1) + loose_readings(items[n - 1])
    }
}

fn read_plain_text(members: &Vec<(String, JsonValue)>, name: &str) -> (r: Option<String>)
    ensures
        text_view(r) == plain_text(members@, name@),
{
    match read_text_member(members, name) {
        Some(t) => t,
        None => None,
    }
}

/// Collects the temperature readings in any JSON value.
pub fn collect_temp_from_value(value: &JsonValue, out: &mut Vec<(String, Single)>)
    ensures
        temperature::named(final(out)@) == temperature::named(old(out)@) + loose_readings(*value),
    decreases value, 1int,
{
    match value {
        JsonValue::Object(members) => {
            let ghost start = temperature::named(out@);
            let sensor_type = read_plain_text(members, "Type");
            if text::same_ignoring_case(text_or_empty(&sensor_type), "Temperature") {
                let raw = read_plain_text(members, "Value");
                if let Some(raw) = &raw {
                    if let Some(temp) = read_temp(raw.as_str()) {
                        let name = read_plain_text(members, "Text");
                        let name = text::pair(text_or_empty(&name), "");
                        proof {
                            reveal_strlit("");
                            assert(name@ =~= or_empty(plain_text(members@, "Text"@)));
                            lemma_named_push(out@, name, temp);
                        }
                        out.push((name, temp));
                    }
                }
            }
            assert(temperature::named(out@) =~= start + member_reading(members@));
            let i = find_member(members, "Children");
            if i < members.len() {
                if let JsonValue::Array(items) = &members[i].1 {
                    collect_temp_from_values(items, out);
                    assert(start + member_reading(members@) + loose_readings_of(
                        items@,
                        items@.len() as int,
                    ) =~= temperature::named(old(out)@) + loose_readings(*value));
                    return;
                }
            }
            assert(start + member_reading(members@) =~= temperature::named(old(out)@)
                + loose_readings(*value));
        },
        JsonValue::Array(items) => collect_temp_from_values(items, out),
        _ => {
            assert(temperature::named(out@) + loose_readings(*value) =~= temperature::named(out@));
        },
    }
}

fn collect_temp_from_values(items: &Vec<JsonValue>, out: &mut Vec<(String, Single)>)
    ensures
        temperature::named(final(out)@) == temperature::named(old(out)@) + loose_readings_of(
            items@,
            items@.len() as int,
        ),
    decreases items, 0int,
{
    let n = items.len();
    let ghost before = temperature::named(out@);
    assert(before + loose_readings_of(items@, 0) =~= before);
    for i in 0..n
        invariant
            n == items@.len(),
            temperature::named(out@) == before + loose_readings_of(items@, i as int),
    {
        collect_temp_from_value(&items[i], out);
        proof {
            let more = loose_readings(items@[i as int]);
            assert(before + loose_readings_of(items@, i as int) + more =~= before + (
            loose_readings_of(items@, i as int) + more));
        }
    }
}

/// Only readings that can be true are taken from a tree of nodes.
pub proof fn law_node_readings_are_plausible(node: NodeView)
    ensures
        temperature::all_plausible(node_readings(node)),
    decreases node, 0int,
{
    if let Some(nodes) = node.children {
        lemma_readings_plausible(nodes, nodes.len() as int);
    }
}

proof fn lemma_readings_plausible(nodes: Seq<NodeView>, n: int)
    ensures
        temperature::all_plausible(readings_of(nodes, n)),
    decreases nodes, n,
{
    if 0 < n <= nodes.len() {
        lemma_readings_plausible(nodes, n - 1);
        law_node_readings_are_plausible(nodes[n - 1]);
    }
}

/// Only readings that can be true are taken from a value that is no such tree.
pub proof fn law_loose_readings_are_plausible(json: JsonValue)
    ensures
        temperature::all_plausible(loose_readings(json)),
    decreases json, 0int,
{
    match json {
        JsonValue::Object(members) => {
            let i = member(members@, "Children"@);
            if 0 <= i < members@.len() {
                if let JsonValue::Array(items) = members@[i].1 {
                    lemma_loose_readings_of_plausible(items@, items@.len() as int);
                }
            }
        },
        JsonValue::Array(items) => {
            lemma_loose_readings_of_plausible(items@, items@.len() as int);
        },
        _ => {},
    }
}

proof fn lemma_loose_readings_of_plausible(items: Seq<JsonValue>, n: int)
    ensures
        temperature::all_plausible(loose_readings_of(items, n)),
    decreases items, n,
{
    if 0 < n <= items.len() {
        lemma_loose_readings_of_plausible(items, n - 1);
        law_loose_readings_are_plausible(items[n - 1]);
    }
}

/// A node is seen as what it holds, and its children each as what it is seen as.
pub proof fn law_node_is_seen_whole(node: LhmNode)
    ensures
        node.text is Some ==> node@.text == Some(node.text->0@),
        node.text is None ==> node@.text is None,
        node.value is Some ==> node@.value == Some(node.value->0@),
        node.value is None ==> node@.value is None,
        node.sensor_type is Some ==> node@.sensor_type == Some(node.sensor_type->0@),
        node.sensor_type is None ==> node@.sensor_type is None,
        node.image_url is Some ==> node@.image_url == Some(node.image_url->0@),
        node.image_url is None ==> node@.image_url is None,
        node.children is None ==> node@.children is None,
        node.children is Some ==> {
            &&& node@.children is Some
            &&& node@.children->0.len() == node.children->0@.len()
            &&& forall|i: int|
                0 <= i < node.children->0@.len() ==> #[trigger] node@.children->0[i]
                    == node.children->0@[i]@
        },
{
    if let Some(nodes) = node.children {
        lemma_nodes_view(nodes@, nodes@.len() as int);
    }
}

proof fn lemma_member(members: Seq<(String, JsonValue)>, name: Seq<char>)
    ensures
        0 <= member(members, name) <= members.len(),
        member(members, name) < members.len() ==> members[member(members, name)].0@ == name,
        forall|j: int| 0 <= j < member(members, name) ==> (#[trigger] members[j]).0@ != name,
    decreases members.len(),
{
    if members.len() > 0 && members[0].0@ != name {
        let rest = members.drop_first();
        lemma_member(rest, name);
        assert forall|j: int| 0 <= j < member(members, name) implies (#[trigger] members[j]).0@
            != name by {
            if j > 0 {
                assert(members[j] == rest[j - 1]);
            }
        }
    }
}

/// The text of a member is the one that the first member of the name holds: none where
/// that is null or missing, and it cannot be read where it is of another kind.
pub proof fn law_text_of_a_member(members: Seq<(String, JsonValue)>, name: Seq<char>, i: int)
    requires
        0 <= i <= members.len(),
        i < members.len() ==> members[i].0@ == name,
        forall|j: int| 0 <= j < i ==> (#[trigger] members[j]).0@ != name,
    ensures
        i == members.len() ==> text_member(members, name) == Some(None::<Seq<char>>),
        i < members.len() && members[i].1 is Null ==> text_member(members, name) == Some(
            None::<Seq<char>>,
        ),
        i < members.len() && members[i].1 is Text ==> text_member(members, name) == Some(
            Some(members[i].1->Text_0@),
        ),
        i < members.len() && !(members[i].1 is Null) && !(members[i].1 is Text) ==> text_member(
            members,
            name,
        ) is None,
{
    lemma_member(members, name);
    let at = member(members, name);
    if at < i {
        assert(members[at].0@ != name);
    } else if i < at {
        assert(members[i].0@ != name);
    }
}

/// An object writes a node where its texts and its children can be read, and the node
/// holds each of them under its own name. The children are those of the member at `i`,
/// the first one of that name, and there are none without one.
pub proof fn law_nodes_of_objects(members: Vec<(String, JsonValue)>, i: int)
    requires
        0 <= i <= members@.len(),
        i < members@.len() ==> members@[i].0@ == "Children"@,
        forall|j: int| 0 <= j < i ==> (#[trigger] members@[j]).0@ != "Children"@,
    ensures
        ({
            let node = node_of(JsonValue::Object(members));
            let text = text_member(members@, "Text"@);
            let value = text_member(members@, "Value"@);
            let kind = text_member(members@, "Type"@);
            let image = text_member(members@, "ImageURL"@);
            let children = if i < members@.len() {
                children_of(members@[i].1)
            } else {
                Some(None)
            };
            &&& node is Some <==> text is Some && value is Some && kind is Some && image is Some
                && children is Some
            &&& node is Some ==> {
                &&& node->0.text == text->0
                &&& node->0.value == value->0
                &&& node->0.sensor_type == kind->0
                &&& node->0.image_url == image->0
                &&& node->0.children == children->0
            }
        }),
{
    lemma_member(members@, "Children"@);
    let at = member(members@, "Children"@);
    if at < i {
        assert(members@[at].0@ != "Children"@);
    } else if i < at {
        assert(members@[i].0@ != "Children"@);
    }
}

/// An array of five writes a node by the order of its parts; another one, and a value of
/// another kind, writes none.
pub proof fn law_nodes_of_other_values(json: JsonValue)
    ensures
        !(json is Object) && !(json is Array) ==> node_of(json) is None,
        json is Array && json->Array_0@.len() != 5 ==> node_of(json) is None,
        json is Array && json->Array_0@.len() == 5 ==> {
            let items = json->Array_0@;
            let node = node_of(json);
            &&& node is Some <==> {
                &&& forall|k: int|
                    0 <= k < 4 ==> (#[trigger] items[k]) is Null || items[k] is Text
                &&& children_of(items[4]) is Some
            }
            &&& node is Some ==> {
                &&& items[0] is Null ==> node->0.text is None
                &&& items[0] is Text ==> node->0.text == Some(items[0]->Text_0@)
                &&& items[1] is Null ==> node->0.value is None
                &&& items[1] is Text ==> node->0.value == Some(items[1]->Text_0@)
                &&& items[2] is Null ==> node->0.sensor_type is None
                &&& items[2] is Text ==> node->0.sensor_type == Some(items[2]->Text_0@)
                &&& items[3] is Null ==> node->0.image_url is None
                &&& items[3] is Text ==> node->0.image_url == Some(items[3]->Text_0@)
                &&& node->0.children == children_of(items[4])->0
            }
        },
{
    if json is Array && json->Array_0@.len() == 5 {
        let items = json->Array_0@;
        if node_of(json) is Some {
            assert forall|k: int| 0 <= k < 4 implies (#[trigger] items[k]) is Null
                || items[k] is Text by {
                assert(text_or_null(items[0]) is Some && text_or_null(items[1]) is Some
                    && text_or_null(items[2]) is Some && text_or_null(items[3]) is Some);
                assert(k == 0 || k == 1 || k == 2 || k == 3);
            }
        }
        if forall|k: int| 0 <= k < 4 ==> (#[trigger] items[k]) is Null || items[k] is Text {
            assert(items[0] is Null || items[0] is Text);
            assert(items[1] is Null || items[1] is Text);
            assert(items[2] is Null || items[2] is Text);
            assert(items[3] is Null || items[3] is Text);
        }
    }
}

proof fn lemma_nodes_of(items: Seq<JsonValue>, n: int)
    requires
        0 <= n <= items.len(),
    ensures
        nodes_of(items, n) is Some <==> forall|k: int|
            0 <= k < n ==> node_of(#[trigger] items[k]) is Some,
        nodes_of(items, n) is Some ==> nodes_of(items, n)->0.len() == n && forall|k: int|
            0 <= k < n ==> node_of(#[trigger] items[k]) == Some(nodes_of(items, n)->0[k]),
    decreases n,
{
    if n > 0 {
        lemma_nodes_of(items, n - 1);
        if forall|k: int| 0 <= k < n ==> node_of(#[trigger] items[k]) is Some {
            assert forall|k: int| 0 <= k < n - 1 implies node_of(#[trigger] items[k]) is Some by {}
            assert(node_of(items[n - 1]) is Some);
        }
    }
}

/// Children are listed in an array, one after another, and cannot be read where one of
/// them cannot; null lists none at all, and another value cannot be read.
pub proof fn law_children(json: JsonValue)
    ensures
        json is Null ==> children_of(json) == Some(None::<Seq<NodeView>>),
        !(json is Null) && !(json is Array) ==> children_of(json) is None,
        json is Array ==> {
            let items = json->Array_0@;
            let all = forall|k: int| 0 <= k < items.len() ==> node_of(#[trigger] items[k]) is Some;
            &&& !all ==> children_of(json) is None
            &&& all ==> {
                &&& children_of(json) is Some && children_of(json)->0 is Some
                &&& children_of(json)->0->0.len() == items.len()
                &&& forall|k: int|
                    0 <= k < items.len() ==> node_of(#[trigger] items[k]) == Some(
                        children_of(json)->0->0[k],
                    )
            }
        },
{
    if let JsonValue::Array(items) = json {
        lemma_nodes_of(items@, items@.len() as int);
    }
}

/// The number at the start of a value is what its first characters write, as far as they
/// are digits, points and signs, without the space before them.
pub proof fn law_number_at_the_start(raw: Seq<char>, start: Seq<char>, rest: Seq<char>)
    requires
        text::trim(raw) == start + rest,
        forall|i: int|
            0 <= i < start.len() ==> 48 <= (#[trigger] start[i]) as int <= 57 || start[i] == '.'
                || start[i] == '-' || start[i] == '+',
        rest.len() > 0 ==> !(48 <= rest[0] as int <= 57) && rest[0] != '.' && rest[0] != '-'
            && rest[0] != '+',
    ensures
        lhm_number(raw) == number::decimal_number(start),
{
    lemma_numeric_start(start, rest);
}

proof fn lemma_numeric_start(start: Seq<char>, rest: Seq<char>)
    requires
        forall|i: int|
            0 <= i < start.len() ==> 48 <= (#[trigger] start[i]) as int <= 57 || start[i] == '.'
                || start[i] == '-' || start[i] == '+',
        rest.len() > 0 ==> !(48 <= rest[0] as int <= 57) && rest[0] != '.' && rest[0] != '-'
            && rest[0] != '+',
    ensures
        numeric_start(start + rest) == start,
    decreases start.len(),
{
    if start.len() > 0 {
        let less = start.drop_first();
        assert forall|i: int| 0 <= i < less.len() implies 48 <= (#[trigger] less[i]) as int <= 57
            || less[i] == '.' || less[i] == '-' || less[i] == '+' by {
            assert(less[i] == start[i + 1]);
        }
        lemma_numeric_start(less, rest);
        assert((start + rest)[0] == start[0]);
        assert((start + rest).drop_first() =~= less + rest);
        assert(seq![start[0]] + less =~= start);
    } else {
        assert(start + rest =~= rest);
    }
}

/// A sensor's value is a temperature where a number stands at its start that is one from
/// 40 degrees below zero to 150 above it.
pub proof fn law_temperatures_of_values(raw: Seq<char>)
    ensures
        temp_value(None) is None,
        lhm_number(raw) is Some && lhm_number(raw)->0.between(-40, 150) ==> temp_value(Some(raw))
            == lhm_number(raw),
        lhm_number(raw) is None || !lhm_number(raw)->0.between(-40, 150) ==> temp_value(
            Some(raw),
        ) is None,
{
}

/// A node has a reading of its own where it is of the kind `Temperature`, in any case of
/// letters, has a text, and its value is a temperature; the reading is that value under
/// that text.
pub proof fn law_reading_of_a_node(node: NodeView)
    ensures
        ({
            let counts = node.sensor_type is Some && text::lower(node.sensor_type->0)
                == "temperature"@ && node.text is Some && temp_value(node.value) is Some;
            &&& counts ==> own_reading(node) == seq![(node.text->0, temp_value(node.value)->0)]
            &&& !counts ==> own_reading(node).len() == 0
        }),
{
    lemma_temperature_word();
    if node.sensor_type is None {
        assert(text::lower(Seq::<char>::empty()).len() == 0);
        assert("temperature"@.len() == 11);
    }
}

proof fn lemma_temperature_word()
    ensures
        text::lower("Temperature"@) == "temperature"@,
        "temperature"@.len() == 11,
{
    reveal_strlit("Temperature");
    reveal_strlit("temperature");
    assert(text::lower("Temperature"@) =~= "temperature"@);
}

/// The readings of a tree are those of the node itself and then those of its children,
/// one after another.
pub proof fn law_readings_of_a_tree(node: NodeView, children: Seq<NodeView>, one: NodeView)
    ensures
        node.children is None ==> node_readings(node) == own_reading(node),
        node.children is Some && node.children->0.len() == 0 ==> node_readings(node)
            == own_reading(node),
        node.children == Some(children.push(one)) ==> node_readings(node) == node_readings(
            NodeView { children: Some(children), ..node },
        ) + node_readings(one),
{
    assert(own_reading(node) + Seq::empty() =~= own_reading(node));
    if node.children == Some(children.push(one)) {
        let all = children.push(one);
        let n = children.len() as int;
        lemma_readings_of_prefix(children, one, n);
        let less = NodeView { children: Some(children), ..node };
        assert(all[n] == one);
        assert(own_reading(less) == own_reading(node));
        assert(own_reading(node) + (readings_of(children, n) + node_readings(one)) =~= (own_reading(
            node,
        ) + readings_of(children, n)) + node_readings(one));
    }
}

proof fn lemma_readings_of_prefix(children: Seq<NodeView>, one: NodeView, n: int)
    requires
        0 <= n <= children.len(),
    ensures
        readings_of(children.push(one), n) == readings_of(children, n),
    decreases n,
{
    if n > 0 {
        lemma_readings_of_prefix(children, one, n - 1);
        assert(children.push(one)[n - 1] == children[n - 1]);
    }
}

/// In a value that is no such tree, an object's own reading comes first and then those in
/// the array under `Children`, the member at `i`; an array has those of its items, one
/// after another; another value has none.
pub proof fn law_readings_of_any_value(json: JsonValue, i: int)
    requires
        json is Object ==> {
            let members = json->Object_0@;
            &&& 0 <= i <= members.len()
            &&& i < members.len() ==> members[i].0@ == "Children"@
            &&& forall|j: int| 0 <= j < i ==> (#[trigger] members[j]).0@ != "Children"@
        },
    ensures
        json is Object ==> {
            let members = json->Object_0@;
            &&& i < members.len() && members[i].1 is Array ==> loose_readings(json)
                == member_reading(members) + loose_readings(members[i].1)
            &&& i == members.len() || !(members[i].1 is Array) ==> loose_readings(json)
                == member_reading(members)
        },
        !(json is Object) && !(json is Array) ==> loose_readings(json).len() == 0,
        json is Array ==> loose_readings(json) == loose_readings_of(
            json->Array_0@,
            json->Array_0@.len() as int,
        ),
{
    if let JsonValue::Object(members) = json {
        lemma_member(members@, "Children"@);
        let at = member(members@, "Children"@);
        if at < i {
            assert(members@[at].0@ != "Children"@);
        } else if i < at {
            assert(members@[i].0@ != "Children"@);
        }
        assert(member_reading(members@) + Seq::empty() =~= member_reading(members@));
    }
}

/// The readings in the first values are those of each of them, one after another.
pub proof fn law_readings_one_after_another(items: Seq<JsonValue>, n: int)
    requires
        0 <= n < items.len(),
    ensures
        loose_readings_of(items, 0).len() == 0,
        loose_readings_of(items, n + 1) == loose_readings_of(items, n) + loose_readings(items[n]),
{
}

/// An object has a reading of its own where its `Type` is `Temperature`, in any case of
/// letters, and its `Value` is a temperature; the reading is that value under its `Text`,
/// or under no text where that cannot be read.
pub proof fn law_reading_of_an_object(members: Seq<(String, JsonValue)>)
    ensures
        ({
            let kind = text_member(members, "Type"@);
            let value = text_member(members, "Value"@);
            let name = text_member(members, "Text"@);
            let counts = {
                &&& kind is Some && kind->0 is Some && text::lower(kind->0->0) == "temperature"@
                &&& value is Some && value->0 is Some && temp_value(value->0) is Some
            };
            &&& !counts ==> member_reading(members).len() == 0
            &&& counts && name is Some && name->0 is Some ==> member_reading(members)
                == seq![(name->0->0, temp_value(value->0)->0)]
            &&& counts && (name is None || name->0 is None) ==> member_reading(members)
                == seq![(Seq::<char>::empty(), temp_value(value->0)->0)]
        }),
{
    lemma_temperature_word();
    assert(text::lower(Seq::<char>::empty()).len() == 0);
}

/// A text is seen as its characters, and one that is missing counts as an empty one.
pub proof fn law_texts_are_seen(s: Option<String>)
    ensures
        s is Some ==> text_view(s) == Some(s->0@) && or_empty(text_view(s)) == s->0@,
        s is None ==> text_view(s) is None && or_empty(text_view(s)).len() == 0,
{
}

} // verus!
