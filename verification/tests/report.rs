use sysmon_tray::gpu::{
    gpu_priority_score, is_gpu_hardware, pick_primary_gpu, GpuCandidate, GpuSensors,
};
use sysmon_tray::lhm_tree::{parse_lhm_number, JsonValue, LhmNode};
use sysmon_tray::number::Single;
use sysmon_tray::temperature_lhm::{
    extract_lhm_metrics, GpuMetrics, LhmParseResult, LhmRuntimeConfig,
    LibreHardwareMonitorProvider, TempSourceKind, TempSourceTracker,
};

fn single(x: f32) -> Single {
    Single { bits: x.to_bits() }
}

fn float(x: Single) -> f32 {
    f32::from_bits(x.bits)
}

fn value(v: &serde_json::Value) -> JsonValue {
    match v {
        serde_json::Value::Null => JsonValue::Null,
        serde_json::Value::Bool(_) => JsonValue::Bool,
        serde_json::Value::Number(_) => JsonValue::Number,
        serde_json::Value::String(s) => JsonValue::Text(s.clone()),
        serde_json::Value::Array(items) => JsonValue::Array(items.iter().map(value).collect()),
        serde_json::Value::Object(members) => {
            JsonValue::Object(members.iter().map(|(k, v)| (k.clone(), value(v))).collect())
        }
    }
}

fn parse(json: &str) -> JsonValue {
    let root: serde_json::Value = serde_json::from_str(json).unwrap();
    value(&root)
}

#[test]
fn parse_temp_string() {
    assert_eq!(parse_lhm_number("46.9 °C"), Some(single(46.9)));
    assert_eq!(parse_lhm_number("  72.0°C"), Some(single(72.0)));
    assert_eq!(parse_lhm_number("12.9 %"), Some(single(12.9)));
    assert!(parse_lhm_number("").is_none());
}

#[test]
fn extract_gpu_from_sample_tree() {
    let json = r#"{
          "Text": "Computer",
          "Children": [
            {
              "Text": "NVIDIA GeForce RTX 3080",
              "ImageURL": "images_icon/nvidia.png",
              "Children": [
                { "Text": "GPU Core", "Value": "45.0 %", "Type": "Load", "Children": [] },
                { "Text": "GPU Core", "Value": "53.0 °C", "Type": "Temperature", "Children": [] },
                { "Text": "GPU Memory Used", "Value": "1593", "Type": "SmallData", "Children": [] },
                { "Text": "GPU Memory Total", "Value": "12288", "Type": "SmallData", "Children": [] },
                { "Text": "GPU Memory", "Value": "12.9 %", "Type": "Load", "Children": [] }
              ]
            },
            {
              "Text": "Intel(R) UHD Graphics",
              "ImageURL": "images_icon/intel.png",
              "Children": [
                { "Text": "D3D 3D", "Value": "3.0 %", "Type": "Load", "Children": [] }
              ]
            }
          ]
        }"#;
    let root = parse(json);
    let parsed = extract_lhm_metrics(&root);
    let gpu = parsed.gpu.expect("gpu");
    assert!(gpu.name.contains("3080"));
    assert_eq!(gpu.load_percent, Some(single(45.0)));
    assert_eq!(gpu.temp_celsius, Some(single(53.0)));
    assert!(gpu.memory_total_bytes.unwrap() > 0);
    assert!(float(gpu.memory_percent.unwrap()) > 0.0);

    assert_eq!(gpu.memory_used_bytes, Some(1593 * 1024 * 1024));
    assert_eq!(gpu.memory_total_bytes, Some(12288 * 1024 * 1024));
    assert_eq!(gpu.memory_percent, Some(single(12.9)));
    assert_eq!(parsed.cpu_temp, Some(single(53.0)));
}

#[test]
fn numbers_of_sensors() {
    let cases = vec![
        "0", "-0", "1593", "+5", "-12.5 W", ".5", "5.", "3,5", "1e5", "16777217", "0.1",
        "340282360000000000000000000000000000000", "999999999999999999999999999999999999999",
        "1.17549435E-38", "0.000000000000000000000000000000000000000000001", "100.0%",
    ];
    for raw in cases {
        let num: String = raw
            .trim()
            .chars()
            .take_while(|c| c.is_ascii_digit() || *c == '.' || *c == '-' || *c == '+')
            .collect();
        let expected = num.parse::<f32>().ok().map(single);
        assert_eq!(parse_lhm_number(raw), expected, "{raw}");
    }
    for raw in vec!["+-5", "5-5", "1.2.3", "°C", "-", ".", "+", "abc"] {
        assert_eq!(parse_lhm_number(raw), None, "{raw}");
    }
}

#[test]
fn processor_temperature_of_a_tree() {
    let root = parse(
        r#"{ "Text": "Computer", "Min": 3, "Children": [
            { "Text": "Core #1", "Value": "61.0 °C", "Type": "temperature" },
            { "Text": "CPU Package", "Value": "70.5 °C", "Type": "TEMPERATURE" },
            { "Text": "Broken", "Value": "900 °C", "Type": "Temperature" } ] }"#,
    );
    assert_eq!(extract_lhm_metrics(&root).cpu_temp, Some(single(70.5)));
    assert!(extract_lhm_metrics(&root).gpu.is_none());
}

#[test]
fn a_report_that_is_no_tree_is_searched() {
    // A number where a text belongs makes the strict reading fail.
    let root = parse(
        r#"[ { "Text": 5, "Type": "Temperature", "Value": "44 °C" },
             { "Children": [ { "Text": "CPU", "Type": "Temperature", "Value": "48 °C" },
                             { "Text": "GPU Core", "Type": "Temperature", "Value": 3 } ] },
             true, null, 7 ]"#,
    );
    let r = extract_lhm_metrics(&root);
    assert_eq!(r.cpu_temp, Some(single(48.0)));
    assert!(r.gpu.is_none());
    assert_eq!(extract_lhm_metrics(&JsonValue::Null).cpu_temp, None);
    assert_eq!(extract_lhm_metrics(&JsonValue::Text("x".to_string())).cpu_temp, None);
}

#[test]
fn nodes_from_values() {
    let node = LhmNode::from_json(&parse(
        r#"{ "Text": "a", "Value": null, "Unknown": [1, 2], "Children": [ {} , ["t", null, null, null, null] ] }"#,
    ))
    .unwrap();
    assert_eq!(node.text.as_deref(), Some("a"));
    assert_eq!(node.children.as_ref().map(|c| c.len()), Some(2));
    assert!(node.value.is_none() && node.sensor_type.is_none() && node.image_url.is_none());
    assert_eq!(node.children.unwrap()[1].text.as_deref(), Some("t"));

    for refused in vec![
        "null", "3", "\"x\"", "true", "[]", "[null, null, null, null]",
        "[null, null, null, null, null, null]", r#"{ "Text": 3 }"#, r#"{ "Children": {} }"#,
        r#"{ "Children": [ null ] }"#, r#"[null, null, null, false, null]"#,
        r#"{ "Children": [ { "Type": [] } ] }"#,
    ] {
        assert!(LhmNode::from_json(&parse(refused)).is_none(), "{refused}");
    }
}

fn gpu_of(children: &str) -> Option<GpuMetrics> {
    let json = format!(r#"{{ "Text": " Radeon ", "Children": [ {children} ] }}"#);
    extract_lhm_metrics(&parse(&json)).gpu
}

fn sensor(kind: &str, name: &str, value: &str) -> String {
    format!(r#"{{ "Type": "{kind}", "Text": "{name}", "Value": "{value}" }}"#)
}

#[test]
fn sensors_of_a_card() {
    let all = vec![
        sensor("Load", "D3D 3D", "101 %"),
        sensor("Load", "GPU Render/Compute", "7 %"),
        sensor("Load", "GPU Core", "9 %"),
        sensor("Temperature", "GPU Hot Spot", "80 °C"),
        sensor("Temperature", "GPU Core", "60 °C"),
        sensor("Temperature", "GPU Hotspot", "81 °C"),
        sensor("SmallData", "D3D Dedicated Memory Used", "100.5 MB"),
        sensor("SmallData", "GPU Memory Used", "256 MB"),
        sensor("SmallData", "D3D Shared Memory Used", "9 MB"),
        sensor("Data", "GPU Memory Total", "1024 MB"),
    ];
    let g = gpu_of(&all.join(",")).unwrap();
    assert_eq!(g.name, "Radeon");
    assert_eq!(g.load_percent, Some(single(7.0)));
    assert_eq!(g.temp_celsius, Some(single(60.0)));
    assert_eq!(g.memory_used_bytes, Some(256 << 20));
    assert_eq!(g.memory_total_bytes, Some(1024 << 20));
    assert_eq!(g.memory_percent, Some(single(256.0f32 / 1024.0 * 100.0)));

    // More in use than there is counts as all of it.
    let g = gpu_of(&vec![
        sensor("SmallData", "GPU Memory Used", "3000"),
        sensor("SmallData", "GPU Memory Total", "1000"),
    ].join(",")).unwrap();
    assert_eq!(g.memory_percent, Some(single(100.0)));

    // A total of nothing is no total.
    let g = gpu_of(&vec![
        sensor("SmallData", "GPU Memory Used", "0.5"),
        sensor("SmallData", "GPU Memory Total", "0"),
    ].join(",")).unwrap();
    assert_eq!(g.memory_used_bytes, Some(1 << 19));
    assert_eq!((g.memory_total_bytes, g.memory_percent), (None, None));

    assert!(gpu_of(&sensor("Fan", "GPU Fan", "900 RPM")).is_none());
    assert!(gpu_of("").is_none());
}

#[test]
fn memory_in_bytes_is_capped() {
    let g = gpu_of(&sensor("Data", "GPU Memory Total", "99999999999999999999999")).unwrap();
    let mb: f32 = 99999999999999999999999.0;
    assert_eq!(g.memory_total_bytes, Some((mb as f64 * 1024.0 * 1024.0) as u64));
    assert_eq!(g.memory_total_bytes, Some(u64::MAX));
    let g = gpu_of(&sensor("Data", "GPU Memory Total", "0.3")).unwrap();
    assert_eq!(g.memory_total_bytes, Some((0.3f32 as f64 * 1024.0 * 1024.0) as u64));
}

fn card(name: &str, children: &str) -> String {
    format!(r#"{{ "Text": "{name}", "Children": [ {children} ] }}"#)
}

fn best_of(cards: Vec<String>) -> Option<String> {
    let json = format!(r#"{{ "Text": "PC", "Children": [ {} ] }}"#, cards.join(","));
    extract_lhm_metrics(&parse(&json)).gpu.map(|g| g.name)
}

#[test]
fn the_main_card() {
    let load = sensor("Load", "GPU Core", "1 %");
    let temp = sensor("Temperature", "GPU Core", "50 °C");
    assert_eq!(
        best_of(vec![card("Intel UHD Graphics", &load), card("GeForce GTX 970", &load)]).as_deref(),
        Some("GeForce GTX 970")
    );
    // Equal scores go by the name.
    assert_eq!(
        best_of(vec![card("Radeon B", &load), card("Radeon A", &load)]).as_deref(),
        Some("Radeon A")
    );
    // A load sensor counts for more than a temperature alone.
    assert_eq!(
        best_of(vec![card("Radeon A", &temp), card("Radeon B", &load)]).as_deref(),
        Some("Radeon B")
    );
    // Each full 256 MiB is a point.
    let more = vec![temp.clone(), sensor("SmallData", "GPU Memory Total", "511")].join(",");
    let much = vec![temp.clone(), sensor("SmallData", "GPU Memory Total", "512")].join(",");
    assert_eq!(
        best_of(vec![card("Radeon A", &more), card("Radeon B", &much)]).as_deref(),
        Some("Radeon B")
    );
    assert_eq!(best_of(vec![card("  ", &load), card("CPU", "")]), None);
}

fn node(text: &str, image: &str, children: Option<Vec<LhmNode>>) -> LhmNode {
    LhmNode {
        text: Some(text.to_string()),
        value: None,
        sensor_type: None,
        image_url: Some(image.to_string()),
        children,
    }
}

#[test]
fn what_is_a_card() {
    assert!(is_gpu_hardware(&node("x", "images/NVIDIA.png", None)));
    assert!(is_gpu_hardware(&node("x", "images/ati.png", None)));
    assert!(is_gpu_hardware(&node("AMD Radeon", "", None)));
    assert!(is_gpu_hardware(&node("Intel Arc A770", "", None)));
    assert!(is_gpu_hardware(&node("x", "", Some(vec![node("GPU Core #1", "", None)]))));
    assert!(!is_gpu_hardware(&node("x", "", Some(vec![node("The GPU Core", "", None)]))));
    assert!(!is_gpu_hardware(&node("Intel Core i7", "cpu.png", Some(vec![]))));
    assert_eq!(gpu_priority_score("Some RTX", ""), 100);
    assert_eq!(gpu_priority_score("x", "ATI.png"), 100);
    assert_eq!(gpu_priority_score("Intel Arc", ""), 80);
    assert_eq!(gpu_priority_score("Intel UHD", ""), 10);
    assert_eq!(gpu_priority_score("Matrox", ""), 40);
}

fn parsed(temp: f32) -> Option<LhmParseResult> {
    Some(LhmParseResult { cpu_temp: Some(single(temp)), gpu: None })
}

const SECOND: u64 = 1_000_000_000;

#[test]
fn requests_stop_after_five_failures() {
    let mut runtime = LhmRuntimeConfig::new(true, "http://localhost:1//".to_string());
    let mut p = LibreHardwareMonitorProvider::new(&runtime);
    let mut gpu: Option<GpuMetrics> = None;
    for i in 0..5u64 {
        let url = p.begin_reading(&runtime, i * SECOND, &mut gpu);
        assert_eq!(url.as_deref(), Some("http://localhost:1/data.json"));
        assert_eq!(p.read_cpu_temp_celsius(None, i * SECOND, &mut gpu), None);
    }
    assert_eq!(p.begin_reading(&runtime, 5 * SECOND, &mut gpu), None);
    assert_eq!(p.begin_reading(&runtime, 34 * SECOND - 1, &mut gpu), None);
    assert!(p.begin_reading(&runtime, 34 * SECOND, &mut gpu).is_some());

    // A success forgets what failed before it.
    for _ in 0..4 {
        p.read_cpu_temp_celsius(None, 40 * SECOND, &mut gpu);
    }
    assert_eq!(
        p.read_cpu_temp_celsius(parsed(50.0), 40 * SECOND, &mut gpu),
        Some(single(50.0))
    );
    p.read_cpu_temp_celsius(None, 40 * SECOND, &mut gpu);
    assert!(p.begin_reading(&runtime, 40 * SECOND, &mut gpu).is_some());

    // A change of the settings lets requests through again.
    for _ in 0..4 {
        p.read_cpu_temp_celsius(None, 41 * SECOND, &mut gpu);
    }
    assert_eq!(p.begin_reading(&runtime, 42 * SECOND, &mut gpu), None);
    runtime.set_base_url("http://localhost:2".to_string());
    assert_eq!(
        p.begin_reading(&runtime, 42 * SECOND, &mut gpu).as_deref(),
        Some("http://localhost:2/data.json")
    );
    runtime.set_enabled(false);
    assert_eq!(runtime.epoch(), 2);
    assert_eq!(p.begin_reading(&runtime, 42 * SECOND, &mut gpu), None);
}

#[test]
fn the_card_last_seen() {
    let runtime = LhmRuntimeConfig::new(true, "http://localhost".to_string());
    let mut p = LibreHardwareMonitorProvider::new(&runtime);
    let mut gpu: Option<GpuMetrics> = None;
    let seen = gpu_of(&sensor("Load", "GPU Core", "5"));
    let result = Some(LhmParseResult { cpu_temp: None, gpu: seen });
    assert_eq!(p.read_cpu_temp_celsius(result, 0, &mut gpu), None);
    assert_eq!(gpu.as_ref().map(|g| g.name.as_str()), Some("Radeon"));
    assert!(p.begin_reading(&runtime, 1, &mut gpu).is_some());
    assert!(gpu.is_some());
    p.read_cpu_temp_celsius(None, 1, &mut gpu);
    assert!(gpu.is_none());
}

#[test]
fn source_codes() {
    let kinds = [
        (TempSourceKind::Unavailable, 0, "unavailable"),
        (TempSourceKind::Lhm, 1, "lhm"),
        (TempSourceKind::Wmi, 2, "wmi"),
        (TempSourceKind::Sysinfo, 3, "sysinfo"),
    ];
    let mut tracker = TempSourceTracker::new();
    assert_eq!(tracker.get(), TempSourceKind::Unavailable);
    for (kind, code, name) in kinds {
        assert_eq!(kind.to_u8(), code);
        assert_eq!(TempSourceKind::from_u8(code), kind);
        assert_eq!(kind.as_str(), name);
        tracker.set(kind);
        assert_eq!(tracker.get(), kind);
    }
    assert_eq!(TempSourceKind::from_u8(9), TempSourceKind::Unavailable);
}

fn candidate(name: &str, score: i64, used: Option<f32>, total: Option<f32>) -> GpuCandidate {
    let mut sensors = GpuSensors::new();
    sensors.memory_used_mb = used.map(single);
    sensors.memory_total_mb = total.map(single);
    GpuCandidate { name: name.to_string(), score, sensors }
}

#[test]
fn shares_of_a_cards_memory() {
    let cases = [
        (1.0f32, f32::INFINITY), (1.0, 3.0), (5.0, 2.0), (-1.0, 2.0), (0.0, 1.0), (7.0, f32::MIN_POSITIVE),
        (1.0, 0.0), (1.0, -1.0), (1.0, f32::NAN), (1.0, f32::NEG_INFINITY),
    ];
    for (used, total) in cases {
        let expected = if total > 0.0 {
            Some(single((used / total * 100.0).clamp(0.0, 100.0)))
        } else {
            None
        };
        let g = pick_primary_gpu(vec![candidate("a", 1, Some(used), Some(total))]).unwrap();
        assert_eq!(g.memory_percent, expected, "{used} of {total}");
        assert_eq!(g.memory_used_bytes, Some((used as f64 * 1024.0 * 1024.0) as u64));
        assert_eq!(g.memory_total_bytes, Some((total as f64 * 1024.0 * 1024.0) as u64));
    }
    assert!(pick_primary_gpu(vec![]).is_none());
    assert!(pick_primary_gpu(vec![candidate("a", 1, None, None)]).is_none());
}

#[test]
fn the_order_of_cards_does_not_matter() {
    let card = |name: &str, score| candidate(name, score, Some(1.0), None);
    let one = pick_primary_gpu(vec![card("b", 5), card("a", 5), card("c", 4)]).unwrap();
    let two = pick_primary_gpu(vec![card("c", 4), card("a", 5), card("b", 5)]).unwrap();
    assert_eq!((one.name.as_str(), two.name.as_str()), ("a", "a"));
}
