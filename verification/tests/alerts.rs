use sysmon_tray::alert::{AlertEngine, AlertKind, AlertThresholds};
use sysmon_tray::monitor::{DiskStat, Metrics};
use sysmon_tray::number::Single;
use sysmon_tray::response::get_metrics;
use sysmon_tray::temperature_lhm::TempSourceKind;

fn single(x: f32) -> Single {
    Single { bits: x.to_bits() }
}

fn disk(name: &str, mount: &str, used: f32) -> DiskStat {
    DiskStat {
        name: name.to_string(),
        mount_point: mount.to_string(),
        total_bytes: 100,
        available_bytes: 1,
        used_percent: single(used),
    }
}

fn metrics(cpu: f32, memory: f32, temp: Option<f32>, disks: Vec<DiskStat>) -> Metrics {
    Metrics {
        cpu_percent: single(cpu),
        memory_used_bytes: 0,
        memory_total_bytes: 0,
        memory_percent: single(memory),
        swap_used_bytes: 0,
        swap_total_bytes: 0,
        net_down_bps: 0,
        net_up_bps: 0,
        disks,
        cpu_temp_celsius: temp.map(single),
        gpu: None,
        fans: vec![],
        sampled_at_ms: 0,
    }
}

const SECOND: u64 = 1_000_000_000;

#[test]
fn default_thresholds() {
    let t = AlertThresholds::default();
    assert_eq!(t.cpu_percent, single(90.0));
    assert_eq!(t.memory_percent, single(90.0));
    assert_eq!(t.cpu_temp_celsius, single(85.0));
    assert_eq!(t.disk_percent, single(90.0));
    assert_eq!(t.cooldown_secs, 60);
    assert_eq!(t.validate(), Ok(()));
}

#[test]
fn thresholds_out_of_range() {
    let ok = AlertThresholds::default();
    let cases = vec![
        (AlertThresholds { cpu_percent: single(0.9), ..ok }, "CPU 阈值须在 1–100"),
        (AlertThresholds { cpu_percent: single(f32::NAN), ..ok }, "CPU 阈值须在 1–100"),
        (AlertThresholds { memory_percent: single(100.1), ..ok }, "内存阈值须在 1–100"),
        (AlertThresholds { cpu_temp_celsius: single(39.0), ..ok }, "温度阈值须在 40–120"),
        (AlertThresholds { cpu_temp_celsius: single(f32::INFINITY), ..ok }, "温度阈值须在 40–120"),
        (AlertThresholds { disk_percent: single(-1.0), ..ok }, "磁盘阈值须在 1–100"),
        (AlertThresholds { cooldown_secs: 4, ..ok }, "冷却秒数须在 5–3600"),
        (AlertThresholds { cooldown_secs: 3601, ..ok }, "冷却秒数须在 5–3600"),
    ];
    for (t, reason) in cases {
        assert_eq!(t.validate(), Err(reason.to_string()));
    }
}

#[test]
fn alerts_of_a_sample() {
    let mut engine = AlertEngine::with_thresholds(AlertThresholds::default());
    let m = metrics(
        90.0,
        95.25,
        Some(85.0),
        vec![disk("C", "C:\\", 91.0), disk("D", "", 10.0), disk("E", "", 99.5)],
    );
    let (status, fired) = engine.evaluate(&m, 0);
    assert!(status.cpu && status.memory && status.temperature && status.disk && status.active);
    assert_eq!(
        status.messages,
        vec!["CPU 90%", "内存 95%", "温度 85°C", "C:\\ 91%", "E 100%"]
    );
    assert_eq!(
        fired,
        vec![
            "CPU 占用过高：90.0%（阈值 90%）",
            "内存占用过高：95.2%（阈值 90%）",
            "CPU 温度过高：85.0°C（阈值 85°C）",
            "磁盘 C:\\ 占用过高：91.0%（阈值 90%）",
            "磁盘 E 占用过高：99.5%（阈值 90%）",
        ]
    );
    assert_eq!(
        status.tooltip_text(),
        "⚠ 告警：CPU 90% · 内存 95% · 温度 85°C · C:\\ 91% · E 100%"
    );

    let calm = metrics(89.9, 10.0, None, vec![]);
    let (status, fired) = engine.evaluate(&calm, 1);
    assert!(!status.active && fired.is_empty() && status.messages.is_empty());
    assert_eq!(status.tooltip_text(), "系统监测");
}

#[test]
fn announcements_keep_their_distance() {
    let mut engine = AlertEngine::with_thresholds(AlertThresholds::default());
    let hot = metrics(99.0, 0.0, None, vec![]);
    assert_eq!(engine.evaluate(&hot, 5).1.len(), 1);
    let (status, fired) = engine.evaluate(&hot, 5 + 60 * SECOND - 1);
    assert!(status.cpu && fired.is_empty());
    assert_eq!(engine.evaluate(&hot, 5 + 60 * SECOND).1.len(), 1);
    // Another kind has a time of its own.
    let full = metrics(99.0, 99.0, None, vec![]);
    assert_eq!(engine.evaluate(&full, 6 + 60 * SECOND).1, vec!["内存占用过高：99.0%（阈值 90%）"]);

    let mut t = AlertThresholds::default();
    t.cooldown_secs = 0;
    engine.set_thresholds(t);
    assert_eq!(engine.thresholds(), t);
    assert!(!engine.try_fire(AlertKind::Memory, 6 + 61 * SECOND - 1));
    assert!(engine.try_fire(AlertKind::Memory, 6 + 61 * SECOND));
}

#[test]
fn what_the_windows_are_told() {
    let mut engine = AlertEngine::with_thresholds(AlertThresholds::default());
    let m = metrics(95.0, 96.0, None, vec![]);
    let (told, tooltip, body) = get_metrics(m.clone(), &mut engine, TempSourceKind::Wmi, true, 0);
    assert_eq!(told.temp_source, "wmi");
    assert_eq!(told.metrics.cpu_percent, single(95.0));
    assert_eq!(tooltip, "⚠ 告警：CPU 95% · 内存 96%");
    assert_eq!(
        body.as_deref(),
        Some("CPU 占用过高：95.0%（阈值 90%） · 内存占用过高：96.0%（阈值 90%）")
    );
    let (_, _, body) = get_metrics(m.clone(), &mut engine, TempSourceKind::Lhm, true, 1);
    assert_eq!(body, None);
    let (_, _, body) = get_metrics(m, &mut engine, TempSourceKind::Lhm, false, 90 * SECOND);
    assert_eq!(body, None);
}

#[test]
fn a_second_of_silence_without_a_cooldown() {
    let mut engine = AlertEngine::with_thresholds(AlertThresholds { cooldown_secs: 0, ..AlertThresholds::default() });
    let hot = metrics(99.0, 0.0, None, vec![]);
    assert_eq!(engine.evaluate(&hot, 0).1.len(), 1);
    assert_eq!(engine.evaluate(&hot, SECOND - 1).1.len(), 0);
    assert_eq!(engine.evaluate(&hot, SECOND).1.len(), 1);
}
