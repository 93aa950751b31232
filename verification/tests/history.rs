use sysmon_tray::history::{
    history_capacity_for_minutes, normalize_history_range_minutes, pick_primary_fan,
    MetricsHistory,
};
use sysmon_tray::monitor::Metrics;
use sysmon_tray::number::Single;
use sysmon_tray::temperature_lhm::FanMetrics;

fn fan(kind: &str, rpm: u32) -> FanMetrics {
    FanMetrics {
        name: format!("{kind}-fan"),
        rpm,
        kind: kind.to_string(),
    }
}

fn metrics(at: u128) -> Metrics {
    let zero = Single { bits: 0 };
    Metrics {
        cpu_percent: Single { bits: 12.5f32.to_bits() },
        memory_used_bytes: 0,
        memory_total_bytes: 0,
        memory_percent: zero,
        swap_used_bytes: 0,
        swap_total_bytes: 0,
        net_down_bps: 0,
        net_up_bps: 0,
        disks: vec![],
        cpu_temp_celsius: Some(zero),
        gpu: None,
        fans: vec![fan("other", 1), fan("gpu", 2)],
        sampled_at_ms: at,
    }
}

#[test]
fn pick_primary_prefers_cpu_then_pump_gpu_chassis() {
    let fans = vec![fan("chassis", 800), fan("gpu", 1200), fan("pump", 2000)];
    assert_eq!(pick_primary_fan(&fans).map(|f| f.kind.as_str()), Some("pump"));

    let fans = vec![fan("chassis", 800), fan("cpu", 1500), fan("gpu", 1200)];
    assert_eq!(pick_primary_fan(&fans).map(|f| f.kind.as_str()), Some("cpu"));

    let fans = vec![fan("other", 500)];
    assert_eq!(pick_primary_fan(&fans).map(|f| f.rpm), Some(500));

    assert!(pick_primary_fan(&[]).is_none());
}

fn times(h: &MetricsHistory) -> Vec<u128> {
    h.snapshot().iter().map(|p| p.timestamp_ms).collect()
}

#[test]
fn the_latest_points_are_kept() {
    let mut h = MetricsHistory::new(3);
    for at in 1..=5 {
        h.push_from_metrics(&metrics(at));
    }
    assert_eq!(times(&h), vec![3, 4, 5]);
    let last = h.snapshot().pop().unwrap();
    assert_eq!(last.cpu_percent, Single { bits: 12.5f32.to_bits() });
    assert_eq!(last.fan_rpm, Some(2));
    assert_eq!(last.fan_name.as_deref(), Some("gpu-fan"));

    h.set_capacity(5);
    assert_eq!(times(&h), vec![3, 4, 5]);
    h.set_capacity(2);
    assert_eq!(times(&h), vec![4, 5]);
    h.set_capacity(0);
    assert_eq!(times(&h), vec![5]);
    h.push_from_metrics(&metrics(6));
    assert_eq!(times(&h), vec![6]);
    assert_eq!(MetricsHistory::new(0).snapshot().len(), 0);
}

#[test]
fn ranges() {
    for (minutes, capacity) in [(1, 60), (5, 300), (15, 900), (60, 3600)] {
        assert_eq!(history_capacity_for_minutes(minutes), Ok(capacity));
        assert_eq!(normalize_history_range_minutes(minutes), minutes);
    }
    for minutes in [0, 2, 61, u32::MAX] {
        assert_eq!(
            history_capacity_for_minutes(minutes),
            Err("历史时长仅支持 1/5/15/60 分钟".to_string())
        );
        assert_eq!(normalize_history_range_minutes(minutes), 1);
    }
}
