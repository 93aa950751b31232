use sysmon_tray::monitor::{
    do_disks_fit, sum_network, DiskReading, MonitorState, SystemReadings,
    METRICS_CACHE_MIN_INTERVAL,
};
use sysmon_tray::number::Single;
use sysmon_tray::process_top::{merge_processes, ProcessReading, ProcessTopEntry};
use sysmon_tray::temperature_lhm::{FanMetrics, LhmExtras};

fn single(x: f32) -> Single {
    Single { bits: x.to_bits() }
}

const SECOND: u64 = 1_000_000_000;

fn readings(down: u64, up: u64, at: u128) -> SystemReadings {
    SystemReadings {
        cpu_percent: single(12.5),
        memory_used_bytes: 3,
        memory_total_bytes: 8,
        swap_used_bytes: 1,
        swap_total_bytes: 2,
        networks: vec![(down, up), (1, 1)],
        disks: vec![
            DiskReading { name: "a".to_string(), mount_point: "/".to_string(), total_bytes: 300, available_bytes: 100 },
            DiskReading { name: "b".to_string(), mount_point: "".to_string(), total_bytes: 0, available_bytes: 5 },
        ],
        sampled_at_ms: at,
    }
}

fn extras() -> LhmExtras {
    LhmExtras {
        gpu: None,
        fans: vec![FanMetrics { name: "f".to_string(), rpm: 700, kind: "cpu".to_string() }],
    }
}

#[test]
fn networks_are_summed() {
    assert_eq!(sum_network(&vec![]), (0, 0));
    assert_eq!(sum_network(&vec![(1, 2), (30, 40)]), (31, 42));
    assert_eq!(sum_network(&vec![(u64::MAX, 1), (5, u64::MAX)]), (u64::MAX, u64::MAX));
}

#[test]
fn a_sample() {
    let mut state = MonitorState::with_history_capacity(2, &vec![(1000, 500)], 0);
    let r = readings(4999, 499, 7);
    assert!(do_disks_fit(&r.disks));
    let m = state.sample_system_only(&r, 2 * SECOND);
    assert_eq!(m.cpu_percent, single(12.5));
    assert_eq!(m.memory_percent, single((3f64 / 8f64 * 100.0) as f32));
    assert_eq!(m.net_down_bps, 2000);
    assert_eq!(m.net_up_bps, 0);
    assert_eq!(m.disks[0].used_percent, single((200f64 / 300f64 * 100.0) as f32));
    assert_eq!(m.disks[1].used_percent, single(0.0));
    assert_eq!((m.cpu_temp_celsius, m.fans.len()), (None, 0));
    assert_eq!(m.sampled_at_ms, 7);

    let done = state.finish_sample(m, Some(single(44.0)), extras());
    assert_eq!(done.cpu_temp_celsius, Some(single(44.0)));
    let points = state.history_snapshot();
    assert_eq!(points.len(), 1);
    assert_eq!(points[0].fan_rpm, Some(700));

    // Until it is read again, the last temperature stands in.
    let next = state.sample_system_only(&readings(4999, 500, 8), 3 * SECOND);
    assert_eq!(next.cpu_temp_celsius, Some(single(44.0)));
    assert_eq!(next.fans.len(), 1);
    assert_eq!(next.net_up_bps, 1);
}

#[test]
fn a_sample_is_served_again_for_a_while() {
    let mut state = MonitorState::with_history_capacity(2, &vec![], 0);
    assert!(state.cached_metrics(0, METRICS_CACHE_MIN_INTERVAL).is_none());
    state.sample_system_only(&readings(1, 1, 7), 5);
    let served = state.cached_metrics(5 + 699_999_999, METRICS_CACHE_MIN_INTERVAL).unwrap();
    assert_eq!(served.sampled_at_ms, 7);
    assert!(state.cached_metrics(5 + 700_000_000, METRICS_CACHE_MIN_INTERVAL).is_none());
}

#[test]
fn no_rate_over_a_long_gap_or_a_reset() {
    let mut state = MonitorState::with_history_capacity(2, &vec![(10, 10)], 0);
    let m = state.sample_system_only(&readings(1000, 1000, 1), 5 * SECOND + 1);
    assert_eq!((m.net_down_bps, m.net_up_bps), (0, 0));
    let m = state.sample_system_only(&readings(2000, 3, 2), 10 * SECOND + 1);
    assert_eq!((m.net_down_bps, m.net_up_bps), (200, 0));
}

#[test]
fn a_stale_sample_is_dropped() {
    let mut state = MonitorState::with_history_capacity(2, &vec![], 0);
    let old = state.sample_system_only(&readings(1, 1, 1), 1);
    let new = state.sample_system_only(&readings(1, 1, 2), 2);
    state.finish_sample(old, Some(single(90.0)), extras());
    assert_eq!(state.history_snapshot().len(), 0);
    assert_eq!(state.cached_metrics(3, 100).unwrap().cpu_temp_celsius, None);
    state.finish_sample(new, Some(single(50.0)), extras());
    assert_eq!(state.history_snapshot().len(), 1);
    assert_eq!(state.cached_metrics(3, 100).unwrap().cpu_temp_celsius, Some(single(50.0)));
    state.set_history_capacity(0);
    assert_eq!(state.history_snapshot().len(), 1);
}

#[test]
fn a_disk_that_does_not_fit() {
    let d = |total, available| DiskReading {
        name: "".to_string(),
        mount_point: "".to_string(),
        total_bytes: total,
        available_bytes: available,
    };
    assert!(do_disks_fit(&vec![d(0, 9), d(5, 5)]));
    assert!(!do_disks_fit(&vec![d(5, 5), d(5, 6)]));
}

fn process(name: &str, cpu: f32, memory: u64) -> ProcessReading {
    ProcessReading { name: name.to_string(), cpu_percent: single(cpu), memory_bytes: memory }
}

fn names(v: &Vec<ProcessTopEntry>) -> Vec<&str> {
    v.iter().map(|e| e.name.as_str()).collect()
}

#[test]
fn processes_of_one_name_are_put_together() {
    let merged = merge_processes(&vec![
        process("b", 0.1, 5),
        process("", 50.0, 50),
        process("a", 1.0, 1),
        process("b", 0.2, u64::MAX),
    ]);
    assert_eq!(names(&merged), vec!["b", "a"]);
    assert_eq!(merged[0].cpu_percent, single(0.0 + 0.1f32 + 0.2f32));
    assert_eq!(merged[0].memory_bytes, u64::MAX);
    assert_eq!((merged[0].count, merged[1].count), (2, 1));
}

#[test]
fn top_processes() {
    let mut state = MonitorState::with_history_capacity(2, &vec![], 0);
    assert!(state.cached_process_top(true, 0).is_none());
    let all = vec![
        process("e", 5.0, 10),
        process("g", 1.0, 90),
        process("c", 5.0, 30),
        process("a", 0.0, 30),
        process("f", 2.0, 20),
        process("b", 9.0, 0),
        process("d", -0.0, 5),
    ];
    let top = state.sample_process_top_cached(&all, 10, 77);
    assert!(top.enabled);
    assert_eq!(top.sampled_at_ms, 77);
    assert_eq!(names(&top.by_cpu), vec!["b", "c", "e", "f", "g"]);
    assert_eq!(names(&top.by_memory), vec!["g", "a", "c", "f", "e"]);

    let again = state.cached_process_top(true, 10 + 4 * SECOND - 1).unwrap();
    assert_eq!(names(&again.by_cpu), vec!["b", "c", "e", "f", "g"]);
    assert!(state.cached_process_top(true, 10 + 4 * SECOND).is_none());
    let off = state.cached_process_top(false, 11).unwrap();
    assert!(!off.enabled && off.by_cpu.is_empty() && off.by_memory.is_empty());
    assert_eq!(off.sampled_at_ms, 0);
    assert!(state.cached_process_top(true, 11).is_none());

    let few = state.sample_process_top_cached(&vec![process("z", 0.0, 0)], 12, 1);
    assert_eq!((few.by_cpu.len(), few.by_memory.len()), (1, 1));
}

#[test]
fn the_order_of_processes_does_not_matter() {
    let mut state = MonitorState::with_history_capacity(2, &vec![], 0);
    let mut all = vec![process("a", 1.0, 7), process("b", 2.0, 3), process("a", 4.0, 1), process("c", 0.5, 9)];
    let one = state.sample_process_top_cached(&all, 0, 0);
    all.reverse();
    let two = state.sample_process_top_cached(&all, 0, 0);
    assert_eq!(names(&one.by_cpu), names(&two.by_cpu));
    assert_eq!(names(&one.by_memory), names(&two.by_memory));
    assert_eq!(one.by_memory[1].memory_bytes, 8);
    assert_eq!(two.by_memory[1].memory_bytes, 8);
}

#[test]
fn a_share_that_is_no_number() {
    let mut state = MonitorState::with_history_capacity(2, &vec![], 0);
    let one = state.sample_process_top_cached(&vec![process("x", f32::NAN, 3)], 0, 0);
    assert_eq!(names(&one.by_cpu), vec!["x"]);
    // Beside a share that is none, the name decides.
    let two = vec![process("y", 90.0, 1), process("x", f32::NAN, 3)];
    let two = state.sample_process_top_cached(&two, 0, 0);
    assert_eq!(names(&two.by_cpu), vec!["x", "y"]);
    assert_eq!(names(&two.by_memory), vec!["x", "y"]);
    let many: Vec<ProcessReading> = ["a", "b", "c", "d", "e", "f"]
        .iter()
        .enumerate()
        .map(|(i, n)| process(n, if i % 2 == 0 { f32::NAN } else { i as f32 }, i as u64))
        .collect();
    let many = state.sample_process_top_cached(&many, 0, 0);
    assert_eq!(names(&many.by_memory), vec!["f", "e", "d", "c", "b"]);
    let mut drawn = names(&many.by_cpu);
    drawn.sort();
    drawn.dedup();
    assert_eq!(drawn.len(), 5);
}

#[test]
fn a_snapshot_is_forgotten_when_not_watched() {
    let mut state = MonitorState::with_history_capacity(2, &vec![], 0);
    state.sample_process_top_cached(&vec![process("x", 1.0, 3)], 0, 5);
    for at in [1, SECOND, 4 * SECOND - 1] {
        assert_eq!(state.cached_process_top(true, at).unwrap().sampled_at_ms, 5);
    }
    assert!(state.cached_process_top(false, 2).unwrap().by_cpu.is_empty());
    assert!(state.cached_process_top(true, 3).is_none());
}
