use sysmon_tray::number::Single;
use sysmon_tray::temperature::{
    clean_zone_name, decikelvin_to_celsius, is_plausible_celsius, kelvin_to_celsius,
    pick_cpu_temp, ChainStep, ChainedTemperatureProvider, MsAcpiThermalZoneTemperature,
    SysinfoComponentsProvider, ThermalZonePerfCounter, WindowsWmiThermalProvider,
    ZoneStep,
};
use sysmon_tray::temperature_lhm::{TempSourceKind, TempSourceTracker};

fn single(x: f32) -> Single {
    Single { bits: x.to_bits() }
}

fn readings(all: &[(&str, f32)]) -> Vec<(String, Single)> {
    all.iter().map(|(n, t)| (n.to_string(), single(*t))).collect()
}

#[test]
fn plausible_temperatures() {
    for t in [-40.1f32, -40.0, 0.0, 45.0, 150.0, 150.1, f32::NEG_INFINITY, f32::NAN, f32::INFINITY] {
        assert_eq!(
            is_plausible_celsius(single(t)),
            t.is_finite() && (-40.0..=150.0).contains(&t),
            "{t}"
        );
    }
}

#[test]
fn the_processor_among_the_readings() {
    assert_eq!(pick_cpu_temp(&vec![]), None);
    let all = readings(&[("GPU", 80.0), ("CPU Core", 50.0), ("Tctl", 55.0), ("Package id 0", 60.0)]);
    assert_eq!(pick_cpu_temp(&all), Some(single(60.0)));
    let all = readings(&[("disk", 30.0), ("board", 41.0), ("air", 35.0)]);
    assert_eq!(pick_cpu_temp(&all), Some(single(41.0)));
}

#[test]
fn the_first_source_with_a_reading_wins() {
    let chain = ChainedTemperatureProvider::platform_default(true);
    assert_eq!(
        chain.providers,
        vec![TempSourceKind::Lhm, TempSourceKind::Wmi, TempSourceKind::Sysinfo]
    );
    let mut tracker = TempSourceTracker::new();
    assert_eq!(chain.start(&mut tracker), ChainStep::Ask(0));
    assert_eq!(chain.read_cpu_temp_celsius(0, None, &mut tracker), ChainStep::Ask(1));
    let warm = Some(single(44.0));
    assert_eq!(chain.read_cpu_temp_celsius(1, warm, &mut tracker), ChainStep::Done(warm));
    assert_eq!(tracker.get(), TempSourceKind::Wmi);
    assert_eq!(chain.read_cpu_temp_celsius(2, None, &mut tracker), ChainStep::Done(None));
    assert_eq!(tracker.get(), TempSourceKind::Unavailable);

    let chain = ChainedTemperatureProvider::platform_default(false);
    assert_eq!(chain.providers, vec![TempSourceKind::Lhm, TempSourceKind::Sysinfo]);
    let none = ChainedTemperatureProvider::new(vec![]);
    tracker.set(TempSourceKind::Lhm);
    assert_eq!(none.start(&mut tracker), ChainStep::Done(None));
    assert_eq!(tracker.get(), TempSourceKind::Unavailable);
}

#[test]
fn components() {
    let p = SysinfoComponentsProvider::new();
    let all = vec![
        ("CPU".to_string(), None),
        ("CPU Package".to_string(), Some(single(f32::NAN))),
        ("nvme".to_string(), Some(single(39.0))),
        ("k10temp Tctl".to_string(), Some(single(51.5))),
    ];
    assert_eq!(p.read_cpu_temp_celsius(&all), Some(single(51.5)));
    assert_eq!(p.read_cpu_temp_celsius(&vec![]), None);
}

#[test]
fn kelvins() {
    for raw in [0u32, 2732, 3001, 3182, u32::MAX] {
        assert_eq!(decikelvin_to_celsius(raw), single(raw as f32 / 10.0 - 273.15), "{raw}");
        assert_eq!(kelvin_to_celsius(raw), single(raw as f32 - 273.15), "{raw}");
    }
}

#[test]
fn names_of_zones() {
    for name in [
        "  \\_TZ.TZ00 ", "\\\\__ThermalZone 0", "TTZ.Z.x", "ACPI\\ThermalZone\\TZ.THRM_0", "", "_\\a",
        "ThermalTZ.Zone",
    ] {
        let expected = name
            .trim()
            .trim_start_matches('\\')
            .trim_start_matches('_')
            .replace("TZ.", "")
            .replace("ThermalZone", "")
            .trim()
            .to_string();
        assert_eq!(clean_zone_name(name), expected, "{name}");
    }
}

#[test]
fn thermal_zones() {
    let p = WindowsWmiThermalProvider::new();
    let zone = |name: Option<&str>, t: Option<u32>| MsAcpiThermalZoneTemperature {
        instance_name: name.map(|n| n.to_string()),
        current_temperature: t,
    };
    let rows = vec![zone(Some("ACPI\\a"), Some(3032)), zone(None, Some(3132)), zone(None, None), zone(None, Some(1))];
    let found = WindowsWmiThermalProvider::query_msacpi(&rows);
    let names: Vec<&str> = found.as_ref().unwrap().iter().map(|r| r.0.as_str()).collect();
    assert_eq!(names, vec!["ACPI\\a", "Thermal"]);
    assert_eq!(p.read_cpu_temp_celsius(&found), Some(single(3132.0 / 10.0 - 273.15)));
    assert!(WindowsWmiThermalProvider::query_msacpi(&vec![zone(None, Some(0))]).is_none());
    assert_eq!(p.read_cpu_temp_celsius(&None), None);

    let counter = |t: Option<u32>, fine: Option<u32>| ThermalZonePerfCounter {
        name: Some("\\_TZ.THM".to_string()),
        temperature: t,
        high_precision_temperature: fine,
    };
    let rows = vec![counter(Some(300), Some(3015)), counter(Some(310), Some(0)), counter(Some(0), None)];
    let found = WindowsWmiThermalProvider::query_perf_counters(&rows).unwrap();
    assert_eq!(found.len(), 2);
    assert_eq!(found[0], ("THM".to_string(), single(3015.0 / 10.0 - 273.15)));
    assert_eq!(found[1], ("THM".to_string(), single(310.0 - 273.15)));
    assert!(WindowsWmiThermalProvider::query_perf_counters(&vec![]).is_none());
}

#[test]
fn counters_are_asked_after_the_firmware() {
    let found = Some(readings(&[("a", 40.0)]));
    match WindowsWmiThermalProvider::after_msacpi(found) {
        ZoneStep::Done(v) => assert_eq!(v, readings(&[("a", 40.0)])),
        ZoneStep::AskCounters => panic!("the firmware had a reading"),
    }
    assert!(matches!(WindowsWmiThermalProvider::after_msacpi(None), ZoneStep::AskCounters));
}
