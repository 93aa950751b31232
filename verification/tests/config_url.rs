use sysmon_tray::alert::AlertThresholds;
use sysmon_tray::config::{
    mutate_config, normalize_lhm_base_url, AppConfig, OverlayEdgeX, OverlayStyle,
    DEFAULT_LHM_BASE_URL,
};

#[test]
fn accepts_localhost() {
    assert_eq!(
        normalize_lhm_base_url("http://127.0.0.1:8085").unwrap(),
        "http://127.0.0.1:8085"
    );
    assert_eq!(
        normalize_lhm_base_url("http://localhost:8085/").unwrap(),
        "http://localhost:8085"
    );
}

#[test]
fn rejects_remote_and_https() {
    assert!(normalize_lhm_base_url("http://192.168.1.1:8085").is_err());
    assert!(normalize_lhm_base_url("https://127.0.0.1:8085").is_err());
    assert!(normalize_lhm_base_url("http://evil.com").is_err());
}

#[test]
fn normal_form_of_addresses() {
    let cases = vec![
        ("  HTTP://LocalHost  ", "http://LocalHost"),
        ("http://[::1]:80/data.json", "http://[::1]:80"),
        ("http://[::1]", "http://[::1]"),
        ("http://127.0.0.1:65535/a/b", "http://127.0.0.1:65535"),
        ("http://127.0.0.1 /x", "http://127.0.0.1"),
        ("http://localhost::8085", "http://localhost::8085"),
        ("http://localhost:000008085", "http://localhost:000008085"),
    ];
    for (raw, normal) in cases {
        assert_eq!(normalize_lhm_base_url(raw).unwrap(), normal);
        assert_eq!(normalize_lhm_base_url(normal).unwrap(), normal);
    }
}

#[test]
fn reasons_for_refused_addresses() {
    let cases = vec![
        ("   ", "LHM 地址不能为空"),
        ("https://localhost", "LHM 地址仅支持 http://（本机 Web Server）"),
        ("localhost:8085", "LHM 地址须以 http:// 开头"),
        ("http://user@localhost", "LHM 地址不允许包含用户信息"),
        ("http://localhost/@", "LHM 地址不允许包含用户信息"),
        ("http:///data.json", "LHM 地址缺少主机"),
        ("http://[::1", "LHM 地址 IPv6 格式无效"),
        ("http://10.0.0.1", "出于安全，仅允许 localhost / 127.0.0.1"),
        ("http://localhost.evil.com", "出于安全，仅允许 localhost / 127.0.0.1"),
        ("http://localhost:", "LHM 端口无效"),
        ("http://localhost:65536", "LHM 端口无效"),
        ("http://localhost:80a", "LHM 端口无效"),
        ("http://localhost:+80", "LHM 端口无效"),
        ("http://[::1]x", "LHM 端口无效"),
    ];
    for (raw, reason) in cases {
        assert_eq!(normalize_lhm_base_url(raw).unwrap_err(), reason);
    }
}

#[test]
fn style_names() {
    assert_eq!(OverlayStyle::parse(" Capsule "), Some(OverlayStyle::Capsule));
    assert_eq!(OverlayStyle::parse("VERTICAL"), Some(OverlayStyle::Vertical));
    assert_eq!(OverlayStyle::parse("numeric\n"), Some(OverlayStyle::Numeric));
    assert_eq!(OverlayStyle::parse("round"), None);
    for style in [OverlayStyle::Capsule, OverlayStyle::Vertical, OverlayStyle::Numeric] {
        assert_eq!(OverlayStyle::parse(style.as_str()), Some(style));
    }
    assert_eq!(OverlayEdgeX::Left.as_str(), "left");
    assert_eq!(OverlayEdgeX::Right.as_str(), "right");
}

#[test]
fn default_settings() {
    let c = AppConfig::default();
    assert_eq!(c.alert, AlertThresholds::default());
    assert!(c.notification_enabled);
    assert_eq!(c.history_range_minutes, 1);
    assert!(!c.precise_temp_enabled);
    assert_eq!(c.lhm_base_url, DEFAULT_LHM_BASE_URL);
    assert_eq!(DEFAULT_LHM_BASE_URL, "http://127.0.0.1:8085");
    assert!(!c.overlay_enabled && !c.autostart_enabled && !c.overlay_auto_hide);
    assert_eq!(c.overlay_style, OverlayStyle::Capsule);
    assert_eq!((c.main_x, c.main_y, c.overlay_x, c.overlay_y), (None, None, None, None));
}

#[test]
fn loaded_settings_are_made_acceptable() {
    let mut read = AppConfig::default();
    read.history_range_minutes = 7;
    read.lhm_base_url = "http://evil.com".to_string();
    read.overlay_x = Some(12);
    let c = AppConfig::load(Ok(read)).unwrap();
    assert_eq!(c.history_range_minutes, 1);
    assert_eq!(c.lhm_base_url, DEFAULT_LHM_BASE_URL);
    assert_eq!(c.overlay_x, Some(12));

    let mut read = AppConfig::default();
    read.history_range_minutes = 15;
    read.lhm_base_url = " http://localhost:9000/ ".to_string();
    let c = AppConfig::load_or_default(Ok(read));
    assert_eq!(c.history_range_minutes, 15);
    assert_eq!(c.lhm_base_url, "http://localhost:9000");

    assert_eq!(AppConfig::load(Err("no file".to_string())).unwrap_err(), "no file");
    let c = AppConfig::load_or_default(Err("no file".to_string()));
    assert_eq!(c.history_range_minutes, 1);
}

#[test]
fn a_change_that_is_not_saved_changes_nothing() {
    let mut current = AppConfig::default();
    let mut next = current.clone();
    next.overlay_enabled = true;
    let r = mutate_config(&mut current, next.clone(), Err("disk full".to_string()));
    assert_eq!(r, Err("disk full".to_string()));
    assert!(!current.overlay_enabled);
    assert_eq!(mutate_config(&mut current, next, Ok(())), Ok(()));
    assert!(current.overlay_enabled);
}

#[test]
fn normal_settings_load_unchanged() {
    let mut saved = AppConfig::default();
    saved.history_range_minutes = 60;
    saved.lhm_base_url = normalize_lhm_base_url("http://[::1]:8085/x").unwrap();
    let loaded = AppConfig::load(Ok(saved.clone())).unwrap();
    assert_eq!(loaded.history_range_minutes, saved.history_range_minutes);
    assert_eq!(loaded.lhm_base_url, saved.lhm_base_url);
}
