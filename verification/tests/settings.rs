use sysmon_tray::alert::{AlertEngine, AlertThresholds};
use sysmon_tray::config::{AppConfig, OverlayEdgeX, OverlayEdgeY, OverlayStyle, DEFAULT_LHM_BASE_URL};
use sysmon_tray::monitor::MonitorState;
use sysmon_tray::settings::{
    autostart_message, ensure_notification_permission, get_temp_source_status,
    initial_history_capacity, permission_after_request, persist_main_position,
    persist_overlay_position, restore_main_position, restore_overlay_position,
    send_alert_notification, set_alert_thresholds, set_autostart_enabled, set_history_range_minutes,
    set_lhm_base_url, set_notification_enabled, set_overlay_auto_hide, set_overlay_enabled,
    set_overlay_style, set_precise_temp_enabled, temp_source_message, PermissionState,
    PermissionStep, SettingsChange, SettingsEvent, SettingsInput, SettingsStage,
};
use sysmon_tray::temperature_lhm::{LhmRuntimeConfig, TempSourceKind};

fn input() -> SettingsInput {
    let mut input = SettingsInput::defaults();
    input.history_range_minutes = 5;
    input.lhm_base_url = " http://localhost:9/x".to_string();
    input.overlay_style = "Vertical".to_string();
    input.precise_temp_enabled = true;
    input
}

const NO_PERMISSION: &str = "系统通知权限未授予，请在 Windows 通知设置中允许本应用";

#[test]
fn settings_that_are_refused() {
    let bad = AlertThresholds { cooldown_secs: 1, ..AlertThresholds::default() };
    let mut i = input();
    i.overlay_style = "round".to_string();
    assert_eq!(i.check().unwrap_err(), "无效的叠加层形态");
    i.history_range_minutes = 3;
    assert_eq!(i.check().unwrap_err(), "历史时长仅支持 1/5/15/60 分钟");
    i.thresholds = bad;
    assert_eq!(i.check().unwrap_err(), "冷却秒数须在 5–3600");
    i.lhm_base_url = "".to_string();
    assert_eq!(i.check().unwrap_err(), "LHM 地址不能为空");
    assert!(SettingsChange::begin(&i).is_err());
}

#[test]
fn a_reset_is_accepted() {
    let c = SettingsInput::defaults().check().unwrap();
    assert_eq!(c.lhm_base_url, DEFAULT_LHM_BASE_URL);
    assert_eq!(c.overlay_style, OverlayStyle::Capsule);
    assert_eq!(c.capacity, 60);
    assert!(c.notification_enabled && !c.overlay_enabled && !c.autostart_enabled);
}

#[test]
fn a_change_from_start_to_end() {
    let mut change = SettingsChange::begin(&input()).unwrap();
    assert!(matches!(change.stage, SettingsStage::Permission));
    change.advance(SettingsEvent::Saved(Ok(())));
    assert!(matches!(change.stage, SettingsStage::Permission));
    change.advance(SettingsEvent::Permission(true));
    assert!(matches!(change.stage, SettingsStage::Autostart));
    change.advance(SettingsEvent::Autostart(Ok(())));
    assert!(matches!(change.stage, SettingsStage::Position));
    change.advance(SettingsEvent::Position(Some((3, -4))));
    assert!(matches!(change.stage, SettingsStage::Save));

    let mut current = AppConfig::default();
    current.main_x = Some(1);
    current.overlay_edge_x = Some(OverlayEdgeX::Right);
    let next = change.next_config(&current);
    assert_eq!(next.lhm_base_url, "http://localhost:9");
    assert_eq!(next.overlay_style, OverlayStyle::Vertical);
    assert_eq!(next.history_range_minutes, 5);
    assert!(next.precise_temp_enabled);
    assert_eq!((next.overlay_x, next.overlay_y), (Some(3), Some(-4)));
    assert_eq!((next.main_x, next.overlay_edge_x), (Some(1), Some(OverlayEdgeX::Right)));

    change.advance(SettingsEvent::Saved(Ok(())));
    assert!(matches!(change.stage, SettingsStage::Applied));
    change.advance(SettingsEvent::Permission(false));
    assert!(matches!(change.stage, SettingsStage::Applied));

    let mut engine = AlertEngine::with_thresholds(AlertThresholds { cooldown_secs: 9, ..AlertThresholds::default() });
    let mut monitor = MonitorState::with_history_capacity(1, &vec![], 0);
    let mut lhm = LhmRuntimeConfig::new(false, "x".to_string());
    let told = change.take_effect(&mut engine, &mut monitor, &mut lhm);
    assert_eq!(told.lhm_base_url, "http://localhost:9");
    assert_eq!(told.overlay_style, "vertical");
    assert_eq!(told.history_range_minutes, 5);
    assert_eq!(engine.thresholds(), AlertThresholds::default());
    assert!(lhm.is_enabled());
    assert_eq!(lhm.base_url(), "http://localhost:9");
    assert_eq!(lhm.epoch(), 2);
}

#[test]
fn a_change_that_is_refused_on_the_way() {
    let mut change = SettingsChange::begin(&input()).unwrap();
    change.advance(SettingsEvent::Permission(false));
    assert!(matches!(&change.stage, SettingsStage::Refused(e) if e == NO_PERMISSION));
    change.advance(SettingsEvent::Permission(true));
    assert!(matches!(change.stage, SettingsStage::Refused(_)));

    let mut i = input();
    i.notification_enabled = false;
    i.overlay_enabled = true;
    i.autostart_enabled = true;
    let mut change = SettingsChange::begin(&i).unwrap();
    assert!(matches!(change.stage, SettingsStage::Autostart));
    change.advance(SettingsEvent::Autostart(Err("no".to_string())));
    assert!(matches!(&change.stage, SettingsStage::Refused(e) if e == "启用开机自启失败: no"));

    let mut change = SettingsChange::begin(&i).unwrap();
    change.advance(SettingsEvent::Autostart(Ok(())));
    assert!(matches!(change.stage, SettingsStage::Save));
    change.advance(SettingsEvent::Saved(Err("full".to_string())));
    assert!(matches!(&change.stage, SettingsStage::Refused(e) if e == "full"));
    assert_eq!(autostart_message(false, "no"), "关闭开机自启失败: no");
}

#[test]
fn single_settings() {
    let c = AppConfig::default();
    let t = AlertThresholds { cooldown_secs: 30, ..AlertThresholds::default() };
    assert_eq!(set_alert_thresholds(&c, t).unwrap().alert, t);
    let bad = AlertThresholds { cooldown_secs: 0, ..t };
    assert_eq!(set_alert_thresholds(&c, bad).unwrap_err(), "冷却秒数须在 5–3600");
    assert_eq!(set_notification_enabled(&c, true, false).unwrap_err(), NO_PERMISSION);
    assert!(set_notification_enabled(&c, true, true).unwrap().notification_enabled);
    assert!(!set_notification_enabled(&c, false, false).unwrap().notification_enabled);
    let (next, capacity) = set_history_range_minutes(&c, 15).unwrap();
    assert_eq!((next.history_range_minutes, capacity), (15, 900));
    assert_eq!(initial_history_capacity(&next), 900);
    assert!(set_history_range_minutes(&c, 2).is_err());
    assert!(set_precise_temp_enabled(&c, true).precise_temp_enabled);
    assert_eq!(set_lhm_base_url(&c, "http://localhost/").unwrap().lhm_base_url, "http://localhost");
    assert_eq!(set_lhm_base_url(&c, "x").unwrap_err(), "LHM 地址须以 http:// 开头");
    assert!(set_overlay_enabled(&c, true).overlay_enabled);
    assert!(set_autostart_enabled(&c, true).autostart_enabled);
    assert!(set_overlay_auto_hide(&c, true).overlay_auto_hide);
    assert_eq!(set_overlay_style(&c, "numeric").unwrap().overlay_style, OverlayStyle::Numeric);
    assert_eq!(set_overlay_style(&c, "").unwrap_err(), "无效的叠加层形态");
    let p = persist_overlay_position(&c, 4, 5, None, Some(OverlayEdgeY::Top));
    assert_eq!(restore_overlay_position(&p), Some((4, 5)));
    assert_eq!((p.overlay_edge_x, p.overlay_edge_y), (None, Some(OverlayEdgeY::Top)));
    assert_eq!(restore_overlay_position(&c), None);
    let p = persist_main_position(&c, -1, 2);
    assert_eq!(restore_main_position(&p), Some((-1, 2)));
    let half = AppConfig { main_y: None, ..p };
    assert_eq!(restore_main_position(&half), None);
    let odd = AppConfig { history_range_minutes: 9, ..AppConfig::default() };
    assert_eq!(initial_history_capacity(&odd), 60);
}

#[test]
fn the_source_in_words() {
    let off = AppConfig::default();
    let on = set_precise_temp_enabled(&off, true);
    let shown = get_temp_source_status(&off, TempSourceKind::Lhm);
    assert_eq!(shown.source, "unavailable");
    assert_eq!(shown.message, "精确温度已关闭 · 温度暂不可用");
    let shown = get_temp_source_status(&off, TempSourceKind::Wmi);
    assert_eq!((shown.source.as_str(), shown.message.as_str()), ("wmi", "精确温度已关闭 · 当前：ACPI/WMI"));
    let shown = get_temp_source_status(&on, TempSourceKind::Lhm);
    assert_eq!((shown.source.as_str(), shown.message.as_str()), ("lhm", "已连接 LibreHardwareMonitor"));
    assert!(shown.precise_temp_enabled);
    assert_eq!(shown.lhm_base_url, DEFAULT_LHM_BASE_URL);
    assert_eq!(temp_source_message(false, TempSourceKind::Lhm), "精确温度已关闭");
    assert_eq!(temp_source_message(false, TempSourceKind::Sysinfo), "精确温度已关闭 · 当前：sysinfo");
    assert_eq!(temp_source_message(true, TempSourceKind::Wmi), "未检测到 LHM · 已回退 ACPI/WMI");
    assert_eq!(temp_source_message(true, TempSourceKind::Sysinfo), "未检测到 LHM · 已回退 sysinfo");
    assert_eq!(temp_source_message(true, TempSourceKind::Unavailable), "未检测到 LHM · 温度暂不可用");
}

#[test]
fn permission_and_announcement() {
    assert_eq!(ensure_notification_permission(Some(PermissionState::Granted)), PermissionStep::Answer(true));
    assert_eq!(ensure_notification_permission(Some(PermissionState::Denied)), PermissionStep::Answer(false));
    assert_eq!(ensure_notification_permission(Some(PermissionState::Undecided)), PermissionStep::Request);
    assert_eq!(ensure_notification_permission(None), PermissionStep::Answer(false));
    assert!(permission_after_request(Some(PermissionState::Granted)));
    assert!(!permission_after_request(Some(PermissionState::Undecided)));
    assert!(!permission_after_request(None));
    let fired = vec!["a".to_string(), "b".to_string()];
    assert_eq!(send_alert_notification(true, &fired).as_deref(), Some("a · b"));
    assert_eq!(send_alert_notification(false, &fired), None);
    assert_eq!(send_alert_notification(true, &vec![]), None);
}
