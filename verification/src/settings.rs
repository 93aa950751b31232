//! Changing the settings: what is accepted, in which order a change is carried
//! out, and what is shown of it.

use crate::alert;
use crate::alert::{AlertEngine, AlertThresholds};
use crate::config;
use crate::config::{
    default_lhm_base_url, normalize_lhm_base_url, AppConfig, OverlayEdgeX, OverlayEdgeY,
    OverlayStyle,
};
use crate::history;
use crate::history::history_capacity_for_minutes;
use crate::monitor::MonitorState;
use crate::temperature_lhm::{LhmRuntimeConfig, TempSourceKind};
use crate::temperature_lhm;
use crate::text;
use vstd::prelude::*;
use vstd::string::*;

verus! {

/// What the settings page sends.
#[derive(Debug)]
pub struct SettingsInput {
    pub thresholds: AlertThresholds,
    pub notification_enabled: bool,
    pub history_range_minutes: u32,
    pub precise_temp_enabled: bool,
    pub lhm_base_url: String,
    pub overlay_enabled: bool,
    pub autostart_enabled: bool,
    pub overlay_auto_hide: bool,
    pub overlay_style: String,
}

/// What the settings page is told once its settings hold.
#[derive(Debug)]
pub struct SettingsResponse {
    pub alert: AlertThresholds,
    pub notification_enabled: bool,
    pub history_range_minutes: u32,
    pub precise_temp_enabled: bool,
    pub lhm_base_url: String,
    pub overlay_enabled: bool,
    pub autostart_enabled: bool,
    pub overlay_auto_hide: bool,
    pub overlay_style: String,
}

/// Settings that have been checked.
#[derive(Debug)]
pub struct CheckedSettings {
    pub thresholds: AlertThresholds,
    pub notification_enabled: bool,
    pub history_range_minutes: u32,
    pub precise_temp_enabled: bool,
    pub lhm_base_url: String,
    pub overlay_enabled: bool,
    pub autostart_enabled: bool,
    pub overlay_auto_hide: bool,
    pub overlay_style: OverlayStyle,
    /// How many points the history is to hold.
    pub capacity: usize,
}

impl SettingsInput {
    /// The settings of a reset.
    pub fn defaults() -> (r: SettingsInput)
        ensures
            r.thresholds == alert::default_thresholds(),
            r.notification_enabled,
            r.history_range_minutes == 1,
            !r.precise_temp_enabled,
            r.lhm_base_url@ == config::DEFAULT_LHM_BASE_URL@,
            !r.overlay_enabled,
            !r.autostart_enabled,
            !r.overlay_auto_hide,
            r.overlay_style@ == "capsule"@,
    {
        SettingsInput {
            thresholds: AlertThresholds::default(),
            notification_enabled: true,
            history_range_minutes: 1,
            precise_temp_enabled: false,
            lhm_base_url: default_lhm_base_url(),
            overlay_enabled: false,
            autostart_enabled: false,
            overlay_auto_hide: false,
            overlay_style: "capsule".to_string(),
        }
    }

    /// What is wrong with the settings, the first thing that is.
    pub open spec fn fault(self) -> Option<Seq<char>> {
        match config::normalized_url(self.lhm_base_url@) {
            Err(e) => Some(e),
            Ok(_) => if self.thresholds.fault() is Some {
                self.thresholds.fault()
            } else if !history::is_allowed_range(self.history_range_minutes) {
                Some("历史时长仅支持 1/5/15/60 分钟"@)
            } else if OverlayStyle::named(self.overlay_style@) is None {
                Some("无效的叠加层形态"@)
            } else {
                None
            },
        }
    }

    /// Whether `c` are these settings, the address and the style in their normal form.
    pub open spec fn checks_as(self, c: CheckedSettings) -> bool {
        &&& c.thresholds == self.thresholds
        &&& c.notification_enabled == self.notification_enabled
        &&& c.history_range_minutes == self.history_range_minutes
        &&& c.precise_temp_enabled == self.precise_temp_enabled
        &&& config::normalized_url(self.lhm_base_url@) == Ok::<Seq<char>, Seq<char>>(
            c.lhm_base_url@,
        )
        &&& c.overlay_enabled == self.overlay_enabled
        &&& c.autostart_enabled == self.autostart_enabled
        &&& c.overlay_auto_hide == self.overlay_auto_hide
        &&& OverlayStyle::named(self.overlay_style@) == Some(c.overlay_style)
        &&& c.capacity == self.history_range_minutes * 60
    }

    /// Checks the settings, before anything is done.
    pub fn check(&self) -> (r: Result<CheckedSettings, String>)
        ensures
            match r {
                Ok(c) => self.fault() is None && self.checks_as(c),
                Err(e) => self.fault() == Some(e@),
            },
    {
        let lhm_base_url = match normalize_lhm_base_url(self.lhm_base_url.as_str()) {
            Ok(url) => url,
            Err(e) => {
                return Err(e);
            },
        };
        if let Err(e) = self.thresholds.validate() {
            return Err(e);
        }
        let capacity = match history_capacity_for_minutes(self.history_range_minutes) {
            Ok(capacity) => capacity,
            Err(e) => {
                return Err(e);
            },
        };
        let overlay_style = match OverlayStyle::parse(self.overlay_style.as_str()) {
            Some(style) => style,
            None => {
                return Err("无效的叠加层形态".to_string());
            },
        };
        Ok(
            CheckedSettings {
                thresholds: self.thresholds,
                notification_enabled: self.notification_enabled,
                history_range_minutes: self.history_range_minutes,
                precise_temp_enabled: self.precise_temp_enabled,
                lhm_base_url,
                overlay_enabled: self.overlay_enabled,
                autostart_enabled: self.autostart_enabled,
                overlay_auto_hide: self.overlay_auto_hide,
                overlay_style,
                capacity,
            },
        )
    }
}

/// The settings of a reset are accepted.
pub proof fn law_reset_is_accepted(input: SettingsInput)
    requires
        input.thresholds == alert::default_thresholds(),
        input.history_range_minutes == 1,
        input.lhm_base_url@ == config::DEFAULT_LHM_BASE_URL@,
        input.overlay_style@ == "capsule"@,
    ensures
        input.fault() is None,
{
    config::law_default_url_is_normal();
    alert::law_default_thresholds_are_valid();
    reveal_strlit("capsule");
    let name = "capsule"@;
    assert(text::trim_start(name) == name);
    assert(text::trim(name) == name);
    assert(text::lower(name) =~= name);
}

/// Settings that were accepted are normal, so they are loaded as they were saved.
pub proof fn law_accepted_settings_are_normal(
    input: SettingsInput,
    wanted: CheckedSettings,
    current: AppConfig,
    position: Option<(i32, i32)>,
)
    requires
        input.fault() is None,
        input.checks_as(wanted),
    ensures
        config::is_normal(settled(current, wanted, position)),
{
    config::law_normal_form_is_stable(input.lhm_base_url@);
}

/// Another range or another address that was accepted keeps settings normal.
pub proof fn law_accepted_changes_are_normal(current: AppConfig, minutes: u32, url: String)
    requires
        config::is_normal(current),
    ensures
        history::is_allowed_range(minutes) ==> config::is_normal(
            AppConfig { history_range_minutes: minutes, ..current },
        ),
        (exists|raw: Seq<char>|
            #[trigger] config::normalized_url(raw) == Ok::<Seq<char>, Seq<char>>(url@))
            ==> config::is_normal(AppConfig { lhm_base_url: url, ..current }),
{
    if exists|raw: Seq<char>|
        #[trigger] config::normalized_url(raw) == Ok::<Seq<char>, Seq<char>>(url@) {
        let raw = choose|raw: Seq<char>|
            #[trigger] config::normalized_url(raw) == Ok::<Seq<char>, Seq<char>>(url@);
        config::law_normal_form_is_stable(raw);
    }
}

/// How far a change of the settings has come: what is to be done next, or how it
/// ended.
#[derive(Debug)]
pub enum SettingsStage {
    /// Ask for the permission to announce alerts.
    Permission,
    /// Tell the system whether to start the monitor by itself.
    Autostart,
    /// Look where the overlay is, which is about to be hidden.
    Position,
    /// Write the settings to their file.
    Save,
    Applied,
    Refused(String),
}

/// What came of a stage.
#[derive(Debug)]
pub enum SettingsEvent {
    Permission(bool),
    Autostart(Result<(), String>),
    Position(Option<(i32, i32)>),
    Saved(Result<(), String>),
}

/// A stage, with the reason of a refusal as characters.
pub ghost enum StageView {
    Permission,
    Autostart,
    Position,
    Save,
    Applied,
    Refused(Seq<char>),
}

impl View for SettingsStage {
    type V = StageView;

    open spec fn view(&self) -> StageView {
        match self {
            SettingsStage::Permission => StageView::Permission,
            SettingsStage::Autostart => StageView::Autostart,
            SettingsStage::Position => StageView::Position,
            SettingsStage::Save => StageView::Save,
            SettingsStage::Applied => StageView::Applied,
            SettingsStage::Refused(e) => StageView::Refused(e@),
        }
    }
}

/// Why a change to announced alerts is refused without the permission.
pub open spec fn permission_fault() -> Seq<char> {
    "系统通知权限未授予，请在 Windows 通知设置中允许本应用"@
}

/// Why a change is refused where the system did not follow.
pub open spec fn autostart_fault(enabled: bool, reason: Seq<char>) -> Seq<char> {
    if enabled {
        "启用开机自启失败: "@ + reason
    } else {
        "关闭开机自启失败: "@ + reason
    }
}

/// Puts into words that the system did not follow.
pub fn autostart_message(enabled: bool, reason: &str) -> (r: String)
    ensures
        r@ == autostart_fault(enabled, reason@),
{
    if enabled {
        text::pair("启用开机自启失败: ", reason)
    } else {
        text::pair("关闭开机自启失败: ", reason)
    }
}

/// The first stage of a change.
pub open spec fn first_stage(wanted: CheckedSettings) -> StageView {
    if wanted.notification_enabled {
        StageView::Permission
    } else {
        StageView::Autostart
    }
}

/// The stage after an event. An event that was not waited for changes nothing.
pub open spec fn next_stage(
    wanted: CheckedSettings,
    stage: StageView,
    event: SettingsEvent,
) -> StageView {
    match (stage, event) {
        (StageView::Permission, SettingsEvent::Permission(granted)) => if granted {
            StageView::Autostart
        } else {
            StageView::Refused(permission_fault())
        },
        (StageView::Autostart, SettingsEvent::Autostart(done)) => match done {
            Ok(_) => if wanted.overlay_enabled {
                StageView::Save
            } else {
                StageView::Position
            },
            Err(e) => StageView::Refused(autostart_fault(wanted.autostart_enabled, e@)),
        },
        (StageView::Position, SettingsEvent::Position(_)) => StageView::Save,
        (StageView::Save, SettingsEvent::Saved(saved)) => match saved {
            Ok(_) => StageView::Applied,
            Err(e) => StageView::Refused(e@),
        },
        _ => stage,
    }
}

/// The settings with those that were wanted, and with the place of the overlay where
/// it was looked at.
pub open spec fn settled(
    current: AppConfig,
    wanted: CheckedSettings,
    position: Option<(i32, i32)>,
) -> AppConfig {
    AppConfig {
        alert: wanted.thresholds,
        notification_enabled: wanted.notification_enabled,
        history_range_minutes: wanted.history_range_minutes,
        precise_temp_enabled: wanted.precise_temp_enabled,
        lhm_base_url: wanted.lhm_base_url,
        overlay_enabled: wanted.overlay_enabled,
        autostart_enabled: wanted.autostart_enabled,
        overlay_auto_hide: wanted.overlay_auto_hide,
        overlay_style: wanted.overlay_style,
        overlay_x: match position {
            Some(p) => Some(p.0),
            None => current.overlay_x,
        },
        overlay_y: match position {
            Some(p) => Some(p.1),
            None => current.overlay_y,
        },
        ..current
    }
}

/// A change of all settings at once. Whatever can fail comes before the one time
/// that they are written to their file, and what they bring about comes after it.
#[derive(Debug)]
pub struct SettingsChange {
    pub wanted: CheckedSettings,
    pub position: Option<(i32, i32)>,
    pub stage: SettingsStage,
}

impl SettingsChange {
    /// Starts a change, if the settings are accepted.
    pub fn begin(input: &SettingsInput) -> (r: Result<SettingsChange, String>)
        ensures
            match r {
                Ok(change) => {
                    &&& input.fault() is None
                    &&& input.checks_as(change.wanted)
                    &&& change.position is None
                    &&& change.stage@ == first_stage(change.wanted)
                },
                Err(e) => input.fault() == Some(e@),
            },
    {
        match input.check() {
            Ok(wanted) => {
                let stage = if wanted.notification_enabled {
                    SettingsStage::Permission
                } else {
                    SettingsStage::Autostart
                };
                Ok(SettingsChange { wanted, position: None, stage })
            },
            Err(e) => Err(e),
        }
    }

    /// Takes in what came of the stage.
    pub fn advance(&mut self, event: SettingsEvent)
        ensures
            final(self).wanted == old(self).wanted,
            final(self).stage@ == next_stage(old(self).wanted, old(self).stage@, event),
            final(self).position == (match (old(self).stage@, event) {
                (StageView::Position, SettingsEvent::Position(p)) => p,
                _ => old(self).position,
            }),
    {
        match (&self.stage, event) {
            (SettingsStage::Permission, SettingsEvent::Permission(granted)) => {
                self.stage = if granted {
                    SettingsStage::Autostart
                } else {
                    SettingsStage::Refused(
                        "系统通知权限未授予，请在 Windows 通知设置中允许本应用".to_string(),
                    )
                };
            },
            (SettingsStage::Autostart, SettingsEvent::Autostart(done)) => {
                self.stage = match done {
                    Ok(_) => if self.wanted.overlay_enabled {
                        SettingsStage::Save
                    } else {
                        SettingsStage::Position
                    },
                    Err(e) => SettingsStage::Refused(
                        autostart_message(self.wanted.autostart_enabled, e.as_str()),
                    ),
                };
            },
            (SettingsStage::Position, SettingsEvent::Position(p)) => {
                self.position = p;
                self.stage = SettingsStage::Save;
            },
            (SettingsStage::Save, SettingsEvent::Saved(saved)) => {
                self.stage = match saved {
                    Ok(_) => SettingsStage::Applied,
                    Err(e) => SettingsStage::Refused(e),
                };
            },
            _ => {},
        }
    }

    /// The settings to write to their file.
    pub fn next_config(&self, current: &AppConfig) -> (r: AppConfig)
        ensures
            r == settled(*current, self.wanted, self.position),
    {
        let mut next = current.clone();
        next.alert = self.wanted.thresholds;
        next.notification_enabled = self.wanted.notification_enabled;
        next.history_range_minutes = self.wanted.history_range_minutes;
        next.precise_temp_enabled = self.wanted.precise_temp_enabled;
        next.lhm_base_url = self.wanted.lhm_base_url.clone();
        next.overlay_enabled = self.wanted.overlay_enabled;
        next.autostart_enabled = self.wanted.autostart_enabled;
        next.overlay_auto_hide = self.wanted.overlay_auto_hide;
        next.overlay_style = self.wanted.overlay_style;
        if let Some((x, y)) = self.position {
            next.overlay_x = Some(x);
            next.overlay_y = Some(y);
        }
        next
    }

    /// Brings about what the settings ask for, once they are saved, and says what
    /// they are.
    pub fn take_effect(
        &self,
        engine: &mut AlertEngine,
        monitor: &mut MonitorState,
        lhm: &mut LhmRuntimeConfig,
    ) -> (r: SettingsResponse)
        ensures
            *final(engine) == (AlertEngine { thresholds: self.wanted.thresholds, ..*old(engine) }),
            final(monitor).well_formed(),
            final(monitor).history.capacity() == history::at_least_one(self.wanted.capacity),
            final(monitor).history.points() == history::latest(
                old(monitor).history.points(),
                history::at_least_one(self.wanted.capacity) as nat,
            ),
            final(monitor).memory() == old(monitor).memory(),
            final(monitor).last_process_top_at == old(monitor).last_process_top_at,
            final(monitor).last_process_top == old(monitor).last_process_top,
            *final(lhm) == (LhmRuntimeConfig {
                enabled: self.wanted.precise_temp_enabled,
                base_url: self.wanted.lhm_base_url,
                epoch: temperature_lhm::next_epoch(temperature_lhm::next_epoch(old(lhm).epoch)),
            }),
            r.alert == self.wanted.thresholds,
            r.notification_enabled == self.wanted.notification_enabled,
            r.history_range_minutes == self.wanted.history_range_minutes,
            r.precise_temp_enabled == self.wanted.precise_temp_enabled,
            r.lhm_base_url@ == self.wanted.lhm_base_url@,
            r.overlay_enabled == self.wanted.overlay_enabled,
            r.autostart_enabled == self.wanted.autostart_enabled,
            r.overlay_auto_hide == self.wanted.overlay_auto_hide,
            r.overlay_style@ == self.wanted.overlay_style.name(),
    {
        engine.set_thresholds(self.wanted.thresholds);
        monitor.set_history_capacity(self.wanted.capacity);
        lhm.set_enabled(self.wanted.precise_temp_enabled);
        lhm.set_base_url(self.wanted.lhm_base_url.clone());
        SettingsResponse {
            alert: self.wanted.thresholds,
            notification_enabled: self.wanted.notification_enabled,
            history_range_minutes: self.wanted.history_range_minutes,
            precise_temp_enabled: self.wanted.precise_temp_enabled,
            lhm_base_url: self.wanted.lhm_base_url.clone(),
            overlay_enabled: self.wanted.overlay_enabled,
            autostart_enabled: self.wanted.autostart_enabled,
            overlay_auto_hide: self.wanted.overlay_auto_hide,
            overlay_style: self.wanted.overlay_style.as_str().to_string(),
        }
    }
}

/// The stage after the events, one after another.
pub open spec fn stage_after(wanted: CheckedSettings, events: Seq<SettingsEvent>) -> StageView
    decreases events.len(),
{
    if events.len() == 0 {
        first_stage(wanted)
    } else {
        next_stage(wanted, stage_after(wanted, events.drop_last()), events.last())
    }
}

/// Whether an event with this outcome is among them.
pub open spec fn permission_granted(events: Seq<SettingsEvent>) -> bool {
    exists|i: int|
        0 <= i < events.len() && #[trigger] events[i] == SettingsEvent::Permission(true)
}

pub open spec fn autostart_done(events: Seq<SettingsEvent>) -> bool {
    exists|i: int|
        0 <= i < events.len() && (#[trigger] events[i]) is Autostart && events[i]->Autostart_0 is Ok
}

pub open spec fn file_written(events: Seq<SettingsEvent>) -> bool {
    exists|i: int|
        0 <= i < events.len() && (#[trigger] events[i]) is Saved && events[i]->Saved_0 is Ok
}

/// Settings are written only after the permission, where it is needed, and the
/// system's consent; they hold only after they are written. So whatever is refused
/// before that leaves the settings as they were.
pub proof fn law_no_save_before_consent(wanted: CheckedSettings, events: Seq<SettingsEvent>)
    ensures
        stage_after(wanted, events) is Position || stage_after(wanted, events) is Save
            || stage_after(wanted, events) is Applied ==> autostart_done(events) && (
        wanted.notification_enabled ==> permission_granted(events)),
        stage_after(wanted, events) is Autostart && wanted.notification_enabled
            ==> permission_granted(events),
        stage_after(wanted, events) is Applied ==> file_written(events),
    decreases events.len(),
{
    if events.len() > 0 {
        let before = events.drop_last();
        law_no_save_before_consent(wanted, before);
        let last = events.len() - 1;
        if permission_granted(before) {
            let i = choose|i: int|
                0 <= i < before.len() && #[trigger] before[i] == SettingsEvent::Permission(true);
            assert(events[i] == before[i]);
        }
        if autostart_done(before) {
            let i = choose|i: int|
                0 <= i < before.len() && (#[trigger] before[i]) is Autostart
                    && before[i]->Autostart_0 is Ok;
            assert(events[i] == before[i]);
        }
        if file_written(before) {
            let i = choose|i: int|
                0 <= i < before.len() && (#[trigger] before[i]) is Saved && before[i]->Saved_0
                    is Ok;
            assert(events[i] == before[i]);
        }
        assert(events[last] == events.last());
    }
}

/// A change that was applied or refused is over: no event asks for another save.
pub proof fn law_an_ended_change_stays(
    wanted: CheckedSettings,
    stage: StageView,
    event: SettingsEvent,
)
    requires
        stage is Applied || stage is Refused,
    ensures
        next_stage(wanted, stage, event) == stage,
{
}

/// The place in the order of the stages.
pub open spec fn stage_rank(stage: StageView) -> int {
    match stage {
        StageView::Permission => 0,
        StageView::Autostart => 1,
        StageView::Position => 2,
        StageView::Save => 3,
        StageView::Applied => 4,
        StageView::Refused(_) => 5,
    }
}

/// A change only goes forward: no stage comes twice, so the settings are written at
/// most once.
pub proof fn law_a_change_goes_forward(
    wanted: CheckedSettings,
    stage: StageView,
    event: SettingsEvent,
)
    ensures
        next_stage(wanted, stage, event) == stage || stage_rank(next_stage(wanted, stage, event))
            > stage_rank(stage),
{
}

/// The settings with other thresholds, if these are valid.
pub fn set_alert_thresholds(current: &AppConfig, thresholds: AlertThresholds) -> (r: Result<
    AppConfig,
    String,
>)
    ensures
        match r {
            Ok(next) => thresholds.fault() is None && next == (AppConfig {
                alert: thresholds,
                ..*current
            }),
            Err(e) => thresholds.fault() == Some(e@),
        },
{
    if let Err(e) = thresholds.validate() {
        return Err(e);
    }
    let mut next = current.clone();
    next.alert = thresholds;
    Ok(next)
}

/// The settings with alerts announced or not. To announce them the permission must
/// have been granted.
pub fn set_notification_enabled(current: &AppConfig, enabled: bool, granted: bool) -> (r: Result<
    AppConfig,
    String,
>)
    ensures
        match r {
            Ok(next) => (enabled ==> granted) && next == (AppConfig {
                notification_enabled: enabled,
                ..*current
            }),
            Err(e) => enabled && !granted && e@ == permission_fault(),
        },
{
    if enabled && !granted {
        return Err("系统通知权限未授予，请在 Windows 通知设置中允许本应用".to_string());
    }
    let mut next = current.clone();
    next.notification_enabled = enabled;
    Ok(next)
}

/// The settings with another range of the history, and how many points it takes, if
/// the range is allowed.
pub fn set_history_range_minutes(current: &AppConfig, minutes: u32) -> (r: Result<
    (AppConfig, usize),
    String,
>)
    ensures
        match r {
            Ok((next, capacity)) => history::is_allowed_range(minutes) && next == (AppConfig {
                history_range_minutes: minutes,
                ..*current
            }) && capacity == minutes * 60,
            Err(e) => !history::is_allowed_range(minutes) && e@
                == "历史时长仅支持 1/5/15/60 分钟"@,
        },
{
    match history_capacity_for_minutes(minutes) {
        Ok(capacity) => {
            let mut next = current.clone();
            next.history_range_minutes = minutes;
            Ok((next, capacity))
        },
        Err(e) => Err(e),
    }
}

/// The settings with LibreHardwareMonitor asked or not.
pub fn set_precise_temp_enabled(current: &AppConfig, enabled: bool) -> (r: AppConfig)
    ensures
        r == (AppConfig { precise_temp_enabled: enabled, ..*current }),
{
    let mut next = current.clone();
    next.precise_temp_enabled = enabled;
    next
}

/// The settings with another address of LibreHardwareMonitor, if it is accepted.
pub fn set_lhm_base_url(current: &AppConfig, url: &str) -> (r: Result<AppConfig, String>)
    ensures
        match r {
            Ok(next) => config::normalized_url(url@) == Ok::<Seq<char>, Seq<char>>(
                next.lhm_base_url@,
            ) && next == (AppConfig { lhm_base_url: next.lhm_base_url, ..*current }),
            Err(e) => config::normalized_url(url@) == Err::<Seq<char>, Seq<char>>(e@),
        },
{
    match normalize_lhm_base_url(url) {
        Ok(normalized) => {
            let mut next = current.clone();
            next.lhm_base_url = normalized;
            Ok(next)
        },
        Err(e) => Err(e),
    }
}

/// The settings with the overlay shown or not.
pub fn set_overlay_enabled(current: &AppConfig, enabled: bool) -> (r: AppConfig)
    ensures
        r == (AppConfig { overlay_enabled: enabled, ..*current }),
{
    let mut next = current.clone();
    next.overlay_enabled = enabled;
    next
}

/// The settings with the monitor started by the system or not.
pub fn set_autostart_enabled(current: &AppConfig, enabled: bool) -> (r: AppConfig)
    ensures
        r == (AppConfig { autostart_enabled: enabled, ..*current }),
{
    let mut next = current.clone();
    next.autostart_enabled = enabled;
    next
}

/// The settings with the overlay hiding at its edge or not.
pub fn set_overlay_auto_hide(current: &AppConfig, enabled: bool) -> (r: AppConfig)
    ensures
        r == (AppConfig { overlay_auto_hide: enabled, ..*current }),
{
    let mut next = current.clone();
    next.overlay_auto_hide = enabled;
    next
}

/// The settings with another style of the overlay, if there is one of that name.
pub fn set_overlay_style(current: &AppConfig, style: &str) -> (r: Result<AppConfig, String>)
    ensures
        match r {
            Ok(next) => OverlayStyle::named(style@) == Some(next.overlay_style) && next == (
            AppConfig { overlay_style: next.overlay_style, ..*current }),
            Err(e) => OverlayStyle::named(style@) is None && e@ == "无效的叠加层形态"@,
        },
{
    match OverlayStyle::parse(style) {
        Some(parsed) => {
            let mut next = current.clone();
            next.overlay_style = parsed;
            Ok(next)
        },
        None => Err("无效的叠加层形态".to_string()),
    }
}

/// The settings with another place of the overlay and the edges it keeps to.
pub fn persist_overlay_position(
    current: &AppConfig,
    x: i32,
    y: i32,
    edge_x: Option<OverlayEdgeX>,
    edge_y: Option<OverlayEdgeY>,
) -> (r: AppConfig)
    ensures
        r == (AppConfig {
            overlay_x: Some(x),
            overlay_y: Some(y),
            overlay_edge_x: edge_x,
            overlay_edge_y: edge_y,
            ..*current
        }),
{
    let mut next = current.clone();
    next.overlay_x = Some(x);
    next.overlay_y = Some(y);
    next.overlay_edge_x = edge_x;
    next.overlay_edge_y = edge_y;
    next
}

/// The settings with another place of the main panel.
pub fn persist_main_position(current: &AppConfig, x: i32, y: i32) -> (r: AppConfig)
    ensures
        r == (AppConfig { main_x: Some(x), main_y: Some(y), ..*current }),
{
    let mut next = current.clone();
    next.main_x = Some(x);
    next.main_y = Some(y);
    next
}

/// The place that both coordinates give.
pub open spec fn place(x: Option<i32>, y: Option<i32>) -> Option<(i32, i32)> {
    match (x, y) {
        (Some(x), Some(y)) => Some((x, y)),
        _ => None,
    }
}

/// Where the overlay was, if that is known.
pub fn restore_overlay_position(c: &AppConfig) -> (r: Option<(i32, i32)>)
    ensures
        r == place(c.overlay_x, c.overlay_y),
{
    match (c.overlay_x, c.overlay_y) {
        (Some(x), Some(y)) => Some((x, y)),
        _ => None,
    }
}

/// Where the main panel was, if that is known.
pub fn restore_main_position(c: &AppConfig) -> (r: Option<(i32, i32)>)
    ensures
        r == place(c.main_x, c.main_y),
{
    match (c.main_x, c.main_y) {
        (Some(x), Some(y)) => Some((x, y)),
        _ => None,
    }
}

/// How many points the history holds with these settings; as many as by default
/// where their range is not allowed.
pub open spec fn capacity_for(c: AppConfig) -> int {
    if history::is_allowed_range(c.history_range_minutes) {
        c.history_range_minutes * 60
    } else {
        history::DEFAULT_HISTORY_CAPACITY as int
    }
}

pub fn initial_history_capacity(c: &AppConfig) -> (r: usize)
    ensures
        r == capacity_for(*c),
{
    match history_capacity_for_minutes(c.history_range_minutes) {
        Ok(capacity) => capacity,
        Err(_) => history::DEFAULT_HISTORY_CAPACITY,
    }
}

/// What the settings page shows of where temperatures come from.
#[derive(Debug)]
pub struct TempSourceStatus {
    pub source: String,
    pub message: String,
    pub precise_temp_enabled: bool,
    pub lhm_base_url: String,
}

/// The source in words.
pub open spec fn source_words(enabled: bool, kind: TempSourceKind) -> Seq<char> {
    if !enabled {
        match kind {
            TempSourceKind::Wmi => "精确温度已关闭 · 当前：ACPI/WMI"@,
            TempSourceKind::Sysinfo => "精确温度已关闭 · 当前：sysinfo"@,
            TempSourceKind::Lhm => "精确温度已关闭"@,
            TempSourceKind::Unavailable => "精确温度已关闭 · 温度暂不可用"@,
        }
    } else {
        match kind {
            TempSourceKind::Lhm => "已连接 LibreHardwareMonitor"@,
            TempSourceKind::Wmi => "未检测到 LHM · 已回退 ACPI/WMI"@,
            TempSourceKind::Sysinfo => "未检测到 LHM · 已回退 sysinfo"@,
            TempSourceKind::Unavailable => "未检测到 LHM · 温度暂不可用"@,
        }
    }
}

pub fn temp_source_message(enabled: bool, kind: TempSourceKind) -> (r: String)
    ensures
        r@ == source_words(enabled, kind),
{
    if !enabled {
        return match kind {
            TempSourceKind::Wmi => "精确温度已关闭 · 当前：ACPI/WMI".to_string(),
            TempSourceKind::Sysinfo => "精确温度已关闭 · 当前：sysinfo".to_string(),
            TempSourceKind::Lhm => "精确温度已关闭".to_string(),
            TempSourceKind::Unavailable => "精确温度已关闭 · 温度暂不可用".to_string(),
        };
    }
    match kind {
        TempSourceKind::Lhm => "已连接 LibreHardwareMonitor".to_string(),
        TempSourceKind::Wmi => "未检测到 LHM · 已回退 ACPI/WMI".to_string(),
        TempSourceKind::Sysinfo => "未检测到 LHM · 已回退 sysinfo".to_string(),
        TempSourceKind::Unavailable => "未检测到 LHM · 温度暂不可用".to_string(),
    }
}

/// The source that is shown: a reading of LibreHardwareMonitor from before it was
/// switched off is not.
pub open spec fn shown_source(enabled: bool, kind: TempSourceKind) -> TempSourceKind {
    if !enabled && kind == TempSourceKind::Lhm {
        TempSourceKind::Unavailable
    } else {
        kind
    }
}

pub fn get_temp_source_status(c: &AppConfig, kind: TempSourceKind) -> (r: TempSourceStatus)
    ensures
        r.source@ == shown_source(c.precise_temp_enabled, kind).name(),
        r.message@ == source_words(
            c.precise_temp_enabled,
            shown_source(c.precise_temp_enabled, kind),
        ),
        r.precise_temp_enabled == c.precise_temp_enabled,
        r.lhm_base_url@ == c.lhm_base_url@,
{
    let enabled = c.precise_temp_enabled;
    let display_kind = if !enabled && kind == TempSourceKind::Lhm {
        TempSourceKind::Unavailable
    } else {
        kind
    };
    TempSourceStatus {
        source: display_kind.as_str().to_string(),
        message: temp_source_message(enabled, display_kind),
        precise_temp_enabled: enabled,
        lhm_base_url: c.lhm_base_url.clone(),
    }
}

/// While it is switched off, LibreHardwareMonitor is never shown as the source.
pub proof fn law_no_precise_source_when_off(kind: TempSourceKind)
    ensures
        shown_source(false, kind) != TempSourceKind::Lhm,
{
}

/// What the system says of the permission to announce alerts.
#[derive(Clone, Copy, PartialEq, Eq, Structural, Debug)]
pub enum PermissionState {
    Granted,
    Denied,
    /// It has not been decided.
    Undecided,
}

/// Whether alerts may be announced, or the user is to be asked.
#[derive(Clone, Copy, PartialEq, Eq, Structural, Debug)]
pub enum PermissionStep {
    Answer(bool),
    Request,
}

/// What follows from the permission that was read; from none where it could not be.
pub fn ensure_notification_permission(state: Option<PermissionState>) -> (r: PermissionStep)
    ensures
        r == (match state {
            Some(PermissionState::Granted) => PermissionStep::Answer(true),
            Some(PermissionState::Denied) => PermissionStep::Answer(false),
            Some(PermissionState::Undecided) => PermissionStep::Request,
            None => PermissionStep::Answer(false),
        }),
{
    match state {
        Some(PermissionState::Granted) => PermissionStep::Answer(true),
        Some(PermissionState::Denied) => PermissionStep::Answer(false),
        Some(PermissionState::Undecided) => PermissionStep::Request,
        None => PermissionStep::Answer(false),
    }
}

/// Whether alerts may be announced after the user was asked.
pub fn permission_after_request(state: Option<PermissionState>) -> (r: bool)
    ensures
        r == (state == Some(PermissionState::Granted)),
{
    match state {
        Some(PermissionState::Granted) => true,
        _ => false,
    }
}

/// The text of the announcement, if there is something to announce and it is wanted.
pub fn send_alert_notification(enabled: bool, newly_fired: &Vec<String>) -> (r: Option<String>)
    ensures
        match r {
            Some(body) => enabled && newly_fired@.len() > 0 && body@ == text::join(
                text::views(newly_fired@),
                " · "@,
            ),
            None => !enabled || newly_fired@.len() == 0,
        },
{
    if !enabled || newly_fired.len() == 0 {
        None
    } else {
        Some(text::joined(newly_fired, " · "))
    }
}

/// Settings are accepted where the address is, the thresholds are valid, the history
/// reaches back 1, 5, 15 or 60 minutes and the style is one there is. Else the first of
/// these that fails is the reason.
pub proof fn law_accepted_settings(input: SettingsInput)
    ensures
        ({
            let url = config::normalized_url(input.lhm_base_url@);
            let minutes = input.history_range_minutes;
            let range = minutes == 1 || minutes == 5 || minutes == 15 || minutes == 60;
            let style = OverlayStyle::named(input.overlay_style@);
            &&& input.fault() is None <==> url is Ok && input.thresholds.fault() is None && range
                && style is Some
            &&& url is Err ==> input.fault() == Some(url->Err_0)
            &&& url is Ok && input.thresholds.fault() is Some ==> input.fault()
                == input.thresholds.fault()
            &&& url is Ok && input.thresholds.fault() is None && !range ==> input.fault() == Some(
                "历史时长仅支持 1/5/15/60 分钟"@,
            )
            &&& url is Ok && input.thresholds.fault() is None && range && style is None
                ==> input.fault() == Some("无效的叠加层形态"@)
        }),
{
}

/// Checked settings are those that were sent, each in its place, with the address in its
/// normal form, the style that the name means, and a point for every second.
pub proof fn law_checked_settings(input: SettingsInput, c: CheckedSettings)
    requires
        input.checks_as(c),
    ensures
        c.thresholds == input.thresholds,
        c.notification_enabled == input.notification_enabled,
        c.history_range_minutes == input.history_range_minutes,
        c.precise_temp_enabled == input.precise_temp_enabled,
        config::normalized_url(input.lhm_base_url@) == Ok::<Seq<char>, Seq<char>>(c.lhm_base_url@),
        c.overlay_enabled == input.overlay_enabled,
        c.autostart_enabled == input.autostart_enabled,
        c.overlay_auto_hide == input.overlay_auto_hide,
        OverlayStyle::named(input.overlay_style@) == Some(c.overlay_style),
        c.capacity == 60 * input.history_range_minutes,
{
}

/// Settings that were changed are those that were wanted, each in its place; the place
/// of the overlay is the one that was looked at, if it was; the edges it keeps to and
/// the place of the main panel stay.
pub proof fn law_settled_settings(
    current: AppConfig,
    wanted: CheckedSettings,
    position: Option<(i32, i32)>,
)
    ensures
        ({
            let next = settled(current, wanted, position);
            &&& next.alert == wanted.thresholds
            &&& next.notification_enabled == wanted.notification_enabled
            &&& next.history_range_minutes == wanted.history_range_minutes
            &&& next.precise_temp_enabled == wanted.precise_temp_enabled
            &&& next.lhm_base_url == wanted.lhm_base_url
            &&& next.overlay_enabled == wanted.overlay_enabled
            &&& next.autostart_enabled == wanted.autostart_enabled
            &&& next.overlay_auto_hide == wanted.overlay_auto_hide
            &&& next.overlay_style == wanted.overlay_style
            &&& next.main_x == current.main_x && next.main_y == current.main_y
            &&& next.overlay_edge_x == current.overlay_edge_x
            &&& next.overlay_edge_y == current.overlay_edge_y
            &&& position is Some ==> next.overlay_x == Some((position->0).0) && next.overlay_y == Some(
                (position->0).1,
            )
            &&& position is None ==> next.overlay_x == current.overlay_x && next.overlay_y
                == current.overlay_y
        }),
{
}

/// A stage is seen as what it is.
pub proof fn law_stages_are_seen(stage: SettingsStage)
    ensures
        stage is Permission <==> stage@ is Permission,
        stage is Autostart <==> stage@ is Autostart,
        stage is Position <==> stage@ is Position,
        stage is Save <==> stage@ is Save,
        stage is Applied <==> stage@ is Applied,
        stage is Refused ==> stage@ == StageView::Refused(stage->Refused_0@),
{
}

/// The order of a change: the permission where alerts are to be announced, then the
/// system's consent, then a look at an overlay that is to be hidden, then the file.
/// Each stage ends in the next one, or, where it fails, in a refusal with its reason, and
/// waits for its own event alone.
pub proof fn law_order_of_a_change(wanted: CheckedSettings, event: SettingsEvent)
    ensures
        wanted.notification_enabled ==> first_stage(wanted) is Permission,
        !wanted.notification_enabled ==> first_stage(wanted) is Autostart,
        event == SettingsEvent::Permission(true) ==> next_stage(
            wanted,
            StageView::Permission,
            event,
        ) is Autostart,
        event == SettingsEvent::Permission(false) ==> next_stage(
            wanted,
            StageView::Permission,
            event,
        ) == StageView::Refused("系统通知权限未授予，请在 Windows 通知设置中允许本应用"@),
        event !is Permission ==> next_stage(wanted, StageView::Permission, event) is Permission,
        event is Autostart && event->Autostart_0 is Ok && wanted.overlay_enabled ==> next_stage(
            wanted,
            StageView::Autostart,
            event,
        ) is Save,
        event is Autostart && event->Autostart_0 is Ok && !wanted.overlay_enabled ==> next_stage(
            wanted,
            StageView::Autostart,
            event,
        ) is Position,
        event is Autostart && event->Autostart_0 is Err && wanted.autostart_enabled ==> next_stage(
            wanted,
            StageView::Autostart,
            event,
        ) == StageView::Refused("启用开机自启失败: "@ + event->Autostart_0->Err_0@),
        event is Autostart && event->Autostart_0 is Err && !wanted.autostart_enabled ==> next_stage(
            wanted,
            StageView::Autostart,
            event,
        ) == StageView::Refused("关闭开机自启失败: "@ + event->Autostart_0->Err_0@),
        event !is Autostart ==> next_stage(wanted, StageView::Autostart, event) is Autostart,
        event is Position ==> next_stage(wanted, StageView::Position, event) is Save,
        event !is Position ==> next_stage(wanted, StageView::Position, event) is Position,
        event is Saved && event->Saved_0 is Ok ==> next_stage(wanted, StageView::Save, event)
            is Applied,
        event is Saved && event->Saved_0 is Err ==> next_stage(wanted, StageView::Save, event)
            == StageView::Refused(event->Saved_0->Err_0@),
        event !is Saved ==> next_stage(wanted, StageView::Save, event) is Save,
{
}

/// A place is known where both of its coordinates are.
pub proof fn law_place(x: Option<i32>, y: Option<i32>)
    ensures
        x is Some && y is Some ==> place(x, y) == Some((x->0, y->0)),
        x is None || y is None ==> place(x, y) is None,
{
}

/// The history holds a point for every second that it reaches back, and 60 where the
/// range is not allowed.
pub proof fn law_room_of_the_history(c: AppConfig)
    ensures
        c.history_range_minutes == 1 || c.history_range_minutes == 5 || c.history_range_minutes
            == 15 || c.history_range_minutes == 60 ==> capacity_for(c) == 60
            * c.history_range_minutes,
        !(c.history_range_minutes == 1 || c.history_range_minutes == 5 || c.history_range_minutes
            == 15 || c.history_range_minutes == 60) ==> capacity_for(c) == 60,
{
}

/// The source that is shown is the one that was used; only LibreHardwareMonitor is shown
/// as none while it is switched off. In words it is said whether it is switched on, and
/// what the temperatures come from.
pub proof fn law_shown_source(enabled: bool, kind: TempSourceKind)
    ensures
        enabled || kind != TempSourceKind::Lhm ==> shown_source(enabled, kind) == kind,
        !enabled && kind == TempSourceKind::Lhm ==> shown_source(enabled, kind)
            == TempSourceKind::Unavailable,
        enabled && kind == TempSourceKind::Lhm ==> source_words(enabled, kind)
            == "已连接 LibreHardwareMonitor"@,
        enabled && kind == TempSourceKind::Wmi ==> source_words(enabled, kind)
            == "未检测到 LHM · 已回退 ACPI/WMI"@,
        enabled && kind == TempSourceKind::Sysinfo ==> source_words(enabled, kind)
            == "未检测到 LHM · 已回退 sysinfo"@,
        enabled && kind == TempSourceKind::Unavailable ==> source_words(enabled, kind)
            == "未检测到 LHM · 温度暂不可用"@,
        !enabled && kind == TempSourceKind::Lhm ==> source_words(enabled, kind)
            == "精确温度已关闭"@,
        !enabled && kind == TempSourceKind::Wmi ==> source_words(enabled, kind)
            == "精确温度已关闭 · 当前：ACPI/WMI"@,
        !enabled && kind == TempSourceKind::Sysinfo ==> source_words(enabled, kind)
            == "精确温度已关闭 · 当前：sysinfo"@,
        !enabled && kind == TempSourceKind::Unavailable ==> source_words(enabled, kind)
            == "精确温度已关闭 · 温度暂不可用"@,
{
}

} // verus!
