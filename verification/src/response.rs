//! What the windows are told of a sample.

use crate::alert;
use crate::alert::{AlertEngine, AlertStatus};
use crate::monitor::Metrics;
use crate::settings::send_alert_notification;
use crate::temperature_lhm::TempSourceKind;
use crate::text;
use vstd::prelude::*;
use vstd::string::*;

verus! {

/// A sample, the alerts that it raises, and where its temperature came from.
#[derive(Debug)]
pub struct MetricsResponse {
    pub metrics: Metrics,
    pub alert: AlertStatus,
    pub temp_source: String,
}

/// What follows from a sample at `now`: what the windows are told, the text of the
/// tray icon, and the text to announce, if there is one.
pub fn get_metrics(
    metrics: Metrics,
    engine: &mut AlertEngine,
    source: TempSourceKind,
    notification_enabled: bool,
    now: u64,
) -> (r: (MetricsResponse, String, Option<String>))
    ensures
        r.0.metrics == metrics,
        r.0.temp_source@ == source.name(),
        r.0.alert.cpu == alert::cpu_alert(metrics@, old(engine).thresholds),
        r.0.alert.memory == alert::memory_alert(metrics@, old(engine).thresholds),
        r.0.alert.temperature == alert::temperature_alert(metrics@, old(engine).thresholds),
        r.0.alert.disk == alert::disk_alert(metrics@, old(engine).thresholds),
        r.0.alert.active == (r.0.alert.cpu || r.0.alert.memory || r.0.alert.temperature
            || r.0.alert.disk),
        r.0.alert.cpu == old(engine).thresholds.cpu_percent.at_most(metrics.cpu_percent),
        r.0.alert.memory == old(engine).thresholds.memory_percent.at_most(metrics.memory_percent),
        r.0.alert.temperature == (metrics.cpu_temp_celsius is Some
            && old(engine).thresholds.cpu_temp_celsius.at_most(metrics.cpu_temp_celsius->0)),
        r.0.alert.disk == exists|i: int|
            0 <= i < metrics.disks@.len() && !(#[trigger] metrics.disks@[i]).used_percent.below(
                old(engine).thresholds.disk_percent,
            ),
        text::views(r.0.alert.messages@) == alert::alert_messages(
            metrics@,
            old(engine).thresholds,
        ),
        r.0.alert.thresholds == old(engine).thresholds,
        final(engine).thresholds == old(engine).thresholds,
        final(engine).last_fired == alert::fired_after(
            metrics@,
            old(engine).thresholds,
            old(engine).last_fired,
            now,
        ),
        r.1@ == r.0.alert.tooltip(),
        ({
            let notices = alert::alert_notices(
                metrics@,
                old(engine).thresholds,
                old(engine).last_fired,
                now,
            );
            match r.2 {
                Some(body) => notification_enabled && notices.len() > 0 && body@ == text::join(
                    notices,
                    " · "@,
                ),
                None => !notification_enabled || notices.len() == 0,
            }
        }),
{
    let (status, newly_fired) = engine.evaluate(&metrics, now);
    assert(text::views(newly_fired@).len() == newly_fired@.len());
    let body = send_alert_notification(notification_enabled, &newly_fired);
    let tooltip = status.tooltip_text();
    let temp_source = source.as_str().to_string();
    (MetricsResponse { metrics, alert: status, temp_source }, tooltip, body)
}

} // verus!
