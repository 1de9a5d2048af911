use rustmon::alerts::{
    evaluate_start, evaluate_step, is_final_action, Alert, AlertLookup, EvaluateAction,
    EvaluateEvent, EvaluateFailure, EvaluateStep, NotificationKind,
};
use rustmon::config::{
    default_bind_addr, default_db_path, default_disk_path, default_retention_days,
    default_sample_interval_secs, default_smtp_port, email_to_list, normalize_optional,
};
use rustmon::notify::{notification, plan_email, smtp_credentials, EmailPlan};
use rustmon::templates::{
    logs_error_message, logs_step, status_color, LogsItem, AlertsTemplate, DockerMetricsTemplate, LogsFailure,
    VpsMetricsTemplate,
};
use rustmon::web::asset_request;

fn run(breached: bool, answers: &[EvaluateEvent]) -> Vec<EvaluateAction> {
    let (mut step, first) = evaluate_start(breached);
    let mut actions = vec![first];
    for ev in answers {
        let (next, action) = evaluate_step(step, *ev);
        step = next;
        actions.push(action);
    }
    actions
}

#[test]
fn breach_without_open_incident_opens_and_notifies() {
    let actions = run(true, &[EvaluateEvent::NotFound, EvaluateEvent::Written]);
    assert_eq!(
        actions,
        vec![
            EvaluateAction::Lookup(AlertLookup::Triggered),
            EvaluateAction::InsertAlert,
            EvaluateAction::NotifyAndBroadcast(NotificationKind::Triggered),
        ]
    );
}

#[test]
fn breach_with_triggered_incident_is_silent() {
    let actions = run(true, &[EvaluateEvent::Found { id: 4 }, EvaluateEvent::Written]);
    assert_eq!(
        actions,
        vec![
            EvaluateAction::Lookup(AlertLookup::Triggered),
            EvaluateAction::Stop,
            EvaluateAction::Stop,
        ]
    );
}

#[test]
fn recovery_resolves_open_incident() {
    let actions = run(
        false,
        &[EvaluateEvent::Found { id: 9 }, EvaluateEvent::Written, EvaluateEvent::NotFound],
    );
    assert_eq!(
        actions,
        vec![
            EvaluateAction::Lookup(AlertLookup::Open),
            EvaluateAction::ResolveAlert { id: 9 },
            EvaluateAction::Lookup(AlertLookup::Open),
            EvaluateAction::NotifyAndBroadcast(NotificationKind::Resolved),
        ]
    );
}

#[test]
fn recovery_resolves_every_open_alert_before_notifying() {
    let actions = run(
        false,
        &[
            EvaluateEvent::Found { id: 9 },
            EvaluateEvent::Written,
            EvaluateEvent::Found { id: 12 },
            EvaluateEvent::Written,
            EvaluateEvent::NotFound,
        ],
    );
    assert_eq!(
        actions,
        vec![
            EvaluateAction::Lookup(AlertLookup::Open),
            EvaluateAction::ResolveAlert { id: 9 },
            EvaluateAction::Lookup(AlertLookup::Open),
            EvaluateAction::ResolveAlert { id: 12 },
            EvaluateAction::Lookup(AlertLookup::Open),
            EvaluateAction::NotifyAndBroadcast(NotificationKind::Resolved),
        ]
    );
}

#[test]
fn failure_after_a_resolution_refreshes_without_notifying() {
    assert_eq!(
        run(false, &[EvaluateEvent::Found { id: 9 }, EvaluateEvent::Written, EvaluateEvent::Failed])[3],
        EvaluateAction::ReportFailureAndBroadcast(EvaluateFailure::QueryOpen)
    );
    assert_eq!(
        run(
            false,
            &[
                EvaluateEvent::Found { id: 9 },
                EvaluateEvent::Written,
                EvaluateEvent::Found { id: 12 },
                EvaluateEvent::Failed,
            ]
        )[4],
        EvaluateAction::ReportFailureAndBroadcast(EvaluateFailure::ResolveAlert)
    );
}

#[test]
fn normal_metric_without_incident_does_nothing() {
    let actions = run(false, &[EvaluateEvent::NotFound]);
    assert_eq!(actions, vec![EvaluateAction::Lookup(AlertLookup::Open), EvaluateAction::Stop]);
    assert!(is_final_action(actions[1]));
    assert!(!is_final_action(actions[0]));
}

#[test]
fn failures_end_without_change() {
    assert_eq!(
        run(true, &[EvaluateEvent::Failed])[1],
        EvaluateAction::ReportFailure(EvaluateFailure::QueryTriggered)
    );
    assert_eq!(
        run(false, &[EvaluateEvent::Failed])[1],
        EvaluateAction::ReportFailure(EvaluateFailure::QueryOpen)
    );
    assert_eq!(
        run(true, &[EvaluateEvent::NotFound, EvaluateEvent::Failed])[2],
        EvaluateAction::ReportFailure(EvaluateFailure::InsertAlert)
    );
    assert_eq!(
        run(false, &[EvaluateEvent::Found { id: 1 }, EvaluateEvent::Failed])[2],
        EvaluateAction::ReportFailure(EvaluateFailure::ResolveAlert)
    );
    assert_eq!(evaluate_step(EvaluateStep::Finished, EvaluateEvent::NotFound), (EvaluateStep::Finished, EvaluateAction::Stop));
}

#[test]
fn at_most_one_notification_on_long_answer_lists() {
    let answers = [EvaluateEvent::NotFound, EvaluateEvent::Written, EvaluateEvent::Written, EvaluateEvent::NotFound];
    let n = run(true, &answers).iter().filter(|a| matches!(a, EvaluateAction::NotifyAndBroadcast(_))).count();
    assert_eq!(n, 1);
}

fn alert(id: i64, status: &str) -> Alert {
    Alert {
        id,
        timestamp: "2024-05-01 12:00:00".to_string(),
        component: "vps_cpu".to_string(),
        message: "CPU usage at 95%".to_string(),
        status: status.to_string(),
        acknowledged_at: None,
        resolved_at: None,
    }
}

#[test]
fn bell_counts_only_triggered() {
    let t = AlertsTemplate::from_alerts(vec![alert(1, "TRIGGERED"), alert(2, "ACKNOWLEDGED"), alert(3, "TRIGGERED")]);
    assert_eq!(t.unacknowledged_count, 2);
    assert_eq!(t.alerts.len(), 3);
    assert_eq!(AlertsTemplate::from_alerts(vec![]).unacknowledged_count, 0);
}

#[test]
fn acknowledging_decrements_bell() {
    let before = AlertsTemplate::from_alerts(vec![alert(1, "TRIGGERED"), alert(2, "TRIGGERED")]);
    let after = AlertsTemplate::from_alerts(vec![alert(1, "ACKNOWLEDGED"), alert(2, "TRIGGERED")]);
    assert_eq!(after.unacknowledged_count + 1, before.unacknowledged_count);
}

#[test]
fn status_color_thresholds() {
    assert_eq!(status_color(0), "var(--mnt-status-ok)");
    assert_eq!(status_color(69), "var(--mnt-status-ok)");
    assert_eq!(status_color(70), "var(--mnt-status-warn)");
    assert_eq!(status_color(89), "var(--mnt-status-warn)");
    assert_eq!(status_color(90), "var(--mnt-status-critical)");
    assert_eq!(status_color(100), "var(--mnt-status-critical)");
}

#[test]
fn vps_gauges() {
    let t = VpsMetricsTemplate::from_percents(15, 72, 95);
    assert_eq!((t.cpu_pct, t.mem_pct, t.disk_pct), (15, 72, 95));
    assert_eq!(t.cpu_color, "var(--mnt-status-ok)");
    assert_eq!(t.mem_color, "var(--mnt-status-warn)");
    assert_eq!(t.disk_color, "var(--mnt-status-critical)");
    assert!(DockerMetricsTemplate::from_samples(vec![]).containers.is_empty());
}

#[test]
fn logs_error_messages() {
    let nf = LogsFailure::DockerServer { status_code: 404, message: "no such container".to_string() };
    assert_eq!(
        logs_error_message("web", &nf),
        "Container \"web\" not found — it may have been removed or renamed."
    );
    let se = LogsFailure::DockerServer { status_code: 500, message: "boom".to_string() };
    assert_eq!(logs_error_message("web", &se), "Docker returned an error (500): boom");
    assert_eq!(logs_error_message("web", &LogsFailure::Unreachable), "Could not reach the Docker daemon. Is it running?");
    let other = LogsFailure::Other { detail: "eof".to_string() };
    assert_eq!(logs_error_message("web", &other), "Failed to read logs: eof");
}

#[test]
fn configuration_defaults() {
    assert_eq!(default_sample_interval_secs(), 5);
    assert_eq!(default_retention_days(), 7);
    assert_eq!(default_db_path(), "data.db");
    assert_eq!(default_bind_addr(), "0.0.0.0:3000");
    assert_eq!(default_disk_path(), "/");
    assert_eq!(default_smtp_port(), 587);
}

#[test]
fn empty_optional_setting_is_absent() {
    assert_eq!(normalize_optional(Some(String::new())), None);
    assert_eq!(normalize_optional(None), None);
    assert_eq!(normalize_optional(Some("https://hook".to_string())), Some("https://hook".to_string()));
    assert_eq!(normalize_optional(Some(" ".to_string())), Some(" ".to_string()));
}

#[test]
fn recipient_list_is_cleaned() {
    assert_eq!(
        email_to_list(" ops@example.com, ,dev@example.com ,\u{3000}qa@example.com\t,"),
        vec!["ops@example.com".to_string(), "dev@example.com".to_string(), "qa@example.com".to_string()]
    );
    assert!(email_to_list("").is_empty());
    assert!(email_to_list(" , ,").is_empty());
}

#[test]
fn triggered_notification_texts() {
    let n = notification(NotificationKind::Triggered, "vps_cpu", "CPU usage at 96%");
    assert_eq!(n.subject, "[Alerte RustMon] vps_cpu");
    assert_eq!(n.html, "<strong>CPU usage at 96%</strong><br>Connectez-vous au dashboard pour acquitter l'alerte.");
    assert_eq!(n.content, "⚠️ **Alerte Serveur** : CPU usage at 96%");
}

#[test]
fn resolved_notification_texts() {
    let n = notification(NotificationKind::Resolved, "docker_container_api", "Container api is down");
    assert_eq!(n.subject, "[RustMon] Incident résolu : docker_container_api");
    assert_eq!(n.html, "<strong>Incident résolu</strong><br>Container api is down");
    assert_eq!(n.content, "✅ **Incident résolu** : Container api is down");
}

#[test]
fn email_disabled_or_without_recipients() {
    let to = vec!["ops@example.com".to_string()];
    assert!(matches!(plan_email(false, Some("mon@example.com"), &to), EmailPlan::Disabled));
    assert!(matches!(plan_email(true, None, &to), EmailPlan::Disabled));
    assert!(matches!(plan_email(true, Some("mon@example.com"), &vec![]), EmailPlan::NoRecipients));
}

#[test]
fn email_invalid_sender() {
    let to = vec!["ops@example.com".to_string()];
    assert!(matches!(plan_email(true, Some("not an address"), &to), EmailPlan::InvalidSender));
}

#[test]
fn email_skips_invalid_recipients() {
    let to = vec!["ops@example.com".to_string(), "broken".to_string(), "Dev <dev@example.com>".to_string()];
    match plan_email(true, Some("RustMon <mon@example.com>"), &to) {
        EmailPlan::Send { to: boxes, accepted, rejected, .. } => {
            assert_eq!(boxes.len(), 2);
            assert_eq!(accepted, vec!["ops@example.com".to_string(), "Dev <dev@example.com>".to_string()]);
            assert_eq!(rejected, vec!["broken".to_string()]);
            assert_eq!(boxes[0].email.to_string(), "ops@example.com");
        }
        other => panic!("unexpected plan {:?}", other),
    }
}

#[test]
fn asset_paths_and_types() {
    let css = asset_request("/assets/pico.min.css");
    assert_eq!(css.path, "pico.min.css");
    assert_eq!(css.content_type, "text/css");
    let nested = asset_request("/assets/assets/htmx.js");
    assert_eq!(nested.path, "assets/htmx.js");
    let js = asset_request("/assets//assets/htmx.js");
    assert_eq!(js.path, "htmx.js");
    assert_eq!(js.content_type, "text/javascript");
    let raw = asset_request("/assets/LICENSE");
    assert_eq!(raw.path, "LICENSE");
    assert_eq!(raw.content_type, "application/octet-stream");
}

/// Drives one evaluation against a simulated table holding (triggered,
/// acknowledged) alerts for one component; returns the notifications sent.
fn simulated_cycle(open: &mut (u32, u32), breached: bool) -> Vec<NotificationKind> {
    let (mut step, mut action) = evaluate_start(breached);
    let mut sent = Vec::new();
    loop {
        let event = match action {
            EvaluateAction::Lookup(AlertLookup::Triggered) => {
                if open.0 > 0 { EvaluateEvent::Found { id: 1 } } else { EvaluateEvent::NotFound }
            }
            EvaluateAction::Lookup(AlertLookup::Open) => {
                if open.0 + open.1 > 0 { EvaluateEvent::Found { id: 1 } } else { EvaluateEvent::NotFound }
            }
            EvaluateAction::InsertAlert => {
                open.0 += 1;
                EvaluateEvent::Written
            }
            EvaluateAction::ResolveAlert { .. } => {
                if open.0 > 0 { open.0 -= 1 } else { open.1 -= 1 }
                EvaluateEvent::Written
            }
            EvaluateAction::NotifyAndBroadcast(kind) => {
                sent.push(kind);
                return sent;
            }
            EvaluateAction::ReportFailure(_)
            | EvaluateAction::ReportFailureAndBroadcast(_)
            | EvaluateAction::Stop => return sent,
        };
        (step, action) = evaluate_step(step, event);
    }
}

#[test]
fn sustained_breach_notifies_once() {
    let mut open = (0, 0);
    let mut sent = Vec::new();
    for _ in 0..5 {
        sent.extend(simulated_cycle(&mut open, true));
    }
    assert_eq!(sent, vec![NotificationKind::Triggered]);
    assert_eq!(open, (1, 0));
}

#[test]
fn acknowledged_incident_notifies_again_while_breached() {
    // The component's only TRIGGERED alert was acknowledged from the dashboard.
    let mut open = (0, 1);
    assert_eq!(simulated_cycle(&mut open, true), vec![NotificationKind::Triggered]);
    assert_eq!(open, (1, 1));
}

#[test]
fn recovery_closes_all_open_alerts_with_one_notification() {
    let mut open = (1, 1);
    assert_eq!(simulated_cycle(&mut open, false), vec![NotificationKind::Resolved]);
    assert_eq!(open, (0, 0));
    assert!(simulated_cycle(&mut open, false).is_empty());
}

#[test]
fn email_plan_sends_from_sender_to_accepted() {
    let to = vec!["ops@example.com".to_string(), "dev@example.com".to_string()];
    match plan_email(true, Some("mon@example.com"), &to) {
        EmailPlan::Send { from, to: boxes, .. } => {
            assert_eq!(from.email.to_string(), "mon@example.com");
            assert_eq!(boxes[0].email.to_string(), "ops@example.com");
            assert_eq!(boxes[1].email.to_string(), "dev@example.com");
        }
        other => panic!("unexpected plan {:?}", other),
    }
}

#[test]
fn smtp_login_needs_user_and_password() {
    assert_eq!(
        smtp_credentials(&Some("u".to_string()), &Some("p".to_string())),
        Some(("u".to_string(), "p".to_string()))
    );
    assert_eq!(smtp_credentials(&Some("u".to_string()), &None), None);
    assert_eq!(smtp_credentials(&None, &Some("p".to_string())), None);
    assert_eq!(smtp_credentials(&None, &None), None);
}

#[test]
fn log_stream_keeps_chunks_and_stops_at_first_error() {
    let mut logs = String::new();
    assert_eq!(logs_step(&mut logs, "web", LogsItem::Chunk("a\n".to_string())), None);
    assert_eq!(logs_step(&mut logs, "web", LogsItem::Chunk("b\n".to_string())), None);
    assert_eq!(logs, "a\nb\n");
    assert_eq!(
        logs_step(&mut logs, "web", LogsItem::Failure(LogsFailure::Unreachable)),
        Some(Some("Could not reach the Docker daemon. Is it running?".to_string()))
    );
    assert_eq!(logs, "a\nb\n");
    assert_eq!(logs_step(&mut logs, "web", LogsItem::End), Some(None));
}
