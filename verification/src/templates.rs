//! What the dashboard's HTML fragments are rendered from.

use vstd::prelude::*;

use crate::alerts::Alert;
use crate::metrics::DockerSample;
use crate::text::{push_decimal, push_str};

verus! {

/// The page shell.
#[derive(Debug, Clone, Copy)]
pub struct IndexTemplate;

/// CSS color of a usage percentage: critical from 90%, warning from 70%, ok below.
pub open spec fn spec_status_color(pct: u32) -> &'static str {
    if pct >= 90 {
        "var(--mnt-status-critical)"
    } else if pct >= 70 {
        "var(--mnt-status-warn)"
    } else {
        "var(--mnt-status-ok)"
    }
}

/// CSS color keyword driving both the bar fill and the percent text,
/// matching the ok/warn/critical status thresholds.
pub fn status_color(pct: u32) -> (r: &'static str)
    ensures
        r == spec_status_color(pct),
{
    if pct >= 90 {
        "var(--mnt-status-critical)"
    } else if pct >= 70 {
        "var(--mnt-status-warn)"
    } else {
        "var(--mnt-status-ok)"
    }
}

/// Host usage gauges: rounded percentages and their colors.
#[derive(Debug, Clone, Copy)]
pub struct VpsMetricsTemplate {
    pub cpu_pct: u32,
    pub cpu_color: &'static str,
    pub mem_pct: u32,
    pub mem_color: &'static str,
    pub disk_pct: u32,
    pub disk_color: &'static str,
}

impl VpsMetricsTemplate {
    /// The gauges for the given rounded percentages, each colored by its value.
    pub fn from_percents(cpu_pct: u32, mem_pct: u32, disk_pct: u32) -> (t: Self)
        ensures
            t.cpu_pct == cpu_pct,
            t.mem_pct == mem_pct,
            t.disk_pct == disk_pct,
            t.cpu_color == spec_status_color(cpu_pct),
            t.mem_color == spec_status_color(mem_pct),
            t.disk_color == spec_status_color(disk_pct),
    {
        VpsMetricsTemplate {
            cpu_pct,
            cpu_color: status_color(cpu_pct),
            mem_pct,
            mem_color: status_color(mem_pct),
            disk_pct,
            disk_color: status_color(disk_pct),
        }
    }
}

/// The container list.
#[derive(Debug, Clone)]
pub struct DockerMetricsTemplate {
    pub containers: Vec<DockerSample>,
}

impl DockerMetricsTemplate {
    /// The list of the containers sampled in one cycle, in order.
    pub fn from_samples(containers: Vec<DockerSample>) -> (t: Self)
        ensures
            t.containers == containers,
    {
        DockerMetricsTemplate { containers }
    }
}

/// A container's log tail, or why it could not be read.
#[derive(Debug, Clone)]
pub struct ContainerLogsTemplate {
    pub logs: String,
    pub error: Option<String>,
}

/// Why reading a container's logs stopped.
#[derive(Debug, Clone)]
pub enum LogsFailure {
    /// The daemon answered with an error status.
    DockerServer { status_code: u16, message: String },
    /// The daemon could not be reached.
    Unreachable,
    /// Any other error, with its description.
    Other { detail: String },
}

/// Text shown in place of the logs of container `name`: a 404 from the daemon
/// means the container is gone.
pub open spec fn spec_logs_error_message(name: Seq<char>, failure: LogsFailure) -> Seq<char> {
    match failure {
        LogsFailure::DockerServer { status_code, message } => if status_code == 404 {
            "Container \""@ + name + "\" not found — it may have been removed or renamed."@
        } else {
            "Docker returned an error ("@ + crate::text::decimal(status_code as nat) + "): "@
                + message@
        },
        LogsFailure::Unreachable => "Could not reach the Docker daemon. Is it running?"@,
        LogsFailure::Other { detail } => "Failed to read logs: "@ + detail@,
    }
}

/// Text shown in place of the logs of container `name`.
pub fn logs_error_message(name: &str, failure: &LogsFailure) -> (r: String)
    ensures
        r@ == spec_logs_error_message(name@, *failure),
{
    match failure {
        LogsFailure::DockerServer { status_code, message } => {
            if *status_code == 404 {
                let mut r = String::from_str("Container \"");
                push_str(&mut r, name);
                push_str(&mut r, "\" not found — it may have been removed or renamed.");
                r
            } else {
                let mut r = String::from_str("Docker returned an error (");
                push_decimal(&mut r, *status_code as u64);
                push_str(&mut r, "): ");
                push_str(&mut r, message.as_str());
                r
            }
        },
        LogsFailure::Unreachable => String::from_str("Could not reach the Docker daemon. Is it running?"),
        LogsFailure::Other { detail } => {
            let mut r = String::from_str("Failed to read logs: ");
            push_str(&mut r, detail.as_str());
            r
        },
    }
}

/// One item of a container's log stream.
#[derive(Debug, Clone)]
pub enum LogsItem {
    /// A chunk of output, as text.
    Chunk(String),
    /// The stream failed.
    Failure(LogsFailure),
    /// The stream ended.
    End,
}

/// Takes one item of the log stream of container `name`: a chunk is appended
/// to `logs` and reading goes on (`None`); a failure stops reading with the
/// text to show in its place (`Some(Some(..))`); the end stops reading without
/// error (`Some(None)`).
pub fn logs_step(logs: &mut String, name: &str, item: LogsItem) -> (r: Option<Option<String>>)
    ensures
        match item {
            LogsItem::Chunk(c) => final(logs)@ == old(logs)@ + c@ && r is None,
            LogsItem::Failure(f) => final(logs)@ == old(logs)@ && match r {
                Some(Some(m)) => m@ == spec_logs_error_message(name@, f),
                _ => false,
            },
            LogsItem::End => final(logs)@ == old(logs)@ && r == Some(None::<String>),
        },
{
    match item {
        LogsItem::Chunk(c) => {
            push_str(logs, c.as_str());
            None
        },
        LogsItem::Failure(f) => Some(Some(logs_error_message(name, &f))),
        LogsItem::End => Some(None),
    }
}

/// The alert is in the `TRIGGERED` state (open and not acknowledged).
pub open spec fn is_triggered(a: Alert) -> bool {
    a.status@ == "TRIGGERED"@
}

/// Number of `TRIGGERED` alerts in `alerts`.
pub open spec fn triggered_count(alerts: Seq<Alert>) -> nat
    decreases alerts.len(),
{
    if alerts.len() == 0 {
        0
    } else {
        triggered_count(alerts.drop_last()) + if is_triggered(alerts.last()) {
            1nat
        } else {
            0nat
        }
    }
}

/// The active alerts panel and the bell's counter.
#[derive(Debug, Clone)]
pub struct AlertsTemplate {
    pub alerts: Vec<Alert>,
    pub unacknowledged_count: usize,
}

impl AlertsTemplate {
    /// The panel for `alerts`; the bell counts the `TRIGGERED` ones (acknowledged
    /// alerts are listed but not counted).
    pub fn from_alerts(alerts: Vec<Alert>) -> (t: Self)
        ensures
            t.alerts@ == alerts@,
            t.unacknowledged_count == triggered_count(alerts@),
    {
        let triggered = String::from_str("TRIGGERED");
        let mut count: usize = 0;
        let mut i: usize = 0;
        while i < alerts.len()
            invariant
                i <= alerts@.len(),
                triggered@ == "TRIGGERED"@,
                count == triggered_count(alerts@.subrange(0, i as int)),
                count <= i,
            decreases alerts@.len() - i,
        {
            assert(alerts@.subrange(0, i + 1).drop_last() =~= alerts@.subrange(0, i as int));
            if alerts[i].status == triggered {
                count = count + 1;
            }
            i = i + 1;
        }
        assert(alerts@.subrange(0, alerts@.len() as int) =~= alerts@);
        AlertsTemplate { alerts, unacknowledged_count: count }
    }
}

proof fn lemma_triggered_count_update(alerts: Seq<Alert>, i: int, b: Alert)
    requires
        0 <= i < alerts.len(),
    ensures
        triggered_count(alerts.update(i, b)) + (if is_triggered(alerts[i]) { 1int } else { 0int })
            == triggered_count(alerts) + (if is_triggered(b) { 1int } else { 0int }),
    decreases alerts.len(),
{
    let u = alerts.update(i, b);
    if i == alerts.len() - 1 {
        assert(u.drop_last() =~= alerts.drop_last());
    } else {
        assert(u.drop_last() =~= alerts.drop_last().update(i, b));
        lemma_triggered_count_update(alerts.drop_last(), i, b);
    }
}

/// Acknowledging (or resolving) a `TRIGGERED` alert lowers the bell's counter by
/// exactly one: the alert leaves the `TRIGGERED` state and nothing else changes.
pub proof fn lemma_acknowledge_decrements_bell(alerts: Seq<Alert>, i: int, acknowledged: Alert)
    requires
        0 <= i < alerts.len(),
        is_triggered(alerts[i]),
        !is_triggered(acknowledged),
    ensures
        triggered_count(alerts.update(i, acknowledged)) + 1 == triggered_count(alerts),
{
    lemma_triggered_count_update(alerts, i, acknowledged);
}

/// The bell never counts more alerts than the panel lists.
pub proof fn lemma_bell_at_most_listed(alerts: Seq<Alert>)
    ensures
        triggered_count(alerts) <= alerts.len(),
    decreases alerts.len(),
{
    if alerts.len() > 0 {
        lemma_bell_at_most_listed(alerts.drop_last());
    }
}

} // verus!
