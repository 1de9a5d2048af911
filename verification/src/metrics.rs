//! The samples that the collectors hand to the dashboard.

use vstd::prelude::*;

verus! {

/// Container healthcheck status, derived from Docker's `Health.Status`.
/// `Unknown` covers containers with no `HEALTHCHECK` defined, in a
/// `starting` state, or reported by a daemon too old to expose health.
#[derive(Debug, Clone, Copy, PartialEq, Eq)]
pub enum HealthStatus {
    Healthy,
    Unhealthy,
    Unknown,
}

/// The badge state for Docker's health status text (`healthy`, `unhealthy`,
/// `starting`, `none`, or empty); `None` when the daemon reports no health.
pub open spec fn spec_map_health(status: Option<Seq<char>>) -> HealthStatus {
    match status {
        Some(s) => if s == "healthy"@ {
            HealthStatus::Healthy
        } else if s == "unhealthy"@ {
            HealthStatus::Unhealthy
        } else {
            HealthStatus::Unknown
        },
        None => HealthStatus::Unknown,
    }
}

/// `s@ == t@` for two strings.
fn str_eq(s: &str, t: &str) -> (r: bool)
    ensures
        r == (s@ == t@),
{
    let a = String::from_str(s);
    let b = String::from_str(t);
    a == b
}

/// Maps Docker's health status text to the badge state.
pub fn map_health(status: Option<&str>) -> (h: HealthStatus)
    ensures
        h == spec_map_health(match status {
            Some(s) => Some(s@),
            None => None,
        }),
{
    match status {
        Some(s) => if str_eq(s, "healthy") {
            HealthStatus::Healthy
        } else if str_eq(s, "unhealthy") {
            HealthStatus::Unhealthy
        } else {
            HealthStatus::Unknown
        },
        None => HealthStatus::Unknown,
    }
}

impl HealthStatus {
    /// CSS class of the badge.
    pub open spec fn spec_pill_class(self) -> &'static str {
        match self {
            HealthStatus::Healthy => "pill-ok",
            HealthStatus::Unhealthy => "pill-warn",
            HealthStatus::Unknown => "pill-neutral",
        }
    }

    /// Text of the badge.
    pub open spec fn spec_label(self) -> &'static str {
        match self {
            HealthStatus::Healthy => "HEALTHY",
            HealthStatus::Unhealthy => "UNHEALTHY",
            HealthStatus::Unknown => "UNKNOWN",
        }
    }

    /// CSS class of the badge.
    pub fn pill_class(&self) -> (r: &'static str)
        ensures
            r == self.spec_pill_class(),
    {
        match self {
            Self::Healthy => "pill-ok",
            Self::Unhealthy => "pill-warn",
            Self::Unknown => "pill-neutral",
        }
    }

    /// Text of the badge.
    pub fn label(&self) -> (r: &'static str)
        ensures
            r == self.spec_label(),
    {
        match self {
            Self::Healthy => "HEALTHY",
            Self::Unhealthy => "UNHEALTHY",
            Self::Unknown => "UNKNOWN",
        }
    }
}

/// Snapshot of a single container's resource usage, sampled by the Docker collector.
#[derive(Debug, Clone)]
pub struct DockerSample {
    pub container_name: String,
    /// Image repository, without tag (e.g. `traefik`).
    pub image_repo: String,
    /// Image tag/version (e.g. `v3.7.6`), empty if untagged.
    pub version: String,
    pub is_running: bool,
    pub health: HealthStatus,
    /// Human relative time since the container was created (e.g. `9h ago`).
    pub created_ago: String,
    /// Human relative time since the container was last started (e.g. `9h ago`),
    /// distinct from `created_ago` when the container has been restarted.
    /// `—` if the daemon never reported a start time.
    pub started_ago: String,
    /// Fixed-length uptime timeline over the last 24h, oldest first. Each
    /// entry is a CSS class: `bar-na` (container didn't exist yet),
    /// `bar-up` (sampled = alive that bucket), `bar-down` (no sample =
    /// presumed down), with the last bucket suffixed `bar-live` to reflect
    /// current status regardless of sampling history.
    pub timeline: Vec<&'static str>,
}

} // verus!
