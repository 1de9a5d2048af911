use rustmon::civil::{days_from_civil, parse_rfc3339_fields, parse_rfc3339_to_unix, Rfc3339Fields};
use rustmon::docker::{
    build_timeline, container_alert_component, container_down_message, container_name,
    container_sample, humanize_ago, repo_basename, split_image, started_ago_label, timeline_bars,
    TimelineBar, TIMELINE_BUCKETS,
};
use rustmon::metrics::{map_health, HealthStatus};
use rustmon::vps::{checked_disk_usage_at, disk_usage_at, DiskInfo};

#[test]
fn split_image_with_tag() {
    assert_eq!(split_image("traefik:v3.7.6"), ("traefik".to_string(), "v3.7.6".to_string()));
}

#[test]
fn split_image_with_registry_path() {
    assert_eq!(
        split_image("docker.io/library/nginx:1.27"),
        ("nginx".to_string(), "1.27".to_string())
    );
}

#[test]
fn split_image_untagged() {
    assert_eq!(split_image("postgres"), ("postgres".to_string(), String::new()));
}

#[test]
fn split_image_digest_is_untagged() {
    assert_eq!(
        split_image("ghcr.io/acme/api@sha256:0123abcd"),
        ("api".to_string(), String::new())
    );
}

#[test]
fn split_image_registry_port_without_tag() {
    // A ':' before the last '/' is a registry port, not a tag.
    assert_eq!(split_image("localhost:5000/myapp"), ("myapp".to_string(), String::new()));
}

#[test]
fn split_image_registry_port_with_tag() {
    assert_eq!(split_image("localhost:5000/myapp:1.2"), ("myapp".to_string(), "1.2".to_string()));
}

#[test]
fn split_image_empty() {
    assert_eq!(split_image(""), (String::new(), String::new()));
}

#[test]
fn repo_basename_cases() {
    assert_eq!(repo_basename("a/b/c"), "c");
    assert_eq!(repo_basename("plain"), "plain");
    assert_eq!(repo_basename("trailing/"), "");
}

#[test]
fn epoch_is_day_zero() {
    assert_eq!(days_from_civil(1970, 1, 1), 0);
}

#[test]
fn days_from_civil_known_dates() {
    assert_eq!(days_from_civil(2000, 3, 1), 11017);
    assert_eq!(days_from_civil(1969, 12, 31), -1);
    assert_eq!(days_from_civil(2024, 2, 29) + 1, days_from_civil(2024, 3, 1));
    assert_eq!(days_from_civil(2023, 2, 28) + 1, days_from_civil(2023, 3, 1));
    assert_eq!(days_from_civil(1900, 2, 28) + 1, days_from_civil(1900, 3, 1));
    assert_eq!(days_from_civil(2023, 12, 31) + 1, days_from_civil(2024, 1, 1));
}

#[test]
fn parse_docker_timestamp() {
    assert_eq!(parse_rfc3339_to_unix("2024-05-01T12:34:56.123456789Z"), Some(1714566896));
    assert_eq!(parse_rfc3339_to_unix("1970-01-01T00:00:00Z"), Some(0));
    assert_eq!(parse_rfc3339_to_unix("0001-01-01T00:00:00Z"), Some(-62135596800));
}

#[test]
fn parse_timestamp_without_fraction_or_zone() {
    assert_eq!(parse_rfc3339_to_unix("2024-05-01T12:34:56"), Some(1714566896));
    assert_eq!(parse_rfc3339_to_unix("2024-05-01T12:34:56ZZZ"), Some(1714566896));
}

#[test]
fn parse_timestamp_rejects_malformed() {
    assert_eq!(parse_rfc3339_to_unix(""), None);
    assert_eq!(parse_rfc3339_to_unix("2024-05-01 12:34:56Z"), None);
    assert_eq!(parse_rfc3339_to_unix("2024-05T12:34:56Z"), None);
    assert_eq!(parse_rfc3339_to_unix("2024-05-01T12:34Z"), None);
    assert_eq!(parse_rfc3339_to_unix("2024-0x-01T12:34:56Z"), None);
    assert_eq!(parse_rfc3339_to_unix("2024-05-01T12:34:+Z"), None);
}

#[test]
fn parse_timestamp_fields_as_written() {
    assert_eq!(
        parse_rfc3339_fields("+2024-05--3T-1:+2:07.5Z"),
        Some(Rfc3339Fields { year: 2024, month: 5, day: -3, hour: -1, minute: 2, second: 7 })
    );
}

#[test]
fn parse_timestamp_overflowing_is_none() {
    assert_eq!(parse_rfc3339_to_unix("9223372036854775807-01-01T00:00:00Z"), None);
    assert_eq!(parse_rfc3339_to_unix("2024-01-01T00:00:99999999999999999999Z"), None);
}

#[test]
fn humanize_units() {
    assert_eq!(humanize_ago(1000, 1000), "0s ago");
    assert_eq!(humanize_ago(1059, 1000), "59s ago");
    assert_eq!(humanize_ago(1060, 1000), "1m ago");
    assert_eq!(humanize_ago(1000 + 3599, 1000), "59m ago");
    assert_eq!(humanize_ago(1000 + 3600 * 9, 1000), "9h ago");
    assert_eq!(humanize_ago(1000 + 86400 * 3 + 5, 1000), "3d ago");
}

#[test]
fn humanize_future_is_zero() {
    assert_eq!(humanize_ago(1000, 5000), "0s ago");
}

#[test]
fn started_ago_labels() {
    let now = 1714566896 + 7200;
    assert_eq!(started_ago_label(now, Some("2024-05-01T12:34:56.123456789Z")), "2h ago");
    assert_eq!(started_ago_label(now, Some("")), "—");
    assert_eq!(started_ago_label(now, Some("0001-01-01T00:00:00Z")), "—");
    assert_eq!(started_ago_label(now, None), "—");
}

#[test]
fn timeline_has_fixed_length_and_live_last_bucket() {
    let now = 1_000_000;
    let running = build_timeline(&vec![], now, 0, true);
    assert_eq!(running.len(), TIMELINE_BUCKETS);
    assert_eq!(running[47], "bar-up bar-live");
    assert!(running[..47].iter().all(|c| *c == "bar-down"));
    let stopped = build_timeline(&vec![], now, 0, false);
    assert_eq!(stopped[47], "bar-down bar-live");
}

#[test]
fn timeline_buckets_before_creation_and_with_samples() {
    let now = 1_000_000;
    let window_start = now - 86400;
    // Created in the middle of bucket 10; one sample in bucket 20.
    let created_at = window_start + 10 * 1800 + 900;
    let samples = vec![window_start + 20 * 1800 + 5];
    let bars = timeline_bars(&samples, now, created_at, true);
    for i in 0..10 {
        assert_eq!(bars[i], TimelineBar::NotCreated);
    }
    assert_eq!(bars[10], TimelineBar::Down);
    assert_eq!(bars[20], TimelineBar::Up);
    assert_eq!(bars[21], TimelineBar::Down);
    assert_eq!(bars[47], TimelineBar::LiveUp);
    let classes = build_timeline(&samples, now, created_at, true);
    assert_eq!(classes[0], "bar-na");
    assert_eq!(classes[20], "bar-up");
}

#[test]
fn container_names() {
    assert_eq!(container_name("abc123", Some(vec!["/web".to_string(), "/alias".to_string()])), "web");
    assert_eq!(container_name("abc123", Some(vec![])), "abc123");
    assert_eq!(container_name("abc123", None), "abc123");
    assert_eq!(container_name("x", Some(vec!["//deep".to_string()])), "deep");
}

#[test]
fn container_alert_texts() {
    assert_eq!(container_alert_component("nginx"), "docker_container_nginx");
    assert_eq!(container_down_message("nginx"), "Container nginx is down");
}

#[test]
fn health_mapping() {
    assert_eq!(map_health(Some("healthy")), HealthStatus::Healthy);
    assert_eq!(map_health(Some("unhealthy")), HealthStatus::Unhealthy);
    assert_eq!(map_health(Some("starting")), HealthStatus::Unknown);
    assert_eq!(map_health(Some("none")), HealthStatus::Unknown);
    assert_eq!(map_health(None), HealthStatus::Unknown);
}

#[test]
fn health_badges() {
    assert_eq!(HealthStatus::Healthy.pill_class(), "pill-ok");
    assert_eq!(HealthStatus::Unhealthy.pill_class(), "pill-warn");
    assert_eq!(HealthStatus::Unknown.pill_class(), "pill-neutral");
    assert_eq!(HealthStatus::Healthy.label(), "HEALTHY");
    assert_eq!(HealthStatus::Unhealthy.label(), "UNHEALTHY");
    assert_eq!(HealthStatus::Unknown.label(), "UNKNOWN");
}

#[test]
fn container_sample_assembles_fields() {
    let now = 1714566896 + 60;
    let s = container_sample(
        "web".to_string(),
        "nginx:1.27",
        true,
        HealthStatus::Healthy,
        now,
        now - 3 * 86400,
        Some("2024-05-01T12:34:56Z"),
        &vec![],
    );
    assert_eq!(s.container_name, "web");
    assert_eq!(s.image_repo, "nginx");
    assert_eq!(s.version, "1.27");
    assert_eq!(s.created_ago, "3d ago");
    assert_eq!(s.started_ago, "1m ago");
    assert_eq!(s.timeline.len(), 48);
}

fn disk(mount: &str, total: u64, available: u64) -> DiskInfo {
    DiskInfo { mount_point: mount.to_string(), total_space: total, available_space: available }
}

#[test]
fn disk_longest_matching_mount_wins() {
    let disks = vec![disk("/", 100, 40), disk("/host", 1000, 100), disk("/hostdata", 5, 1)];
    assert_eq!(disk_usage_at(&disks, "/host"), (900, 1000));
    assert_eq!(disk_usage_at(&disks, "/host/var/lib"), (900, 1000));
    assert_eq!(disk_usage_at(&disks, "/srv"), (60, 100));
}

#[test]
fn disk_prefix_is_by_component() {
    // "/hostdata" does not start with the component "/host".
    let disks = vec![disk("/host", 1000, 100), disk("/", 100, 40)];
    assert_eq!(disk_usage_at(&disks, "/hostdata"), (60, 100));
}

#[test]
fn disk_ties_pick_last() {
    let disks = vec![disk("/", 100, 40), disk("/", 200, 50)];
    assert_eq!(disk_usage_at(&disks, "/"), (150, 200));
}

#[test]
fn disk_fallback_sums_all() {
    let disks = vec![disk("/a", 100, 40), disk("/b", 200, 50)];
    assert_eq!(disk_usage_at(&disks, "relative"), (210, 300));
    assert_eq!(disk_usage_at(&vec![], "/"), (0, 0));
}

#[test]
fn disk_checked_refuses_overflow() {
    let disks = vec![disk("/", 100, 400)];
    assert_eq!(checked_disk_usage_at(&disks, "/"), None);
    let big = vec![disk("/a", u64::MAX, 0), disk("/b", 1, 0)];
    assert_eq!(checked_disk_usage_at(&big, "x"), None);
    assert_eq!(checked_disk_usage_at(&vec![disk("/", 10, 4)], "/"), Some((6, 10)));
}

#[test]
fn disk_exact_mount_preferred_over_root() {
    let disks = vec![disk("/", 100, 40), disk("/host", 50, 10)];
    assert_eq!(disk_usage_at(&disks, "/host"), (40, 50));
}
