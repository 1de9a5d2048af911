//! Decision and formatting logic of a single-binary VPS and Docker monitoring agent:
//! alert de-duplication, container metadata parsing, uptime timelines, disk
//! selection and the text that the dashboard and the notifications show.

pub mod alerts;
pub mod civil;
pub mod config;
pub mod docker;
pub mod metrics;
pub mod notify;
pub mod templates;
pub mod text;
pub mod vps;
pub mod web;
