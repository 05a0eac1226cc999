//! Application proxy control for a Mihomo-based client: rule validation and
//! compilation into helper proxy groups, the managed loopback listeners in
//! Mihomo's runtime configuration, the helper's start, update and stop
//! sequences, readiness, and read-only system telemetry.

pub mod text;
pub mod sorted;
pub mod rules;
pub mod compile;
pub mod listeners;
pub mod helper;
pub mod status;
pub mod controller;
pub mod telemetry;
pub mod process_tree;
pub mod flows;
pub mod launch;
