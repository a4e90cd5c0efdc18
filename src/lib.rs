//! Alliance monitoring: membership deltas between roster snapshots, occupancy
//! classification with edge-triggered notices, and the read-through caches
//! and configuration that feed them.

pub mod esi;
pub mod corporations_service;
pub mod adm_configuration;
pub mod adm_service;
pub mod adm_notification_service;
pub mod information_service;
pub mod schedule;
pub mod bot;
