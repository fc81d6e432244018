//! Networked movement synchronization: wire protocol, per-peer connections,
//! a bounded reconciliation timeline, and the client-side prediction and
//! reconciliation rules that correct locally predicted state against the
//! authoritative server simulation.
//!
//! Kinematic quantities (positions, velocities, angles) are carried as
//! fixed-point integers in thousandths of a unit, so that state comparison,
//! prediction and the wire encoding are exact.

pub mod camera;
pub mod chat;
pub mod codec;
pub mod common;
pub mod lobby;
pub mod net_manage;
pub mod net_message;
pub mod net_plugin;
pub mod net_reconciliation;
pub mod net_system;
pub mod net_tasks;
pub mod player;
pub mod reconcile;
