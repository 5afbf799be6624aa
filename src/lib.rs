//! Ingest and distribution engine for live racing telemetry: UDP packet
//! decoding and rate limiting, a latest-state cache with snapshots, batching,
//! bounded fan-out to subscribers, service lifecycle, port and id allocation.

pub mod batching;
pub mod broadcast;
pub mod cache;
pub mod codec;
pub mod dtos;
pub mod error;
pub mod firewall;
pub mod ids;
pub mod message;
pub mod ports;
pub mod registry;
pub mod service;
pub mod support;
