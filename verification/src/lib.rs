//! Core of a service-monitoring agent: probe scheduling, pulse delivery and
//! retry queueing, heartbeat templating, and the control-channel protocol.
//!
//! The agent periodically probes a configurable set of remote services
//! ("monitors") and reports each successful probe as a "pulse", either to a
//! per-monitor heartbeat URL or to a central server over a duplex channel
//! with an HTTP fallback. This crate holds the logic of that core: the
//! network edges live with the binary that embeds it.

pub mod clock;
pub mod config;
pub mod heartbeat;
pub mod json;
pub mod metrics;
pub mod numfmt;
pub mod queue;
pub mod scheduler;
pub mod snmp;
pub mod strings;
pub mod template;
pub mod wire;
pub mod wsurl;
