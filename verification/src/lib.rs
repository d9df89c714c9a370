//! Verified view models of the probing diagnostics web interface.

pub mod text;
pub mod registry;
pub mod context;
pub mod evidence;
pub mod snapshot;
pub mod api;
pub mod model;
pub mod clock;
pub mod cluster;
pub mod laws;
pub mod rl;
pub mod tracing;
pub mod capabilities;
pub mod pages;
pub mod memory;
pub mod health;
pub mod distributed;
pub mod catalog;
pub mod analytics;
pub mod profiles;
pub mod investigate;
pub mod python;
pub mod metrics;
pub mod pulsing;
pub mod inference;
pub mod stacks;
