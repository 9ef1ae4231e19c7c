//! Fixed execution order (FEO) framework: scheduling, signalling and
//! communication logic with machine-checked contracts.

pub mod text;
pub mod ids;
pub mod signals;
pub mod scheduler;
pub mod activity;
pub mod worker;
pub mod connection;
pub mod shm;
pub mod registry;
pub mod idmap;
pub mod relays;
pub mod connectors;
pub mod tracer;
pub mod perfetto;
pub mod recorder;
pub mod topicspec;
pub mod os_signals;
pub mod cpp_build;
pub mod meter;
pub mod agent;
pub mod time;
