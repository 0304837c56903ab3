//! Safe, reversible performance boosting: the decisions of a privileged
//! coordinator and of its Linux adapters.
//!
//! Everything here is computation on plain values. Files, clocks, locks and
//! system calls belong to the program around the library.

pub mod backend;
pub mod bytes;
pub mod capability;
pub mod catalog;
pub mod clock;
pub mod cpu;
pub mod cpu_fixture;
pub mod cpu_host;
pub mod cpu_node;
pub mod cpuset;
pub mod discover_cgroup;
pub mod discover_cpu;
pub mod discover_devices;
pub mod discover_system;
pub mod discovery;
pub mod durable;
pub mod error;
pub mod exact;
pub mod exact_cpu;
pub mod exact_groups;
pub mod exact_registry;
pub mod facts;
pub mod filesystem;
pub mod fixture;
pub mod ids;
pub mod journal;
pub mod logging;
pub mod matrix;
pub mod mutation;
pub mod nodes;
pub mod order;
pub mod placement;
pub mod privilege;
pub mod probe;
pub mod process;
pub mod protocol;
pub mod registry;
pub mod reported;
pub mod rooted;
pub mod schedule;
pub mod session;
pub mod state;
pub mod text;
pub mod topology;
pub mod trace;
pub mod transaction;
pub mod value;
pub mod workload;
pub mod workload_fixture;
pub mod workload_host;
pub mod workload_model;
pub mod workload_node;
