//! NvLink partition management: the partition reconciliation engine that keeps
//! NMX-C partitions in line with tenant instance configuration, together with
//! the configuration, client-pool and maintenance-request rules around it.

pub mod bodies;
pub mod browse;
pub mod components;
pub mod config;
pub mod context;
pub mod endpoints;
pub mod execution;
pub mod iteration;
pub mod keyed;
pub mod maintenance;
pub mod model;
pub mod monitor;
pub mod nmxc;
pub mod operation;
pub mod seqs;
pub mod sim;
pub mod text;
pub mod time;
