//! The proxy fabric's control-plane and data-plane logic: the worker config model,
//! canvas topology rules, per-server config derivation, seamless convergence and the
//! small decision procedures around them.

pub mod net;
pub mod text;
pub mod worker_config;
pub mod model;
pub mod sorting;
pub mod seqs;
pub mod index;
pub mod topology;
pub mod checks;
pub mod cycles;
pub mod analysis;
pub mod derive;
pub mod display;
pub mod converge;
pub mod node_edits;
pub mod token;
pub mod worker;
pub mod agent;
pub mod services;
pub mod rcu;
pub mod password;
pub mod rollout;
pub mod wire;
