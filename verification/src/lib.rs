//! Quasar's core logic, verified: input validation, error sanitising, local-path grants,
//! native-confirmation decisions, the network scanner's bookkeeping, scheduled-task rules,
//! the alert engine, workflow graphs, Tailscale status normalisation and SSH session rules.

pub mod text;
pub mod validation;
pub mod errors;
pub mod local_paths;
pub mod native_confirm;
pub mod fmt;
pub mod scanner;
pub mod scheduler;
pub mod strmap;
pub mod alerts;
pub mod automation;
pub mod graph;
pub mod tailscale;
pub mod ssh_exec;
pub mod crypto;
pub mod ssh_pool;
pub mod ssh;
pub mod ssh_tunnel;
pub mod saved_hosts;
pub mod db;
pub mod discovery;
pub mod launcher;
pub mod host_tracker;
pub mod engine;
pub mod workflow_store;
pub mod expression;
pub mod monitoring;
pub mod sftp;
pub mod ai;
pub mod ssh_auth;
pub mod health;
mod sys;
