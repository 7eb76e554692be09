//! Carrying a plan out.

pub mod classify;
pub mod collisions;
pub mod commit_record;
pub mod effects;
pub mod executors;
pub mod hooks;
pub mod managed;
pub mod plan;
pub mod planning;
pub mod registry;
pub mod resolve;
pub mod resolved_plan;
pub mod retry;
pub mod run;
pub mod run_laws;
pub mod walk;
