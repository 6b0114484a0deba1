//! Supervision logic for the background services of a desktop shell.
//!
//! The crate holds the decisions: how a health response is classified, how a
//! child's environment is assembled, which process handles are owned by whom,
//! and in which order services are started, rolled back and stopped.  The
//! surrounding program performs the I/O and feeds the results back in.

pub mod descriptor;
pub mod events;
pub mod git;
pub mod health;
pub mod local_config;
pub mod plan;
pub mod registry;
pub mod runtime_process;
pub mod secrets;
pub mod shutdown;
pub mod startup;
pub mod text;
pub mod token;
