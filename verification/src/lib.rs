//! The logic of `agent-run`, which runs a command in a sandbox: how its
//! configuration is found, read and merged, which paths and variables the sandbox
//! gets, how it is started, and which system calls it refuses.
pub mod command;
pub mod config;
pub mod document;
pub mod environment;
pub mod launch;
pub mod mount;
pub mod path;
pub mod schema;
pub mod search;
pub mod seccomp;
pub mod text;
pub mod tracing;
