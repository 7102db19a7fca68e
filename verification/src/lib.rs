//! Verified core of `da`, a one-command frontend deploy tool: remote-path
//! safety, the deploy pipeline's decisions, backup selection, upload planning
//! and the text handling they rest on.

pub mod text;
pub mod remote;
pub mod hostkey;
pub mod size;
pub mod daignore;
pub mod order;
pub mod paths;
pub mod backup;
pub mod deploy;
pub mod pipeline;
pub mod config;
pub mod init;
pub mod upgrade;
pub mod cli;
