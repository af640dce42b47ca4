//! Boop detaches a program from its terminal so that one or more terminals can
//! attach to it later. This crate holds what Boop decides and computes.

pub mod cli;
pub mod cli_laws;
pub mod client;
pub mod client_laws;
pub mod launch;
pub mod launch_laws;
pub mod mode_laws;
pub mod modes;
pub mod protocol;
pub mod protocol_laws;
pub mod relay;
pub mod relay_laws;
pub mod server;
pub mod server_laws;
pub mod session_laws;
pub mod sessions;
pub mod sys;
pub mod sys_laws;
pub mod text;
pub mod text_laws;
pub mod view_laws;
