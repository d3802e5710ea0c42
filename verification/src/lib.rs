//! Process supervision: configuration, the process state machine, event
//! listeners, log rotation, and the XML-RPC control interface.
pub mod config;
pub mod control;
pub mod ctl;
pub mod daemon;
pub mod events;
pub mod http;
pub mod logger;
pub mod number;
pub mod process;
pub mod rpc;
pub mod states;
pub mod syslog;
pub mod text;
pub mod util;
pub mod web;
pub mod xmlrpc;
