//! A single supervised process and its state machine.
//!
//! * Spawning puts the process into `STARTING`.
//! * After it stays up for `startsecs` it becomes `RUNNING`.
//! * If it dies before `startsecs`, it goes to `BACKOFF` and is retried, with
//!   an increasing delay, up to `startretries` times before `FATAL`.
//! * If it dies after running, it becomes `EXITED` and may be restarted
//!   depending on `autorestart`.
//! * Stopping sends `stopsignal`, then escalates to `SIGKILL` after
//!   `stopwaitsecs`.
//!
//! A [`Process`] decides what to do and when. Whoever owns the children
//! performs the [`Action`]s it asks for, and reports back: that a child was
//! launched or could not be, that it was reaped, what it wrote.
//!
//! Points in time are nanoseconds on a clock that never goes back; wall-clock
//! times are seconds since the epoch.
pub mod command;
pub mod info;
pub mod laws;
pub mod listener;
pub mod machine;

pub use crate::process::command::shell_split;
pub use crate::process::info::decode_status;
pub use crate::process::info::fmt_duration;
pub use crate::process::info::fmt_stop_time;
pub use crate::process::info::LocalTime;
pub use crate::process::info::ProcessInfo;
pub use crate::process::listener::Listener;
pub use crate::process::listener::ListenerState;
pub use crate::process::machine::Action;
pub use crate::process::machine::LaunchFailure;
pub use crate::process::machine::Process;
