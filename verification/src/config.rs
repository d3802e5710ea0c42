//! The configuration file (a useful subset of `supervisord.conf`).
//!
//! ```ini
//! [unix_http_server]
//! file=/tmp/supervisor.sock
//!
//! [supervisord]
//! logfile=/tmp/supervisord.log
//!
//! [program:web]
//! command=/usr/bin/python -m http.server 8000
//! autostart=true
//! autorestart=unexpected
//! ```
//!
//! Comments start with `;` or `#`. Inline comments must be preceded by
//! white space (`key=value   ; comment`).
pub mod assemble;
pub mod difference;
pub mod glob;
pub mod ini;
pub mod laws;
pub mod program;
pub mod reading;
pub mod settings;
pub mod values;

pub use crate::config::assemble::Config;
pub use crate::config::glob::glob_match;
pub use crate::config::ini::parse_ini;
pub use crate::config::ini::strip_inline_comment;
pub use crate::config::ini::Section;
pub use crate::config::settings::HttpAuth;
pub use crate::config::settings::LogTarget;
pub use crate::config::settings::ProgramConfig;
pub use crate::config::settings::SupervisordConfig;
pub use crate::config::values::expand_process_name;
pub use crate::config::values::normalize_inet_addr;
pub use crate::config::values::parse_bool;
pub use crate::config::values::parse_byte_size;
pub use crate::config::values::parse_environment;
pub use crate::config::values::parse_signal;
pub use crate::config::values::AutoRestart;
