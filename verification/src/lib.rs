//! Verified core of a server-monitoring service: configuration loading rules,
//! authentication, and the parsers for the kernel and tool outputs that the
//! monitoring client samples.

pub mod text;
pub mod config;
pub mod ping;
pub mod disk;
pub mod meminfo;
pub mod netdev;
pub mod status;
