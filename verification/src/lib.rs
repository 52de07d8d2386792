//! Rules behind a study timer that blocks distracting sites while a session runs.

#![allow(unused_imports)]

pub mod clock;
pub mod clock_laws;
pub mod command;
pub mod config;
pub mod day;
pub mod hosts;
pub mod hosts_laws;
pub mod input;
pub mod iptables;
pub mod iptables_laws;
pub mod paths;
pub mod progress;
pub mod progress_laws;
pub mod screen;
pub mod screen_laws;
pub mod session;
pub mod session_laws;
pub mod text;
pub mod text_laws;
