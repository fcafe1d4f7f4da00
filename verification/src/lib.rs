//! Logic of a headless virtual terminal driver: key names, mouse protocols
//! and targeting, screen text and snapshots, the daemon's answers and the
//! live monitor's frames.

pub mod actions;
pub mod chars;
pub mod cli;
pub mod clock;
pub mod decimal;
pub mod emu;
pub mod keys;
pub mod manager;
pub mod monitor;
pub mod mouse;
pub mod mouse_cmd;
pub mod output;
pub mod paths;
pub mod pattern;
pub mod protocol;
pub mod render;
pub mod report;
pub mod self_update;
pub mod server;
pub mod session;
pub mod spawn;
pub mod version;
pub mod viewer;
pub mod width;
