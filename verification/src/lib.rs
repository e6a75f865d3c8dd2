//! Keyboard-driven work-session tracker: session and tag domain model, the
//! command state machine that drives every interaction mode, and the line
//! format of the two flat-file logs the tracker persists itself to.

pub mod text;
pub mod timestamp;
pub mod app_state;
pub mod session;
pub mod database_handler;
pub mod io;
pub mod control_keys;
pub mod app_manager;
pub mod command_machine;
