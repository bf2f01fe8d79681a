//! The state core of a session switcher: a debounced local view of live and
//! resurrectable sessions, optimistic kill and rename, most-recently-used
//! ranking and collision-free names for new sessions.

pub mod config;
pub mod laws;
pub mod manager;
pub mod renderer;
pub mod table;
pub mod text;
pub mod types;
