//! Cloud save synchronisation for games launched through Steam or a Wine runner.
//!
//! The library holds the logic: template paths and their resolution, launch
//! predicates, platform and manifest resolution, the sync metadata and its
//! version policy, the sync manager's decisions and the launch state machine.
//! The program around it performs the I/O.
pub mod text;
pub mod paths;
pub mod config;
pub mod manifest;
pub mod version;
pub mod backends;
pub mod args;
pub mod platform;
pub mod sync;
pub mod ui;
pub mod launch;
