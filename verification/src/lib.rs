//! Routing logic of a desktop microphone mixer: configuration sanitising and
//! migration, application-session discovery, device selection, the frame spill
//! buffer, the route engine's state machine and its pressure trackers.
pub mod duplicate;
pub mod text;
pub mod order;
pub mod audio;
pub mod config;
pub mod commands;
