//! The logic of a desktop monitor for coding agents that run inside WSL:
//! which light each session shows, when resume keys are sent to a stuck one,
//! what the user is told, and a list of tasks that are launched into tmux.
//!
//! Nothing in this crate starts a process, touches a file or draws a window.
//! The functions say what is to be done, and take what came of it.
use vstd::prelude::*;

pub mod commands;
pub mod detector;
pub mod engine;
pub mod engine_laws;
pub mod model;
pub mod notice;
pub mod order;
pub mod pet;
pub mod poll_laws;
pub mod schedule_laws;
pub mod settings;
pub mod store_laws;
pub mod task_laws;
pub mod tasks;
pub mod text;
pub mod usage;
pub mod view_laws;
pub mod wsl;

pub use detector::{detect, Detector, RawSession, RawStatus, TmuxInfo};
pub use engine::{Engine, EventKind, SessionEvent, SessionState, SessionView};
pub use settings::Settings;

verus! {

} // verus!
