//! Session-lock engine: decides, for any instant, whether a supervised session
//! is locked, unlocked or unlockable, from daily requirements, locked time
//! ranges and a work/break timer.

pub mod break_timer;
pub mod config;
pub mod constraints;
pub mod manager;
pub mod response;
pub mod simulator;
pub mod state;
pub mod time;
pub mod triggers;
