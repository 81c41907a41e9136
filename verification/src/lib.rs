//! Verified core of a game-save cloud synchroniser: sync planning, conflict
//! resolution, credential encoding, path handling and remote-key layout.

pub mod text;
pub mod keymap;
pub mod model;
pub mod error;
pub mod engine;
pub mod digest;
pub mod clock;
pub mod crypto;
pub mod paths;
pub mod userdirs;
pub mod versions;
pub mod scan;
pub mod retry;
pub mod lock;
pub mod stats;
pub mod logs;
pub mod snapshots;
pub mod run;
pub mod config;
pub mod tray;
pub mod procwatch;
pub mod remote;
pub mod auto;
