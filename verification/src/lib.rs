//! A user-space keyboard remapping and scripting engine.
//!
//! The crate covers the portable core of a remapping daemon: the key
//! identity table, the script language (lexical grammar, parser and an
//! interpreter stepped as a state machine), trigger compilation, the
//! hook engine's held-set tracking and trigger matching, and the
//! reloadable runtime state.  Platform bindings (the OS hook, event
//! injection, process spawning, timers and on-disk codecs) live outside
//! the library and talk to it through plain values.

pub mod ast;
pub mod config;
pub mod dashboard;
pub mod engine;
pub mod executor;
pub mod keymap;
pub mod parser;
pub mod runtime;
pub mod simulator;
pub mod trigger;
