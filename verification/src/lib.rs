//! Maps raw input-device events to shell commands, driven by a small
//! rule-matching configuration language.
//!
//! The pipeline: raw fixed-size device records are decoded into events
//! ([`event`]), uninteresting categories are filtered out, configuration
//! text is compiled into an ordered rule table, and a single dispatcher
//! matches each event against the rules in declaration order and picks
//! the first match's command.

pub mod config;
pub mod dispatch;
pub mod event;
pub mod numparse;
pub mod render;
pub mod text;
