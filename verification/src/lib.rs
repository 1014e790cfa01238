//! A verified core for a hosted-network (software access point) control tool.
//!
//! The operating system's network utility reports hotspot state as free-form,
//! locale-dependent text. This crate parses that text into a structured
//! settings record, decides what the controller does with it, and tracks a
//! local login session. All I/O (running the utility, persisting settings,
//! raising notifications) is left to the surrounding application.

pub mod controller;
pub mod parser;
pub mod session;
pub mod settings;
pub mod text;
