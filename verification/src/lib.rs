//! Astra Sentinel: signature and YARA based file triage.
//!
//! The library decides; the program around it reads, runs, downloads and draws. Where such work
//! and decisions take turns, as in a scan, the library is a state machine: from what was seen it
//! gives what is to be done next.

pub mod text;
pub mod hex;
pub mod paths;
pub mod signatures;
pub mod digest;
pub mod yara;
pub mod engine;
pub mod session;
pub mod archive;
pub mod feeds;
pub mod display;
pub mod app;
pub mod report;
pub mod view;
