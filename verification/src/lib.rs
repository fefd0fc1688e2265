//! Unattended offloading of media files from a transiently mounted device:
//! locating the device in an enumeration report, planning a transfer pass
//! against a ledger of everything ever transferred, and the polling state
//! machine that drives both.

pub mod engine;
pub mod ledger;
pub mod locator;
pub mod orchestrator;
pub mod text;
