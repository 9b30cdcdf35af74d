//! Core of a real-time speech-to-dictation pipeline.
//!
//! Audio chunks flow from a capture edge through processing (denoise and
//! voice-activity segmentation with hysteresis) to a recognition subprocess
//! speaking a line-oriented JSON protocol; recognized text is matched against
//! configured command triggers and dispatched either as simulated keystrokes
//! or as an external program launch.

use vstd::prelude::*;

verus! {

/// Reports that the core library is ready; the caller logs or displays it.
pub fn core_hello() -> (r: &'static str)
    ensures
        r@ == "Core library initialized"@,
{
    "Core library initialized"
}

} // verus!

pub mod audio_capture;
pub mod audio_processor;
pub mod command;
pub mod config;
pub mod coordinator;
pub mod ipc;
pub mod keyboard_output;
pub mod segmentation;
pub mod transcriber;
pub mod types;
