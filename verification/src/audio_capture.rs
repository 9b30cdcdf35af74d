//! Audio capture control: the Started/Stopped state machine around the
//! hardware stream.
//!
//! The stream itself is a hardware collaborator's concern; this stage decides
//! idempotently when a stream is to be opened or dropped, and what status to
//! report. `Start` on a started stage and `Stop` on a stopped one are no-ops.

use vstd::prelude::*;

verus! {

/// Errors from acquiring or running the capture stream.
#[derive(Debug)]
pub enum AudioCaptureError {
    /// No input device, or its configuration could not be read.
    InitError(String),
    /// The stream could not be built or started.
    StreamError(String),
}

/// Whether a capture stream is live.
#[derive(Clone, Copy, Debug, PartialEq, Eq, Structural)]
pub enum AudioState {
    Started,
    Stopped,
}

/// Marker for the capture stage; its state lives in [`AudioCaptureState`].
#[derive(Debug)]
pub struct AudioCaptureActor {}

/// The capture stage's state.
#[derive(Clone, Copy, Debug, PartialEq, Eq, Structural)]
pub struct AudioCaptureState {
    pub audio_state: AudioState,
}

impl AudioCaptureState {
    /// A fresh capture stage: stopped.
    pub fn new() -> (s: AudioCaptureState)
        ensures
            s.audio_state == AudioState::Stopped,
    {
        AudioCaptureState { audio_state: AudioState::Stopped }
    }

    /// On `Start`: should a stream be opened? `true` exactly when the stage
    /// is stopped; a second `Start` is a no-op.
    pub fn start_decision(&self) -> (attempt: bool)
        ensures
            attempt == (self.audio_state == AudioState::Stopped),
    {
        match self.audio_state {
            AudioState::Stopped => true,
            AudioState::Started => false,
        }
    }

    /// Record the outcome of an attempted stream open. On success the stage
    /// is started and reports so; on failure it stays stopped (the caller
    /// reports the collaborator's error).
    pub fn on_start_result(&mut self, opened: bool) -> (status: Option<String>)
        requires
            old(self).audio_state == AudioState::Stopped,
        ensures
            opened ==> final(self).audio_state == AudioState::Started && (
            status matches Some(s) ==> s@ == "Audio capture started"@) && status is Some,
            !opened ==> final(self).audio_state == AudioState::Stopped && status is None,
    {
        if opened {
            self.audio_state = AudioState::Started;
            Some(String::from_str("Audio capture started"))
        } else {
            None
        }
    }

    /// On `Stop`: drop the stream if one is live and report; a second `Stop`
    /// is a no-op. Returns the status to report, `Some` exactly when a
    /// stream was dropped.
    pub fn on_stop(&mut self) -> (status: Option<String>)
        ensures
            final(self).audio_state == AudioState::Stopped,
            old(self).audio_state == AudioState::Started ==> (status matches Some(s) && s@
                == "Audio capture stopped"@),
            old(self).audio_state == AudioState::Stopped ==> status is None,
    {
        match self.audio_state {
            AudioState::Started => {
                self.audio_state = AudioState::Stopped;
                Some(String::from_str("Audio capture stopped"))
            },
            AudioState::Stopped => None,
        }
    }

    /// A fatal stream error mid-capture stops the stage.
    pub fn on_stream_error(&mut self)
        ensures
            final(self).audio_state == AudioState::Stopped,
    {
        self.audio_state = AudioState::Stopped;
    }
}

} // verus!
