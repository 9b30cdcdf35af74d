//! Data types shared across the pipeline: audio chunks, actor messages, and
//! the line-oriented IPC records exchanged with the recognition subprocess.
//!
//! Audio samples are carried as signed 16-bit PCM values. The capture edge
//! produces floating-point samples in the unit range; it scales them by the
//! 16-bit full scale (32767) before they enter the pipeline, which is also the
//! format the recognition engine consumes.

use vstd::prelude::*;

verus! {

/// One buffer's worth of captured audio, as 16-bit PCM samples.
#[derive(Debug, Clone)]
pub struct AudioChunk(pub Vec<i16>);

impl View for AudioChunk {
    type V = Seq<i16>;

    open spec fn view(&self) -> Seq<i16> {
        self.0@
    }
}

/// Commands for the audio capture stage.
#[derive(Debug)]
pub enum AudioCaptureMsg {
    Start,
    Stop,
}

/// Commands for the audio processing stage.
#[derive(Debug)]
pub enum AudioProcessorMsg {
    ProcessChunk(AudioChunk),
    Shutdown,
}

/// Commands for the keyboard output stage.
#[derive(Debug)]
pub enum KeyboardOutputMsg {
    TypeText(String),
    Enable(bool),
    Shutdown,
}

/// Messages routed by the coordinator.
#[derive(Debug)]
pub enum CoordinatorMsg {
    HandleTest,
    StartListening,
    StopListening,
    AudioChunk(AudioChunk),
    UpdateStatus(String),
    TranscriptionResult(FinalTranscription),
    SilenceDetected(bool),
    ToggleKeyboardOutput(bool),
}

/// Events delivered to the UI collaborator.
#[derive(Debug)]
pub enum AppOutput {
    UpdateStatus(String),
    UpdateTranscription(String),
}

/// A committed (utterance-final) transcription.
#[derive(Debug, Clone)]
pub struct FinalTranscription(pub String);

/// Commands for the transcription stage.
#[derive(Debug)]
pub enum TranscriberMsg {
    ProcessAudioChunk(AudioChunk),
    Shutdown,
}

/// One audio request on the subprocess protocol: a chunk of 16-bit PCM
/// samples together with their sample rate, sent as one JSON line.
#[derive(Debug, Clone)]
pub struct IpcAudioChunk {
    pub samples: Vec<i16>,
    pub sample_rate: u32,
}

/// One recognition response on the subprocess protocol. `confidence` is
/// stored in thousandths of the protocol's 0.0 to 1.0 scale, so 900 stands
/// for nine tenths.
#[derive(Debug, Clone)]
pub struct IpcTranscriptionResult {
    pub text: String,
    pub is_final: bool,
    pub confidence: Option<u16>,
}

impl IpcTranscriptionResult {
    /// A confidence, when present, lies on the protocol's 0.0 to 1.0 scale.
    pub open spec fn wf(&self) -> bool {
        match self.confidence {
            Some(c) => c <= 1000,
            None => true,
        }
    }
}

} // verus!
