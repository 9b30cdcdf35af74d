//! The coordinator: routing between the pipeline stages, the UI collaborator
//! and command dispatch.
//!
//! Control flows downward (start/stop to capture, shutdown to each stage);
//! data and events flow upward (chunks to the processor, statuses and
//! transcriptions to the UI). A final transcription goes to the command
//! dispatcher; when no trigger matches it is typed literally — but only if
//! keyboard output is enabled, otherwise a disabled status is reported
//! instead.

use crate::command::{process_command, CommandDecision, CommandError, CommandOutcome, spec_dispatch};
use crate::config::Settings;
use crate::types::{
    AppOutput, AudioCaptureMsg, AudioProcessorMsg, CoordinatorMsg, KeyboardOutputMsg,
    TranscriberMsg,
};
use vstd::prelude::*;

verus! {

/// Marker for the coordinator; its state lives in [`CoordinatorState`].
#[derive(Debug)]
pub struct Coordinator {}

/// What the coordinator asks its caller to carry out, in order.
#[derive(Debug)]
pub enum CoordinatorEffect {
    /// Deliver an event to the UI collaborator.
    Ui(AppOutput),
    /// Send a command to the capture stage.
    Capture(AudioCaptureMsg),
    /// Send a message to the processing stage.
    Processor(AudioProcessorMsg),
    /// Send a message to the transcription stage.
    Transcriber(TranscriberMsg),
    /// Send a message to the keyboard stage.
    Keyboard(KeyboardOutputMsg),
    /// Launch a program, fire-and-forget.
    Spawn { program: String, args: Vec<String> },
}

/// The coordinator's state: the settings snapshot it owns for the session.
pub struct CoordinatorState {
    pub config: Settings,
}

impl CoordinatorState {
    /// A fresh coordinator, and the initial status for the UI.
    pub fn new(config: Settings) -> (r: (CoordinatorState, String))
        ensures
            r.0.config == config,
            r.1@ == "Initialized"@,
    {
        (CoordinatorState { config }, String::from_str("Initialized"))
    }

    /// Route one message into the effects the caller carries out, in order.
    pub fn handle(&self, msg: CoordinatorMsg) -> (r: Vec<CoordinatorEffect>)
        ensures
            msg is HandleTest ==> r@.len() == 1 && (r@[0] matches CoordinatorEffect::Ui(
                AppOutput::UpdateStatus(s),
            ) && s@ == "Test received"@),
            msg is StartListening ==> r@.len() == 2 && (r@[0] matches CoordinatorEffect::Capture(
                AudioCaptureMsg::Start,
            )) && (r@[1] matches CoordinatorEffect::Ui(AppOutput::UpdateStatus(s)) && s@
                == "Starting audio capture..."@),
            msg is StopListening ==> r@.len() == 2 && (r@[0] matches CoordinatorEffect::Capture(
                AudioCaptureMsg::Stop,
            )) && (r@[1] matches CoordinatorEffect::Ui(AppOutput::UpdateStatus(s)) && s@
                == "Stopping audio capture..."@),
            msg matches CoordinatorMsg::AudioChunk(c) ==> r@.len() == 1 && (
            r@[0] matches CoordinatorEffect::Processor(AudioProcessorMsg::ProcessChunk(c2)) && c2@
                == c@),
            msg matches CoordinatorMsg::UpdateStatus(st) ==> r@.len() == 1 && (
            r@[0] matches CoordinatorEffect::Ui(AppOutput::UpdateStatus(s)) && s@ == st@),
            msg matches CoordinatorMsg::SilenceDetected(silent) ==> r@.len() == 1 && (
            r@[0] matches CoordinatorEffect::Ui(AppOutput::UpdateStatus(s)) && s@ == (if silent {
                "Silence detected"@
            } else {
                "Voice detected"@
            })),
            msg matches CoordinatorMsg::ToggleKeyboardOutput(b) ==> r@.len() == 1 && (
            r@[0] matches CoordinatorEffect::Keyboard(KeyboardOutputMsg::Enable(b2)) && b2 == b),
            msg matches CoordinatorMsg::TranscriptionResult(t) ==> {
                &&& r@.len() == 2
                &&& (r@[0] matches CoordinatorEffect::Ui(AppOutput::UpdateTranscription(x)) && x@
                    == t.0@)
                &&& match spec_dispatch(self.config.commands@, t.0@, 0) {
                    CommandDecision::Typed(text) => r@[1] matches CoordinatorEffect::Keyboard(
                        KeyboardOutputMsg::TypeText(x),
                    ) && x@ == text,
                    CommandDecision::Launch(p, a) => r@[1] matches CoordinatorEffect::Spawn {
                        program,
                        args,
                    } && program@ == p && crate::command::views_of(args@) == a,
                    CommandDecision::NoMatch => if self.config.enable_keyboard_output {
                        r@[1] matches CoordinatorEffect::Keyboard(KeyboardOutputMsg::TypeText(x))
                            && x@ == t.0@
                    } else {
                        r@[1] matches CoordinatorEffect::Ui(AppOutput::UpdateStatus(s)) && s@
                            == "Keyboard output is disabled (enable in settings)"@
                    },
                    CommandDecision::EmptyCommand => r@[1] matches CoordinatorEffect::Ui(
                        AppOutput::UpdateStatus(s),
                    ) && s@ == "Error executing command: Empty command"@,
                }
            },
            // no command matched and keyboard output is off: nothing reaches
            // the keyboard stage
            (msg matches CoordinatorMsg::TranscriptionResult(t) && spec_dispatch(
                self.config.commands@,
                t.0@,
                0,
            ) is NoMatch && !self.config.enable_keyboard_output) ==> forall|i: int|
                0 <= i < r@.len() ==> !(#[trigger] r@[i] is Keyboard),
    {
        let mut r: Vec<CoordinatorEffect> = Vec::new();
        match msg {
            CoordinatorMsg::HandleTest => {
                r.push(
                    CoordinatorEffect::Ui(AppOutput::UpdateStatus(String::from_str("Test received"))),
                );
            },
            CoordinatorMsg::StartListening => {
                r.push(CoordinatorEffect::Capture(AudioCaptureMsg::Start));
                r.push(
                    CoordinatorEffect::Ui(
                        AppOutput::UpdateStatus(String::from_str("Starting audio capture...")),
                    ),
                );
            },
            CoordinatorMsg::StopListening => {
                r.push(CoordinatorEffect::Capture(AudioCaptureMsg::Stop));
                r.push(
                    CoordinatorEffect::Ui(
                        AppOutput::UpdateStatus(String::from_str("Stopping audio capture...")),
                    ),
                );
            },
            CoordinatorMsg::AudioChunk(chunk) => {
                r.push(CoordinatorEffect::Processor(AudioProcessorMsg::ProcessChunk(chunk)));
            },
            CoordinatorMsg::UpdateStatus(status) => {
                r.push(CoordinatorEffect::Ui(AppOutput::UpdateStatus(status)));
            },
            CoordinatorMsg::SilenceDetected(silent) => {
                let s = if silent {
                    String::from_str("Silence detected")
                } else {
                    String::from_str("Voice detected")
                };
                r.push(CoordinatorEffect::Ui(AppOutput::UpdateStatus(s)));
            },
            CoordinatorMsg::ToggleKeyboardOutput(b) => {
                r.push(CoordinatorEffect::Keyboard(KeyboardOutputMsg::Enable(b)));
            },
            CoordinatorMsg::TranscriptionResult(t) => {
                let text = t.0;
                r.push(
                    CoordinatorEffect::Ui(AppOutput::UpdateTranscription(text.clone())),
                );
                match process_command(text.as_str(), &self.config.commands) {
                    Ok(Some(CommandOutcome::Typed(out))) => {
                        r.push(CoordinatorEffect::Keyboard(KeyboardOutputMsg::TypeText(out)));
                    },
                    Ok(Some(CommandOutcome::Launch { program, args })) => {
                        r.push(CoordinatorEffect::Spawn { program, args });
                    },
                    Ok(None) => {
                        if self.config.enable_keyboard_output {
                            r.push(CoordinatorEffect::Keyboard(KeyboardOutputMsg::TypeText(text)));
                        } else {
                            r.push(
                                CoordinatorEffect::Ui(
                                    AppOutput::UpdateStatus(
                                        String::from_str(
                                            "Keyboard output is disabled (enable in settings)",
                                        ),
                                    ),
                                ),
                            );
                        }
                    },
                    Err(_) => {
                        r.push(
                            CoordinatorEffect::Ui(
                                AppOutput::UpdateStatus(
                                    String::from_str("Error executing command: Empty command"),
                                ),
                            ),
                        );
                    },
                }
            },
        }
        r
    }

    /// The shutdown sequence: stop the processor, the transcriber and the
    /// keyboard stage, in that order, without waiting for any of them.
    pub fn shutdown_effects(&self) -> (r: Vec<CoordinatorEffect>)
        ensures
            r@.len() == 3,
            r@[0] matches CoordinatorEffect::Processor(AudioProcessorMsg::Shutdown),
            r@[1] matches CoordinatorEffect::Transcriber(TranscriberMsg::Shutdown),
            r@[2] matches CoordinatorEffect::Keyboard(KeyboardOutputMsg::Shutdown),
    {
        let mut r: Vec<CoordinatorEffect> = Vec::new();
        r.push(CoordinatorEffect::Processor(AudioProcessorMsg::Shutdown));
        r.push(CoordinatorEffect::Transcriber(TranscriberMsg::Shutdown));
        r.push(CoordinatorEffect::Keyboard(KeyboardOutputMsg::Shutdown));
        r
    }
}

} // verus!
