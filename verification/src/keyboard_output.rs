//! Keyboard output gating: the one stage that may inject keystrokes.
//!
//! Safety invariant: output starts disabled and only an explicit
//! `Enable(true)` turns it on; no injection is ever requested while the flag
//! is off. The actual keystroke injection is an OS collaborator's concern;
//! this stage decides whether, what, and after which delay to inject.

use crate::config::Settings;
use crate::types::KeyboardOutputMsg;
use vstd::prelude::*;

verus! {

/// Errors the keyboard stage can report.
#[derive(Debug)]
pub enum KeyboardOutputError {
    /// The OS keyboard controller could not be acquired.
    InitError(String),
    /// A text could not be typed.
    TypeError(String),
}

/// Marker for the keyboard output stage; its state lives in
/// [`KeyboardOutputState`].
#[derive(Debug)]
pub struct KeyboardOutputActor {}

/// What the keyboard stage asks its caller to do for one message.
#[derive(Debug)]
pub struct KeyboardReaction {
    /// Text to inject as keystrokes, after the configured delay; `None` when
    /// nothing is to be typed. When something is, the status follows the
    /// injection attempt: the caller hands its outcome to
    /// [`KeyboardOutputState::on_inject_result`].
    pub inject: Option<String>,
    /// A status line for the coordinator, if one is already due.
    pub status: Option<String>,
}

/// The keyboard stage's state: the gating flag and the configured delay
/// before typing begins.
#[derive(Debug)]
pub struct KeyboardOutputState {
    pub enabled: bool,
    pub delay_ms: u32,
}

impl KeyboardOutputState {
    /// A fresh keyboard stage: disabled, for safety, until explicitly
    /// enabled.
    pub fn new(config: &Settings) -> (s: KeyboardOutputState)
        ensures
            !s.enabled,
            s.delay_ms == config.keyboard_output_delay_ms,
    {
        KeyboardOutputState { enabled: false, delay_ms: config.keyboard_output_delay_ms }
    }

    /// Handle one message.
    ///
    /// `TypeText` injects only while enabled — the status then comes from
    /// [`Self::on_inject_result`] once the attempt's outcome is known — and
    /// otherwise reports a disabled status; `Enable` sets the flag and
    /// reports the new state; `Shutdown` does nothing here (releasing the OS
    /// controller is the caller's concern).
    pub fn handle(&mut self, msg: KeyboardOutputMsg) -> (r: KeyboardReaction)
        ensures
            final(self).delay_ms == old(self).delay_ms,
            // only Enable changes the flag
            !(msg is Enable) ==> final(self).enabled == old(self).enabled,
            // injection only while enabled
            r.inject is Some ==> old(self).enabled,
            msg matches KeyboardOutputMsg::TypeText(text) ==> {
                &&& final(self).enabled == old(self).enabled
                &&& if old(self).enabled {
                    &&& r.inject matches Some(t) && t@ == text@
                    &&& r.status is None
                } else {
                    &&& r.inject is None
                    &&& r.status matches Some(s) && s@
                        == "Keyboard output is disabled (enable in settings)"@
                }
            },
            msg matches KeyboardOutputMsg::Enable(b) ==> {
                &&& final(self).enabled == b
                &&& r.inject is None
                &&& r.status matches Some(s) && s@ == (if b {
                    "Keyboard output enabled"@
                } else {
                    "Keyboard output disabled"@
                })
            },
            msg is Shutdown ==> final(self).enabled == old(self).enabled && r.inject is None
                && r.status is None,
    {
        match msg {
            KeyboardOutputMsg::TypeText(text) => {
                if self.enabled {
                    KeyboardReaction { inject: Some(text), status: None }
                } else {
                    KeyboardReaction {
                        inject: None,
                        status: Some(
                            String::from_str("Keyboard output is disabled (enable in settings)"),
                        ),
                    }
                }
            },
            KeyboardOutputMsg::Enable(b) => {
                self.enabled = b;
                let status = if b {
                    String::from_str("Keyboard output enabled")
                } else {
                    String::from_str("Keyboard output disabled")
                };
                KeyboardReaction { inject: None, status: Some(status) }
            },
            KeyboardOutputMsg::Shutdown => KeyboardReaction { inject: None, status: None },
        }
    }

    /// The status for an injection attempt's outcome: success confirms the
    /// typed text, failure reports the collaborator's error.
    pub fn on_inject_result(&self, text: &str, error: Option<&str>) -> (status: String)
        ensures
            error is None ==> status@ == "Typed text: "@ + text@,
            error matches Some(e) ==> status@ == "Failed to type text: "@ + e@,
    {
        match error {
            None => {
                let mut s = String::new();
                s.append("Typed text: ");
                s.append(text);
                s
            },
            Some(e) => {
                let mut s = String::new();
                s.append("Failed to type text: ");
                s.append(e);
                s
            },
        }
    }
}

} // verus!
