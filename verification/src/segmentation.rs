//! Silence/voice segmentation with hysteresis.
//!
//! Every classified audio frame feeds [`SegmentationState::observe_frame`].
//! A transition is reported at most once per debounce window: at least
//! [`DEBOUNCE_FRAMES`] frames must have been classified since the last
//! reported transition, and a transition into silence additionally requires
//! that the silence has lasted at least the configured threshold. Between a
//! reported transition into silence and the next voice frame, no further
//! silence report is emitted.

use vstd::prelude::*;

verus! {

/// The classification last reported to the coordinator.
#[derive(Debug, Clone, Copy, PartialEq, Eq, Structural)]
pub enum Classification {
    Voice,
    Silent,
}

/// Per-processor segmentation state, updated on every classified frame.
#[derive(Debug, Clone, Copy, PartialEq, Eq, Structural)]
pub struct SegmentationState {
    /// The classification as of the last reported transition.
    pub reported: Classification,
    /// When the current uninterrupted run of silent frames began, if one is
    /// under way (a millisecond reading of the caller's clock).
    pub silence_since: Option<u64>,
    /// Frames classified since the last reported transition.
    pub frames_since_transition: u64,
}

/// Minimum number of classified frames between two reported transitions.
pub const DEBOUNCE_FRAMES: u64 = 10;

/// `n + 1`, stopping at the top of `u64` rather than wrapping.
pub open spec fn inc_saturating(n: u64) -> u64 {
    if n == u64::MAX {
        n
    } else {
        (n + 1) as u64
    }
}

/// The transition function: from a state, one frame's classification, the
/// current clock reading and the configured silence threshold, to the next
/// state and the transition to report, if any (`Some(true)` for a transition
/// into silence, `Some(false)` for a transition back to voice).
pub open spec fn seg_step(
    s: SegmentationState,
    has_voice: bool,
    now_ms: u64,
    silence_threshold_ms: u32,
) -> (SegmentationState, Option<bool>) {
    let frames = inc_saturating(s.frames_since_transition);
    if has_voice {
        if s.reported == Classification::Silent && frames >= DEBOUNCE_FRAMES {
            (
                SegmentationState {
                    reported: Classification::Voice,
                    silence_since: None,
                    frames_since_transition: 0,
                },
                Some(false),
            )
        } else {
            (
                SegmentationState {
                    reported: s.reported,
                    silence_since: None,
                    frames_since_transition: frames,
                },
                None,
            )
        }
    } else {
        let start = match s.silence_since {
            Some(t) => t,
            None => now_ms,
        };
        let elapsed = if now_ms >= start {
            (now_ms - start) as u64
        } else {
            0
        };
        if s.reported == Classification::Voice && elapsed >= silence_threshold_ms
            && frames >= DEBOUNCE_FRAMES {
            (
                SegmentationState {
                    reported: Classification::Silent,
                    silence_since: Some(start),
                    frames_since_transition: 0,
                },
                Some(true),
            )
        } else {
            (
                SegmentationState {
                    reported: s.reported,
                    silence_since: Some(start),
                    frames_since_transition: frames,
                },
                None,
            )
        }
    }
}

impl SegmentationState {
    /// The state before any frame has been classified: voice is assumed, no
    /// silence run is under way.
    pub fn new() -> (s: SegmentationState)
        ensures
            s == (SegmentationState {
                reported: Classification::Voice,
                silence_since: None,
                frames_since_transition: 0,
            }),
    {
        SegmentationState {
            reported: Classification::Voice,
            silence_since: None,
            frames_since_transition: 0,
        }
    }

    /// Feed one classified frame; returns the transition to report, if any.
    pub fn observe_frame(
        &mut self,
        has_voice: bool,
        now_ms: u64,
        silence_threshold_ms: u32,
    ) -> (event: Option<bool>)
        ensures
            (*final(self), event) == seg_step(*old(self), has_voice, now_ms, silence_threshold_ms),
    {
        let frames = if self.frames_since_transition == u64::MAX {
            u64::MAX
        } else {
            self.frames_since_transition + 1
        };
        if has_voice {
            if self.reported == Classification::Silent && frames >= DEBOUNCE_FRAMES {
                self.reported = Classification::Voice;
                self.silence_since = None;
                self.frames_since_transition = 0;
                Some(false)
            } else {
                self.silence_since = None;
                self.frames_since_transition = frames;
                None
            }
        } else {
            let start = match self.silence_since {
                Some(t) => t,
                None => now_ms,
            };
            let elapsed = if now_ms >= start {
                now_ms - start
            } else {
                0
            };
            if self.reported == Classification::Voice && elapsed >= silence_threshold_ms as u64
                && frames >= DEBOUNCE_FRAMES {
                self.reported = Classification::Silent;
                self.silence_since = Some(start);
                self.frames_since_transition = 0;
                Some(true)
            } else {
                self.silence_since = Some(start);
                self.frames_since_transition = frames;
                None
            }
        }
    }
}

/// Once a transition into silence has been reported, further silent frames
/// report nothing and leave the reported classification at silent: a second
/// silence report cannot occur until voice resumes.
pub proof fn lemma_silence_reported_once(
    s: SegmentationState,
    now_ms: u64,
    silence_threshold_ms: u32,
)
    requires
        s.reported == Classification::Silent,
    ensures
        seg_step(s, false, now_ms, silence_threshold_ms).1 is None,
        seg_step(s, false, now_ms, silence_threshold_ms).0.reported == Classification::Silent,
{
}

/// A transition into silence is reported only from a reported-voice state,
/// and only when the silence run has lasted at least the threshold and at
/// least [`DEBOUNCE_FRAMES`] frames were classified since the last report.
pub proof fn lemma_silence_report_needs_hysteresis(
    s: SegmentationState,
    has_voice: bool,
    now_ms: u64,
    silence_threshold_ms: u32,
)
    ensures
        seg_step(s, has_voice, now_ms, silence_threshold_ms).1 == Some(true) ==> {
            &&& !has_voice
            &&& s.reported == Classification::Voice
            &&& inc_saturating(s.frames_since_transition) >= DEBOUNCE_FRAMES
        },
{
}

/// A transition into silence is reported as soon as it is due: on a silent
/// frame from a reported-voice state, once the silence run has lasted at
/// least the threshold and the debounce window has passed.
pub proof fn lemma_silence_reported_when_due(
    s: SegmentationState,
    now_ms: u64,
    silence_threshold_ms: u32,
)
    requires
        s.reported == Classification::Voice,
        inc_saturating(s.frames_since_transition) >= DEBOUNCE_FRAMES,
        match s.silence_since {
            Some(t) => now_ms >= t && now_ms - t >= silence_threshold_ms,
            None => silence_threshold_ms == 0,
        },
    ensures
        seg_step(s, false, now_ms, silence_threshold_ms).1 == Some(true),
        seg_step(s, false, now_ms, silence_threshold_ms).0.reported == Classification::Silent,
{
}

/// Symmetrically, a transition back to voice is reported only from a
/// reported-silent state after the debounce window.
pub proof fn lemma_voice_report_needs_hysteresis(
    s: SegmentationState,
    has_voice: bool,
    now_ms: u64,
    silence_threshold_ms: u32,
)
    ensures
        seg_step(s, has_voice, now_ms, silence_threshold_ms).1 == Some(false) ==> {
            &&& has_voice
            &&& s.reported == Classification::Silent
            &&& inc_saturating(s.frames_since_transition) >= DEBOUNCE_FRAMES
        },
{
}

} // verus!
