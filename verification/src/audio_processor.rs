//! Audio processing: denoise framing, voice-activity classification and
//! silence/voice segmentation.
//!
//! Every incoming chunk is forwarded downstream exactly once, unmodified,
//! whatever the classification says. Classification uses the dedicated
//! voice-activity engine on one 30 ms frame of the chunk when the engine is
//! available, and otherwise falls back to comparing the chunk's mean squared
//! amplitude against the configured threshold. Each classified frame feeds
//! the hysteresis tracker, whose reported transitions go to the coordinator.
//!
//! Denoising itself runs on floating-point frames with an outside filter, so
//! it stays with the caller; this module fixes its frame discipline: the
//! chunk is cut into frames of the filter's native size, the last one padded
//! with silence, and the output truncated back to the chunk's length. A
//! denoised chunk is handed to [`AudioProcessorState::process_chunk`] in
//! place of the original.

use crate::config::{Settings, VadMode};
use crate::segmentation::{seg_step, SegmentationState};
use crate::types::AudioChunk;
use vstd::prelude::*;

verus! {

/// Marker for the processing stage; its state lives in
/// [`AudioProcessorState`].
#[derive(Debug)]
pub struct AudioProcessorActor {}

// ---------------------------------------------------------------------------
// The voice-activity engine, behind trusted wrappers
// ---------------------------------------------------------------------------

#[verifier::external_type_specification]
#[verifier::external_body]
pub struct ExVad(webrtc_vad::Vad);

/// The sample rates the voice-activity engine accepts.
#[derive(Clone, Copy, Debug, PartialEq, Eq, Structural)]
pub enum VadRate {
    R8k,
    R16k,
    R32k,
    R48k,
}

/// The engine rate for a sample rate in hertz, if it is one the engine
/// accepts.
pub fn vad_rate_of(rate_hz: u32) -> (r: Option<VadRate>)
    ensures
        r is Some <==> supported_rate(rate_hz),
        r matches Some(vr) ==> vr == spec_vad_rate(rate_hz),
{
    if rate_hz == 8000 {
        Some(VadRate::R8k)
    } else if rate_hz == 16000 {
        Some(VadRate::R16k)
    } else if rate_hz == 32000 {
        Some(VadRate::R32k)
    } else if rate_hz == 48000 {
        Some(VadRate::R48k)
    } else {
        None
    }
}

/// Is this a sample rate the engine accepts?
pub open spec fn supported_rate(rate_hz: u32) -> bool {
    rate_hz == 8000 || rate_hz == 16000 || rate_hz == 32000 || rate_hz == 48000
}

/// The engine rate for a supported sample rate.
pub open spec fn spec_vad_rate(rate_hz: u32) -> VadRate {
    if rate_hz == 8000 {
        VadRate::R8k
    } else if rate_hz == 16000 {
        VadRate::R16k
    } else if rate_hz == 32000 {
        VadRate::R32k
    } else {
        VadRate::R48k
    }
}

/// Relies on `webrtc_vad::Vad::new_with_rate_and_mode`: creates an engine
/// instance at the given input rate and aggressiveness mode.
#[verifier::external_body]
fn vad_new(rate: VadRate, mode: VadMode) -> (r: webrtc_vad::Vad) {
    let wr = match rate {
        VadRate::R8k => webrtc_vad::SampleRate::Rate8kHz,
        VadRate::R16k => webrtc_vad::SampleRate::Rate16kHz,
        VadRate::R32k => webrtc_vad::SampleRate::Rate32kHz,
        VadRate::R48k => webrtc_vad::SampleRate::Rate48kHz,
    };
    let wm = match mode {
        VadMode::Quality => webrtc_vad::VadMode::Quality,
        VadMode::LowBitrate => webrtc_vad::VadMode::LowBitrate,
        VadMode::Aggressive => webrtc_vad::VadMode::Aggressive,
        VadMode::VeryAggressive => webrtc_vad::VadMode::VeryAggressive,
    };
    webrtc_vad::Vad::new_with_rate_and_mode(wr, wm)
}

/// Relies on `webrtc_vad::Vad::is_voice_segment`: `Ok` carries the engine's
/// voice decision for the frame, `Err` means the frame length is not one the
/// engine accepts at its rate. The decision depends on the engine's internal
/// state, so nothing more is stated of it. Indexes the first sample, so an
/// empty frame is required out.
#[verifier::external_body]
fn vad_is_voice(vad: &mut webrtc_vad::Vad, frame: &Vec<i16>) -> (r: Result<bool, ()>)
    requires
        frame@.len() >= 1,
{
    vad.is_voice_segment(frame.as_slice())
}

// ---------------------------------------------------------------------------
// Energy fallback
// ---------------------------------------------------------------------------

/// The sum of squared sample amplitudes.
pub open spec fn sum_squares(s: Seq<i16>) -> int
    decreases s.len(),
{
    if s.len() == 0 {
        0
    } else {
        sum_squares(s.drop_last()) + (s.last() as int) * (s.last() as int)
    }
}

/// The energy fallback decides voice is present when the chunk's mean
/// squared amplitude exceeds the threshold, i.e. `sum > threshold * len`.
/// An empty chunk has no energy and counts as silence.
pub open spec fn energy_voice(s: Seq<i16>, threshold: u32) -> bool {
    sum_squares(s) > threshold * s.len()
}

/// A square of a 16-bit sample is bounded.
proof fn lemma_square_bound(x: i16)
    ensures
        0 <= (x as int) * (x as int) <= 0x40000000,
{
    let v = x as int;
    assert(v * v <= 0x40000000 && v * v >= 0) by (nonlinear_arith)
        requires
            -0x8000 <= v <= 0x7fff,
    ;
}

/// Decide the energy fallback for a chunk.
pub fn energy_exceeds(samples: &Vec<i16>, threshold: u32) -> (r: bool)
    ensures
        r == energy_voice(samples@, threshold),
{
    let mut acc: u128 = 0;
    let mut k: usize = 0;
    while k < samples.len()
        invariant
            k <= samples@.len(),
            acc as int == sum_squares(samples@.subrange(0, k as int)),
            acc <= (k as int) * 0x40000000,
        decreases samples@.len() - k,
    {
        proof {
            lemma_square_bound(samples@[k as int]);
            assert(samples@.subrange(0, k + 1).drop_last() =~= samples@.subrange(0, k as int));
            assert(samples@.subrange(0, k + 1).last() == samples@[k as int]);
        }
        let x = samples[k] as i64;
        let sq = (x * x) as u128;
        acc = acc + sq;
        k = k + 1;
    }
    proof {
        assert(samples@.subrange(0, samples@.len() as int) =~= samples@);
    }
    let n = samples.len();
    proof {
        assert((threshold as int) * (n as int) < 0x100000000000000000000000000000000)
            by (nonlinear_arith)
            requires
                0 <= (threshold as int) && (threshold as int) < 0x100000000,
                0 <= (n as int) && (n as int) < 0x10000000000000000,
        ;
    }
    let rhs = (threshold as u128) * (n as u128);
    acc > rhs
}

// ---------------------------------------------------------------------------
// Denoise frame discipline
// ---------------------------------------------------------------------------

/// The denoise filter's native frame size, in samples.
pub const DENOISE_FRAME_SIZE: usize = 480;

/// Cut a chunk into frames of [`DENOISE_FRAME_SIZE`] samples, padding the
/// last frame with silence. An empty chunk yields no frames.
pub fn frame_blocks(samples: &Vec<i16>) -> (r: Vec<Vec<i16>>)
    ensures
        forall|i: int| 0 <= i < r@.len() ==> (#[trigger] r@[i])@.len() == DENOISE_FRAME_SIZE,
        r@.len() * DENOISE_FRAME_SIZE >= samples@.len(),
        (r@.len() as int - 1) * DENOISE_FRAME_SIZE < samples@.len(),
        forall|i: int, j: int|
            0 <= i < r@.len() && 0 <= j < DENOISE_FRAME_SIZE ==> (#[trigger] (r@[i])@[j]) == (
            if i * DENOISE_FRAME_SIZE + j < samples@.len() {
                samples@[i * DENOISE_FRAME_SIZE + j]
            } else {
                0i16
            }),
{
    let mut r: Vec<Vec<i16>> = Vec::new();
    let mut pos: usize = 0;
    while pos < samples.len()
        invariant
            pos <= samples@.len(),
            pos == 0 || pos < samples@.len(),
            pos == r@.len() * DENOISE_FRAME_SIZE,
            forall|i: int| 0 <= i < r@.len() ==> (#[trigger] r@[i])@.len() == DENOISE_FRAME_SIZE,
            forall|i: int, j: int|
                0 <= i < r@.len() && 0 <= j < DENOISE_FRAME_SIZE ==> (#[trigger] (r@[i])@[j]) == (
                if i * DENOISE_FRAME_SIZE + j < samples@.len() {
                    samples@[i * DENOISE_FRAME_SIZE + j]
                } else {
                    0i16
                }),
        decreases samples@.len() - pos,
    {
        let ghost r_old = r@;
        let mut frame: Vec<i16> = Vec::new();
        let mut j: usize = 0;
        while j < DENOISE_FRAME_SIZE
            invariant
                j <= DENOISE_FRAME_SIZE,
                pos <= samples@.len(),
                frame@.len() == j,
                forall|m: int|
                    0 <= m < j ==> (#[trigger] frame@[m]) == (if pos + m < samples@.len() {
                        samples@[pos + m]
                    } else {
                        0i16
                    }),
            decreases DENOISE_FRAME_SIZE - j,
        {
            if j < samples.len() - pos {
                frame.push(samples[pos + j]);
            } else {
                frame.push(0i16);
            }
            j = j + 1;
        }
        r.push(frame);
        proof {
            assert(r@.len() == r_old.len() + 1);
            assert((r@.len() - 1) * DENOISE_FRAME_SIZE == r_old.len() * DENOISE_FRAME_SIZE);
        }
        if samples.len() - pos <= DENOISE_FRAME_SIZE {
            proof {
                assert(r@.len() * DENOISE_FRAME_SIZE >= samples@.len());
                assert((r@.len() as int - 1) * DENOISE_FRAME_SIZE < samples@.len());
            }
            return r;
        }
        pos = pos + DENOISE_FRAME_SIZE;
    }
    proof {
        assert(samples@.len() == 0);
        assert(r@.len() == 0);
    }
    r
}

/// Reassemble denoised frames into a chunk of the original length,
/// truncating the padding of the last frame.
pub fn reassemble(frames: &Vec<Vec<i16>>, orig_len: usize) -> (r: Vec<i16>)
    requires
        forall|i: int|
            0 <= i < frames@.len() ==> (#[trigger] frames@[i])@.len() == DENOISE_FRAME_SIZE,
        frames@.len() * DENOISE_FRAME_SIZE >= orig_len,
    ensures
        r@.len() == orig_len,
        forall|m: int|
            0 <= m < orig_len ==> (#[trigger] r@[m]) == (frames@[m / (DENOISE_FRAME_SIZE as int)])@[
                m % (DENOISE_FRAME_SIZE as int)
            ],
{
    let mut r: Vec<i16> = Vec::new();
    let mut m: usize = 0;
    while m < orig_len
        invariant
            m <= orig_len,
            frames@.len() * DENOISE_FRAME_SIZE >= orig_len,
            forall|i: int|
                0 <= i < frames@.len() ==> (#[trigger] frames@[i])@.len() == DENOISE_FRAME_SIZE,
            r@.len() == m,
            forall|p: int|
                0 <= p < m ==> (#[trigger] r@[p]) == (frames@[p / (DENOISE_FRAME_SIZE as int)])@[
                    p % (DENOISE_FRAME_SIZE as int)
                ],
        decreases orig_len - m,
    {
        let i = m / DENOISE_FRAME_SIZE;
        let j = m % DENOISE_FRAME_SIZE;
        proof {
            assert(i * DENOISE_FRAME_SIZE + j == m) by {
                vstd::arithmetic::div_mod::lemma_fundamental_div_mod(
                    m as int,
                    DENOISE_FRAME_SIZE as int,
                );
            }
            assert((i as int) < frames@.len()) by (nonlinear_arith)
                requires
                    (i as int) * (DENOISE_FRAME_SIZE as int) + (j as int) == m as int,
                    0 <= j < DENOISE_FRAME_SIZE,
                    (m as int) < frames@.len() * (DENOISE_FRAME_SIZE as int),
                    DENOISE_FRAME_SIZE == 480,
            ;
        }
        let frame = &frames[i];
        r.push(frame[j]);
        m = m + 1;
    }
    r
}

// ---------------------------------------------------------------------------
// The processing stage
// ---------------------------------------------------------------------------

/// The 30 ms frame length, in samples, at a sample rate.
pub open spec fn samples_per_frame(rate_hz: u32) -> int {
    (rate_hz * 30) / 1000
}

/// What processing one chunk produced: the chunk to forward downstream
/// (always exactly one), this chunk's voice classification if one was made,
/// and the silence transition to report, if any. `evaluated` witnesses what
/// was submitted to the voice-activity engine: exactly the chunk's leading
/// 30 ms frame when the engine was consulted, nothing otherwise.
pub struct ProcessOutcome {
    pub forward: AudioChunk,
    pub classification: Option<bool>,
    pub event: Option<bool>,
    pub evaluated: Ghost<Option<Seq<i16>>>,
}

/// The processing stage's state.
pub struct AudioProcessorState {
    /// The voice-activity engine, when enabled and the sample rate is one it
    /// accepts.
    pub vad: Option<webrtc_vad::Vad>,
    pub sample_rate: u32,
    pub config: Settings,
    pub seg: SegmentationState,
    /// Shutdown has begun: no further chunks are classified.
    pub stopped: bool,
}

impl AudioProcessorState {
    /// Does this stage hold a live voice-activity engine?
    pub open spec fn has_engine(&self) -> bool {
        self.vad is Some
    }

    /// A fresh processing stage, and its initialization status line.
    pub fn new(config: Settings, sample_rate: u32) -> (r: (AudioProcessorState, String))
        ensures
            r.0.config == config,
            r.0.sample_rate == sample_rate,
            r.0.seg == (SegmentationState {
                reported: crate::segmentation::Classification::Voice,
                silence_since: None,
                frames_since_transition: 0,
            }),
            r.0.has_engine() <==> (config.enable_vad && supported_rate(sample_rate)),
            !r.0.stopped,
            r.1@ == init_status(config.enable_denoise, config.enable_vad),
    {
        let vad = if config.enable_vad {
            match vad_rate_of(sample_rate) {
                Some(rate) => Some(vad_new(rate, config.vad_mode)),
                None => None,
            }
        } else {
            None
        };
        let mut status = String::new();
        status.append("Audio processor initialized (denoise: ");
        status.append(if config.enable_denoise {
            "true"
        } else {
            "false"
        });
        status.append(", VAD: ");
        status.append(if config.enable_vad {
            "true"
        } else {
            "false"
        });
        status.append(")");
        proof {
            assert(status@ =~= init_status(config.enable_denoise, config.enable_vad));
        }
        (
            AudioProcessorState {
                vad,
                sample_rate,
                config,
                seg: SegmentationState::new(),
                stopped: false,
            },
            status,
        )
    }

    /// Process one (possibly denoised) chunk at clock reading `now_ms`:
    /// classify it, feed the hysteresis tracker, and forward it downstream
    /// unmodified whatever the classification said. With the engine, exactly
    /// the chunk's leading 30 ms frame is submitted (`r.evaluated` witnesses
    /// it); a shorter chunk is not classified and the previous segmentation
    /// state persists. Without the engine but with voice detection enabled,
    /// the energy fallback decides. After shutdown nothing is classified.
    pub fn process_chunk(&mut self, chunk: AudioChunk, now_ms: u64) -> (r: ProcessOutcome)
        ensures
            final(self).config == old(self).config,
            final(self).sample_rate == old(self).sample_rate,
            final(self).has_engine() == old(self).has_engine(),
            final(self).stopped == old(self).stopped,
            r.forward@ == chunk@,
            old(self).stopped ==> r.classification is None,
            !old(self).config.enable_vad ==> r.classification is None,
            !old(self).stopped && old(self).config.enable_vad && !old(self).has_engine()
                ==> r.classification == Some(
                energy_voice(chunk@, old(self).config.vad_energy_threshold),
            ),
            old(self).has_engine() && (samples_per_frame(old(self).sample_rate) == 0 || chunk@.len()
                < samples_per_frame(old(self).sample_rate)) ==> r.classification is None,
            // what the engine was given: exactly the leading 30 ms frame,
            // and only under the conditions that call for an evaluation
            ({
                let spf = samples_per_frame(old(self).sample_rate);
                if !old(self).stopped && old(self).config.enable_vad && old(self).has_engine()
                    && spf >= 1 && chunk@.len() >= spf {
                    r.evaluated@ == Some(chunk@.take(spf))
                } else {
                    r.evaluated@ is None
                }
            }),
            old(self).has_engine() && r.classification is Some ==> r.evaluated@ is Some,
            r.classification is None ==> final(self).seg == old(self).seg && r.event is None,
            r.classification matches Some(b) ==> (final(self).seg, r.event) == seg_step(
                old(self).seg,
                b,
                now_ms,
                old(self).config.silence_threshold_ms,
            ),
            !old(self).config.enable_denoise && !old(self).config.enable_vad ==> r.forward@
                == chunk@ && r.event is None && final(self).seg == old(self).seg,
    {
        let ghost mut evaluated: Option<Seq<i16>> = None;
        let mut classification: Option<bool> = None;
        if !self.stopped && self.config.enable_vad {
            match &mut self.vad {
                Some(vad) => {
                    let spf: u64 = (self.sample_rate as u64) * 30 / 1000;
                    if spf >= 1 && (chunk.0.len() as u64) >= spf {
                        let n = spf as usize;
                        let mut frame: Vec<i16> = Vec::new();
                        let mut k: usize = 0;
                        while k < n
                            invariant
                                k <= n,
                                n <= chunk.0@.len(),
                                frame@.len() == k,
                                forall|m: int| 0 <= m < k ==> frame@[m] == chunk.0@[m],
                            decreases n - k,
                        {
                            frame.push(chunk.0[k]);
                            k = k + 1;
                        }
                        proof {
                            assert(frame@ =~= chunk.0@.take(n as int));
                            evaluated = Some(frame@);
                        }
                        match vad_is_voice(vad, &frame) {
                            Ok(b) => {
                                classification = Some(b);
                            },
                            Err(()) => {
                                classification = None;
                            },
                        }
                    }
                },
                None => {
                    classification = Some(
                        energy_exceeds(&chunk.0, self.config.vad_energy_threshold),
                    );
                },
            }
        }
        let event = match classification {
            Some(b) => self.seg.observe_frame(b, now_ms, self.config.silence_threshold_ms),
            None => None,
        };
        ProcessOutcome { forward: chunk, classification, event, evaluated: Ghost(evaluated) }
    }

    /// Shut the stage down: stop classifying chunks and release the
    /// voice-activity engine. Does not wait for anything.
    pub fn shutdown(&mut self)
        ensures
            !final(self).has_engine(),
            final(self).stopped,
            final(self).config == old(self).config,
            final(self).sample_rate == old(self).sample_rate,
            final(self).seg == old(self).seg,
    {
        self.vad = None;
        self.stopped = true;
    }
}

/// The initialization status line.
pub open spec fn init_status(denoise: bool, vad: bool) -> Seq<char> {
    "Audio processor initialized (denoise: "@ + bool_word(denoise) + ", VAD: "@ + bool_word(vad)
        + ")"@
}

/// The word a flag prints as.
pub open spec fn bool_word(b: bool) -> Seq<char> {
    if b {
        "true"@
    } else {
        "false"@
    }
}

} // verus!
