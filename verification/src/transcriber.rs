//! Transcription session control and the two sides of its line protocol.
//!
//! The recognition engine runs as a subprocess with piped standard streams;
//! a writer drains a FIFO queue of chunks as JSON lines, a reader turns JSON
//! result lines into coordinator events. This module holds what is decided
//! per message and per line: whether a chunk is still accepted, how a chunk
//! is serialized, how a result line is routed, and the shutdown step, which
//! kills the subprocess at most once.

use crate::ipc::{
    chars_to_string, dig_char_exec, encode_chunk_chars, parse_result_line, push_dec_u64, dec_nat,
    dig_char, spec_encode_chunk, spec_parse_result,
};
use crate::types::{AudioChunk, FinalTranscription};
use vstd::prelude::*;

verus! {

/// Errors of the transcription stage.
#[derive(Debug)]
pub enum TranscriberError {
    /// The subprocess could not be spawned: fatal to this stage's startup.
    ProcessStartError(String),
    /// A read or write on the subprocess's streams failed mid-session.
    CommunicationError(String),
    /// The subprocess ended on its own.
    ProcessExitedError,
}

/// Marker for the transcription stage; its state lives in
/// [`TranscriberState`].
#[derive(Debug)]
pub struct TranscriberActor {}

/// The transcription stage's state, as far as decisions depend on it. The
/// subprocess handle, queue and worker threads live with the caller.
#[derive(Clone, Copy, Debug, PartialEq, Eq, Structural)]
pub struct TranscriberState {
    /// Shutdown has begun: no further chunks are accepted.
    pub is_shutting_down: bool,
    /// The subprocess has not been killed by us yet.
    pub process_alive: bool,
    /// The chunk queue still accepts writes (closing it lets the writer
    /// drain and exit).
    pub queue_open: bool,
    /// The sample rate the subprocess was started with.
    pub sample_rate: u32,
}

/// The one shutdown step: mark the session, close the queue, and say whether
/// the subprocess is to be killed now. Killing happens at most once: a
/// second step finds `process_alive` already false.
pub open spec fn shutdown_spec(s: TranscriberState) -> (TranscriberState, bool) {
    (
        TranscriberState {
            is_shutting_down: true,
            process_alive: false,
            queue_open: false,
            sample_rate: s.sample_rate,
        },
        s.process_alive,
    )
}

impl TranscriberState {
    /// A fresh session around a just-spawned subprocess.
    pub fn new(sample_rate: u32) -> (s: TranscriberState)
        ensures
            s == (TranscriberState {
                is_shutting_down: false,
                process_alive: true,
                queue_open: true,
                sample_rate,
            }),
    {
        TranscriberState { is_shutting_down: false, process_alive: true, queue_open: true, sample_rate }
    }

    /// Accept a chunk for the writer queue, or drop it once shutdown has
    /// begun. Returns the chunk to enqueue, unchanged.
    pub fn accept_chunk(&self, chunk: AudioChunk) -> (r: Option<AudioChunk>)
        ensures
            self.is_shutting_down || !self.queue_open ==> r is None,
            !self.is_shutting_down && self.queue_open ==> (r matches Some(c) && c@ == chunk@),
    {
        if self.is_shutting_down || !self.queue_open {
            None
        } else {
            Some(chunk)
        }
    }

    /// The writer's serialization of one queued chunk: exactly one protocol
    /// line (the caller appends the newline and flushes).
    pub fn chunk_line(&self, chunk: &AudioChunk) -> (r: String)
        ensures
            r@ == spec_encode_chunk(chunk@, self.sample_rate),
    {
        let chars = encode_chunk_chars(&chunk.0, self.sample_rate);
        chars_to_string(&chars)
    }

    /// Begin shutdown; returns whether the subprocess is to be killed now.
    pub fn shutdown(&mut self) -> (kill: bool)
        ensures
            (*final(self), kill) == shutdown_spec(*old(self)),
    {
        self.is_shutting_down = true;
        self.queue_open = false;
        let kill = self.process_alive;
        self.process_alive = false;
        kill
    }
}

/// Shutdown is idempotent: a second step changes nothing and does not ask
/// for a second kill.
pub proof fn lemma_shutdown_idempotent(s: TranscriberState)
    ensures
        shutdown_spec(shutdown_spec(s).0).0 == shutdown_spec(s).0,
        !shutdown_spec(shutdown_spec(s).0).1,
{
}

/// How one line from the subprocess is routed.
#[derive(Debug)]
pub enum ReaderEvent {
    /// A final result: a committed transcription, plus a status line.
    Final { transcription: FinalTranscription, status: String },
    /// A partial result: advisory status only.
    Partial { status: String },
    /// A malformed line: logged and skipped, never fatal.
    Skip,
}

/// The status suffix for a confidence given in thousandths, shown as a
/// percentage with one decimal.
pub open spec fn conf_suffix(conf: Option<u16>) -> Seq<char> {
    match conf {
        None => Seq::empty(),
        Some(v) => " (confidence: "@ + dec_nat((v / 10) as nat) + seq!['.'] + seq![
            dig_char((v % 10) as int),
        ] + "%)"@,
    }
}

/// Route one line read from the subprocess's output: a final result becomes
/// a committed transcription with a `Transcribed:` status, a partial result
/// only a `Partial:` status, and a malformed line is skipped.
pub fn route_result_line(line: &str) -> (r: ReaderEvent)
    ensures
        spec_parse_result(line@) is None ==> r is Skip,
        spec_parse_result(line@) matches Some((text, is_final, conf)) ==> {
            &&& is_final ==> (r matches ReaderEvent::Final { transcription, status } && {
                &&& transcription.0@ == text
                &&& status@ == "Transcribed: "@ + text + conf_suffix(conf)
            })
            &&& !is_final ==> (r matches ReaderEvent::Partial { status } && status@ == "Partial: "@
                + text)
        },
{
    match parse_result_line(line) {
        None => ReaderEvent::Skip,
        Some(res) => {
            if res.is_final {
                let mut status = String::new();
                status.append("Transcribed: ");
                status.append(res.text.as_str());
                match res.confidence {
                    None => {
                        proof {
                            assert(status@ =~= "Transcribed: "@ + res.text@ + conf_suffix(
                                res.confidence,
                            ));
                        }
                    },
                    Some(v) => {
                        status.append(" (confidence: ");
                        let mut digits: Vec<char> = Vec::new();
                        push_dec_u64(&mut digits, (v / 10) as u64);
                        digits.push('.');
                        digits.push(dig_char_exec((v % 10) as u8));
                        status.append(chars_to_string(&digits).as_str());
                        status.append("%)");
                        proof {
                            assert(status@ =~= "Transcribed: "@ + res.text@ + conf_suffix(
                                res.confidence,
                            ));
                        }
                    },
                }
                ReaderEvent::Final { transcription: FinalTranscription(res.text), status }
            } else {
                let mut status = String::new();
                status.append("Partial: ");
                status.append(res.text.as_str());
                ReaderEvent::Partial { status }
            }
        },
    }
}

} // verus!
