use whisperkey_core::audio_capture::{AudioCaptureState, AudioState};
use whisperkey_core::audio_processor::{
    energy_exceeds, frame_blocks, reassemble, AudioProcessorState, DENOISE_FRAME_SIZE,
};
use whisperkey_core::config::{CommandAction, Settings, VadMode};
use whisperkey_core::coordinator::{CoordinatorEffect, CoordinatorState};
use whisperkey_core::keyboard_output::{KeyboardOutputState};
use whisperkey_core::segmentation::{Classification, SegmentationState};
use whisperkey_core::transcriber::{route_result_line, ReaderEvent, TranscriberState};
use whisperkey_core::types::{
    AppOutput, AudioChunk, CoordinatorMsg, FinalTranscription, KeyboardOutputMsg,
};
use whisperkey_core::{core_hello, config};

fn passthrough_settings() -> Settings {
    let mut s = Settings::default();
    s.enable_denoise = false;
    s.enable_vad = false;
    s
}

fn energy_settings() -> Settings {
    let mut s = Settings::default();
    s.enable_denoise = false;
    s.enable_vad = true;
    s
}

#[test]
fn core_hello_reports_ready() {
    assert_eq!(core_hello(), "Core library initialized");
}

#[test]
fn config_paths_are_under_the_config_dir() {
    assert_eq!(config::get_config_dir("/home/u/.config"), "/home/u/.config/whisperkey");
    assert_eq!(
        config::get_config_file_path("/home/u/.config"),
        "/home/u/.config/whisperkey/config.toml"
    );
}

#[test]
fn default_settings_are_safe() {
    let s = Settings::default();
    assert!(!s.enable_keyboard_output);
    assert!(s.enable_denoise);
    assert!(s.enable_vad);
    assert_eq!(s.vad_mode, VadMode::Quality);
    assert_eq!(s.silence_threshold_ms, 1000);
    assert_eq!(s.keyboard_output_delay_ms, 500);
    assert!(s.commands.is_empty());
}

#[test]
fn disabled_features_forward_chunks_unmodified_in_order() {
    let (mut p, status) = AudioProcessorState::new(passthrough_settings(), 16000);
    assert_eq!(status, "Audio processor initialized (denoise: false, VAD: false)");
    let inputs = vec![vec![1i16, 2, 3], vec![4, 5], vec![], vec![i16::MIN, i16::MAX]];
    let mut now: u64 = 0;
    for input in &inputs {
        let out = p.process_chunk(AudioChunk(input.clone()), now);
        assert_eq!(out.forward.0, *input);
        assert!(out.classification.is_none());
        assert!(out.event.is_none());
        now += 100;
    }
}

#[test]
fn sustained_silence_reports_exactly_once_until_voice_resumes() {
    // 44100 Hz is not an engine rate, so the energy fallback classifies
    let (mut p, _status) = AudioProcessorState::new(energy_settings(), 44100);
    let silent = vec![0i16; 100];
    let loud = vec![10000i16; 100];
    let mut events: Vec<bool> = Vec::new();
    let mut now: u64 = 0;
    for _ in 0..15 {
        let out = p.process_chunk(AudioChunk(silent.clone()), now);
        assert_eq!(out.forward.0, silent);
        if let Some(e) = out.event {
            events.push(e);
        }
        now += 100;
    }
    assert_eq!(events, vec![true], "exactly one silence report while silence lasts");
    // voice resumes: exactly one voice report after the debounce window
    for _ in 0..12 {
        let out = p.process_chunk(AudioChunk(loud.clone()), now);
        if let Some(e) = out.event {
            events.push(e);
        }
        now += 100;
    }
    assert_eq!(events, vec![true, false]);
}

#[test]
fn short_chunk_is_not_classified_with_the_engine() {
    // 16000 Hz is an engine rate: a 30 ms frame is 480 samples
    let mut s = Settings::default();
    s.enable_denoise = false;
    let (mut p, status) = AudioProcessorState::new(s, 16000);
    assert_eq!(status, "Audio processor initialized (denoise: false, VAD: true)");
    let short = vec![0i16; 100];
    let out = p.process_chunk(AudioChunk(short.clone()), 0);
    assert_eq!(out.forward.0, short);
    assert!(out.classification.is_none(), "a chunk shorter than one frame is not evaluated");
    assert!(out.event.is_none());
    // a whole frame is evaluated
    let frame = vec![0i16; 480];
    let out2 = p.process_chunk(AudioChunk(frame.clone()), 100);
    assert_eq!(out2.forward.0, frame);
    assert!(out2.classification.is_some(), "a whole 30 ms frame reaches the engine");
    p.shutdown();
    let out3 = p.process_chunk(AudioChunk(frame.clone()), 200);
    assert_eq!(out3.forward.0, frame);
    assert!(out3.classification.is_none(), "a shut-down stage classifies nothing");
    assert!(out3.event.is_none());
}

#[test]
fn segmentation_needs_both_frames_and_elapsed_time() {
    let mut seg = SegmentationState::new();
    assert_eq!(seg.reported, Classification::Voice);
    // nine silent frames within the threshold: no report
    let mut now: u64 = 0;
    let mut reports = 0;
    for _ in 0..9 {
        if seg.observe_frame(false, now, 1000).is_some() {
            reports += 1;
        }
        now += 50;
    }
    assert_eq!(reports, 0, "neither ten frames nor the time threshold reached");
    // enough frames but not enough elapsed time
    if seg.observe_frame(false, 450, 1000).is_some() {
        reports += 1;
    }
    assert_eq!(reports, 0, "time threshold not reached");
    // past the threshold: exactly one report
    let e = seg.observe_frame(false, 1200, 1000);
    assert_eq!(e, Some(true));
    assert_eq!(seg.reported, Classification::Silent);
}

#[test]
fn energy_threshold_is_a_strict_mean_comparison() {
    let samples = vec![100i16; 10];
    // sum of squares is 100000; mean square is 10000
    assert!(energy_exceeds(&samples, 9999));
    assert!(!energy_exceeds(&samples, 10000));
    assert!(!energy_exceeds(&Vec::new(), 0), "an empty chunk counts as silence");
}

#[test]
fn denoise_frames_pad_and_reassemble_exactly() {
    let samples: Vec<i16> = (0..1000).map(|i| i as i16).collect();
    let blocks = frame_blocks(&samples);
    assert_eq!(blocks.len(), 3);
    for b in &blocks {
        assert_eq!(b.len(), DENOISE_FRAME_SIZE);
    }
    assert_eq!(blocks[0][0], 0);
    assert_eq!(blocks[2][39], 999);
    assert_eq!(blocks[2][40], 0, "the last frame is padded with silence");
    let back = reassemble(&blocks, samples.len());
    assert_eq!(back, samples);
}

#[test]
fn capture_start_and_stop_are_idempotent() {
    let mut c = AudioCaptureState::new();
    assert_eq!(c.audio_state, AudioState::Stopped);
    assert!(c.start_decision());
    let status = c.on_start_result(true);
    assert_eq!(status.as_deref(), Some("Audio capture started"));
    assert!(!c.start_decision(), "a second Start is a no-op");
    assert_eq!(c.on_stop().as_deref(), Some("Audio capture stopped"));
    assert_eq!(c.on_stop(), None, "a second Stop is a no-op");
    assert_eq!(c.audio_state, AudioState::Stopped);
}

#[test]
fn failed_stream_open_leaves_capture_stopped() {
    let mut c = AudioCaptureState::new();
    assert!(c.start_decision());
    assert_eq!(c.on_start_result(false), None);
    assert_eq!(c.audio_state, AudioState::Stopped);
    assert!(c.start_decision(), "a failed open may be retried");
}

#[test]
fn transcriber_shutdown_kills_at_most_once() {
    let mut t = TranscriberState::new(16000);
    assert!(!t.is_shutting_down);
    assert!(t.accept_chunk(AudioChunk(vec![1, 2])).is_some());
    let first = t.shutdown();
    assert!(first, "the first shutdown kills the subprocess");
    let after_first = t;
    let second = t.shutdown();
    assert!(!second, "the second shutdown must not kill again");
    assert_eq!(t, after_first, "a second shutdown changes nothing");
    assert!(t.accept_chunk(AudioChunk(vec![3])).is_none(), "chunks are dropped after shutdown");
}

#[test]
fn transcriber_serializes_chunks_at_its_sample_rate() {
    let t = TranscriberState::new(16000);
    let line = t.chunk_line(&AudioChunk(vec![5, -6]));
    assert_eq!(line, "{\"samples\":[5,-6],\"sample_rate\":16000}");
}

#[test]
fn reader_routes_final_partial_and_malformed_lines() {
    match route_result_line("{\"text\":\"turn on lights\",\"is_final\":true,\"confidence\":0.9}") {
        ReaderEvent::Final { transcription, status } => {
            assert_eq!(transcription.0, "turn on lights");
            assert_eq!(status, "Transcribed: turn on lights (confidence: 90.0%)");
        },
        _ => panic!("a final line must route as Final"),
    }
    match route_result_line("{\"text\":\"hello\",\"is_final\":true,\"confidence\":null}") {
        ReaderEvent::Final { transcription, status } => {
            assert_eq!(transcription.0, "hello");
            assert_eq!(status, "Transcribed: hello");
        },
        _ => panic!("a final line must route as Final"),
    }
    match route_result_line("{\"text\":\"hel\",\"is_final\":false,\"confidence\":null}") {
        ReaderEvent::Partial { status } => assert_eq!(status, "Partial: hel"),
        _ => panic!("a partial line must route as Partial"),
    }
    assert!(matches!(route_result_line("not json at all"), ReaderEvent::Skip));
}

#[test]
fn keyboard_output_is_gated_by_the_enabled_flag() {
    let settings = Settings::default();
    let mut k = KeyboardOutputState::new(&settings);
    assert!(!k.enabled, "disabled by default for safety");
    let r = k.handle(KeyboardOutputMsg::TypeText(String::from("hi")));
    assert!(r.inject.is_none(), "nothing is typed while disabled");
    assert_eq!(r.status.as_deref(), Some("Keyboard output is disabled (enable in settings)"));
    let r = k.handle(KeyboardOutputMsg::Enable(true));
    assert_eq!(r.status.as_deref(), Some("Keyboard output enabled"));
    let r = k.handle(KeyboardOutputMsg::TypeText(String::from("hi")));
    assert_eq!(r.inject.as_deref(), Some("hi"));
    assert!(r.status.is_none(), "the status follows the injection attempt");
    assert_eq!(k.on_inject_result("hi", None), "Typed text: hi");
    assert_eq!(
        k.on_inject_result("hi", Some("no display")),
        "Failed to type text: no display"
    );
    let r = k.handle(KeyboardOutputMsg::Enable(false));
    assert_eq!(r.status.as_deref(), Some("Keyboard output disabled"));
    assert!(k.handle(KeyboardOutputMsg::TypeText(String::from("x"))).inject.is_none());
}

#[test]
fn coordinator_reports_disabled_instead_of_typing() {
    let settings = Settings::default();
    assert!(!settings.enable_keyboard_output);
    let (c, init) = CoordinatorState::new(settings);
    assert_eq!(init, "Initialized");
    let effects = c.handle(CoordinatorMsg::TranscriptionResult(FinalTranscription(
        String::from("hello world"),
    )));
    assert_eq!(effects.len(), 2);
    match &effects[0] {
        CoordinatorEffect::Ui(AppOutput::UpdateTranscription(t)) => assert_eq!(t, "hello world"),
        _ => panic!("the transcription goes to the UI first"),
    }
    match &effects[1] {
        CoordinatorEffect::Ui(AppOutput::UpdateStatus(s)) => {
            assert_eq!(s, "Keyboard output is disabled (enable in settings)");
        },
        _ => panic!("with output disabled a disabled status is reported"),
    }
    for e in &effects {
        assert!(!matches!(e, CoordinatorEffect::Keyboard(_)), "nothing reaches the keyboard");
    }
}

#[test]
fn coordinator_types_unmatched_text_when_enabled() {
    let mut settings = Settings::default();
    settings.enable_keyboard_output = true;
    let (c, _) = CoordinatorState::new(settings);
    let effects = c.handle(CoordinatorMsg::TranscriptionResult(FinalTranscription(
        String::from("hello world"),
    )));
    match &effects[1] {
        CoordinatorEffect::Keyboard(KeyboardOutputMsg::TypeText(t)) => assert_eq!(t, "hello world"),
        _ => panic!("with output enabled, unmatched text is typed literally"),
    }
}

#[test]
fn coordinator_dispatches_exec_without_typing() {
    let mut settings = Settings::default();
    settings.commands = vec![(
        String::from("turn on lights"),
        CommandAction::Exec(String::from("lights-cli on")),
    )];
    let (c, _) = CoordinatorState::new(settings);
    // the line as the recognition subprocess writes it
    let event = route_result_line(
        "{\"text\":\"turn on lights\",\"is_final\":true,\"confidence\":0.9}",
    );
    let transcription = match event {
        ReaderEvent::Final { transcription, .. } => transcription,
        _ => panic!("expected a final result"),
    };
    let effects = c.handle(CoordinatorMsg::TranscriptionResult(transcription));
    assert_eq!(effects.len(), 2);
    match &effects[1] {
        CoordinatorEffect::Spawn { program, args } => {
            assert_eq!(program, "lights-cli");
            assert_eq!(args, &vec![String::from("on")]);
        },
        _ => panic!("a matched Exec spawns the program"),
    }
    for e in &effects {
        assert!(!matches!(e, CoordinatorEffect::Keyboard(_)), "no keystrokes are typed");
    }
}

#[test]
fn coordinator_routes_control_and_status_messages() {
    let (c, _) = CoordinatorState::new(Settings::default());
    let effects = c.handle(CoordinatorMsg::StartListening);
    assert!(matches!(effects[0], CoordinatorEffect::Capture(_)));
    let effects = c.handle(CoordinatorMsg::SilenceDetected(true));
    match &effects[0] {
        CoordinatorEffect::Ui(AppOutput::UpdateStatus(s)) => assert_eq!(s, "Silence detected"),
        _ => panic!("silence events go to the UI"),
    }
    let effects = c.handle(CoordinatorMsg::AudioChunk(AudioChunk(vec![1, 2])));
    assert!(matches!(effects[0], CoordinatorEffect::Processor(_)));
    let shutdown = c.shutdown_effects();
    assert_eq!(shutdown.len(), 3);
    assert!(matches!(shutdown[0], CoordinatorEffect::Processor(_)));
    assert!(matches!(shutdown[1], CoordinatorEffect::Transcriber(_)));
    assert!(matches!(shutdown[2], CoordinatorEffect::Keyboard(_)));
}
