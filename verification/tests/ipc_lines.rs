use whisperkey_core::types::{IpcAudioChunk, IpcTranscriptionResult};
use whisperkey_core::ipc::{encode_chunk_line, encode_result_line, parse_chunk_line, parse_result_line};

#[test]
fn chunk_line_exact() {
    let chunk = IpcAudioChunk { samples: vec![-3, 0, 17], sample_rate: 16000 };
    let line = encode_chunk_line(&chunk);
    assert_eq!(line, "{\"samples\":[-3,0,17],\"sample_rate\":16000}");
}

#[test]
fn chunk_line_empty_samples() {
    let chunk = IpcAudioChunk { samples: vec![], sample_rate: 8000 };
    let line = encode_chunk_line(&chunk);
    assert_eq!(line, "{\"samples\":[],\"sample_rate\":8000}");
    let back = parse_chunk_line(&line).unwrap();
    assert_eq!(back.samples, Vec::<i16>::new());
    assert_eq!(back.sample_rate, 8000);
}

#[test]
fn chunk_round_trip() {
    let chunk = IpcAudioChunk {
        samples: vec![i16::MIN, -1, 0, 1, i16::MAX, 1234, -999],
        sample_rate: 48000,
    };
    let line = encode_chunk_line(&chunk);
    let back = parse_chunk_line(&line).unwrap();
    assert_eq!(back.samples, chunk.samples);
    assert_eq!(back.sample_rate, chunk.sample_rate);
}

#[test]
fn chunk_round_trip_single_sample() {
    let chunk = IpcAudioChunk { samples: vec![7], sample_rate: u32::MAX };
    let back = parse_chunk_line(&encode_chunk_line(&chunk)).unwrap();
    assert_eq!(back.samples, vec![7]);
    assert_eq!(back.sample_rate, u32::MAX);
}

#[test]
fn chunk_line_is_json_for_a_standard_parser() {
    let chunk = IpcAudioChunk { samples: vec![-3, 0, 17], sample_rate: 16000 };
    let line = encode_chunk_line(&chunk);
    let v: serde_json::Value = serde_json::from_str(&line).unwrap();
    assert_eq!(v["sample_rate"].as_u64(), Some(16000));
    let samples = v["samples"].as_array().unwrap();
    assert_eq!(samples.len(), 3);
    assert_eq!(samples[0].as_i64(), Some(-3));
    assert_eq!(samples[1].as_i64(), Some(0));
    assert_eq!(samples[2].as_i64(), Some(17));
}

#[test]
fn chunk_line_malformed_is_rejected() {
    assert!(parse_chunk_line("").is_none());
    assert!(parse_chunk_line("{\"samples\":[1,2],\"sample_rate\":16000").is_none());
    assert!(parse_chunk_line("{\"samples\":[01],\"sample_rate\":16000}").is_none());
    assert!(parse_chunk_line("{\"samples\":[1, 2],\"sample_rate\":16000}").is_none());
    assert!(parse_chunk_line("{\"samples\":[32768],\"sample_rate\":16000}").is_none());
    assert!(parse_chunk_line("{\"samples\":[-32769],\"sample_rate\":16000}").is_none());
    assert!(parse_chunk_line("{\"samples\":[],\"sample_rate\":4294967296}").is_none());
    assert!(parse_chunk_line("{\"samples\":[],\"sample_rate\":16000}x").is_none());
}

#[test]
fn chunk_line_boundary_samples_accepted() {
    let back = parse_chunk_line("{\"samples\":[-32768,32767],\"sample_rate\":1}").unwrap();
    assert_eq!(back.samples, vec![i16::MIN, i16::MAX]);
    assert_eq!(back.sample_rate, 1);
}

#[test]
fn result_line_exact() {
    let res = IpcTranscriptionResult {
        text: String::from("hello"),
        is_final: true,
        confidence: Some(900),
    };
    assert_eq!(
        encode_result_line(&res),
        "{\"text\":\"hello\",\"is_final\":true,\"confidence\":0.9}"
    );
}

#[test]
fn result_line_null_confidence() {
    let res = IpcTranscriptionResult { text: String::from("hi"), is_final: false, confidence: None };
    assert_eq!(
        encode_result_line(&res),
        "{\"text\":\"hi\",\"is_final\":false,\"confidence\":null}"
    );
}

#[test]
fn result_confidence_spellings() {
    for (v, expect) in [
        (0u16, "0"),
        (1000u16, "1"),
        (900u16, "0.9"),
        (950u16, "0.95"),
        (955u16, "0.955"),
        (50u16, "0.05"),
        (5u16, "0.005"),
    ] {
        let res = IpcTranscriptionResult {
            text: String::new(),
            is_final: true,
            confidence: Some(v),
        };
        let line = encode_result_line(&res);
        let expected = format!("{{\"text\":\"\",\"is_final\":true,\"confidence\":{}}}", expect);
        assert_eq!(line, expected);
        let back = parse_result_line(&line).unwrap();
        assert_eq!(back.confidence, Some(v));
    }
}

#[test]
fn result_line_from_a_standard_producer_parses() {
    let line = "{\"text\":\"turn on lights\",\"is_final\":true,\"confidence\":0.9}";
    let res = parse_result_line(line).unwrap();
    assert_eq!(res.text, "turn on lights");
    assert!(res.is_final);
    assert_eq!(res.confidence, Some(900));
}

#[test]
fn result_round_trip_with_escapes() {
    let text = "he said \"stop\"\\ and\nleft\ttown\u{8}\u{c}\r now \u{1} end";
    let res = IpcTranscriptionResult {
        text: String::from(text),
        is_final: true,
        confidence: Some(123),
    };
    let line = encode_result_line(&res);
    let back = parse_result_line(&line).unwrap();
    assert_eq!(back.text, text);
    assert!(back.is_final);
    assert_eq!(back.confidence, Some(123));
}

#[test]
fn result_escaping_matches_a_standard_parser() {
    let text = "quote \" backslash \\ newline \n control \u{2} unicode é and 日本";
    let res = IpcTranscriptionResult {
        text: String::from(text),
        is_final: false,
        confidence: None,
    };
    let line = encode_result_line(&res);
    let v: serde_json::Value = serde_json::from_str(&line).unwrap();
    assert_eq!(v["text"].as_str(), Some(text));
    assert_eq!(v["is_final"].as_bool(), Some(false));
    assert!(v["confidence"].is_null());
}

#[test]
fn result_unicode_escape_is_decoded() {
    let line = "{\"text\":\"\\u0041\\u00e9\",\"is_final\":false,\"confidence\":null}";
    let res = parse_result_line(line).unwrap();
    assert_eq!(res.text, "Aé");
}

#[test]
fn result_line_malformed_is_skipped() {
    // exponent notation, out-of-range and overlong confidences
    assert!(parse_result_line("{\"text\":\"a\",\"is_final\":true,\"confidence\":1e-3}").is_none());
    assert!(parse_result_line("{\"text\":\"a\",\"is_final\":true,\"confidence\":1.5}").is_none());
    assert!(parse_result_line("{\"text\":\"a\",\"is_final\":true,\"confidence\":2}").is_none());
    // unknown escape, bare control character, unterminated string
    assert!(parse_result_line("{\"text\":\"\\q\",\"is_final\":true,\"confidence\":null}").is_none());
    assert!(parse_result_line("{\"text\":\"\u{1}\",\"is_final\":true,\"confidence\":null}").is_none());
    assert!(parse_result_line("{\"text\":\"a,\"is_final\":true,\"confidence\":null}").is_none());
    // wrong key order and trailing input
    assert!(parse_result_line("{\"is_final\":true,\"text\":\"a\",\"confidence\":null}").is_none());
    assert!(parse_result_line("{\"text\":\"a\",\"is_final\":true,\"confidence\":null} ").is_none());
    // an escape outside the Latin range of \u00XX
    assert!(parse_result_line("{\"text\":\"\\u0141\",\"is_final\":true,\"confidence\":null}").is_none());
}
