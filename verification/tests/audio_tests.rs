use memobreeze::audio::{
    build_segment_from_result, recognition_start, whisper_segment, RecognitionResult, RecognizedWord,
    check_audio_sources, final_segment_id, normalize_whisper_text, partial_segment_id, transmit_chunk_i16, transmit_chunk_u16,
    wav_mono_i16, whisper_args, whisper_program, WhisperSegmenter,
};

#[test]
fn stereo_i16_frames_average_toward_zero() {
    let out = transmit_chunk_i16(&[10, 20, -3, -4, 7], 2).unwrap();
    assert_eq!(out, vec![15, -3, 3]);
}

#[test]
fn empty_chunks_send_nothing() {
    assert!(transmit_chunk_i16(&[], 2).is_none());
    assert!(transmit_chunk_u16(&[], 1).is_none());
}

#[test]
fn mono_i16_passes_through_and_extremes_stay_in_range() {
    assert_eq!(transmit_chunk_i16(&[1, -2, 3], 1).unwrap(), vec![1, -2, 3]);
    assert_eq!(transmit_chunk_i16(&[i16::MIN, i16::MIN], 2).unwrap(), vec![i16::MIN]);
    assert_eq!(transmit_chunk_i16(&[i16::MAX, i16::MAX, i16::MAX], 3).unwrap(), vec![i16::MAX]);
}

#[test]
fn u16_samples_are_centred_before_averaging() {
    let out = transmit_chunk_u16(&[32768, 32768, 0, 65535, 40000], 2).unwrap();
    assert_eq!(out, vec![0, 0, 3616]);
}

#[test]
fn whisper_text_joins_trimmed_nonblank_lines() {
    assert_eq!(normalize_whisper_text("  hello \n\n world  \r\n"), "hello world");
    assert_eq!(normalize_whisper_text("\n \n"), "");
}

#[test]
fn segmenter_cuts_speech_at_enough_silence() {
    let mut seg = WhisperSegmenter::new(4, 3);
    assert!(seg.accept_chunk(&[0, 0], true).is_none());
    assert!(seg.accept_chunk(&[5, 6, 7], false).is_none());
    assert!(seg.accept_chunk(&[1, 1], true).is_none());
    let span = seg.accept_chunk(&[0, 0], true).expect("speech ends");
    assert_eq!(span.samples, vec![5, 6, 7]);
    assert_eq!(span.start, 2);
    assert_eq!(span.end, 5);
    assert!(seg.finish().is_none());
}

#[test]
fn segmenter_drops_speech_shorter_than_the_minimum() {
    let mut seg = WhisperSegmenter::new(2, 5);
    assert!(seg.accept_chunk(&[9, 9], false).is_none());
    assert!(seg.accept_chunk(&[0, 0], true).is_none());
    assert!(seg.accept_chunk(&[8, 8, 8, 8, 8], false).is_none());
    let tail = seg.finish().expect("long enough at the end");
    assert_eq!(tail.samples, vec![8, 8, 8, 8, 8]);
    assert_eq!(tail.start, 4);
    assert_eq!(tail.end, 9);
}

#[test]
fn silent_streams_give_no_speech() {
    let mut seg = WhisperSegmenter::new(1, 1);
    for _ in 0..5 {
        assert!(seg.accept_chunk(&[0, 0, 0], true).is_none());
    }
    assert!(seg.accept_chunk(&[], false).is_none());
    assert!(seg.finish().is_none());
}

#[test]
fn consecutive_spans_do_not_overlap() {
    let mut seg = WhisperSegmenter::new(1, 1);
    let a = seg.accept_chunk(&[1, 2], false);
    assert!(a.is_none());
    let a = seg.accept_chunk(&[0], true).unwrap();
    let b0 = seg.accept_chunk(&[3], false);
    assert!(b0.is_none());
    let b = seg.accept_chunk(&[0, 0], true).unwrap();
    assert_eq!((a.start, a.end), (0, 2));
    assert_eq!((b.start, b.end), (3, 4));
    assert!(a.end <= b.start);
}

#[test]
fn wav_bytes_have_the_riff_header_and_le_samples() {
    let bytes = wav_mono_i16(&[1, -2], 16000);
    let mut expected: Vec<u8> = Vec::new();
    expected.extend_from_slice(b"RIFF");
    expected.extend_from_slice(&40u32.to_le_bytes());
    expected.extend_from_slice(b"WAVE");
    expected.extend_from_slice(b"fmt ");
    expected.extend_from_slice(&16u32.to_le_bytes());
    expected.extend_from_slice(&1u16.to_le_bytes());
    expected.extend_from_slice(&1u16.to_le_bytes());
    expected.extend_from_slice(&16000u32.to_le_bytes());
    expected.extend_from_slice(&32000u32.to_le_bytes());
    expected.extend_from_slice(&2u16.to_le_bytes());
    expected.extend_from_slice(&16u16.to_le_bytes());
    expected.extend_from_slice(b"data");
    expected.extend_from_slice(&4u32.to_le_bytes());
    expected.extend_from_slice(&1i16.to_le_bytes());
    expected.extend_from_slice(&(-2i16).to_le_bytes());
    assert_eq!(bytes, expected);
    assert_eq!(wav_mono_i16(&[], 8000).len(), 44);
}

#[test]
fn whisper_arguments_add_a_trimmed_language() {
    let args = whisper_args("/m.bin", "/t/a.wav", "/t/a", Some(" ja "));
    assert_eq!(args, vec!["-ng", "-m", "/m.bin", "-f", "/t/a.wav", "-otxt", "-of", "/t/a", "-l", "ja"]);
    let no_lang = whisper_args("m", "w", "o", Some("  "));
    assert_eq!(no_lang.len(), 8);
    assert_eq!(whisper_args("m", "w", "o", None).len(), 8);
    assert_eq!(whisper_program("  whisper-cli "), "whisper-cli");
}

#[test]
fn audio_sources_are_checked() {
    assert_eq!(
        check_audio_sources(false, false, true).unwrap_err(),
        "At least one audio source must be enabled"
    );
    assert_eq!(
        check_audio_sources(false, true, false).unwrap_err(),
        "System audio capture is only supported on macOS. Enable microphone input on this platform."
    );
    assert!(check_audio_sources(false, true, true).is_ok());
    assert!(check_audio_sources(true, true, false).is_ok());
}

#[test]
fn partial_and_final_results_of_one_utterance_share_an_id() {
    let mut pending: Option<String> = None;
    assert!(partial_segment_id(&mut pending, "  ").is_none());
    assert!(pending.is_none());
    let first = partial_segment_id(&mut pending, "hel").unwrap();
    assert_eq!(first.len(), 36);
    let again = partial_segment_id(&mut pending, "hello").unwrap();
    assert_eq!(again, first);
    let fin = final_segment_id(&mut pending, "hello world").unwrap();
    assert_eq!(fin, first);
    assert!(pending.is_none());
    let next = final_segment_id(&mut pending, "next").unwrap();
    assert_ne!(next, first);
}

#[test]
fn blank_final_results_clear_the_pending_id() {
    let mut pending = Some("abc".to_string());
    assert!(final_segment_id(&mut pending, " ").is_none());
    assert!(pending.is_none());
}

fn st(order: i64) -> memobreeze::model::Stamp {
    memobreeze::model::Stamp { bits: order as u32, minutes: 0, seconds: order as u32 }
}

fn word(w: &str, start: i64, end: i64, conf: u32) -> RecognizedWord {
    RecognizedWord { word: w.to_string(), start: st(start), end: st(end), conf_bits: conf }
}

#[test]
fn single_results_take_word_times_and_pending_id() {
    let mut pending = Some("utt-1".to_string());
    let mut last_end = st(3);
    let result = RecognitionResult::Single {
        text: "  hello world ".to_string(),
        words: vec![word("hello", 5, 6, 9), word("world", 4, 8, 7)],
        speaker_vector: Some(vec![1, 2]),
    };
    let (seg, vector) = build_segment_from_result(result, &mut pending, &mut last_end, st(4)).unwrap();
    assert_eq!(seg.id, "utt-1");
    assert_eq!(seg.text, "hello world");
    assert_eq!(seg.speaker, "Unknown");
    assert!(seg.is_final);
    assert_eq!(seg.start, st(4));
    assert_eq!(seg.end, st(8));
    assert_eq!(seg.tokens.len(), 2);
    assert_eq!(seg.tokens[1].text, "world");
    assert_eq!(seg.tokens[1].confidence_bits, 7);
    assert_eq!(vector, Some(vec![1, 2]));
    assert_eq!(last_end, st(8));
    assert!(pending.is_none());
}

#[test]
fn results_without_words_run_from_the_last_end() {
    let mut pending = None;
    let mut last_end = st(10);
    let result = RecognitionResult::Multiple { alternatives: vec![("ok".to_string(), Vec::new(), 42)] };
    let (seg, vector) = build_segment_from_result(result, &mut pending, &mut last_end, st(15)).unwrap();
    assert_eq!(seg.id.len(), 36);
    assert_eq!(seg.start, st(10));
    assert_eq!(seg.end, st(15));
    assert_eq!(last_end, st(15));
    assert!(vector.is_none());
}

#[test]
fn alternatives_share_their_confidence() {
    let mut pending = None;
    let mut last_end = st(0);
    let result = RecognitionResult::Multiple {
        alternatives: vec![("a b".to_string(), vec![word("a", 1, 2, 5)], 77), ("x".to_string(), Vec::new(), 1)],
    };
    let (seg, _) = build_segment_from_result(result, &mut pending, &mut last_end, st(1)).unwrap();
    assert_eq!(seg.text, "a b");
    assert_eq!(seg.tokens[0].confidence_bits, 77);
}

#[test]
fn blank_or_missing_results_give_nothing() {
    let mut pending = Some("p".to_string());
    let mut last_end = st(2);
    let none = RecognitionResult::Multiple { alternatives: Vec::new() };
    assert!(build_segment_from_result(none, &mut pending, &mut last_end, st(3)).is_none());
    assert_eq!(pending, Some("p".to_string()));
    let blank = RecognitionResult::Single { text: "  ".to_string(), words: Vec::new(), speaker_vector: None };
    assert!(build_segment_from_result(blank, &mut pending, &mut last_end, st(3)).is_none());
    assert!(pending.is_none());
    assert_eq!(last_end, st(2));
}

#[test]
fn whisper_text_normalising_twice_changes_nothing() {
    let once = normalize_whisper_text(" a \n\n  b c \r\n");
    assert_eq!(once, "a b c");
    assert_eq!(normalize_whisper_text(&once), once);
}

fn fs(x: f32) -> memobreeze::model::Stamp {
    memobreeze::model::Stamp { bits: x.to_bits(), minutes: 0, seconds: 0 }
}

fn fword(w: &str, start: f32, end: f32) -> RecognizedWord {
    RecognizedWord { word: w.to_string(), start: fs(start), end: fs(end), conf_bits: 0 }
}

#[test]
fn u16_frames_are_centred_means_clamped_into_i16() {
    assert_eq!(transmit_chunk_u16(&[65535, 65535, 0, 32768], 2).unwrap(), vec![32767, -16384]);
    assert_eq!(transmit_chunk_u16(&[0, 0, 0, 1], 3).unwrap(), vec![-32768, -10922]);
}

#[test]
fn nan_word_times_are_passed_over() {
    let words = vec![fword("a", f32::NAN, f32::NAN), fword("b", 2.0, f32::NAN)];
    let result = RecognitionResult::Single { text: "a b".to_string(), words, speaker_vector: None };
    let start = recognition_start(&result, &fs(1.0));
    assert_eq!(start, fs(2.0));
    let half = fs(f32::from_bits(start.bits) + 0.5);
    let mut pending = None;
    let mut last_end = fs(1.0);
    let (seg, _) = build_segment_from_result(result, &mut pending, &mut last_end, half).unwrap();
    assert_eq!(seg.start, fs(2.0));
    assert_eq!(seg.end, fs(2.5));
    assert_eq!(last_end, fs(2.5));
}

#[test]
fn missing_ends_fall_back_to_half_a_second_or_the_last_end() {
    let empty = RecognitionResult::Single { text: "ok".to_string(), words: Vec::new(), speaker_vector: None };
    let start = recognition_start(&empty, &fs(3.0));
    assert_eq!(start, fs(3.0));
    let mut pending = None;
    let mut last_end = fs(3.0);
    let (seg, _) = build_segment_from_result(empty, &mut pending, &mut last_end, fs(3.5)).unwrap();
    assert_eq!((seg.start, seg.end), (fs(3.0), fs(3.5)));

    let early = RecognitionResult::Single {
        text: "ok".to_string(),
        words: vec![fword("a", 1.0, f32::NAN)],
        speaker_vector: None,
    };
    assert_eq!(recognition_start(&early, &fs(5.0)), fs(1.0));
    let mut last_end = fs(5.0);
    let (seg, _) = build_segment_from_result(early, &mut pending, &mut last_end, fs(1.5)).unwrap();
    assert_eq!((seg.start, seg.end), (fs(1.0), fs(5.0)));
}

#[test]
fn a_start_of_f32_max_counts_as_no_start() {
    let result = RecognitionResult::Single {
        text: "x".to_string(),
        words: vec![fword("x", f32::MAX, 2.0)],
        speaker_vector: None,
    };
    assert_eq!(recognition_start(&result, &fs(1.0)), fs(1.0));
    let alternatives = RecognitionResult::Multiple { alternatives: Vec::new() };
    assert_eq!(recognition_start(&alternatives, &fs(7.0)), fs(7.0));
}

#[test]
fn whisper_segments_skip_blank_text() {
    assert!(whisper_segment("  \n ".to_string(), fs(0.0), fs(1.0)).is_none());
    let seg = whisper_segment(" hi ".to_string(), fs(1.0), fs(2.0)).unwrap();
    assert_eq!(seg.id.len(), 36);
    assert_eq!(seg.speaker, "Unknown");
    assert_eq!(seg.text, " hi ");
    assert_eq!((seg.start, seg.end), (fs(1.0), fs(2.0)));
    assert!(seg.tokens.is_empty());
    assert!(seg.is_final);
}
