use memobreeze::model::{
    MinutesOptions, RecordingOptions, Stamp, TranscriptSegment, TranscriptToken,
    TranscriptionEngine, UtcTime,
};
use memobreeze::state::{collect_speaker_embeddings, AppState, SegmentRecord};

fn stamp(seconds: f32) -> Stamp {
    let bits = seconds.to_bits();
    let clamped = seconds.max(0.0);
    Stamp {
        bits,
        minutes: (clamped / 60.0).floor() as u32,
        seconds: (clamped % 60.0).floor() as u32,
    }
}

fn bits(v: &[f32]) -> Vec<u32> {
    v.iter().map(|x| x.to_bits()).collect()
}

fn sample_options() -> RecordingOptions {
    RecordingOptions {
        engine: TranscriptionEngine::Whisper,
        model_path: "/tmp/vosk-model".to_string(),
        speaker_model_path: None,
        whisper_model_path: "/tmp/ggml-base.bin".to_string(),
        whisper_language: Some("ja".to_string()),
        whisper_command: "whisper-cli".to_string(),
        enable_input: true,
        enable_output: false,
        energy_threshold_bits: 0.0f32.to_bits(),
    }
}

fn sample_segment(id: &str, start: f32, speaker: &str) -> TranscriptSegment {
    TranscriptSegment {
        id: id.to_string(),
        speaker: speaker.to_string(),
        text: format!("text-{id}"),
        start: stamp(start),
        end: stamp(start + 1.0),
        tokens: vec![TranscriptToken {
            text: "hello".to_string(),
            start: stamp(start),
            end: stamp(start + 0.2),
            confidence_bits: 0.9f32.to_bits(),
        }],
        is_final: false,
    }
}

#[test]
fn start_session_sets_options_and_clears_completed() {
    let mut state = AppState::<()>::default();
    let session_id = state.start_session(sample_options());
    assert!(!session_id.is_empty());
    assert!(state.recording_options().is_some());
    assert_eq!(state.speaker_embeddings(), Vec::<(String, Vec<u32>)>::new());
}

#[test]
fn push_final_inserts_in_start_time_order() {
    let mut state = AppState::<()>::default();
    state.start_session(sample_options());

    state.push_final(sample_segment("b", 20.0, "S2"), None);
    state.push_final(sample_segment("a", 10.0, "S1"), None);
    state.push_final(sample_segment("c", 30.0, "S3"), None);

    let snapshot = state.snapshot().expect("snapshot should exist");
    let ids: Vec<String> = snapshot.segments.iter().map(|s| s.id.clone()).collect();
    assert_eq!(ids, vec!["a".to_string(), "b".to_string(), "c".to_string()]);
}

#[test]
fn push_final_updates_existing_segment_instead_of_duplicate() {
    let mut state = AppState::<()>::default();
    state.start_session(sample_options());

    state.push_final(sample_segment("x", 10.0, "S1"), Some(bits(&[0.1, 0.2])));
    let mut updated = sample_segment("x", 10.0, "S1");
    updated.text = "updated".to_string();
    state.push_final(updated, Some(bits(&[0.3, 0.4])));

    let snapshot = state.snapshot().expect("snapshot should exist");
    assert_eq!(snapshot.segments.len(), 1);
    assert_eq!(snapshot.segments[0].text, "updated");

    let embeddings = state.speaker_embeddings();
    assert_eq!(embeddings.len(), 1);
    assert_eq!(embeddings[0].1, bits(&[0.3, 0.4]));
}

#[test]
fn assign_speaker_if_changed_returns_none_when_same() {
    let mut state = AppState::<()>::default();
    state.start_session(sample_options());
    state.push_final(sample_segment("x", 0.0, "Speaker 1"), None);

    let result = state.assign_speaker_if_changed("x", "Speaker 1");
    assert!(result.is_none());
}

#[test]
fn assign_speaker_if_changed_updates_when_different() {
    let mut state = AppState::<()>::default();
    state.start_session(sample_options());
    state.push_final(sample_segment("x", 0.0, "Speaker 1"), None);

    let result = state
        .assign_speaker_if_changed("x", "Speaker 2")
        .expect("segment should be updated");
    assert_eq!(result.speaker, "Speaker 2");
}

#[test]
fn update_segment_returns_none_for_missing_segment() {
    let mut state = AppState::<()>::default();
    state.start_session(sample_options());

    let result = state.update_segment(sample_segment("missing", 0.0, "S1"));
    assert!(result.is_none());
}

#[test]
fn stop_session_preserves_last_options() {
    let mut state = AppState::<()>::default();
    let options = sample_options();
    state.start_session(options.clone());
    state.push_final(sample_segment("x", 0.0, "S1"), None);

    state.stop_session();

    let restored = state.recording_options().expect("options should persist");
    assert_eq!(restored.whisper_model_path, options.whisper_model_path);
    assert!(state.snapshot().is_none());
}

#[test]
fn speaker_embeddings_read_from_completed_after_stop() {
    let mut state = AppState::<()>::default();
    state.start_session(sample_options());
    state.push_final(sample_segment("x", 0.0, "S1"), Some(bits(&[1.0, 2.0, 3.0])));

    state.stop_session();

    let embeddings = state.speaker_embeddings();
    assert_eq!(embeddings, vec![("x".to_string(), bits(&[1.0, 2.0, 3.0]))]);
}

#[test]
fn snapshot_contains_segments_while_session_is_active() {
    let mut state = AppState::<()>::default();
    state.start_session(sample_options());
    state.push_final(sample_segment("x", 5.0, "S1"), None);

    let snapshot = state.snapshot().expect("active snapshot");
    assert_eq!(snapshot.segments.len(), 1);
    assert_eq!(snapshot.segments[0].id, "x");
}

#[test]
fn push_final_marks_final_and_push_partial_appends_unfinal() {
    let mut state = AppState::<()>::default();
    state.start_session(sample_options());
    let partial = state.push_partial(sample_segment("p", 50.0, "S1"), None);
    assert!(!partial.is_final);
    let fin = state.push_final(sample_segment("a", 60.0, "S1"), None);
    assert!(fin.is_final);
    let early = state.push_final(sample_segment("e", 1.0, "S1"), None);
    assert!(early.is_final);
    let ids: Vec<String> = state.snapshot().unwrap().segments.iter().map(|s| s.id.clone()).collect();
    assert_eq!(ids, vec!["e".to_string(), "p".to_string(), "a".to_string()]);
}

#[test]
fn push_final_without_session_changes_nothing() {
    let mut state = AppState::<()>::default();
    let out = state.push_final(sample_segment("x", 1.0, "S1"), None);
    assert!(out.is_final);
    assert!(state.snapshot().is_none());
    assert!(state.speaker_embeddings().is_empty());
}

#[test]
fn push_final_with_equal_start_goes_before_the_existing_one() {
    let mut state = AppState::<()>::default();
    state.start_session(sample_options());
    state.push_final(sample_segment("first", 10.0, "S1"), None);
    state.push_final(sample_segment("second", 10.0, "S1"), None);
    let ids: Vec<String> = state.snapshot().unwrap().segments.iter().map(|s| s.id.clone()).collect();
    assert_eq!(ids, vec!["second".to_string(), "first".to_string()]);
}

#[test]
fn update_and_assign_speaker_change_the_stored_segment() {
    let mut state = AppState::<()>::default();
    state.start_session(sample_options());
    state.push_final(sample_segment("x", 0.0, "S1"), None);
    let mut edited = sample_segment("x", 0.0, "S1");
    edited.text = "edited".to_string();
    let updated = state.update_segment(edited).expect("segment exists");
    assert_eq!(updated.text, "edited");
    let named = state.assign_speaker("x", "Alice").expect("segment exists");
    assert_eq!(named.speaker, "Alice");
    assert!(state.assign_speaker("nope", "Bob").is_none());
    assert_eq!(state.snapshot().unwrap().segments[0].speaker, "Alice");
}

#[test]
fn speaker_change_twice_is_idempotent() {
    let mut state = AppState::<()>::default();
    state.start_session(sample_options());
    state.push_final(sample_segment("x", 0.0, "S1"), None);
    assert!(state.assign_speaker_if_changed("x", "S2").is_some());
    assert!(state.assign_speaker_if_changed("x", "S2").is_none());
}

#[test]
fn runtime_makes_the_session_active_until_stopped() {
    let mut state = AppState::<u8>::default();
    assert!(!state.is_active());
    state.start_session(sample_options());
    assert!(!state.is_active());
    state.set_runtime(7);
    assert!(state.is_active());
    assert_eq!(state.stop_session(), Some(7));
    assert!(!state.is_active());
}

#[test]
fn minutes_options_survive_the_session() {
    let mut state = AppState::<()>::default();
    state.start_session(sample_options());
    state.set_minutes_options(MinutesOptions {
        preset: "default".to_string(),
        format: "meeting".to_string(),
        block_size_minutes: 5,
        model: "llama3".to_string(),
        temperature_bits: 0.2f32.to_bits(),
    });
    state.stop_session();
    assert!(state.recording_options().is_some());
}

#[test]
fn snapshot_keeps_id_and_start_time() {
    let mut state = AppState::<()>::default();
    let started = UtcTime::from_unix(1_700_000_000, 0).unwrap();
    let id = state.start_session_with("session-1".to_string(), started, sample_options());
    assert_eq!(id, "session-1");
    let snap = state.snapshot().unwrap();
    assert_eq!(snap.id, "session-1");
    assert_eq!(snap.started_at.secs(), 1_700_000_000);
}

#[test]
fn collect_speaker_embeddings_skips_records_without_one() {
    let records = vec![
        SegmentRecord { segment: sample_segment("a", 0.0, "S1"), embedding: None },
        SegmentRecord { segment: sample_segment("b", 1.0, "S1"), embedding: Some(vec![1, 2]) },
    ];
    assert_eq!(collect_speaker_embeddings(&records), vec![("b".to_string(), vec![1, 2])]);
}

#[test]
fn session_identifiers_are_hyphenated_uuids() {
    let mut state = AppState::<()>::default();
    let id = state.start_session(sample_options());
    assert_eq!(id.len(), 36);
    for (i, c) in id.chars().enumerate() {
        if [8, 13, 18, 23].contains(&i) {
            assert_eq!(c, '-');
        } else {
            assert!(c.is_ascii_hexdigit() && !c.is_ascii_uppercase());
        }
    }
}

#[test]
fn session_identifiers_are_version_four() {
    let mut state = AppState::<()>::default();
    let id = state.start_session(sample_options());
    assert_eq!(id.chars().nth(14), Some('4'));
    assert!(matches!(id.chars().nth(19), Some('8' | '9' | 'a' | 'b')));
}

#[test]
fn push_final_places_zero_before_an_equal_negative_zero() {
    let mut state = AppState::<()>::default();
    state.start_session(sample_options());
    state.push_final(sample_segment("neg", -0.0, "S1"), None);
    state.push_final(sample_segment("pos", 0.0, "S2"), None);
    state.push_final(sample_segment("late", 1.0, "S3"), None);
    let ids: Vec<String> = state.snapshot().unwrap().segments.iter().map(|s| s.id.clone()).collect();
    assert_eq!(ids, vec!["pos", "neg", "late"]);
}
