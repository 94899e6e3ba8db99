use memobreeze::model::{RecordingOptions, Stamp, TranscriptSegment, TranscriptionEngine};
use memobreeze::speaker::{
    apply_speaker_labels, flatten_embeddings, plan_clustering, speaker_assignments, speaker_label,
    ClusterPlan,
};
use memobreeze::state::AppState;

fn e(id: &str, v: &[u32]) -> (String, Vec<u32>) {
    (id.to_string(), v.to_vec())
}

fn stamp0() -> Stamp {
    Stamp { bits: 0, minutes: 0, seconds: 0 }
}

fn segment(id: &str, speaker: &str) -> TranscriptSegment {
    TranscriptSegment {
        id: id.to_string(),
        speaker: speaker.to_string(),
        text: "t".to_string(),
        start: stamp0(),
        end: stamp0(),
        tokens: Vec::new(),
        is_final: true,
    }
}

fn options() -> RecordingOptions {
    RecordingOptions {
        engine: TranscriptionEngine::Whisper,
        model_path: String::new(),
        speaker_model_path: None,
        whisper_model_path: "m".to_string(),
        whisper_language: None,
        whisper_command: "whisper-cli".to_string(),
        enable_input: true,
        enable_output: false,
        energy_threshold_bits: 0,
    }
}

#[test]
fn clustering_needs_two_embeddings_of_one_nonzero_length() {
    assert_eq!(plan_clustering(&vec![e("a", &[1])]), None);
    assert_eq!(plan_clustering(&vec![e("a", &[]), e("b", &[])]), None);
    assert_eq!(plan_clustering(&vec![e("a", &[1, 2]), e("b", &[3])]), None);
    assert_eq!(
        plan_clustering(&vec![e("a", &[1, 2]), e("b", &[3, 4])]),
        Some(ClusterPlan { count: 2, dimension: 2, clusters: 2 })
    );
}

#[test]
fn cluster_count_is_capped_at_six() {
    let many: Vec<(String, Vec<u32>)> = (0..9).map(|i| e(&format!("s{i}"), &[i])).collect();
    assert_eq!(plan_clustering(&many).unwrap().clusters, 6);
    let four: Vec<(String, Vec<u32>)> = (0..4).map(|i| e(&format!("s{i}"), &[i])).collect();
    assert_eq!(plan_clustering(&four).unwrap().clusters, 4);
}

#[test]
fn embeddings_flatten_row_by_row() {
    assert_eq!(flatten_embeddings(&vec![e("a", &[1, 2]), e("b", &[3, 4])]), vec![1, 2, 3, 4]);
}

#[test]
fn labels_are_one_based_and_capped() {
    assert_eq!(speaker_label(0), "Speaker 1");
    assert_eq!(speaker_label(11), "Speaker 12");
    let emb = vec![e("a", &[1]), e("b", &[2]), e("c", &[3])];
    let out = speaker_assignments(&emb, &[1, 7], 2);
    assert_eq!(
        out,
        vec![
            ("a".to_string(), "Speaker 2".to_string()),
            ("b".to_string(), "Speaker 2".to_string()),
            ("c".to_string(), "Speaker 1".to_string()),
        ]
    );
}

#[test]
fn applying_labels_reports_only_changed_segments() {
    let mut state = AppState::<()>::default();
    state.start_session(options());
    state.push_final(segment("a", "Speaker 1"), None);
    state.push_final(segment("b", "Unknown"), None);
    let assignments = vec![
        ("a".to_string(), "Speaker 1".to_string()),
        ("b".to_string(), "Speaker 2".to_string()),
        ("missing".to_string(), "Speaker 1".to_string()),
    ];
    let changed = apply_speaker_labels(&mut state, &assignments);
    assert_eq!(changed.len(), 1);
    assert_eq!(changed[0].id, "b");
    assert_eq!(changed[0].speaker, "Speaker 2");
    assert!(apply_speaker_labels(&mut state, &assignments).is_empty());
}
