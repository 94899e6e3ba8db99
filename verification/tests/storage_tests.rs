use memobreeze::model::{Stamp, TranscriptSegment, UtcTime};
use memobreeze::storage::{
    google_oauth_token_file_name, minutes_file_name, snapshot_file_name, sort_segments_by_start,
    transcript_file_name, transcript_markdown, GoogleOAuthToken,
};

fn stamp(seconds: f32) -> Stamp {
    let bits = seconds.to_bits();
    let clamped = seconds.max(0.0);
    Stamp {
        bits,
        minutes: (clamped / 60.0).floor() as u32,
        seconds: (clamped % 60.0).floor() as u32,
    }
}

fn segment(id: &str, start: f32, end: f32, speaker: &str, text: &str) -> TranscriptSegment {
    TranscriptSegment {
        id: id.to_string(),
        speaker: speaker.to_string(),
        text: text.to_string(),
        start: stamp(start),
        end: stamp(end),
        tokens: Vec::new(),
        is_final: true,
    }
}

fn t0() -> UtcTime {
    UtcTime::from_unix(1_769_940_000, 0).unwrap()
}

#[test]
fn transcript_markdown_sorts_segments_by_start() {
    let segments = vec![
        segment("b", 30.0, 31.0, "Speaker 2", "  second  "),
        segment("a", 10.0, 11.0, "Speaker 1", " first "),
    ];
    let content = transcript_markdown(&segments, &t0());
    let first_idx = content.find("Speaker 1").unwrap();
    let second_idx = content.find("Speaker 2").unwrap();
    assert!(first_idx < second_idx);
    assert!(content.contains("**Speaker 1**: first"));
    assert!(content.contains("**Speaker 2**: second"));
    assert_eq!(
        content,
        "# Transcript (2026-02-01T10:00:00+00:00)\n\n- [00:10 - 00:11] **Speaker 1**: first\n- [00:30 - 00:31] **Speaker 2**: second\n"
    );
}

#[test]
fn sorting_is_stable_for_equal_starts() {
    let segments = vec![
        segment("x", 5.0, 6.0, "A", "1"),
        segment("y", 1.0, 2.0, "B", "2"),
        segment("z", 5.0, 7.0, "C", "3"),
    ];
    let ids: Vec<String> = sort_segments_by_start(&segments).into_iter().map(|s| s.id).collect();
    assert_eq!(ids, vec!["y", "x", "z"]);
}

#[test]
fn empty_transcript_has_only_the_title() {
    assert_eq!(transcript_markdown(&Vec::new(), &t0()), "# Transcript (2026-02-01T10:00:00+00:00)\n\n");
}

#[test]
fn file_names_follow_the_conventions() {
    assert_eq!(google_oauth_token_file_name(), "google-oauth-token.json");
    assert_eq!(snapshot_file_name("abc"), "session-abc.json");
    assert_eq!(minutes_file_name(&t0()), "minutes-20260201-100000.md");
    assert_eq!(transcript_file_name(&t0()), "transcript-20260201-100000.md");
}

#[test]
fn tokens_copy_exactly() {
    let t = GoogleOAuthToken { access_token: "a".to_string(), refresh_token: "r".to_string(), expires_at: 5 };
    let c = t.copy();
    assert_eq!((c.access_token, c.refresh_token, c.expires_at), ("a".to_string(), "r".to_string(), 5));
}

#[test]
fn sorting_sorted_segments_changes_nothing() {
    let segments = vec![
        segment("p", 1.0, 2.0, "A", "1"),
        segment("q", 1.0, 3.0, "B", "2"),
        segment("r", 4.0, 5.0, "C", "3"),
    ];
    let once = sort_segments_by_start(&segments);
    let twice = sort_segments_by_start(&once);
    let ids = |v: &Vec<TranscriptSegment>| v.iter().map(|s| s.id.clone()).collect::<Vec<_>>();
    assert_eq!(ids(&once), vec!["p", "q", "r"]);
    assert_eq!(ids(&twice), ids(&once));
}

#[test]
fn sorting_puts_negative_zero_before_zero() {
    let segments = vec![
        segment("pos", 0.0, 1.0, "A", "1"),
        segment("neg", -0.0, 1.0, "B", "2"),
        segment("early", -1.0, 0.0, "C", "3"),
    ];
    let ids: Vec<String> = sort_segments_by_start(&segments).into_iter().map(|s| s.id).collect();
    assert_eq!(ids, vec!["early", "neg", "pos"]);
}
