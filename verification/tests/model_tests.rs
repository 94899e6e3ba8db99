use chrono::TimeZone;
use memobreeze::model::{
    default_whisper_command, format_timestamp, normalize_section_content, MinutesDocument,
    MinutesSection, Stamp, TimelineMarker, TopicSummary, TranscriptionEngine, UtcTime,
};

/// A position on the timeline as the application makes one from seconds.
fn stamp(seconds: f32) -> Stamp {
    let bits = seconds.to_bits();
    let clamped = seconds.max(0.0);
    Stamp {
        bits,
        minutes: (clamped / 60.0).floor() as u32,
        seconds: (clamped % 60.0).floor() as u32,
    }
}

fn at(y: i32, mo: u32, d: u32, h: u32, mi: u32, s: u32) -> UtcTime {
    let t = chrono::Utc.with_ymd_and_hms(y, mo, d, h, mi, s).unwrap();
    UtcTime::from_unix(t.timestamp(), 0).unwrap()
}

fn section(title: &str, content: &str) -> MinutesSection {
    MinutesSection { title: title.to_string(), content: content.to_string() }
}

fn sample_document() -> MinutesDocument<Stamp> {
    MinutesDocument {
        preset: "default".to_string(),
        format: "meeting".to_string(),
        model: "llama3".to_string(),
        generated_at: at(2026, 2, 1, 10, 0, 0),
        summary: section("Summary", "Summary body"),
        decisions: section("Decisions", "Decision A"),
        actions: section("Actions", "Action A"),
        timeline: Vec::new(),
        highlights: None,
        blockers: None,
    }
}

#[test]
fn format_timestamp_clamps_negative_values() {
    assert_eq!(format_timestamp(&stamp(-9.2)), "00:00");
}

#[test]
fn format_timestamp_formats_minutes_and_seconds() {
    assert_eq!(format_timestamp(&stamp(125.9)), "02:05");
}

#[test]
fn format_timestamp_shows_three_digit_minutes() {
    assert_eq!(format_timestamp(&stamp(6000.0)), "100:00");
    assert_eq!(format_timestamp(&stamp(59.99)), "00:59");
}

#[test]
fn as_markdown_uses_fallback_for_empty_sections() {
    let mut doc = sample_document();
    doc.summary.content = "   ".to_string();
    doc.decisions.content = "\n".to_string();
    doc.actions.content = "".to_string();

    let markdown = doc.as_markdown();
    assert!(markdown.contains("## Summary\n- (抽出なし)"));
    assert!(markdown.contains("## 決定事項 / Decisions\n- (抽出なし)"));
    assert!(markdown.contains("## アクション / Action Items\n- (抽出なし)"));
}

#[test]
fn as_markdown_renders_timeline_and_markers() {
    let mut doc = sample_document();
    doc.timeline = vec![TopicSummary {
        id: "topic-1".to_string(),
        title: "Topic".to_string(),
        description: "Discussed project status".to_string(),
        start: stamp(30.0),
        end: stamp(95.0),
        markers: vec![TimelineMarker {
            id: "marker-1".to_string(),
            label: "Decision".to_string(),
            kind: "decision".to_string(),
            timestamp: stamp(63.0),
        }],
    }];

    let markdown = doc.as_markdown();
    assert!(markdown.contains("### Block 1 (00:30 - 01:35)"));
    assert!(markdown.contains("Discussed project status"));
    assert!(markdown.contains("- Markers:"));
    assert!(markdown.contains("[decision] Decision @ 01:03"));
}

#[test]
fn as_markdown_includes_optional_sections() {
    let mut doc = sample_document();
    doc.highlights = Some(section("Highlights", "Shipped feature X"));
    doc.blockers = Some(section("Blockers", "Need infra access"));

    let markdown = doc.as_markdown();
    assert!(markdown.contains("## Highlights\nShipped feature X"));
    assert!(markdown.contains("## Blockers\nNeed infra access"));
}

#[test]
fn as_markdown_leaves_out_absent_optional_sections() {
    let markdown = sample_document().as_markdown();
    assert!(!markdown.contains("## Highlights"));
    assert!(!markdown.contains("## Blockers"));
    assert!(markdown.starts_with("# Meeting Minutes"));
    assert!(markdown.contains("## Summary\nSummary body"));
}

#[test]
fn normalize_section_content_trims_or_uses_placeholder() {
    assert_eq!(normalize_section_content("  body \n"), "body");
    assert_eq!(normalize_section_content(" \t\n"), "- (抽出なし)");
}

#[test]
fn defaults_name_whisper() {
    assert_eq!(default_whisper_command(), "whisper-cli");
    assert_eq!(TranscriptionEngine::default_engine(), TranscriptionEngine::Whisper);
}

#[test]
fn utc_time_renders_like_chrono() {
    let t = at(2026, 2, 1, 10, 0, 0);
    assert_eq!(t.file_stamp(), "20260201-100000");
    assert_eq!(t.rfc3339(), "2026-02-01T10:00:00+00:00");
    assert_eq!(t.display(), "2026-02-01 10:00:00 UTC");
    assert!(UtcTime::from_unix(i64::MAX, 0).is_none());
}

#[test]
fn utc_range_matches_chrono() {
    assert!(UtcTime::from_unix(-8334601228800, 0).is_some());
    assert!(UtcTime::from_unix(-8334601228801, 0).is_none());
    assert!(UtcTime::from_unix(8210266876799, 999_999_999).is_some());
    assert!(UtcTime::from_unix(8210266876800, 0).is_none());
    assert!(UtcTime::from_unix(59, 1_500_000_000).is_some());
    assert!(UtcTime::from_unix(58, 1_500_000_000).is_none());
    assert!(UtcTime::from_unix(59, 2_000_000_000).is_none());
    assert!(UtcTime::from_unix(-1, 1_999_999_999).is_some());
}

#[test]
fn section_content_normalising_twice_changes_nothing() {
    let once = normalize_section_content("  body  ");
    assert_eq!(normalize_section_content(&once), once);
    let empty = normalize_section_content(" ");
    assert_eq!(normalize_section_content(&empty), empty);
}

#[test]
fn now_is_a_valid_instant() {
    let t = UtcTime::now();
    assert!(UtcTime::from_unix(t.secs(), t.nanos()).is_some());
}

#[test]
fn as_markdown_renders_the_whole_document() {
    let mut doc = sample_document();
    doc.timeline = vec![TopicSummary {
        id: "topic-0".to_string(),
        title: "Topic".to_string(),
        description: "Discussed".to_string(),
        start: stamp(30.0),
        end: stamp(95.0),
        markers: vec![TimelineMarker {
            id: "marker-1".to_string(),
            label: "Decision".to_string(),
            kind: "decision".to_string(),
            timestamp: stamp(63.0),
        }],
    }];
    doc.highlights = Some(section("Highlights", "Shipped"));
    assert_eq!(
        doc.as_markdown(),
        "# Meeting Minutes (2026-02-01 10:00:00 UTC)\n\n## Summary\nSummary body\n\n## 決定事項 / Decisions\nDecision A\n\n## アクション / Action Items\nAction A\n\n## Timeline\n### Block 1 (00:30 - 01:35)\nDiscussed\n- Markers:\n  - [decision] Decision @ 01:03\n\n## Highlights\nShipped"
    );
}
