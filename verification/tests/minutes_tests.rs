use memobreeze::json::{extract_from_code_blocks, extract_from_enclosed, extract_json_value, JsonValue};
use memobreeze::minutes::{
    build_marker_array, build_prompt, format_json_bullet, build_timeline, check_segments_available, fallback_minutes,
    generation_status_error, infer_actions_from_segments, map_minutes, minutes_from_reply,
    normalize_json_bullets, parse_marker_lines, section_from_value, PromptTemplates, TimeSource,
};
use memobreeze::model::{MinutesOptions, Stamp, TranscriptSegment};
use memobreeze::state::SegmentRecord;

fn stamp(seconds: f32) -> Stamp {
    let bits = seconds.to_bits();
    let clamped = seconds.max(0.0);
    Stamp {
        bits,
        minutes: (clamped / 60.0).floor() as u32,
        seconds: (clamped % 60.0).floor() as u32,
    }
}

fn record(id: &str, speaker: &str, text: &str, start: f32) -> SegmentRecord {
    SegmentRecord {
        segment: TranscriptSegment {
            id: id.to_string(),
            speaker: speaker.to_string(),
            text: text.to_string(),
            start: stamp(start),
            end: stamp(start + 2.0),
            tokens: Vec::new(),
            is_final: true,
        },
        embedding: None,
    }
}

fn options(preset: &str) -> MinutesOptions {
    MinutesOptions {
        preset: preset.to_string(),
        format: "meeting".to_string(),
        block_size_minutes: 5,
        model: "llama3".to_string(),
        temperature_bits: 0.2f32.to_bits(),
    }
}

fn s(t: &str) -> JsonValue {
    JsonValue::Str(t.to_string())
}

fn obj(entries: Vec<(&str, JsonValue)>) -> JsonValue {
    JsonValue::Object(entries.into_iter().map(|(k, v)| (k.to_string(), v)).collect())
}

fn chars(t: &str) -> Vec<char> {
    t.chars().collect()
}

#[test]
fn json_bullets_become_readable_lines() {
    assert_eq!(
        normalize_json_bullets("- {\"task\":\"Ship\",\"owner\":\"Bob\",\"due_date\":\"Friday\"}\nplain"),
        "- Ship（担当: Bob / 期限: Friday）\nplain"
    );
    assert_eq!(normalize_json_bullets("- {\"x\": 1}"), "- 実施項目未特定（担当: 不明）");
    assert_eq!(normalize_json_bullets("- {not json}"), "- {not json}");
}

#[test]
fn sections_render_strings_arrays_and_objects() {
    let text = s("plain");
    assert_eq!(section_from_value(Some(&text), "Summary").content, "plain");
    let arr = JsonValue::Array(vec![s("a"), JsonValue::Number("1".to_string())]);
    assert_eq!(section_from_value(Some(&arr), "Decisions").content, "- a\n- 1");
    let o = obj(vec![("k", s("v"))]);
    assert_eq!(section_from_value(Some(&o), "Actions").content, "- k: \"v\"");
    let absent = section_from_value(None, "Summary");
    assert_eq!(absent.title, "Summary");
    assert_eq!(absent.content, "");
    assert_eq!(section_from_value(Some(&JsonValue::Bool(true)), "X").content, "true");
}

#[test]
fn marker_lines_split_label_and_time_at_the_at_sign() {
    let markers = parse_marker_lines("- Kickoff @ 01:30\n\nplain line");
    assert_eq!(markers.len(), 2);
    assert_eq!(markers[0].id, "marker-line-0");
    assert_eq!(markers[0].label, "Kickoff");
    assert_eq!(markers[0].kind, "note");
    assert!(matches!(&markers[0].timestamp, TimeSource::Text(t) if t == "01:30"));
    assert_eq!(markers[1].id, "marker-line-2");
    assert_eq!(markers[1].label, "plain line");
    assert!(matches!(markers[1].timestamp, TimeSource::Zero));
}

#[test]
fn marker_arrays_take_objects_and_lines() {
    let v = JsonValue::Array(vec![
        obj(vec![("label", s("Go")), ("kind", s("decision")), ("timestamp", JsonValue::Number("63".to_string()))]),
        s("Later @ 2:00"),
        JsonValue::Null,
        obj(vec![]),
    ]);
    let markers = build_marker_array(Some(&v));
    assert_eq!(markers.len(), 3);
    assert_eq!(markers[0].id, "marker-1");
    assert_eq!(markers[0].kind, "decision");
    assert!(matches!(&markers[0].timestamp, TimeSource::Number(n) if n == "63"));
    assert_eq!(markers[1].id, "marker-line-0");
    assert_eq!(markers[2].id, "marker-3");
    assert_eq!(markers[2].label, "");
    assert_eq!(markers[2].kind, "note");
}

#[test]
fn timeline_entries_are_numbered_by_position() {
    let v = JsonValue::Array(vec![
        s("skipped"),
        obj(vec![("title", s("Intro")), ("start", s("0:30"))]),
    ]);
    let topics = build_timeline(Some(&v)).unwrap();
    assert_eq!(topics.len(), 1);
    assert_eq!(topics[0].id, "topic-1");
    assert_eq!(topics[0].title, "Intro");
    assert_eq!(topics[0].description, "");
    assert!(matches!(&topics[0].start, TimeSource::Text(t) if t == "0:30"));
    assert!(matches!(topics[0].end, TimeSource::Zero));
    assert!(build_timeline(Some(&s("x"))).unwrap().is_empty());
    let untitled = build_timeline(Some(&JsonValue::Array(vec![obj(vec![])]))).unwrap();
    assert_eq!(untitled[0].title, "Untitled");
}

#[test]
fn json_is_found_in_fences_and_braces() {
    let v = extract_json_value("Here you go:\n```json\n{\"summary\":\"s\"}\n```").unwrap();
    assert!(matches!(v, JsonValue::Object(ref e) if e.len() == 1 && e[0].0 == "summary"));
    let braces = extract_json_value("Sure! {\"a\": [1, 2]} done").unwrap();
    assert!(matches!(braces, JsonValue::Object(_)));
    let err = extract_json_value("no json\nat all\nhere\nreally\nnot").unwrap_err();
    assert_eq!(err, "Unable to parse JSON from response: no json\nat all\nhere\nreally");
    assert!(extract_from_code_blocks(&chars("```\n[1]\n```")).is_some());
    assert!(extract_from_code_blocks(&chars("``` nothing")).is_none());
    assert!(extract_from_enclosed(&chars("x [1, \"]\"] y"), '[', ']').is_some());
    assert!(extract_from_enclosed(&chars("{ unclosed"), '{', '}').is_none());
}

#[test]
fn leading_value_wins_even_with_trailing_text() {
    let v = extract_json_value("  [1] trailing words").unwrap();
    assert!(matches!(v, JsonValue::Array(ref a) if a.len() == 1));
}

#[test]
fn actions_are_inferred_from_the_transcript() {
    let records = vec![
        record("1", "Alice", "明日は", 0.0),
        record("2", "Alice", "資料を共有します。", 3.0),
        record("3", "Bob", "資料を共有します", 6.0),
        record("4", "Unknown", "We will  ship it", 9.0),
        record("5", "Bob", "How are you?", 12.0),
    ];
    let actions = infer_actions_from_segments(&records);
    assert_eq!(actions.len(), 3);
    assert_eq!(actions[0].description, "明日は 資料を共有します");
    assert_eq!(actions[0].owner, Some("Alice".to_string()));
    assert_eq!(actions[0].due, Some("明日".to_string()));
    assert_eq!(actions[1].description, "資料を共有します");
    assert_eq!(actions[2].description, "We will ship it");
    assert_eq!(actions[2].owner, None);
}

#[test]
fn low_quality_actions_are_replaced_by_inferred_ones() {
    let payload = obj(vec![
        ("overview", s("S")),
        ("actions", s("None identified")),
        ("risks", JsonValue::Array(vec![s("r")])),
    ]);
    let records = vec![record("1", "Alice", "資料を共有します", 0.0)];
    let doc = map_minutes(options("default"), &payload, &records).unwrap();
    assert_eq!(doc.summary.content, "S");
    assert_eq!(doc.actions.title, "Action Items");
    assert_eq!(doc.actions.content, "- 資料を共有します（担当: Alice）");
    assert_eq!(doc.decisions.content, "- 資料を共有します");
    assert!(doc.highlights.is_none());
    assert_eq!(doc.blockers.unwrap().content, "- r");
    assert_eq!(doc.model, "llama3");
}

#[test]
fn good_actions_are_kept_and_normalised() {
    let payload = obj(vec![("actions", s("- {\"task\":\"Ship\"}")), ("decisions", s("D"))]);
    let doc = map_minutes(options("default"), &payload, &[]).unwrap();
    assert_eq!(doc.actions.content, "- Ship（担当: 不明）");
    assert_eq!(doc.decisions.content, "D");
}

#[test]
fn replies_without_json_fall_back_to_the_text() {
    let doc = fallback_minutes(options("default"), "  ".to_string());
    assert_eq!(doc.summary.content, "No summary available.");
    assert_eq!(doc.actions.title, "Action Items");
    let from_reply = minutes_from_reply(options("default"), " just prose ".to_string(), &[]);
    assert_eq!(from_reply.summary.content, "just prose");
    let mapped = minutes_from_reply(options("default"), "{\"summary\":\"x\"}".to_string(), &[]);
    assert_eq!(mapped.summary.content, "x");
}

#[test]
fn prompt_holds_template_and_transcript() {
    let templates = PromptTemplates { detailed: "DETAILED".to_string(), default: "DEFAULT".to_string() };
    let records = vec![record("1", "Alice", " hi ", 65.0)];
    let prompt = build_prompt(&options("detailed"), &records, &templates).unwrap();
    assert_eq!(
        prompt,
        "DETAILED\n\n<transcript>\n[01:05-01:07] Alice: hi\n</transcript>\n\nReturn JSON only."
    );
    let other = build_prompt(&options("brief"), &[], &templates).unwrap();
    assert_eq!(other, "DEFAULT\n\n<transcript>\n\n</transcript>\n\nReturn JSON only.");
}

#[test]
fn generation_errors_are_explained() {
    assert_eq!(
        check_segments_available(&[]).unwrap_err(),
        "No transcript segments are available. Record audio before generating minutes."
    );
    assert!(check_segments_available(&[record("1", "A", "t", 0.0)]).is_ok());
    assert_eq!(
        generation_status_error("llama3", true, "404 Not Found", ""),
        "Model `llama3` was not found on the Ollama server. Run `ollama pull llama3` before generating minutes."
    );
    assert_eq!(
        generation_status_error("m", false, "500 Internal Server Error", ""),
        "Minutes generation failed with status 500 Internal Server Error"
    );
    assert_eq!(
        generation_status_error("m", false, "500 Internal Server Error", "boom\n\nbad"),
        "Minutes generation failed with status 500 Internal Server Error: boom bad"
    );
}

#[test]
fn json_bullets_read_owner_and_due_aliases() {
    let v = obj(vec![("title", s(" Plan ")), ("assignee", s("Kim")), ("deadline", s(" Mon "))]);
    assert_eq!(format_json_bullet(&v), "- Plan（担当: Kim / 期限: Mon）");
    let blank_due = obj(vec![("text", s("T")), ("dueDate", s("  "))]);
    assert_eq!(format_json_bullet(&blank_due), "- T（担当: 不明）");
}

#[test]
fn inferred_descriptions_are_distinct_and_trimmed() {
    let records = vec![
        record("1", "A", "進めます。", 0.0),
        record("2", "B", "  進めます ", 1.0),
        record("3", "C", "対応します。。", 2.0),
    ];
    let actions = infer_actions_from_segments(&records);
    let d: Vec<&str> = actions.iter().map(|a| a.description.as_str()).collect();
    assert_eq!(d, vec!["進めます", "対応します"]);
    assert_eq!(actions[1].owner, Some("C".to_string()));
}

#[test]
fn inferred_descriptions_are_single_spaced() {
    let records = vec![
        record("1", "A", "  明日は ", 0.0),
        record("2", "B", "資料を\t 共有  します。", 1.0),
    ];
    let actions = infer_actions_from_segments(&records);
    assert_eq!(actions.len(), 1);
    assert_eq!(actions[0].description, "明日は 資料を 共有 します");
    assert_eq!(actions[0].due, Some("明日".to_string()));
}
