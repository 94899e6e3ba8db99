use memobreeze::llm::{
    action_statement_given, placeholder_given, detect_due_phrase, format_inferred_action_bullet, is_json_object_list,
    is_placeholder_or_empty, looks_like_action_statement, looks_like_due_prefix, normalize_owner,
    sanitize_text, summarize_body, InferredAction,
};

#[test]
fn sanitize_text_collapses_whitespace() {
    assert_eq!(sanitize_text("  a \t b\n c  "), "a b c");
    assert_eq!(sanitize_text("   "), "");
}

#[test]
fn summarize_body_keeps_four_nonblank_lines_and_160_chars() {
    assert_eq!(
        summarize_body("line1\n\n  line2\nline3\nline4\nline5"),
        "line1   line2 line3 line4"
    );
    let long = "x".repeat(200);
    assert_eq!(summarize_body(&long), "x".repeat(160));
    assert_eq!(summarize_body(" \n \n"), "");
}

#[test]
fn due_prefix_needs_a_short_text_with_a_day_word_or_topic_marker() {
    assert!(looks_like_due_prefix("明日は"));
    assert!(looks_like_due_prefix("来週"));
    assert!(looks_like_due_prefix("私は"));
    assert!(!looks_like_due_prefix("今日の午後"));
    assert!(!looks_like_due_prefix(""));
    assert!(!looks_like_due_prefix("later"));
}

#[test]
fn action_statements_are_recognised_in_both_languages() {
    assert!(looks_like_action_statement("資料を共有します"));
    assert!(looks_like_action_statement("We will ship it"));
    assert!(looks_like_action_statement("The team PLANS TO refactor"));
    assert!(!looks_like_action_statement("Will we ship it?"));
    assert!(!looks_like_action_statement("共有しますか？"));
    assert!(!looks_like_action_statement("Nothing here"));
    assert!(!looks_like_action_statement("  "));
}

#[test]
fn due_phrase_is_the_first_listed_token_found() {
    assert_eq!(detect_due_phrase("来週までに明日"), Some("明日".to_string()));
    assert_eq!(detect_due_phrase("明後日に"), Some("明後日".to_string()));
    assert_eq!(detect_due_phrase("later"), None);
}

#[test]
fn owner_is_trimmed_and_unknown_dropped() {
    assert_eq!(normalize_owner(" Alice "), Some("Alice".to_string()));
    assert_eq!(normalize_owner("UNKNOWN"), None);
    assert_eq!(normalize_owner("Speaker Unknown"), None);
    assert_eq!(normalize_owner("  "), None);
}

#[test]
fn action_bullet_names_owner_and_due() {
    let full = InferredAction {
        description: "資料を共有する".to_string(),
        owner: Some("Alice".to_string()),
        due: Some("明日".to_string()),
    };
    assert_eq!(format_inferred_action_bullet(&full), "- 資料を共有する（担当: Alice / 期限: 明日）");
    let bare = InferredAction { description: "Ship".to_string(), owner: None, due: None };
    assert_eq!(format_inferred_action_bullet(&bare), "- Ship（担当: 不明）");
}

#[test]
fn placeholders_are_recognised() {
    assert!(is_placeholder_or_empty("  "));
    assert!(is_placeholder_or_empty("None Identified."));
    assert!(is_placeholder_or_empty("- 該当なし"));
    assert!(is_placeholder_or_empty("抽出できる項目はありませんでした"));
    assert!(!is_placeholder_or_empty("Real content"));
}

#[test]
fn json_object_lists_need_every_line_to_be_an_object_bullet() {
    assert!(is_json_object_list("- {\"a\":1}\n\n  - {}  "));
    assert!(!is_json_object_list("- {a}\ntext"));
    assert!(!is_json_object_list(""));
    assert!(!is_json_object_list("-{}"));
}

fn chars(t: &str) -> Vec<char> {
    t.chars().collect()
}

#[test]
fn action_check_reads_the_given_lower_case_form() {
    assert!(action_statement_given(&chars("We Will Go"), &chars("we will go")));
    assert!(!action_statement_given(&chars("We Will Go"), &chars("We Will Go")));
    assert!(!action_statement_given(&chars(""), &chars(" will ")));
    assert!(action_statement_given(&chars("実施します"), &chars("")));
}

#[test]
fn placeholder_check_reads_the_given_lower_case_form() {
    assert!(placeholder_given(&chars("NONE IDENTIFIED"), &chars("none identified")));
    assert!(!placeholder_given(&chars("NONE IDENTIFIED"), &chars("NONE IDENTIFIED")));
    assert!(placeholder_given(&chars(""), &chars("x")));
}

#[test]
fn sanitising_twice_changes_nothing() {
    let once = sanitize_text("\t a  b \u{3000} c\n");
    assert_eq!(once, "a b c");
    assert_eq!(sanitize_text(&once), once);
}

#[test]
fn longer_japanese_patterns_reduce_to_short_ones() {
    assert!(looks_like_action_statement("牛乳を買いに行きます"));
    assert!(looks_like_action_statement("来週実施します。"));
    assert!(looks_like_action_statement("そうすることにします"));
    assert!(!looks_like_action_statement("実施しますか?"));
}
