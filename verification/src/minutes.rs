//! Turning a model's JSON reply into meeting minutes: picking sections by their
//! aliases, rewriting JSON bullets, inferring actions from the transcript, and
//! building the timeline.
use vstd::prelude::*;

use crate::json::{
    as_str, extract_json_value, find_char_from, get, json_text, reply_value, render_json,
    JsonValue,
};
use crate::llm::{
    action_bullet_spec, action_statement_spec, detect_due_phrase, due_prefix_spec, due_tokens,
    first_contained, format_inferred_action_bullet, is_json_object_list, is_placeholder_or_empty,
    looks_like_action_statement, looks_like_due_prefix, normalize_owner, object_list_spec,
    opt_view, owner_spec, placeholder_spec, sanitize_text, summarize_body, summary_of_body,
    take_at_most, InferredAction,
};
use crate::model::{
    clock_text, format_timestamp, markers_view, opt_section, topics_view, MarkerView,
    MinutesDocument, MinutesOptions, MinutesSection, SectionView, TimelineMarker, TopicSummary,
    TopicView, UtcTime,
};
use crate::state::SegmentRecord;
use crate::text::{
    chars_of, decimal, decimal_chars, extend_chars, extend_str, join, join_chars,
    lemma_chars_deep, lines, lines_of, push_line, slice_chars, starts_with, starts_with_char,
    starts_with_chars, string_of, trim, trim_chars, words,
};

verus! {

// ---------------------------------------------------------------------------
// Times named in a reply
// ---------------------------------------------------------------------------
/// Where a time of the timeline comes from: nothing (zero seconds), a JSON
/// number (its text), or a text such as `"12:30"` or `"95"`.
#[derive(Clone, Debug)]
pub enum TimeSource {
    Zero,
    Number(String),
    Text(String),
}

/// The view of a time source.
pub enum TimeRef {
    Zero,
    Number(Seq<char>),
    Text(Seq<char>),
}

impl View for TimeSource {
    type V = TimeRef;

    open spec fn view(&self) -> TimeRef {
        match self {
            TimeSource::Zero => TimeRef::Zero,
            TimeSource::Number(n) => TimeRef::Number(n@),
            TimeSource::Text(t) => TimeRef::Text(t@),
        }
    }
}

/// The time source of a JSON value.
pub open spec fn time_ref(v: Option<JsonValue>) -> TimeRef {
    match v {
        Some(JsonValue::Number(n)) => TimeRef::Number(n@),
        Some(JsonValue::Str(t)) => TimeRef::Text(t@),
        _ => TimeRef::Zero,
    }
}

/// The view of an optional reference.
pub open spec fn deref_opt(o: Option<&JsonValue>) -> Option<JsonValue> {
    match o {
        Some(r) => Some(*r),
        None => None,
    }
}

/// `a.or_else(|| b)`.
pub open spec fn or_else(a: Option<JsonValue>, b: Option<JsonValue>) -> Option<JsonValue> {
    if a.is_some() {
        a
    } else {
        b
    }
}

/// The text of an optional string, or a default.
pub open spec fn str_or(v: Option<Seq<char>>, d: Seq<char>) -> Seq<char> {
    match v {
        Some(s) => s,
        None => d,
    }
}

/// The time source that a JSON value names.
pub fn timestamp_source(value: Option<&JsonValue>) -> (out: TimeSource)
    ensures
        out@ == time_ref(deref_opt(value)),
{
    match value {
        Some(JsonValue::Number(n)) => TimeSource::Number(string_of(&chars_of(n.as_str()))),
        Some(JsonValue::Str(t)) => TimeSource::Text(string_of(&chars_of(t.as_str()))),
        _ => TimeSource::Zero,
    }
}

// ---------------------------------------------------------------------------
// Specifications of the mapping
// ---------------------------------------------------------------------------
/// The value under the first of the keys that the payload has.
pub open spec fn get_by_aliases(payload: JsonValue, keys: Seq<Seq<char>>) -> Option<JsonValue>
    decreases keys.len(),
{
    if keys.len() == 0 {
        None
    } else {
        match get(payload, keys[0]) {
            Some(v) => Some(v),
            None => get_by_aliases(payload, keys.drop_first()),
        }
    }
}

pub open spec fn summary_keys() -> Seq<Seq<char>> {
    seq!["summary"@, "overview"@, "要約"@]
}

pub open spec fn decision_keys() -> Seq<Seq<char>> {
    seq!["decisions"@, "decision"@, "decisionItems"@, "決定事項"@]
}

pub open spec fn action_keys() -> Seq<Seq<char>> {
    seq!["actions"@, "actionItems"@, "action_items"@, "tasks"@, "アクション"@]
}

pub open spec fn highlight_keys() -> Seq<Seq<char>> {
    seq!["highlights"@]
}

pub open spec fn blocker_keys() -> Seq<Seq<char>> {
    seq!["blockers"@, "risks"@]
}

pub open spec fn timeline_keys() -> Seq<Seq<char>> {
    seq!["timeline"@, "topics"@]
}

/// The keys that may hold a JSON bullet's description, in the order tried.
pub open spec fn description_keys() -> Seq<Seq<char>> {
    seq![
        "item"@,
        "task"@,
        "action"@,
        "title"@,
        "description"@,
        "content"@,
        "text"@,
    ]
}

/// The line for one array item: `- text` for a string, `- json` otherwise.
pub open spec fn item_line(item: JsonValue) -> Seq<char> {
    match item {
        JsonValue::Str(t) => "- "@ + t@,
        _ => "- "@ + json_text(item),
    }
}

/// The line for one object member: `- key: json`.
pub open spec fn member_line(e: (String, JsonValue)) -> Seq<char> {
    "- "@ + e.0@ + ": "@ + json_text(e.1)
}

/// The text of a section read from a JSON value.
pub open spec fn section_content(v: Option<JsonValue>) -> Seq<char> {
    match v {
        Some(JsonValue::Str(t)) => t@,
        Some(JsonValue::Array(items)) => join(items@.map_values(|x: JsonValue| item_line(x)), "\n"@),
        Some(JsonValue::Object(es)) => join(
            es@.map_values(|e: (String, JsonValue)| member_line(e)),
            "\n"@,
        ),
        Some(other) => json_text(other),
        None => Seq::empty(),
    }
}

/// The first of the keys whose value is a string.
pub open spec fn first_str(v: JsonValue, keys: Seq<Seq<char>>) -> Option<Seq<char>>
    decreases keys.len(),
{
    if keys.len() == 0 {
        None
    } else {
        match as_str(get(v, keys[0])) {
            Some(s) => Some(s),
            None => first_str(v, keys.drop_first()),
        }
    }
}

/// The due date of a JSON bullet: the first present of `dueDate`, `due_date`,
/// `deadline`, when it is a string that is not blank.
pub open spec fn bullet_due(v: JsonValue) -> Option<Seq<char>> {
    match as_str(
        or_else(get(v, "dueDate"@), or_else(get(v, "due_date"@), get(v, "deadline"@))),
    ) {
        Some(d) => if trim(d).len() > 0 {
            Some(trim(d))
        } else {
            None
        },
        None => None,
    }
}

/// A bullet holding a JSON object, rewritten as `- description（担当: owner / 期限: due）`.
pub open spec fn object_bullet(v: JsonValue) -> Seq<char> {
    let description = trim(str_or(first_str(v, description_keys()), "実施項目未特定"@));
    let owner = trim(str_or(as_str(or_else(get(v, "owner"@), get(v, "assignee"@))), "不明"@));
    action_bullet_spec(description, Some(owner), bullet_due(v))
}

/// One line of a section after rewriting JSON bullets.
pub open spec fn rewritten_line(line: Seq<char>) -> Seq<char> {
    let t = trim(line);
    let rest = t.skip(2);
    if starts_with(t, "- "@) && rest.len() > 0 && rest[0] == '{' && rest.last() == '}' {
        match crate::json::json_parse(rest) {
            Some(JsonValue::Object(es)) => object_bullet(JsonValue::Object(es)),
            _ => line,
        }
    } else {
        line
    }
}

/// A section text with its JSON bullets rewritten.
pub open spec fn rewritten_bullets(content: Seq<char>) -> Seq<char> {
    join(lines(content).map_values(|l: Seq<char>| rewritten_line(l)), "\n"@)
}

/// The text without the characters `c` that end it (`str::trim_end_matches`).
pub open spec fn strip_trailing(s: Seq<char>, c: char) -> Seq<char>
    decreases s.len(),
{
    if s.len() > 0 && s.last() == c {
        strip_trailing(s.drop_last(), c)
    } else {
        s
    }
}

/// The text without the characters `c` that start it (`str::trim_start_matches`).
pub open spec fn strip_leading(s: Seq<char>, c: char) -> Seq<char>
    decreases s.len(),
{
    if s.len() > 0 && s[0] == c {
        strip_leading(s.drop_first(), c)
    } else {
        s
    }
}

/// A text with its whitespace runs collapsed to single spaces.
pub open spec fn sanitized(t: Seq<char>) -> Seq<char> {
    join(words(trim(t)), seq![' '])
}

/// What an inferred action holds.
pub struct ActionView {
    pub description: Seq<char>,
    pub owner: Option<Seq<char>>,
    pub due: Option<Seq<char>>,
}

impl View for InferredAction {
    type V = ActionView;

    open spec fn view(&self) -> ActionView {
        ActionView {
            description: self.description@,
            owner: opt_view(self.owner),
            due: opt_view(self.due),
        }
    }
}

/// The statement read at segment `i`: its text, after the previous segment's
/// text when that one reads as a due prefix.
pub open spec fn candidate_at(rs: Seq<SegmentRecord>, i: int) -> Seq<char> {
    let current = sanitized(rs[i].segment.text@);
    if i > 0 && due_prefix_spec(sanitized(rs[i - 1].segment.text@)) {
        sanitized(rs[i - 1].segment.text@) + " "@ + current
    } else {
        current
    }
}

/// The actions inferred from the first `n` segments.
pub open spec fn infer_acc(rs: Seq<SegmentRecord>, n: nat) -> Seq<ActionView>
    decreases n,
{
    if n == 0 {
        Seq::empty()
    } else {
        let acc = infer_acc(rs, (n - 1) as nat);
        let i = n - 1;
        if sanitized(rs[i].segment.text@).len() == 0 {
            acc
        } else {
            let cand = candidate_at(rs, i);
            if !action_statement_spec(cand) {
                acc
            } else {
                let norm = trim(strip_trailing(cand, '。'));
                if exists|k: int| 0 <= k < acc.len() && #[trigger] acc[k].description == norm {
                    acc
                } else {
                    acc.push(
                        ActionView {
                            description: norm,
                            owner: owner_spec(rs[i].segment.speaker@),
                            due: first_contained(norm, due_tokens()),
                        },
                    )
                }
            }
        }
    }
}

/// The actions inferred from a transcript: each statement that reads as a
/// commitment, once, with its speaker as owner and its due phrase.
pub open spec fn inferred_actions(rs: Seq<SegmentRecord>) -> Seq<ActionView> {
    infer_acc(rs, rs.len())
}

/// The segments that the first `n` actions come from, as positions.
proof fn infer_sources(rs: Seq<SegmentRecord>, n: nat) -> (src: Seq<int>)
    requires
        n <= rs.len(),
    ensures
        src.len() == infer_acc(rs, n).len(),
        forall|k: int, l: int| 0 <= k < l < src.len() ==> src[k] < src[l],
        forall|k: int|
            0 <= k < src.len() ==> {
                &&& 0 <= #[trigger] src[k] < n
                &&& sanitized(rs[src[k]].segment.text@).len() > 0
                &&& infer_acc(rs, n)[k].description == trim(
                    strip_trailing(candidate_at(rs, src[k]), '。'),
                )
                &&& infer_acc(rs, n)[k].owner == owner_spec(rs[src[k]].segment.speaker@)
                &&& infer_acc(rs, n)[k].due == first_contained(
                    infer_acc(rs, n)[k].description,
                    due_tokens(),
                )
            },
        forall|k: int, l: int|
            0 <= k < l < infer_acc(rs, n).len() ==> #[trigger] infer_acc(rs, n)[k].description
                != #[trigger] infer_acc(rs, n)[l].description,
    decreases n,
{
    if n == 0 {
        Seq::empty()
    } else {
        let prev = infer_sources(rs, (n - 1) as nat);
        let acc = infer_acc(rs, (n - 1) as nat);
        let i = n - 1;
        let out = infer_acc(rs, n);
        if out.len() == acc.len() {
            assert(out == acc);
            prev
        } else {
            let cand = candidate_at(rs, i);
            let norm = trim(strip_trailing(cand, '。'));
            assert(out == acc.push(
                ActionView {
                    description: norm,
                    owner: owner_spec(rs[i].segment.speaker@),
                    due: first_contained(norm, due_tokens()),
                },
            ));
            assert(forall|k: int| 0 <= k < acc.len() ==> #[trigger] acc[k].description != norm);
            let src = prev.push(i as int);
            assert forall|k: int| 0 <= k < src.len() implies {
                &&& 0 <= #[trigger] src[k] < n
                &&& sanitized(rs[src[k]].segment.text@).len() > 0
                &&& out[k].description == trim(strip_trailing(candidate_at(rs, src[k]), '。'))
                &&& out[k].owner == owner_spec(rs[src[k]].segment.speaker@)
                &&& out[k].due == first_contained(out[k].description, due_tokens())
            } by {
                if k < prev.len() {
                    assert(src[k] == prev[k]);
                    assert(out[k] == acc[k]);
                }
            }
            assert forall|k: int, l: int| 0 <= k < l < out.len() implies #[trigger] out[k].description
                != #[trigger] out[l].description by {
                if l < acc.len() {
                    assert(out[k] == acc[k] && out[l] == acc[l]);
                } else {
                    assert(out[k] == acc[k]);
                }
            }
            assert forall|k: int, l: int| 0 <= k < l < src.len() implies src[k] < src[l] by {
                if l < prev.len() {
                    assert(src[k] == prev[k] && src[l] == prev[l]);
                } else {
                    assert(src[k] == prev[k]);
                }
            }
            src
        }
    }
}

/// `src` gives, for each action, the position of the segment it comes from:
/// positions in increasing order, each action read from the statement at its
/// position and owned by that segment's speaker.
pub open spec fn actions_sourced(rs: Seq<SegmentRecord>, acts: Seq<ActionView>, src: Seq<int>) -> bool {
    &&& src.len() == acts.len()
    &&& forall|k: int, l: int| 0 <= k < l < src.len() ==> src[k] < src[l]
    &&& forall|k: int|
        0 <= k < src.len() ==> {
            &&& 0 <= #[trigger] src[k] < rs.len()
            &&& acts[k].description == trim(strip_trailing(candidate_at(rs, src[k]), '。'))
            &&& acts[k].owner == owner_spec(rs[src[k]].segment.speaker@)
            &&& acts[k].due == first_contained(acts[k].description, due_tokens())
        }
}

/// The actions inferred from a transcript come from distinct segments, in the
/// order of the segments, so there are at most as many as segments; their
/// descriptions are distinct, trimmed and single-spaced (no run of whitespace,
/// and no whitespace but the space); each is owned by its segment's speaker
/// (unless unknown) and carries the due phrase its description holds.
pub proof fn law_inferred_actions(rs: Seq<SegmentRecord>)
    ensures
        inferred_actions(rs).len() <= rs.len(),
        forall|k: int, l: int|
            0 <= k < l < inferred_actions(rs).len() ==> #[trigger] inferred_actions(rs)[k].description
                != #[trigger] inferred_actions(rs)[l].description,
        forall|k: int|
            0 <= k < inferred_actions(rs).len() ==> trim(#[trigger] inferred_actions(rs)[k].description)
                == inferred_actions(rs)[k].description,
        forall|k: int|
            0 <= k < inferred_actions(rs).len() ==> crate::text::single_spaced(
                #[trigger] inferred_actions(rs)[k].description,
            ),
        exists|src: Seq<int>| #[trigger] actions_sourced(rs, inferred_actions(rs), src),
{
    let src = infer_sources(rs, rs.len());
    let acts = inferred_actions(rs);
    assert forall|k: int| 0 <= k < acts.len() implies trim(#[trigger] acts[k].description)
        == acts[k].description by {
        crate::text::lemma_trim_shape(strip_trailing(candidate_at(rs, src[k]), '。'));
    }
    assert forall|k: int| 0 <= k < acts.len() implies crate::text::single_spaced(
        #[trigger] acts[k].description,
    ) by {
        let i = src[k];
        lemma_candidate_single_spaced(rs, i);
        let cand = candidate_at(rs, i);
        lemma_strip_trailing_prefix(cand, '。');
        crate::text::lemma_single_spaced_prefix_trim(cand, strip_trailing(cand, '。').len() as int);
    }
    assert(actions_sourced(rs, acts, src));
    if acts.len() > rs.len() {
        assert forall|k: int| 0 <= k < src.len() implies k <= src[k] by {
            lemma_increasing_from_index(src, k);
        }
        assert(src[src.len() - 1] >= src.len() - 1);
    }
}

/// The statement read at a segment with text is single-spaced.
proof fn lemma_candidate_single_spaced(rs: Seq<SegmentRecord>, i: int)
    requires
        0 <= i < rs.len(),
        sanitized(rs[i].segment.text@).len() > 0,
    ensures
        crate::text::single_spaced(candidate_at(rs, i)),
{
    let current = sanitized(rs[i].segment.text@);
    crate::text::lemma_collapsed_single_spaced(trim(rs[i].segment.text@));
    if i > 0 && due_prefix_spec(sanitized(rs[i - 1].segment.text@)) {
        let before = sanitized(rs[i - 1].segment.text@);
        crate::text::lemma_collapsed_single_spaced(trim(rs[i - 1].segment.text@));
        reveal_strlit(" ");
        assert(" "@ =~= seq![' ']);
        assert(before.len() > 0) by {
            if before.len() == 0 {
                assert(trim(before) =~= before);
            }
        }
        crate::text::lemma_single_spaced_concat(before, current);
    }
}

/// Stripping trailing characters leaves a prefix, after which come only those
/// characters.
proof fn lemma_strip_trailing_prefix(s: Seq<char>, c: char)
    ensures
        strip_trailing(s, c).len() <= s.len(),
        strip_trailing(s, c) == s.take(strip_trailing(s, c).len() as int),
        forall|k: int| strip_trailing(s, c).len() <= k < s.len() ==> #[trigger] s[k] == c,
    decreases s.len(),
{
    if s.len() > 0 && s.last() == c {
        lemma_strip_trailing_prefix(s.drop_last(), c);
        assert(s.drop_last().take(strip_trailing(s, c).len() as int) =~= s.take(
            strip_trailing(s, c).len() as int,
        ));
        assert forall|k: int| strip_trailing(s, c).len() <= k < s.len() implies #[trigger] s[k] == c by {
            if k < s.len() - 1 {
                assert(s[k] == s.drop_last()[k]);
            }
        }
    } else {
        assert(s.take(s.len() as int) =~= s);
    }
}

/// A description read from a statement whose trimmed text holds one of the
/// Japanese action phrases keeps that phrase, so it is not empty.
pub proof fn law_japanese_action_description_nonempty(cand: Seq<char>)
    requires
        crate::llm::contains_any(trim(cand), crate::llm::ja_action_patterns()),
    ensures
        trim(strip_trailing(cand, '。')).len() > 0,
{
    crate::llm::law_action_patterns_reduce(cand);
    let core = crate::llm::ja_action_core();
    let k = choose|k: int| 0 <= k < core.len() && crate::text::contains(trim(cand), #[trigger] core[k]);
    let p = core[k];
    reveal_strlit("します");
    reveal_strlit("する");
    reveal_strlit("行きます");
    reveal_strlit("買います");
    reveal_strlit("やります");
    reveal_strlit("進めます");
    reveal_strlit("予定");
    assert(p.len() > 0 && p.last() != '。' && crate::text::no_ws(p)) by {
        assert(k == 0 || k == 1 || k == 2 || k == 3 || k == 4 || k == 5 || k == 6);
    }
    crate::text::lemma_trim_contains(cand, p);
    lemma_strip_trailing_prefix(cand, '。');
    let m = strip_trailing(cand, '。').len() as int;
    let i = choose|i: int| crate::text::occurs_at(cand, p, i);
    assert(cand[i + p.len() - 1] == p.last());
    assert(i + p.len() <= m);
    let q = cand.take(m);
    assert(q.subrange(i, i + p.len()) =~= cand.subrange(i, i + p.len()));
    assert(crate::text::occurs_at(q, p, i));
    crate::text::lemma_phrase_survives_trim(q, p);
}

/// The bullet line of an inferred action: its description, then its owner
/// ("不明" when unknown) and, when it has one, its due phrase.
pub open spec fn inferred_bullet(a: ActionView) -> Seq<char> {
    let owner = match a.owner {
        Some(o) => o,
        None => "不明"@,
    };
    let due = match a.due {
        Some(d) => " / 期限: "@ + d,
        None => Seq::empty(),
    };
    "- "@ + a.description + "（担当: "@ + owner + due + "）"@
}

/// When the reply's action items are a placeholder or a list of JSON objects
/// and the transcript gives actions, the minutes' action items are those
/// actions, one line each, in order, each naming the action's owner and the
/// due phrase found in it.
pub proof fn law_minutes_actions_from_transcript(
    d: MinutesDocument<TimeSource>,
    options: MinutesOptions,
    payload: JsonValue,
    rs: Seq<SegmentRecord>,
)
    requires
        minutes_match(d, options, payload, rs),
    ensures
        ({
            let reply = section_content(get_by_aliases(payload, action_keys()));
            let inf = inferred_actions(rs);
            (placeholder_spec(reply) || object_list_spec(reply)) && inf.len() > 0 ==> d.actions@.content
                == join(Seq::new(inf.len(), |k: int| inferred_bullet(inf[k])), "\n"@)
        }),
{
    let inf = inferred_actions(rs);
    reveal_strlit("担当: ");
    reveal_strlit(" / ");
    reveal_strlit("期限: ");
    reveal_strlit(" / 期限: ");
    reveal_strlit("（");
    reveal_strlit("（担当: ");
    assert(" / "@ + "期限: "@ =~= " / 期限: "@);
    assert("（"@ + "担当: "@ =~= "（担当: "@);
    let mapped = inf.map_values(|a: ActionView| action_bullet_spec(a.description, a.owner, a.due));
    assert forall|k: int| 0 <= k < inf.len() implies #[trigger] mapped[k] == inferred_bullet(inf[k]) by {
        let a = inf[k];
        let owner = match a.owner {
            Some(o) => o,
            None => "不明"@,
        };
        match a.due {
            Some(x) => {
                assert("- "@ + a.description + "（"@ + ("担当: "@ + owner + " / "@ + "期限: "@ + x) + "）"@
                    =~= "- "@ + a.description + "（担当: "@ + owner + (" / 期限: "@ + x) + "）"@);
            },
            None => {
                assert("- "@ + a.description + "（"@ + ("担当: "@ + owner) + "）"@ =~= "- "@
                    + a.description + "（担当: "@ + owner + Seq::<char>::empty() + "）"@);
            },
        }
    }
    assert(mapped =~= Seq::new(inf.len(), |k: int| inferred_bullet(inf[k])));
}

/// When the reply's decisions are a placeholder and the transcript gives
/// actions, the minutes' decisions are the first three of them (all, when
/// fewer), one line each, in order, a dash before each description.
pub proof fn law_minutes_decisions_from_transcript(
    d: MinutesDocument<TimeSource>,
    options: MinutesOptions,
    payload: JsonValue,
    rs: Seq<SegmentRecord>,
)
    requires
        minutes_match(d, options, payload, rs),
    ensures
        ({
            let reply = section_content(get_by_aliases(payload, decision_keys()));
            let inf = inferred_actions(rs);
            let n: int = if inf.len() < 3 {
                inf.len() as int
            } else {
                3
            };
            placeholder_spec(reply) && inf.len() > 0 ==> d.decisions@.content == join(
                Seq::new(n as nat, |k: int| "- "@ + inf[k].description),
                "\n"@,
            )
        }),
{
    let inf = inferred_actions(rs);
    let all = inf.map_values(|a: ActionView| "- "@ + a.description);
    let n: int = if inf.len() < 3 {
        inf.len() as int
    } else {
        3
    };
    assert(take_at_most(all, 3) =~= Seq::new(n as nat, |k: int| "- "@ + inf[k].description));
}

/// The positions of the JSON objects among the first `n` items, in order.
pub open spec fn object_positions(items: Seq<JsonValue>, n: nat) -> Seq<int>
    decreases n,
{
    if n == 0 {
        Seq::empty()
    } else {
        let acc = object_positions(items, (n - 1) as nat);
        match items[n - 1] {
            JsonValue::Object(_) => acc.push(n - 1),
            _ => acc,
        }
    }
}

proof fn lemma_topics_at_positions(items: Seq<JsonValue>, n: nat)
    requires
        n <= items.len(),
    ensures
        topics_acc(items, n).len() == object_positions(items, n).len(),
        forall|j: int|
            0 <= j < object_positions(items, n).len() ==> {
                let p = #[trigger] object_positions(items, n)[j];
                &&& 0 <= p < n
                &&& items[p] is Object
                &&& topics_acc(items, n)[j] == object_topic(items[p], p as nat)
            },
        forall|j: int, l: int|
            0 <= j < l < object_positions(items, n).len() ==> #[trigger] object_positions(items, n)[j]
                < #[trigger] object_positions(items, n)[l],
        forall|k: int|
            0 <= k < n && #[trigger] items[k] is Object ==> exists|j: int|
                0 <= j < object_positions(items, n).len() && #[trigger] object_positions(items, n)[j]
                    == k,
    decreases n,
{
    if n > 0 {
        let m = (n - 1) as nat;
        lemma_topics_at_positions(items, m);
        let ps = object_positions(items, n);
        let prev = object_positions(items, m);
        let ts = topics_acc(items, n);
        let tprev = topics_acc(items, m);
        if items[n - 1] is Object {
            assert(ps == prev.push(n - 1));
            assert(ts == tprev.push(object_topic(items[n - 1], m)));
            assert forall|j: int| 0 <= j < ps.len() implies {
                let p = #[trigger] ps[j];
                &&& 0 <= p < n
                &&& items[p] is Object
                &&& ts[j] == object_topic(items[p], p as nat)
            } by {
                if j < prev.len() {
                    assert(ps[j] == prev[j]);
                    assert(ts[j] == tprev[j]);
                }
            }
            assert forall|j: int, l: int| 0 <= j < l < ps.len() implies #[trigger] ps[j]
                < #[trigger] ps[l] by {
                assert(ps[j] == prev[j]);
                if l < prev.len() {
                    assert(ps[l] == prev[l]);
                }
            }
            assert forall|k: int| 0 <= k < n && #[trigger] items[k] is Object implies exists|j: int|
                0 <= j < ps.len() && #[trigger] ps[j] == k by {
                if k < n - 1 {
                    let j = choose|j: int| 0 <= j < prev.len() && #[trigger] prev[j] == k;
                    assert(ps[j] == prev[j]);
                } else {
                    assert(ps[prev.len() as int] == k);
                }
            }
        } else {
            assert(ps == prev);
            assert(ts == tprev);
        }
    }
}

/// Building a timeline never fails. A value that is not a JSON array gives no
/// topics; an array gives one topic per object, in the array's order (its
/// other items are skipped), the object at position `i` giving the id
/// `topic-i`, its `title` string or "Untitled", its `description` string or
/// nothing, its `start` and `end` times, and the markers that its `markers`
/// value gives.
pub proof fn law_timeline_topics(v: Option<JsonValue>)
    ensures
        !(v matches Some(JsonValue::Array(_))) ==> timeline_spec(v).len() == 0,
        v matches Some(JsonValue::Array(items)) ==> {
            let ps = object_positions(items@, items@.len());
            &&& timeline_spec(v).len() == ps.len()
            &&& forall|j: int, l: int| 0 <= j < l < ps.len() ==> #[trigger] ps[j] < #[trigger] ps[l]
            &&& forall|k: int|
                0 <= k < items@.len() && #[trigger] items@[k] is Object ==> exists|j: int|
                    0 <= j < ps.len() && #[trigger] ps[j] == k
            &&& forall|j: int|
                0 <= j < ps.len() ==> {
                    let p = #[trigger] ps[j];
                    let t = timeline_spec(v)[j];
                    &&& 0 <= p < items@.len()
                    &&& items@[p] is Object
                    &&& t == object_topic(items@[p], p as nat)
                    &&& t.id == "topic-"@ + decimal(p as nat)
                    &&& t.title == str_or(as_str(get(items@[p], "title"@)), "Untitled"@)
                    &&& t.description == str_or(as_str(get(items@[p], "description"@)), Seq::empty())
                    &&& t.start == time_ref(get(items@[p], "start"@))
                    &&& t.end == time_ref(get(items@[p], "end"@))
                    &&& t.markers == marker_array(get(items@[p], "markers"@))
                }
        },
{
    match v {
        Some(JsonValue::Array(items)) => {
            lemma_topics_at_positions(items@, items@.len());
        },
        _ => {},
    }
}

proof fn lemma_increasing_from_index(src: Seq<int>, k: int)
    requires
        0 <= k < src.len(),
        forall|a: int, b: int| 0 <= a < b < src.len() ==> src[a] < src[b],
        forall|a: int| 0 <= a < src.len() ==> 0 <= #[trigger] src[a],
    ensures
        k <= src[k],
    decreases k,
{
    if k > 0 {
        lemma_increasing_from_index(src, k - 1);
    }
}

/// A marker read from one line `label @ time` of a marker text.
pub open spec fn line_marker(line: Seq<char>, index: nat) -> MarkerView<TimeRef> {
    let id = "marker-line-"@ + decimal(index);
    match find_char_from(line, '@', 0) {
        Some(p) => if find_char_from(line, '@', p + 1).is_none() {
            MarkerView {
                id,
                label: trim(strip_leading(trim(line.take(p)), '-')),
                kind: "note"@,
                timestamp: TimeRef::Text(trim(line.skip(p + 1))),
            }
        } else {
            MarkerView { id, label: line, kind: "note"@, timestamp: TimeRef::Zero }
        },
        None => MarkerView { id, label: line, kind: "note"@, timestamp: TimeRef::Zero },
    }
}

/// The markers of the first `n` lines of a marker text.
pub open spec fn line_markers_acc(ls: Seq<Seq<char>>, n: nat) -> Seq<MarkerView<TimeRef>>
    decreases n,
{
    if n == 0 {
        Seq::empty()
    } else {
        let acc = line_markers_acc(ls, (n - 1) as nat);
        let line = trim(ls[n - 1]);
        if line.len() == 0 {
            acc
        } else {
            acc.push(line_marker(line, (n - 1) as nat))
        }
    }
}

/// The markers of a marker text, one per non-blank line.
pub open spec fn line_markers(text: Seq<char>) -> Seq<MarkerView<TimeRef>> {
    line_markers_acc(lines(text), lines(text).len())
}

/// The marker read from a JSON object, numbered after `count` markers.
pub open spec fn object_marker(e: JsonValue, count: nat) -> MarkerView<TimeRef> {
    MarkerView {
        id: "marker-"@ + decimal(count + 1),
        label: str_or(as_str(get(e, "label"@)), Seq::empty()),
        kind: str_or(as_str(or_else(get(e, "type"@), get(e, "kind"@))), "note"@),
        timestamp: time_ref(get(e, "timestamp"@)),
    }
}

/// The markers of a JSON array: objects, and marker texts.
pub open spec fn item_markers(items: Seq<JsonValue>) -> Seq<MarkerView<TimeRef>>
    decreases items.len(),
{
    if items.len() == 0 {
        Seq::empty()
    } else {
        let acc = item_markers(items.drop_last());
        match items.last() {
            JsonValue::Object(_) => acc.push(object_marker(items.last(), acc.len())),
            JsonValue::Str(t) => acc + line_markers(t@),
            _ => acc,
        }
    }
}

/// The markers that a JSON value gives.
pub open spec fn marker_array(v: Option<JsonValue>) -> Seq<MarkerView<TimeRef>> {
    match v {
        Some(JsonValue::Array(items)) => item_markers(items@),
        Some(JsonValue::Str(t)) => line_markers(t@),
        _ => Seq::empty(),
    }
}

/// The topic read from the JSON object at `index`.
pub open spec fn object_topic(e: JsonValue, index: nat) -> TopicView<TimeRef> {
    TopicView {
        id: "topic-"@ + decimal(index),
        title: str_or(as_str(get(e, "title"@)), "Untitled"@),
        description: str_or(as_str(get(e, "description"@)), Seq::empty()),
        start: time_ref(get(e, "start"@)),
        end: time_ref(get(e, "end"@)),
        markers: marker_array(get(e, "markers"@)),
    }
}

/// The topics of the first `n` items of a JSON array.
pub open spec fn topics_acc(items: Seq<JsonValue>, n: nat) -> Seq<TopicView<TimeRef>>
    decreases n,
{
    if n == 0 {
        Seq::empty()
    } else {
        let acc = topics_acc(items, (n - 1) as nat);
        match items[n - 1] {
            JsonValue::Object(_) => acc.push(object_topic(items[n - 1], (n - 1) as nat)),
            _ => acc,
        }
    }
}

/// The timeline that a JSON value gives.
pub open spec fn timeline_spec(v: Option<JsonValue>) -> Seq<TopicView<TimeRef>> {
    match v {
        Some(JsonValue::Array(items)) => topics_acc(items@, items@.len()),
        _ => Seq::empty(),
    }
}

/// The action items text: inferred actions when the reply's are poor, otherwise
/// the reply's with JSON bullets rewritten.
pub open spec fn actions_text(reply: Seq<char>, inferred: Seq<ActionView>) -> Seq<char> {
    if (placeholder_spec(reply) || object_list_spec(reply)) && inferred.len() > 0 {
        join(
            inferred.map_values(|a: ActionView| action_bullet_spec(a.description, a.owner, a.due)),
            "\n"@,
        )
    } else {
        rewritten_bullets(reply)
    }
}

/// The decisions text: up to three inferred actions when the reply's is a placeholder.
pub open spec fn decisions_text(reply: Seq<char>, inferred: Seq<ActionView>) -> Seq<char> {
    if placeholder_spec(reply) && inferred.len() > 0 {
        join(
            take_at_most(inferred.map_values(|a: ActionView| "- "@ + a.description), 3),
            "\n"@,
        )
    } else {
        reply
    }
}

/// The minutes that a payload and a transcript give, but for the generation time.
pub open spec fn minutes_match(
    d: MinutesDocument<TimeSource>,
    options: MinutesOptions,
    payload: JsonValue,
    rs: Seq<SegmentRecord>,
) -> bool {
    let inferred = inferred_actions(rs);
    &&& d.preset@ == options.preset@
    &&& d.format@ == options.format@
    &&& d.model@ == options.model@
    &&& d.summary@ == SectionView {
        title: "Summary"@,
        content: section_content(get_by_aliases(payload, summary_keys())),
    }
    &&& d.decisions@ == SectionView {
        title: "Decisions"@,
        content: decisions_text(
            section_content(get_by_aliases(payload, decision_keys())),
            inferred,
        ),
    }
    &&& d.actions@ == SectionView {
        title: "Action Items"@,
        content: actions_text(section_content(get_by_aliases(payload, action_keys())), inferred),
    }
    &&& opt_section(d.highlights) == match get_by_aliases(payload, highlight_keys()) {
        Some(v) => Some(SectionView { title: "Highlights"@, content: section_content(Some(v)) }),
        None => None,
    }
    &&& opt_section(d.blockers) == match get_by_aliases(payload, blocker_keys()) {
        Some(v) => Some(SectionView { title: "Blockers"@, content: section_content(Some(v)) }),
        None => None,
    }
    &&& topics_view(d.timeline@) == timeline_spec(get_by_aliases(payload, timeline_keys()))
}

/// The minutes made from a reply without JSON: the reply as summary.
pub open spec fn fallback_match(
    d: MinutesDocument<TimeSource>,
    options: MinutesOptions,
    response: Seq<char>,
) -> bool {
    &&& d.preset@ == options.preset@
    &&& d.format@ == options.format@
    &&& d.model@ == options.model@
    &&& d.summary@ == SectionView {
        title: "Summary"@,
        content: if trim(response).len() == 0 {
            "No summary available."@
        } else {
            trim(response)
        },
    }
    &&& d.decisions@ == SectionView { title: "Decisions"@, content: Seq::empty() }
    &&& d.actions@ == SectionView { title: "Action Items"@, content: Seq::empty() }
    &&& d.highlights.is_none()
    &&& d.blockers.is_none()
    &&& d.timeline@.len() == 0
}

// ---------------------------------------------------------------------------
// Executable functions
// ---------------------------------------------------------------------------
fn lit(s: &str) -> (out: Vec<char>)
    ensures
        out@ == s@,
{
    chars_of(s)
}

/// A string copy of a string.
fn copy_string(s: &String) -> (out: String)
    ensures
        out@ == s@,
{
    string_of(&chars_of(s.as_str()))
}

/// A copy of an optional string.
fn copy_opt_string(s: &Option<String>) -> (out: Option<String>)
    ensures
        opt_view(out) == opt_view(*s),
{
    match s {
        Some(x) => Some(copy_string(x)),
        None => None,
    }
}

proof fn lemma_list_deep(out: Vec<Vec<char>>, spec_list: Seq<Seq<char>>)
    requires
        out@.len() == spec_list.len(),
        forall|i: int| 0 <= i < spec_list.len() ==> #[trigger] out@[i]@ == spec_list[i],
    ensures
        out.deep_view() == spec_list,
{
    assert forall|i: int| 0 <= i < spec_list.len() implies out.deep_view()[i] == spec_list[i] by {
        lemma_chars_deep(out@[i]);
    }
    assert(out.deep_view() =~= spec_list);
}

fn summary_key_list() -> (out: Vec<Vec<char>>)
    ensures
        out.deep_view() == summary_keys(),
{
    let out = vec![lit("summary"), lit("overview"), lit("要約")];
    proof {
        lemma_list_deep(out, summary_keys());
    }
    out
}

fn decision_key_list() -> (out: Vec<Vec<char>>)
    ensures
        out.deep_view() == decision_keys(),
{
    let out = vec![lit("decisions"), lit("decision"), lit("decisionItems"), lit("決定事項")];
    proof {
        lemma_list_deep(out, decision_keys());
    }
    out
}

fn action_key_list() -> (out: Vec<Vec<char>>)
    ensures
        out.deep_view() == action_keys(),
{
    let out = vec![lit("actions"), lit("actionItems"), lit("action_items"), lit("tasks"), lit("アクション")];
    proof {
        lemma_list_deep(out, action_keys());
    }
    out
}

fn highlight_key_list() -> (out: Vec<Vec<char>>)
    ensures
        out.deep_view() == highlight_keys(),
{
    let out = vec![lit("highlights")];
    proof {
        lemma_list_deep(out, highlight_keys());
    }
    out
}

fn blocker_key_list() -> (out: Vec<Vec<char>>)
    ensures
        out.deep_view() == blocker_keys(),
{
    let out = vec![lit("blockers"), lit("risks")];
    proof {
        lemma_list_deep(out, blocker_keys());
    }
    out
}

fn timeline_key_list() -> (out: Vec<Vec<char>>)
    ensures
        out.deep_view() == timeline_keys(),
{
    let out = vec![lit("timeline"), lit("topics")];
    proof {
        lemma_list_deep(out, timeline_keys());
    }
    out
}

fn description_key_list() -> (out: Vec<Vec<char>>)
    ensures
        out.deep_view() == description_keys(),
{
    let out = vec![
        lit("item"),
        lit("task"),
        lit("action"),
        lit("title"),
        lit("description"),
        lit("content"),
        lit("text"),
    ];
    proof {
        lemma_list_deep(out, description_keys());
    }
    out
}

/// The value under the first of the keys that the payload has.
pub fn get_by_aliases_exec<'a>(payload: &'a JsonValue, keys: &Vec<Vec<char>>) -> (out: Option<
    &'a JsonValue,
>)
    ensures
        deref_opt(out) == get_by_aliases(*payload, keys.deep_view()),
{
    let mut k: usize = 0;
    assert(keys.deep_view().skip(0) == keys.deep_view());
    while k < keys.len()
        invariant
            k <= keys.len(),
            get_by_aliases(*payload, keys.deep_view()) == get_by_aliases(
                *payload,
                keys.deep_view().skip(k as int),
            ),
        decreases keys.len() - k,
    {
        proof {
            lemma_chars_deep(keys@[k as int]);
            assert(keys.deep_view().skip(k as int)[0] == keys.deep_view()[k as int]);
            assert(keys.deep_view().skip(k as int).drop_first() == keys.deep_view().skip(k + 1));
        }
        match payload.get_key(&keys[k]) {
            Some(v) => {
                return Some(v);
            },
            None => {},
        }
        k += 1;
    }
    None
}

/// The section that a JSON value gives: a string as is, an array as one bullet
/// per item, an object as one `- key: value` bullet per member, other values as
/// JSON, and nothing as an empty text.
pub fn section_from_value(value: Option<&JsonValue>, title: &str) -> (out: MinutesSection)
    ensures
        out@ == (SectionView { title: title@, content: section_content(deref_opt(value)) }),
{
    let content: String = match value {
        Some(JsonValue::Str(text)) => copy_string(text),
        Some(JsonValue::Array(items)) => {
            let mut ls: Vec<Vec<char>> = Vec::new();
            let mut i: usize = 0;
            while i < items.len()
                invariant
                    i <= items.len(),
                    ls.deep_view() == items@.take(i as int).map_values(
                        |x: JsonValue| item_line(x),
                    ),
                decreases items.len() - i,
            {
                let mut line = lit("- ");
                match &items[i] {
                    JsonValue::Str(t) => extend_str(&mut line, t.as_str()),
                    other => {
                        let r = render_json(other);
                        extend_str(&mut line, r.as_str());
                    },
                }
                assert(line@ == item_line(items@[i as int]));
                let ghost before = ls.deep_view();
                push_line(&mut ls, line);
                assert(items@.take(i + 1).map_values(|x: JsonValue| item_line(x)) =~= before.push(
                    item_line(items@[i as int]),
                ));
                i += 1;
            }
            assert(items@.take(items.len() as int) == items@);
            let joined = join_chars(&ls, &lit("\n"));
            string_of(&joined)
        },
        Some(JsonValue::Object(es)) => {
            let mut ls: Vec<Vec<char>> = Vec::new();
            let mut i: usize = 0;
            while i < es.len()
                invariant
                    i <= es.len(),
                    ls.deep_view() == es@.take(i as int).map_values(
                        |e: (String, JsonValue)| member_line(e),
                    ),
                decreases es.len() - i,
            {
                let mut line = lit("- ");
                extend_str(&mut line, es[i].0.as_str());
                extend_str(&mut line, ": ");
                let r = render_json(&es[i].1);
                extend_str(&mut line, r.as_str());
                assert(line@ == member_line(es@[i as int]));
                let ghost before = ls.deep_view();
                push_line(&mut ls, line);
                assert(es@.take(i + 1).map_values(|e: (String, JsonValue)| member_line(e))
                    =~= before.push(member_line(es@[i as int])));
                i += 1;
            }
            assert(es@.take(es.len() as int) == es@);
            let joined = join_chars(&ls, &lit("\n"));
            string_of(&joined)
        },
        Some(other) => render_json(other),
        None => String::new(),
    };
    MinutesSection { title: string_of(&chars_of(title)), content }
}

/// The first of the keys whose value is a string.
fn first_str_exec(v: &JsonValue, keys: &Vec<Vec<char>>) -> (out: Option<String>)
    ensures
        opt_view(out) == first_str(*v, keys.deep_view()),
{
    let mut k: usize = 0;
    assert(keys.deep_view().skip(0) == keys.deep_view());
    while k < keys.len()
        invariant
            k <= keys.len(),
            first_str(*v, keys.deep_view()) == first_str(*v, keys.deep_view().skip(k as int)),
        decreases keys.len() - k,
    {
        proof {
            lemma_chars_deep(keys@[k as int]);
            assert(keys.deep_view().skip(k as int)[0] == keys.deep_view()[k as int]);
            assert(keys.deep_view().skip(k as int).drop_first() == keys.deep_view().skip(k + 1));
        }
        match v.get_key(&keys[k]) {
            Some(JsonValue::Str(s)) => {
                return Some(copy_string(s));
            },
            _ => {},
        }
        k += 1;
    }
    None
}

/// The first present of the values.
fn or_else_exec<'a>(a: Option<&'a JsonValue>, b: Option<&'a JsonValue>) -> (out: Option<
    &'a JsonValue,
>)
    ensures
        deref_opt(out) == or_else(deref_opt(a), deref_opt(b)),
{
    match a {
        Some(x) => Some(x),
        None => b,
    }
}

/// The string of an optional string value.
fn as_str_opt(v: Option<&JsonValue>) -> (out: Option<String>)
    ensures
        opt_view(out) == as_str(deref_opt(v)),
{
    match v {
        Some(JsonValue::Str(s)) => Some(copy_string(s)),
        _ => None,
    }
}

/// The text of an optional string, or a default.
fn str_or_exec(v: Option<String>, d: &str) -> (out: String)
    ensures
        out@ == str_or(opt_view(v), d@),
{
    match v {
        Some(s) => s,
        None => string_of(&chars_of(d)),
    }
}

/// The bullet for a JSON object: description, owner and due date read from it.
pub fn format_json_bullet(v: &JsonValue) -> (out: String)
    requires
        v is Object,
    ensures
        out@ == object_bullet(*v),
{
    let keys = description_key_list();
    let d = first_str_exec(v, &keys);
    let description = crate::text::trim_str(str_or_exec(d, "実施項目未特定").as_str());
    let owner_v = or_else_exec(v.get_lit("owner"), v.get_lit("assignee"));
    let owner = crate::text::trim_str(str_or_exec(as_str_opt(owner_v), "不明").as_str());
    let due_v = or_else_exec(
        v.get_lit("dueDate"),
        or_else_exec(v.get_lit("due_date"), v.get_lit("deadline")),
    );
    let due = match as_str_opt(due_v) {
        Some(d) => {
            let t = crate::text::trim_str(d.as_str());
            if t.as_str().is_empty() {
                None
            } else {
                Some(t)
            }
        },
        None => None,
    };
    let action = InferredAction { description, owner: Some(owner), due };
    format_inferred_action_bullet(&action)
}

/// One line of a section with a JSON bullet rewritten.
fn rewrite_line(line: &[char]) -> (out: Vec<char>)
    ensures
        out@ == rewritten_line(line@),
{
    let t = trim_chars(line);
    let prefix = lit("- ");
    proof {
        reveal_strlit("- ");
    }
    if starts_with_chars(&t, &prefix) {
        let rest = slice_chars(&t, 2, t.len());
        assert(rest@ == t@.skip(2));
        if starts_with_char(&rest, '{') && crate::text::ends_with_char(&rest, '}') {
            let rs = string_of(&rest);
            let parsed = crate::json::parse_json(rs.as_str());
            match &parsed {
                Some(JsonValue::Object(_)) => {
                    let b = format_json_bullet(parsed.as_ref().unwrap());
                    return chars_of(b.as_str());
                },
                _ => {},
            }
        }
    }
    slice_chars(line, 0, line.len())
}

/// A section text with each bullet that holds a JSON object (`- {...}`)
/// rewritten as `- description（担当: owner / 期限: due）`; other lines stay.
pub fn normalize_json_bullets(content: &str) -> (out: String)
    ensures
        out@ == rewritten_bullets(content@),
{
    let cs = chars_of(content);
    let ls = lines_of(&cs);
    let mut out_lines: Vec<Vec<char>> = Vec::new();
    let mut i: usize = 0;
    while i < ls.len()
        invariant
            i <= ls.len(),
            out_lines.deep_view() == ls.deep_view().take(i as int).map_values(
                |l: Seq<char>| rewritten_line(l),
            ),
        decreases ls.len() - i,
    {
        proof {
            lemma_chars_deep(ls@[i as int]);
        }
        let line = rewrite_line(&ls[i]);
        let ghost before = out_lines.deep_view();
        push_line(&mut out_lines, line);
        assert(ls.deep_view().take(i + 1).map_values(|l: Seq<char>| rewritten_line(l)) =~= before.push(
            rewritten_line(ls.deep_view()[i as int]),
        ));
        i += 1;
    }
    assert(ls.deep_view().take(ls.len() as int) == ls.deep_view());
    let joined = join_chars(&out_lines, &lit("\n"));
    string_of(&joined)
}

/// The text without the characters `c` that end it.
fn strip_trailing_exec(s: &[char], c: char) -> (out: Vec<char>)
    ensures
        out@ == strip_trailing(s@, c),
{
    let mut j = s.len();
    assert(s@.take(j as int) == s@);
    while j > 0 && s[j - 1] == c
        invariant
            j <= s.len(),
            strip_trailing(s@, c) == strip_trailing(s@.take(j as int), c),
        decreases j,
    {
        proof {
            assert(s@.take(j as int).drop_last() == s@.take(j - 1));
        }
        j -= 1;
    }
    proof {
        if j == s.len() {
            assert(s@.take(j as int) == s@);
        }
    }
    slice_chars(s, 0, j)
}

/// The text without the characters `c` that start it.
fn strip_leading_exec(s: &[char], c: char) -> (out: Vec<char>)
    ensures
        out@ == strip_leading(s@, c),
{
    let mut i: usize = 0;
    assert(s@.skip(0) == s@);
    while i < s.len() && s[i] == c
        invariant
            i <= s.len(),
            strip_leading(s@, c) == strip_leading(s@.skip(i as int), c),
        decreases s.len() - i,
    {
        proof {
            assert(s@.skip(i as int).drop_first() == s@.skip(i + 1));
        }
        i += 1;
    }
    slice_chars(s, i, s.len())
}

/// The statement at a segment, as sanitised text.
fn sanitized_text(r: &SegmentRecord) -> (out: Vec<char>)
    ensures
        out@ == sanitized(r.segment.text@),
{
    let t = crate::text::trim_str(r.segment.text.as_str());
    let s = sanitize_text(t.as_str());
    proof {
        reveal_strlit(" ");
        assert(seq![' '] =~= " "@);
    }
    chars_of(s.as_str())
}

/// Whether an action with this description was already inferred.
fn seen_before(acc: &Vec<InferredAction>, norm: &String) -> (b: bool)
    ensures
        b == exists|k: int| 0 <= k < acc@.len() && #[trigger] acc@[k]@.description == norm@,
{
    let mut k: usize = 0;
    while k < acc.len()
        invariant
            k <= acc.len(),
            forall|m: int| 0 <= m < k ==> #[trigger] acc@[m]@.description != norm@,
        decreases acc.len() - k,
    {
        if acc[k].description == *norm {
            assert(acc@[k as int]@.description == norm@);
            return true;
        }
        k += 1;
    }
    false
}

/// The actions that a transcript states: each segment (after a preceding due
/// prefix such as "明日は") that reads as a commitment, without a trailing "。",
/// once per distinct text, with the speaker as owner and the due phrase it names.
pub fn infer_actions_from_segments(segments: &[SegmentRecord]) -> (out: Vec<InferredAction>)
    ensures
        out@.map_values(|a: InferredAction| a@) == inferred_actions(segments@),
{
    let mut inferred: Vec<InferredAction> = Vec::new();
    let mut index: usize = 0;
    while index < segments.len()
        invariant
            index <= segments.len(),
            inferred@.map_values(|a: InferredAction| a@) == infer_acc(segments@, index as nat),
        decreases segments.len() - index,
    {
        let ghost acc = infer_acc(segments@, index as nat);
        let current = sanitized_text(&segments[index]);
        if current.len() == 0 {
            index += 1;
            continue;
        }
        let mut candidate = current;
        if index > 0 {
            let previous = sanitized_text(&segments[index - 1]);
            let ps = string_of(&previous);
            if looks_like_due_prefix(ps.as_str()) {
                let mut joined = previous;
                extend_str(&mut joined, " ");
                extend_chars(&mut joined, &candidate);
                candidate = joined;
            }
        }
        assert(candidate@ == candidate_at(segments@, index as int));
        let cs = string_of(&candidate);
        if !looks_like_action_statement(cs.as_str()) {
            index += 1;
            continue;
        }
        let stripped = strip_trailing_exec(&candidate, '。');
        let normalized = string_of(&trim_chars(&stripped));
        proof {
            assert(inferred@.map_values(|a: InferredAction| a@).len() == inferred@.len());
            assert forall|k: int| 0 <= k < inferred@.len() implies #[trigger] inferred@[k]@.description
                == acc[k].description by {
                assert(inferred@.map_values(|a: InferredAction| a@)[k] == inferred@[k]@);
            }
        }
        if seen_before(&inferred, &normalized) {
            proof {
                let k = choose|k: int| 0 <= k < inferred@.len() && #[trigger] inferred@[k]@.description == normalized@;
                assert(acc[k].description == normalized@);
            }
            index += 1;
            continue;
        }
        let owner = normalize_owner(segments[index].segment.speaker.as_str());
        let due = detect_due_phrase(normalized.as_str());
        let action = InferredAction { description: normalized, owner, due };
        let ghost av = action@;
        let ghost before = inferred@;
        inferred.push(action);
        proof {
            assert(!(exists|k: int| 0 <= k < acc.len() && #[trigger] acc[k].description == av.description)) by {
                if exists|k: int| 0 <= k < acc.len() && #[trigger] acc[k].description == av.description {
                    let k = choose|k: int| 0 <= k < acc.len() && #[trigger] acc[k].description == av.description;
                    assert(before.map_values(|a: InferredAction| a@)[k] == before[k]@);
                }
            }
            assert(inferred@.map_values(|a: InferredAction| a@) =~= before.map_values(
                |a: InferredAction| a@,
            ).push(av));
        }
        index += 1;
    }
    inferred
}


/// The first position at or after `i` that holds `c`.
fn find_char_exec(s: &[char], c: char, i: usize) -> (out: Option<usize>)
    ensures
        match out {
            Some(p) => find_char_from(s@, c, i as int) == Some(p as int) && p < s.len(),
            None => find_char_from(s@, c, i as int).is_none(),
        },
{
    let mut p = i;
    if p >= s.len() {
        return None;
    }
    while p < s.len() && s[p] != c
        invariant
            i <= p <= s.len(),
            find_char_from(s@, c, i as int) == find_char_from(s@, c, p as int),
        decreases s.len() - p,
    {
        p += 1;
    }
    if p < s.len() {
        Some(p)
    } else {
        None
    }
}

/// The marker of one trimmed, non-blank line of a marker text.
fn line_marker_exec(line: &[char], index: usize) -> (out: TimelineMarker<TimeSource>)
    ensures
        out@ == line_marker(line@, index as nat),
{
    let mut id = lit("marker-line-");
    let number = decimal_chars(index as u128);
    extend_chars(&mut id, &number);
    let ids = string_of(&id);
    let whole = TimelineMarker {
        id: string_of(&id),
        label: string_of(line),
        kind: string_of(&lit("note")),
        timestamp: TimeSource::Zero,
    };
    match find_char_exec(line, '@', 0) {
        Some(p) => {
            if find_char_exec(line, '@', p + 1).is_none() {
                let before = slice_chars(line, 0, p);
                let label = trim_chars(&strip_leading_exec(&trim_chars(&before), '-'));
                let after = slice_chars(line, p + 1, line.len());
                let at = trim_chars(&after);
                assert(before@ == line@.take(p as int));
                assert(after@ == line@.skip(p + 1));
                TimelineMarker {
                    id: ids,
                    label: string_of(&label),
                    kind: string_of(&lit("note")),
                    timestamp: TimeSource::Text(string_of(&at)),
                }
            } else {
                whole
            }
        },
        None => whole,
    }
}

/// The markers of a marker text: one per non-blank line, `label @ time` read
/// as a label and a time when the line has one `@`, the whole line otherwise.
pub fn parse_marker_lines(text: &str) -> (out: Vec<TimelineMarker<TimeSource>>)
    ensures
        markers_view(out@) == line_markers(text@),
{
    let cs = chars_of(text);
    let ls = lines_of(&cs);
    let mut out: Vec<TimelineMarker<TimeSource>> = Vec::new();
    let mut n: usize = 0;
    while n < ls.len()
        invariant
            n <= ls.len(),
            ls.deep_view() == lines(text@),
            markers_view(out@) == line_markers_acc(ls.deep_view(), n as nat),
        decreases ls.len() - n,
    {
        proof {
            lemma_chars_deep(ls@[n as int]);
        }
        let line = trim_chars(&ls[n]);
        if line.len() > 0 {
            let m = line_marker_exec(&line, n);
            let ghost before = out@;
            out.push(m);
            assert(markers_view(out@) =~= markers_view(before).push(m@));
        }
        n += 1;
    }
    out
}

/// The markers that a JSON value gives: from an array, one per object (label,
/// type or kind, timestamp) and those of each marker text; from a text, those
/// of its lines.
pub fn build_marker_array(value: Option<&JsonValue>) -> (out: Vec<TimelineMarker<TimeSource>>)
    ensures
        markers_view(out@) == marker_array(deref_opt(value)),
{
    match value {
        Some(JsonValue::Array(items)) => {
            let mut out: Vec<TimelineMarker<TimeSource>> = Vec::new();
            let mut i: usize = 0;
            while i < items.len()
                invariant
                    i <= items.len(),
                    markers_view(out@) == item_markers(items@.take(i as int)),
                decreases items.len() - i,
            {
                proof {
                    assert(items@.take(i + 1).drop_last() == items@.take(i as int));
                    assert(items@.take(i + 1).last() == items@[i as int]);
                }
                let entry = &items[i];
                match entry {
                    JsonValue::Object(_) => {
                        let mut id = lit("marker-");
                        let number = decimal_chars(out.len() as u128 + 1);
                        extend_chars(&mut id, &number);
                        let label = str_or_exec(as_str_opt(entry.get_lit("label")), "");
                        let kind = str_or_exec(
                            as_str_opt(or_else_exec(entry.get_lit("type"), entry.get_lit("kind"))),
                            "note",
                        );
                        let timestamp = timestamp_source(entry.get_lit("timestamp"));
                        let m = TimelineMarker { id: string_of(&id), label, kind, timestamp };
                        proof {
                            reveal_strlit("");
                            assert(""@ =~= Seq::<char>::empty());
                            assert(m@ == object_marker(items@[i as int], markers_view(out@).len()));
                        }
                        let ghost before = out@;
                        out.push(m);
                        assert(markers_view(out@) =~= markers_view(before).push(m@));
                    },
                    JsonValue::Str(t) => {
                        let mut more = parse_marker_lines(t.as_str());
                        let ghost before = out@;
                        let ghost added = more@;
                        out.append(&mut more);
                        assert(markers_view(out@) =~= markers_view(before) + markers_view(added));
                    },
                    _ => {},
                }
                i += 1;
            }
            assert(items@.take(items.len() as int) == items@);
            out
        },
        Some(JsonValue::Str(t)) => parse_marker_lines(t.as_str()),
        _ => Vec::new(),
    }
}

/// The timeline that a JSON array gives: one topic per object (title, or
/// "Untitled"; description; start and end; markers), numbered by position.
pub fn build_timeline(value: Option<&JsonValue>) -> (out: Result<Vec<TopicSummary<TimeSource>>, String>)
    ensures
        out matches Ok(ts) && topics_view(ts@) == timeline_spec(deref_opt(value)),
{
    match value {
        Some(JsonValue::Array(items)) => {
            let mut out: Vec<TopicSummary<TimeSource>> = Vec::new();
            let mut i: usize = 0;
            while i < items.len()
                invariant
                    i <= items.len(),
                    topics_view(out@) == topics_acc(items@, i as nat),
                decreases items.len() - i,
            {
                let entry = &items[i];
                match entry {
                    JsonValue::Object(_) => {
                        let mut id = lit("topic-");
                        let number = decimal_chars(i as u128);
                        extend_chars(&mut id, &number);
                        let title = str_or_exec(as_str_opt(entry.get_lit("title")), "Untitled");
                        let description = str_or_exec(as_str_opt(entry.get_lit("description")), "");
                        let start = timestamp_source(entry.get_lit("start"));
                        let end = timestamp_source(entry.get_lit("end"));
                        let markers = build_marker_array(entry.get_lit("markers"));
                        let t = TopicSummary { id: string_of(&id), title, description, start, end, markers };
                        proof {
                            reveal_strlit("");
                            assert(""@ =~= Seq::<char>::empty());
                            assert(t@ == object_topic(items@[i as int], i as nat));
                        }
                        let ghost before = out@;
                        out.push(t);
                        assert(topics_view(out@) =~= topics_view(before).push(t@));
                    },
                    _ => {},
                }
                i += 1;
            }
            Ok(out)
        },
        _ => Ok(Vec::new()),
    }
}

/// The minutes that a payload and a transcript give, generated at `generated_at`.
pub fn map_minutes_at(
    options: MinutesOptions,
    payload: &JsonValue,
    segments: &[SegmentRecord],
    generated_at: UtcTime,
) -> (out: MinutesDocument<TimeSource>)
    ensures
        minutes_match(out, options, *payload, segments@),
        out.generated_at == generated_at,
{
    let summary = section_from_value(get_by_aliases_exec(payload, &summary_key_list()), "Summary");
    let mut decisions = section_from_value(
        get_by_aliases_exec(payload, &decision_key_list()),
        "Decisions",
    );
    let mut actions = section_from_value(
        get_by_aliases_exec(payload, &action_key_list()),
        "Action Items",
    );
    let highlights = match get_by_aliases_exec(payload, &highlight_key_list()) {
        Some(v) => Some(section_from_value(Some(v), "Highlights")),
        None => None,
    };
    let blockers = match get_by_aliases_exec(payload, &blocker_key_list()) {
        Some(v) => Some(section_from_value(Some(v), "Blockers")),
        None => None,
    };
    let inferred = infer_actions_from_segments(segments);
    let ghost inf = inferred_actions(segments@);
    proof {
        assert(inferred@.len() == inf.len()) by {
            assert(inferred@.map_values(|a: InferredAction| a@).len() == inferred@.len());
        }
        assert forall|k: int| 0 <= k < inferred@.len() implies #[trigger] inferred@[k]@ == inf[k] by {
            assert(inferred@.map_values(|a: InferredAction| a@)[k] == inferred@[k]@);
        }
    }
    let actions_low_quality = is_placeholder_or_empty(actions.content.as_str())
        || is_json_object_list(actions.content.as_str());
    if actions_low_quality && inferred.len() > 0 {
        let mut ls: Vec<Vec<char>> = Vec::new();
        let mut k: usize = 0;
        while k < inferred.len()
            invariant
                k <= inferred.len(),
                inferred@.len() == inf.len(),
                forall|m: int| 0 <= m < inferred@.len() ==> #[trigger] inferred@[m]@ == inf[m],
                ls.deep_view() == inf.take(k as int).map_values(
                    |a: ActionView| action_bullet_spec(a.description, a.owner, a.due),
                ),
            decreases inferred.len() - k,
        {
            assert(inferred@[k as int]@ == inf[k as int]);
            let b = format_inferred_action_bullet(&inferred[k]);
            let ghost before = ls.deep_view();
            push_line(&mut ls, chars_of(b.as_str()));
            assert(inf.take(k + 1).map_values(
                |a: ActionView| action_bullet_spec(a.description, a.owner, a.due),
            ) =~= before.push(action_bullet_spec(inf[k as int].description, inf[k as int].owner, inf[k as int].due)));
            k += 1;
        }
        assert(inf.take(inf.len() as int) == inf);
        actions.content = string_of(&join_chars(&ls, &lit("\n")));
    } else {
        actions.content = normalize_json_bullets(actions.content.as_str());
    }
    if is_placeholder_or_empty(decisions.content.as_str()) && inferred.len() > 0 {
        let mut ls: Vec<Vec<char>> = Vec::new();
        let mut k: usize = 0;
        while k < inferred.len() && k < 3
            invariant
                k <= inferred.len(),
                k <= 3,
                inferred@.len() == inf.len(),
                forall|m: int| 0 <= m < inferred@.len() ==> #[trigger] inferred@[m]@ == inf[m],
                ls.deep_view() == inf.map_values(|a: ActionView| "- "@ + a.description).take(k as int),
            decreases inferred.len() - k,
        {
            assert(inferred@[k as int]@ == inf[k as int]);
            let mut line = lit("- ");
            extend_str(&mut line, inferred[k].description.as_str());
            let ghost before = ls.deep_view();
            push_line(&mut ls, line);
            assert(inf.map_values(|a: ActionView| "- "@ + a.description).take(k + 1) =~= before.push(
                "- "@ + inf[k as int].description,
            ));
            k += 1;
        }
        proof {
            let all = inf.map_values(|a: ActionView| "- "@ + a.description);
            if all.len() <= 3 {
                assert(all.take(all.len() as int) =~= all);
            }
        }
        decisions.content = string_of(&join_chars(&ls, &lit("\n")));
    }
    let timeline = match build_timeline(get_by_aliases_exec(payload, &timeline_key_list())) {
        Ok(t) => t,
        Err(_) => Vec::new(),
    };
    MinutesDocument {
        preset: options.preset,
        format: options.format,
        model: options.model,
        generated_at,
        summary,
        decisions,
        actions,
        highlights,
        blockers,
        timeline,
    }
}

/// The minutes that a payload and a transcript give, generated now.
pub fn map_minutes(options: MinutesOptions, payload: &JsonValue, segments: &[SegmentRecord]) -> (out: Result<
    MinutesDocument<TimeSource>,
    String,
>)
    ensures
        out matches Ok(d) && minutes_match(d, options, *payload, segments@),
{
    Ok(map_minutes_at(options, payload, segments, UtcTime::now()))
}

/// The minutes made from a reply without JSON, generated at `generated_at`:
/// the trimmed reply (or "No summary available.") as summary, the rest empty.
pub fn fallback_minutes_at(options: MinutesOptions, response: String, generated_at: UtcTime) -> (out:
    MinutesDocument<TimeSource>)
    ensures
        fallback_match(out, options, response@),
        out.generated_at == generated_at,
{
    let summary_content = crate::text::trim_str(response.as_str());
    let content = if summary_content.as_str().is_empty() {
        String::from_str("No summary available.")
    } else {
        summary_content
    };
    MinutesDocument {
        preset: options.preset,
        format: options.format,
        model: options.model,
        generated_at,
        summary: MinutesSection { title: String::from_str("Summary"), content },
        decisions: MinutesSection { title: String::from_str("Decisions"), content: String::new() },
        actions: MinutesSection { title: String::from_str("Action Items"), content: String::new() },
        highlights: None,
        blockers: None,
        timeline: Vec::new(),
    }
}

/// The minutes made from a reply without JSON, generated now.
pub fn fallback_minutes(options: MinutesOptions, response: String) -> (out: MinutesDocument<
    TimeSource,
>)
    ensures
        fallback_match(out, options, response@),
{
    fallback_minutes_at(options, response, UtcTime::now())
}

/// The minutes for a model's reply: mapped from the JSON that it holds, or made
/// from the reply itself when it holds none.
pub fn minutes_from_reply_at(
    options: MinutesOptions,
    reply: String,
    segments: &[SegmentRecord],
    generated_at: UtcTime,
) -> (out: MinutesDocument<TimeSource>)
    ensures
        out.generated_at == generated_at,
        match reply_value(reply@) {
            Some(v) => minutes_match(out, options, v, segments@),
            None => fallback_match(out, options, reply@),
        },
{
    match extract_json_value(reply.as_str()) {
        Ok(json) => map_minutes_at(options, &json, segments, generated_at),
        Err(_) => fallback_minutes_at(options, reply, generated_at),
    }
}

/// The minutes for a model's reply, generated now.
pub fn minutes_from_reply(options: MinutesOptions, reply: String, segments: &[SegmentRecord]) -> (out:
    MinutesDocument<TimeSource>)
    ensures
        match reply_value(reply@) {
            Some(v) => minutes_match(out, options, v, segments@),
            None => fallback_match(out, options, reply@),
        },
{
    minutes_from_reply_at(options, reply, segments, UtcTime::now())
}


/// The prompt templates: one for the `detailed` preset, one for all others.
pub struct PromptTemplates {
    pub detailed: String,
    pub default: String,
}

/// The line of one segment in a prompt: `[start-end] speaker: text`.
pub open spec fn prompt_line(r: SegmentRecord) -> Seq<char> {
    "["@ + clock_text(r.segment.start) + "-"@ + clock_text(r.segment.end) + "] "@
        + r.segment.speaker@ + ": "@ + trim(r.segment.text@)
}

/// The prompt for a preset and a transcript.
pub open spec fn prompt_spec(preset: Seq<char>, templates: PromptTemplates, rs: Seq<SegmentRecord>) -> Seq<char> {
    let template = if preset == "detailed"@ {
        templates.detailed@
    } else {
        templates.default@
    };
    template + "\n\n<transcript>\n"@ + join(rs.map_values(|r: SegmentRecord| prompt_line(r)), "\n"@)
        + "\n</transcript>\n\nReturn JSON only."@
}

/// The prompt that asks for minutes: the preset's template, then the
/// transcript one segment per line, then the request for JSON.
pub fn build_prompt(options: &MinutesOptions, segments: &[SegmentRecord], templates: &PromptTemplates) -> (out: Result<String, String>)
    ensures
        out matches Ok(p) && p@ == prompt_spec(options.preset@, *templates, segments@),
{
    let detailed = String::from_str("detailed");
    let template = if options.preset == detailed {
        &templates.detailed
    } else {
        &templates.default
    };
    let mut ls: Vec<Vec<char>> = Vec::new();
    let mut i: usize = 0;
    while i < segments.len()
        invariant
            i <= segments.len(),
            ls.deep_view() == segments@.take(i as int).map_values(|r: SegmentRecord| prompt_line(r)),
        decreases segments.len() - i,
    {
        let seg = &segments[i].segment;
        let mut line = lit("[");
        extend_str(&mut line, format_timestamp(&seg.start).as_str());
        extend_str(&mut line, "-");
        extend_str(&mut line, format_timestamp(&seg.end).as_str());
        extend_str(&mut line, "] ");
        extend_str(&mut line, seg.speaker.as_str());
        extend_str(&mut line, ": ");
        extend_chars(&mut line, &trim_chars(&chars_of(seg.text.as_str())));
        assert(line@ == prompt_line(segments@[i as int]));
        let ghost before = ls.deep_view();
        push_line(&mut ls, line);
        assert(segments@.take(i + 1).map_values(|r: SegmentRecord| prompt_line(r)) =~= before.push(
            prompt_line(segments@[i as int]),
        ));
        i += 1;
    }
    assert(segments@.take(segments.len() as int) == segments@);
    let block = join_chars(&ls, &lit("\n"));
    let mut out = chars_of(template.as_str());
    extend_str(&mut out, "\n\n<transcript>\n");
    extend_chars(&mut out, &block);
    extend_str(&mut out, "\n</transcript>\n\nReturn JSON only.");
    Ok(string_of(&out))
}

/// The minutes can only be asked for with a transcript.
pub fn check_segments_available(segments: &[SegmentRecord]) -> (out: Result<(), String>)
    ensures
        out is Ok <==> segments@.len() > 0,
        out matches Err(m) ==> m@ == "No transcript segments are available. Record audio before generating minutes."@,
{
    if segments.len() == 0 {
        Err(String::from_str("No transcript segments are available. Record audio before generating minutes."))
    } else {
        Ok(())
    }
}

/// The error for a reply with a failure status: a missing model is named with
/// the command that fetches it; otherwise the status, with the start of the body.
pub open spec fn status_error_spec(model: Seq<char>, not_found: bool, status: Seq<char>, body: Seq<char>) -> Seq<char> {
    if not_found {
        "Model `"@ + model + "` was not found on the Ollama server. Run `ollama pull "@ + model
            + "` before generating minutes."@
    } else {
        let snippet = summary_of_body(body);
        "Minutes generation failed with status "@ + status + if snippet.len() == 0 {
            Seq::<char>::empty()
        } else {
            ": "@ + snippet
        }
    }
}

/// The error for a reply with a failure status (`status` as the HTTP library
/// writes it, `not_found` when it is 404).
pub fn generation_status_error(model: &str, not_found: bool, status: &str, body: &str) -> (out: String)
    ensures
        out@ == status_error_spec(model@, not_found, status@, body@),
{
    let mut out: Vec<char> = Vec::new();
    if not_found {
        extend_str(&mut out, "Model `");
        extend_str(&mut out, model);
        extend_str(&mut out, "` was not found on the Ollama server. Run `ollama pull ");
        extend_str(&mut out, model);
        extend_str(&mut out, "` before generating minutes.");
    } else {
        let snippet = summarize_body(body);
        extend_str(&mut out, "Minutes generation failed with status ");
        extend_str(&mut out, status);
        if !snippet.as_str().is_empty() {
            extend_str(&mut out, ": ");
            extend_str(&mut out, snippet.as_str());
        }
        proof {
            if snippet@.len() == 0 {
                assert(out@ =~= "Minutes generation failed with status "@ + status@ + Seq::<char>::empty());
            }
        }
    }
    string_of(&out)
}

} // verus!
