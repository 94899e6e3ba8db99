//! What is written to disk: the Markdown transcript, the names of the files
//! that hold minutes, transcripts, snapshots and the Google token, and the
//! token itself.
use vstd::prelude::*;

use crate::model::{total_key, total_key_of, clock_text, copy_str, format_timestamp, SegmentView, TranscriptSegment, UtcTime, utc_file_stamp, utc_rfc3339};
use crate::text::{chars_of, extend_chars, extend_str, join, join_chars, push_line, string_of, trim, trim_chars};

verus! {

// ---------------------------------------------------------------------------
// The stored Google token
// ---------------------------------------------------------------------------
/// An OAuth token for Google Docs: the access token, the token that renews
/// it, and the Unix time in seconds after which the access token is stale.
#[derive(Clone, Debug)]
pub struct GoogleOAuthToken {
    pub access_token: String,
    pub refresh_token: String,
    pub expires_at: i64,
}

/// What a token holds.
pub struct TokenView {
    pub access_token: Seq<char>,
    pub refresh_token: Seq<char>,
    pub expires_at: i64,
}

impl View for GoogleOAuthToken {
    type V = TokenView;

    open spec fn view(&self) -> TokenView {
        TokenView {
            access_token: self.access_token@,
            refresh_token: self.refresh_token@,
            expires_at: self.expires_at,
        }
    }
}

impl GoogleOAuthToken {
    /// A copy of this token.
    pub fn copy(&self) -> (out: GoogleOAuthToken)
        ensures
            out@ == self@,
    {
        GoogleOAuthToken {
            access_token: copy_str(&self.access_token),
            refresh_token: copy_str(&self.refresh_token),
            expires_at: self.expires_at,
        }
    }
}

// ---------------------------------------------------------------------------
// File names
// ---------------------------------------------------------------------------
/// The name of the file that keeps the Google token.
pub fn google_oauth_token_file_name() -> (out: String)
    ensures
        out@ == "google-oauth-token.json"@,
{
    String::from_str("google-oauth-token.json")
}

/// `session-{id}.json`, the default name of a session snapshot.
pub fn snapshot_file_name(id: &str) -> (out: String)
    ensures
        out@ == "session-"@ + id@ + ".json"@,
{
    let mut cs = chars_of("session-");
    extend_str(&mut cs, id);
    extend_str(&mut cs, ".json");
    string_of(&cs)
}

/// `minutes-{YYYYmmdd-HHMMSS}.md`, the default name of exported minutes,
/// stamped with the time the minutes were generated.
pub fn minutes_file_name(generated_at: &UtcTime) -> (out: String)
    ensures
        out@ == "minutes-"@ + utc_file_stamp(generated_at.secs_spec(), generated_at.nanos_spec())
            + ".md"@,
{
    let stamp = generated_at.file_stamp();
    let mut cs = chars_of("minutes-");
    extend_str(&mut cs, stamp.as_str());
    extend_str(&mut cs, ".md");
    string_of(&cs)
}

/// `transcript-{YYYYmmdd-HHMMSS}.md`, the default name of an exported
/// transcript, stamped with the time of export.
pub fn transcript_file_name(now: &UtcTime) -> (out: String)
    ensures
        out@ == "transcript-"@ + utc_file_stamp(now.secs_spec(), now.nanos_spec()) + ".md"@,
{
    let stamp = now.file_stamp();
    let mut cs = chars_of("transcript-");
    extend_str(&mut cs, stamp.as_str());
    extend_str(&mut cs, ".md");
    string_of(&cs)
}

// ---------------------------------------------------------------------------
// Segments in order of start
// ---------------------------------------------------------------------------
/// The views of a list of segments.
pub open spec fn segments_view(s: Seq<TranscriptSegment>) -> Seq<SegmentView> {
    s.map_values(|x: TranscriptSegment| x@)
}

/// The position after the last leading segment that starts no later than `key`.
pub open spec fn upper_pos(s: Seq<SegmentView>, key: int) -> int
    decreases s.len(),
{
    if s.len() == 0 {
        0
    } else if total_key(s[0].start) > key {
        0
    } else {
        1 + upper_pos(s.drop_first(), key)
    }
}

/// The segments stably sorted by start, with starts compared as
/// `f32::total_cmp` compares them: each is inserted after those before it that
/// start no later than it does.
pub open spec fn sort_by_start(s: Seq<SegmentView>) -> Seq<SegmentView>
    decreases s.len(),
{
    if s.len() == 0 {
        s
    } else {
        let t = sort_by_start(s.drop_last());
        t.insert(upper_pos(t, total_key(s.last().start)), s.last())
    }
}

/// Segments in order of their start.
pub open spec fn ordered_by_start(s: Seq<SegmentView>) -> bool {
    forall|i: int, j: int| 0 <= i < j < s.len() ==> total_key(s[i].start) <= total_key(s[j].start)
}

proof fn lemma_upper_pos(s: Seq<SegmentView>, key: int)
    ensures
        0 <= upper_pos(s, key) <= s.len(),
        forall|j: int| 0 <= j < upper_pos(s, key) ==> #[trigger] total_key(s[j].start) <= key,
        upper_pos(s, key) < s.len() ==> total_key(s[upper_pos(s, key)].start) > key,
    decreases s.len(),
{
    if s.len() > 0 && total_key(s[0].start) <= key {
        lemma_upper_pos(s.drop_first(), key);
        assert forall|j: int| 0 <= j < upper_pos(s, key) implies #[trigger] total_key(s[j].start)
            <= key by {
            if j > 0 {
                assert(s[j] == s.drop_first()[j - 1]);
            }
        }
    }
}

/// Sorting segments by start gives them in order of start.
pub proof fn law_sort_orders_by_start(s: Seq<SegmentView>)
    ensures
        ordered_by_start(sort_by_start(s)),
    decreases s.len(),
{
    if s.len() > 0 {
        law_sort_orders_by_start(s.drop_last());
        let t = sort_by_start(s.drop_last());
        let x = s.last();
        let p = upper_pos(t, total_key(x.start));
        lemma_upper_pos(t, total_key(x.start));
        let out = t.insert(p, x);
        assert forall|i: int, j: int| 0 <= i < j < out.len() implies total_key(out[i].start)
            <= total_key(out[j].start) by {
            if j < p {
            } else if i < p && j == p {
            } else if i < p && j > p {
                assert(out[j] == t[j - 1]);
                assert(total_key(t[i].start) <= total_key(t[j - 1].start));
            } else if i == p {
                assert(out[j] == t[j - 1]);
                assert(total_key(t[p].start) <= total_key(t[j - 1].start));
            } else {
                assert(out[i] == t[i - 1] && out[j] == t[j - 1]);
            }
        }
    }
}

/// Sorting segments by start keeps every segment, as often as it occurs.
pub proof fn law_sort_keeps_segments(s: Seq<SegmentView>)
    ensures
        sort_by_start(s).to_multiset() == s.to_multiset(),
    decreases s.len(),
{
    broadcast use vstd::seq_lib::to_multiset_insert, vstd::seq_lib::to_multiset_build;

    if s.len() > 0 {
        law_sort_keeps_segments(s.drop_last());
        let t = sort_by_start(s.drop_last());
        lemma_upper_pos(t, total_key(s.last().start));
        assert(s.drop_last().push(s.last()) =~= s);
    }
}

/// Segments already in order of start, those that start together included,
/// come out of the sort as they went in; so sorting twice changes nothing.
pub proof fn law_sort_keeps_ordered_input(s: Seq<SegmentView>)
    ensures
        ordered_by_start(s) ==> sort_by_start(s) == s,
        sort_by_start(sort_by_start(s)) == sort_by_start(s),
{
    if ordered_by_start(s) {
        lemma_sort_keeps_ordered(s);
    }
    law_sort_orders_by_start(s);
    lemma_sort_keeps_ordered(sort_by_start(s));
}

proof fn lemma_sort_keeps_ordered(s: Seq<SegmentView>)
    requires
        ordered_by_start(s),
    ensures
        sort_by_start(s) == s,
    decreases s.len(),
{
    if s.len() > 0 {
        let init = s.drop_last();
        assert(ordered_by_start(init));
        lemma_sort_keeps_ordered(init);
        lemma_upper_pos(init, total_key(s.last().start));
        assert forall|j: int| 0 <= j < init.len() implies total_key(init[j].start) <= total_key(s.last().start) by {
            assert(init[j] == s[j]);
        }
        if upper_pos(init, total_key(s.last().start)) < init.len() {
            let p = upper_pos(init, total_key(s.last().start));
            assert(total_key(init[p].start) <= total_key(s.last().start));
        }
        assert(init.insert(init.len() as int, s.last()) =~= s);
    }
}

fn upper_position(s: &Vec<TranscriptSegment>, key: i64) -> (out: usize)
    ensures
        out == upper_pos(segments_view(s@), key as int),
{
    let ghost v = segments_view(s@);
    let mut i: usize = 0;
    assert(v.skip(0) =~= v);
    while i < s.len() && total_key_of(&s[i].start) <= key
        invariant
            i <= s@.len(),
            v == segments_view(s@),
            upper_pos(v, key as int) == i + upper_pos(v.skip(i as int), key as int),
        decreases s.len() - i,
    {
        proof {
            assert(v.skip(i as int).drop_first() =~= v.skip(i + 1));
        }
        i += 1;
    }
    i
}

/// The segments sorted by start, segments that start together keeping their
/// order.
pub fn sort_segments_by_start(segments: &Vec<TranscriptSegment>) -> (out: Vec<TranscriptSegment>)
    ensures
        segments_view(out@) == sort_by_start(segments_view(segments@)),
{
    let ghost v = segments_view(segments@);
    let mut out: Vec<TranscriptSegment> = Vec::new();
    let mut i: usize = 0;
    while i < segments.len()
        invariant
            i <= segments@.len(),
            v == segments_view(segments@),
            segments_view(out@) == sort_by_start(v.take(i as int)),
        decreases segments.len() - i,
    {
        let seg = segments[i].copy();
        let pos = upper_position(&out, total_key_of(&seg.start));
        proof {
            lemma_upper_pos(segments_view(out@), total_key(seg.start));
            assert(v.take(i + 1).drop_last() =~= v.take(i as int));
            assert(v.take(i + 1).last() == seg@);
        }
        let ghost before = out@;
        out.insert(pos, seg);
        assert(segments_view(out@) =~= segments_view(before).insert(pos as int, segments@[i as int]@));
        i += 1;
    }
    assert(v.take(segments@.len() as int) =~= v);
    out
}

// ---------------------------------------------------------------------------
// The Markdown transcript
// ---------------------------------------------------------------------------
/// The line of one segment: `- [start - end] **speaker**: text`, the text trimmed.
pub open spec fn transcript_line(s: SegmentView) -> Seq<char> {
    "- ["@ + clock_text(s.start) + " - "@ + clock_text(s.end) + "] **"@ + s.speaker + "**: "@
        + trim(s.text)
}

/// The lines of the segments, in the order given.
pub open spec fn transcript_lines(s: Seq<SegmentView>) -> Seq<Seq<char>> {
    s.map_values(|x: SegmentView| transcript_line(x))
}

/// The Markdown transcript: a title stamped with the export time, an empty
/// line, one line per segment in order of start, and a final empty line.
pub open spec fn transcript_markdown_text(segments: Seq<SegmentView>, stamp: Seq<char>) -> Seq<char> {
    join(
        seq!["# Transcript ("@ + stamp + ")"@, Seq::empty()] + transcript_lines(
            sort_by_start(segments),
        ) + seq![Seq::<char>::empty()],
        "\n"@,
    )
}

fn transcript_line_chars(seg: &TranscriptSegment) -> (out: Vec<char>)
    ensures
        out@ == transcript_line(seg@),
{
    let mut cs = chars_of("- [");
    let start = format_timestamp(&seg.start);
    extend_str(&mut cs, start.as_str());
    extend_str(&mut cs, " - ");
    let end = format_timestamp(&seg.end);
    extend_str(&mut cs, end.as_str());
    extend_str(&mut cs, "] **");
    extend_str(&mut cs, seg.speaker.as_str());
    extend_str(&mut cs, "**: ");
    let text = chars_of(seg.text.as_str());
    let t = trim_chars(&text);
    extend_chars(&mut cs, &t);
    cs
}

/// The Markdown transcript of the segments, exported at `now`.
pub fn transcript_markdown(segments: &Vec<TranscriptSegment>, now: &UtcTime) -> (out: String)
    ensures
        out@ == transcript_markdown_text(
            segments_view(segments@),
            utc_rfc3339(now.secs_spec(), now.nanos_spec()),
        ),
{
    let sorted = sort_segments_by_start(segments);
    let stamp = now.rfc3339();
    let mut title = chars_of("# Transcript (");
    extend_str(&mut title, stamp.as_str());
    extend_str(&mut title, ")");
    let mut lines: Vec<Vec<char>> = Vec::new();
    push_line(&mut lines, title);
    push_line(&mut lines, Vec::new());
    let ghost head = lines.deep_view();
    let ghost sv = segments_view(sorted@);
    let mut i: usize = 0;
    while i < sorted.len()
        invariant
            i <= sorted@.len(),
            sv == segments_view(sorted@),
            lines.deep_view() == head + transcript_lines(sv.take(i as int)),
        decreases sorted.len() - i,
    {
        let line = transcript_line_chars(&sorted[i]);
        push_line(&mut lines, line);
        assert(transcript_lines(sv.take(i + 1)) =~= transcript_lines(sv.take(i as int)).push(
            transcript_line(sorted@[i as int]@),
        ));
        i += 1;
    }
    push_line(&mut lines, Vec::new());
    let nl = chars_of("\n");
    let joined = join_chars(&lines, &nl);
    proof {
        assert(sv.take(sorted@.len() as int) =~= sv);
        assert(lines.deep_view() =~= seq!["# Transcript ("@ + stamp@ + ")"@, Seq::empty()]
            + transcript_lines(sort_by_start(segments_view(segments@))) + seq![Seq::<char>::empty()]);
    }
    string_of(&joined)
}

} // verus!
