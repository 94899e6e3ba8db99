//! The data of a recording session and of meeting minutes, and the Markdown
//! rendering of minutes.
use vstd::prelude::*;

use crate::text::{
    chars_of, decimal, decimal2, decimal2_chars, extend_chars, join, join_chars, push_line,
    string_of, trim, trim_chars,
};

verus! {

// ---------------------------------------------------------------------------
// Points in time
// ---------------------------------------------------------------------------
/// A position on a recording's timeline, a number of seconds that the library
/// carries but never computes with. `bits` is the exact value (IEEE-754 single
/// precision bits), by which positions are compared; `minutes` and `seconds`
/// are the whole minutes and the remaining whole seconds of the value clamped
/// at zero, which is all that the text renderings show of it.
#[derive(Clone, Copy, Debug, PartialEq, Eq)]
pub struct Stamp {
    pub bits: u32,
    pub minutes: u32,
    pub seconds: u32,
}

/// A key that orders positions as `f32::total_cmp` orders their values:
/// negative values (sign bit set) in reverse order of their bits below the
/// non-negative ones, -0.0 just below 0.0, NaN at the two ends.
pub open spec fn total_key(s: Stamp) -> int {
    if s.bits < 0x8000_0000 {
        s.bits as int
    } else {
        0x7fff_ffff - s.bits as int
    }
}

/// A key that orders positions as `partial_cmp` compares their values, where
/// -0.0 and 0.0 are equal. (A NaN compares with nothing; `value_less` leaves
/// it unordered.)
pub open spec fn value_key(s: Stamp) -> int {
    if s.bits == 0x8000_0000 {
        0
    } else {
        total_key(s)
    }
}

/// Whether the position is NaN.
pub open spec fn is_nan(s: Stamp) -> bool {
    s.bits % 0x8000_0000 > 0x7f80_0000
}

/// Whether `a` comes before `b` as `partial_cmp` compares their values, a
/// comparison that involves a NaN counting as equal (`unwrap_or(Equal)`).
pub open spec fn value_less(a: Stamp, b: Stamp) -> bool {
    !is_nan(a) && !is_nan(b) && value_key(a) < value_key(b)
}

/// The `total_key` of a position.
pub fn total_key_of(s: &Stamp) -> (k: i64)
    ensures
        k == total_key(*s),
{
    if s.bits < 0x8000_0000 {
        s.bits as i64
    } else {
        0x7fff_ffff - s.bits as i64
    }
}

/// The `value_key` of a position.
pub fn value_key_of(s: &Stamp) -> (k: i64)
    ensures
        k == value_key(*s),
{
    if s.bits == 0x8000_0000 {
        0
    } else {
        total_key_of(s)
    }
}

/// Whether a position is NaN.
pub fn is_nan_of(s: &Stamp) -> (b: bool)
    ensures
        b == is_nan(*s),
{
    s.bits % 0x8000_0000 > 0x7f80_0000
}

/// Whether `a` comes before `b` (`value_less`).
pub fn value_less_of(a: &Stamp, b: &Stamp) -> (out: bool)
    ensures
        out == value_less(*a, *b),
{
    !is_nan_of(a) && !is_nan_of(b) && value_key_of(a) < value_key_of(b)
}

/// `mm:ss` for a position: minutes and seconds, each with at least two digits.
pub open spec fn clock_text(s: Stamp) -> Seq<char> {
    decimal2(s.minutes as nat) + ":"@ + decimal2(s.seconds as nat)
}

/// A position under 100 minutes renders as five characters, `mm:ss`, with the
/// colon in the middle.
pub proof fn law_clock_text_shape(s: Stamp)
    requires
        s.minutes < 100,
        s.seconds < 60,
    ensures
        clock_text(s).len() == 5,
        clock_text(s)[2] == ':',
{
    reveal_strlit(":");
    lemma_decimal2_two_digits(s.minutes as nat);
    lemma_decimal2_two_digits(s.seconds as nat);
}

proof fn lemma_decimal2_two_digits(n: nat)
    requires
        n < 100,
    ensures
        decimal2(n).len() == 2,
{
    if n >= 10 {
        assert(decimal(n / 10) == seq![crate::text::digit_char((n / 10) as int)]);
    }
}

/// Renders a position as `mm:ss`.
pub fn format_timestamp(stamp: &Stamp) -> (out: String)
    ensures
        out@ == clock_text(*stamp),
{
    let mut cs = decimal2_chars(stamp.minutes as u128);
    cs.push(':');
    let secs = decimal2_chars(stamp.seconds as u128);
    extend_chars(&mut cs, &secs);
    proof {
        reveal_strlit(":");
        assert(cs@ =~= clock_text(*stamp));
    }
    string_of(&cs)
}

/// Whether chrono represents the instant `secs` seconds and `nanos` nanoseconds
/// after the Unix epoch (`DateTime::<Utc>::from_timestamp` gives `Some`): the
/// day lies within chrono's calendar, from `NaiveDate::MIN` (in the year
/// -262143) to `NaiveDate::MAX` (December 31 of the year 262142), and the
/// nanoseconds are under a second, or under two seconds in the last second of
/// a minute (a leap second).
pub open spec fn utc_valid(secs: i64, nanos: u32) -> bool {
    &&& -8334601228800 <= secs <= 8210266876799
    &&& nanos < 2_000_000_000
    &&& (nanos < 1_000_000_000 || secs % 60 == 59)
}

/// chrono's `Display` of the instant: `YYYY-MM-DD HH:MM:SS[.fraction] UTC`.
pub uninterp spec fn utc_display(secs: i64, nanos: u32) -> Seq<char>;

/// chrono's rendering of the instant with a `strftime`-style pattern.
pub uninterp spec fn utc_format(secs: i64, nanos: u32, pattern: Seq<char>) -> Seq<char>;

/// The pattern of the compact stamps in file names.
pub open spec fn file_stamp_pattern() -> Seq<char> {
    "%Y%m%d-%H%M%S"@
}

/// The instant as a compact stamp for file names, `YYYYmmdd-HHMMSS`.
pub open spec fn utc_file_stamp(secs: i64, nanos: u32) -> Seq<char> {
    utc_format(secs, nanos, file_stamp_pattern())
}

/// chrono's RFC 3339 rendering of the instant.
pub uninterp spec fn utc_rfc3339(secs: i64, nanos: u32) -> Seq<char>;

/// An instant in UTC, as seconds and nanoseconds after the Unix epoch, within
/// the range that chrono represents.
#[derive(Clone, Copy, Debug, PartialEq, Eq)]
pub struct UtcTime {
    secs: i64,
    nanos: u32,
}

impl UtcTime {
    #[verifier::type_invariant]
    spec fn inv(self) -> bool {
        utc_valid(self.secs, self.nanos)
    }

    pub closed spec fn secs_spec(self) -> i64 {
        self.secs
    }

    pub closed spec fn nanos_spec(self) -> u32 {
        self.nanos
    }

    /// The instant, if chrono represents it.
    pub fn from_unix(secs: i64, nanos: u32) -> (out: Option<UtcTime>)
        ensures
            out.is_some() == utc_valid(secs, nanos),
            out matches Some(t) ==> t.secs_spec() == secs && t.nanos_spec() == nanos,
    {
        if chrono_accepts(secs, nanos) {
            Some(UtcTime { secs, nanos })
        } else {
            None
        }
    }

    /// The current instant, as the system clock gives it. Which instant that
    /// is depends on the time of the call; all that holds of every outcome is
    /// that chrono represents it.
    pub fn now() -> (out: UtcTime)
        ensures
            utc_valid(out.secs_spec(), out.nanos_spec()),
    {
        let (secs, nanos) = utc_now_parts();
        UtcTime { secs, nanos }
    }

    /// Seconds after the Unix epoch.
    pub fn secs(&self) -> (out: i64)
        ensures
            out == self.secs_spec(),
    {
        self.secs
    }

    /// Nanoseconds after the second.
    pub fn nanos(&self) -> (out: u32)
        ensures
            out == self.nanos_spec(),
    {
        self.nanos
    }

    /// chrono's `Display` of this instant.
    pub fn display(&self) -> (out: String)
        ensures
            out@ == utc_display(self.secs_spec(), self.nanos_spec()),
    {
        proof {
            use_type_invariant(self);
        }
        utc_display_text(self.secs, self.nanos)
    }

    /// This instant as `%Y%m%d-%H%M%S`.
    pub fn file_stamp(&self) -> (out: String)
        ensures
            out@ == utc_file_stamp(self.secs_spec(), self.nanos_spec()),
    {
        proof {
            use_type_invariant(self);
        }
        utc_format_text(self.secs, self.nanos, "%Y%m%d-%H%M%S")
    }

    /// This instant in RFC 3339.
    pub fn rfc3339(&self) -> (out: String)
        ensures
            out@ == utc_rfc3339(self.secs_spec(), self.nanos_spec()),
    {
        proof {
            use_type_invariant(self);
        }
        utc_rfc3339_text(self.secs, self.nanos)
    }
}

/// Calls `DateTime::<Utc>::from_timestamp` and tells whether it gave an instant.
#[verifier::external_body]
fn chrono_accepts(secs: i64, nanos: u32) -> (b: bool)
    ensures
        b == utc_valid(secs, nanos),
{
    chrono::DateTime::<chrono::Utc>::from_timestamp(secs, nanos).is_some()
}

/// Converts `SystemTime::now` with `DateTime::<Utc>::from`, which also takes a
/// clock set before 1970, and splits the instant into `timestamp` and
/// `timestamp_subsec_nanos`; chrono builds the same instant back from them,
/// and nothing more is said of the time.
#[verifier::external_body]
fn utc_now_parts() -> (out: (i64, u32))
    ensures
        utc_valid(out.0, out.1),
{
    let now = chrono::DateTime::<chrono::Utc>::from(std::time::SystemTime::now());
    (now.timestamp(), now.timestamp_subsec_nanos())
}

/// Calls chrono's `Display` for `DateTime<Utc>`.
#[verifier::external_body]
fn utc_display_text(secs: i64, nanos: u32) -> (out: String)
    requires
        utc_valid(secs, nanos),
    ensures
        out@ == utc_display(secs, nanos),
{
    chrono::DateTime::<chrono::Utc>::from_timestamp(secs, nanos).unwrap().to_string()
}

/// Calls chrono's `DateTime::format` and renders it with `to_string`; the
/// result is named `utc_format`. chrono panics on a pattern it cannot read, so
/// only the file-stamp pattern is passed.
#[verifier::external_body]
fn utc_format_text(secs: i64, nanos: u32, pattern: &str) -> (out: String)
    requires
        utc_valid(secs, nanos),
        pattern@ == file_stamp_pattern(),
    ensures
        out@ == utc_format(secs, nanos, pattern@),
{
    chrono::DateTime::<chrono::Utc>::from_timestamp(secs, nanos).unwrap().format(pattern).to_string()
}

/// Calls chrono's `DateTime::to_rfc3339`.
#[verifier::external_body]
fn utc_rfc3339_text(secs: i64, nanos: u32) -> (out: String)
    requires
        utc_valid(secs, nanos),
    ensures
        out@ == utc_rfc3339(secs, nanos),
{
    chrono::DateTime::<chrono::Utc>::from_timestamp(secs, nanos).unwrap().to_rfc3339()
}

// ---------------------------------------------------------------------------
// Transcript and minutes
// ---------------------------------------------------------------------------
/// One recognised word. `confidence_bits` carries the recogniser's confidence.
#[derive(Clone, Debug)]
pub struct TranscriptToken {
    pub text: String,
    pub start: Stamp,
    pub end: Stamp,
    pub confidence_bits: u32,
}

/// A stretch of recognised speech.
#[derive(Clone, Debug)]
pub struct TranscriptSegment {
    pub id: String,
    pub speaker: String,
    pub text: String,
    pub start: Stamp,
    pub end: Stamp,
    pub tokens: Vec<TranscriptToken>,
    pub is_final: bool,
}

/// A marker inside a topic of the timeline, at time `T`.
#[derive(Clone, Debug)]
pub struct TimelineMarker<T> {
    pub id: String,
    pub label: String,
    pub kind: String,
    pub timestamp: T,
}

/// A topic of the timeline, between two times `T`.
#[derive(Clone, Debug)]
pub struct TopicSummary<T> {
    pub id: String,
    pub title: String,
    pub description: String,
    pub start: T,
    pub end: T,
    pub markers: Vec<TimelineMarker<T>>,
}

/// A titled section of the minutes.
#[derive(Clone, Debug)]
pub struct MinutesSection {
    pub title: String,
    pub content: String,
}

/// Meeting minutes whose timeline is placed at times `T`.
#[derive(Clone, Debug)]
pub struct MinutesDocument<T> {
    pub preset: String,
    pub format: String,
    pub model: String,
    pub generated_at: UtcTime,
    pub summary: MinutesSection,
    pub decisions: MinutesSection,
    pub actions: MinutesSection,
    pub timeline: Vec<TopicSummary<T>>,
    pub highlights: Option<MinutesSection>,
    pub blockers: Option<MinutesSection>,
}

/// The speech recogniser that a recording uses.
#[derive(Clone, Copy, Debug, PartialEq, Eq, Structural)]
pub enum TranscriptionEngine {
    Vosk,
    Whisper,
}

impl TranscriptionEngine {
    /// The engine used when options name none.
    pub fn default_engine() -> (out: TranscriptionEngine)
        ensures
            out == TranscriptionEngine::Whisper,
    {
        TranscriptionEngine::Whisper
    }
}

/// The command that runs Whisper when options name none.
pub fn default_whisper_command() -> (out: String)
    ensures
        out@ == "whisper-cli"@,
{
    String::from_str("whisper-cli")
}

/// How a recording is made. `energy_threshold_bits` carries the silence threshold.
#[derive(Clone, Debug)]
pub struct RecordingOptions {
    pub engine: TranscriptionEngine,
    pub model_path: String,
    pub speaker_model_path: Option<String>,
    pub whisper_model_path: String,
    pub whisper_language: Option<String>,
    pub whisper_command: String,
    pub enable_input: bool,
    pub enable_output: bool,
    pub energy_threshold_bits: u32,
}

/// How minutes are generated. `temperature_bits` carries the sampling temperature.
#[derive(Clone, Debug)]
pub struct MinutesOptions {
    pub preset: String,
    pub format: String,
    pub block_size_minutes: u32,
    pub model: String,
    pub temperature_bits: u32,
}

/// The transcript of a session at one moment.
#[derive(Clone, Debug)]
pub struct SessionSnapshot {
    pub id: String,
    pub started_at: UtcTime,
    pub segments: Vec<TranscriptSegment>,
}

// ---------------------------------------------------------------------------
// Views
// ---------------------------------------------------------------------------
/// What a section holds.
pub struct SectionView {
    pub title: Seq<char>,
    pub content: Seq<char>,
}

impl View for MinutesSection {
    type V = SectionView;

    open spec fn view(&self) -> SectionView {
        SectionView { title: self.title@, content: self.content@ }
    }
}

/// The view of an optional section.
pub open spec fn opt_section(s: Option<MinutesSection>) -> Option<SectionView> {
    match s {
        Some(x) => Some(x@),
        None => None,
    }
}

/// What a marker holds, with its time seen as `V`.
pub struct MarkerView<V> {
    pub id: Seq<char>,
    pub label: Seq<char>,
    pub kind: Seq<char>,
    pub timestamp: V,
}

impl<T: View> View for TimelineMarker<T> {
    type V = MarkerView<T::V>;

    open spec fn view(&self) -> MarkerView<T::V> {
        MarkerView { id: self.id@, label: self.label@, kind: self.kind@, timestamp: self.timestamp@ }
    }
}

/// The views of a list of markers.
pub open spec fn markers_view<T: View>(ms: Seq<TimelineMarker<T>>) -> Seq<MarkerView<T::V>> {
    ms.map_values(|m: TimelineMarker<T>| m@)
}

/// What a topic holds, with its times seen as `V`.
pub struct TopicView<V> {
    pub id: Seq<char>,
    pub title: Seq<char>,
    pub description: Seq<char>,
    pub start: V,
    pub end: V,
    pub markers: Seq<MarkerView<V>>,
}

impl<T: View> View for TopicSummary<T> {
    type V = TopicView<T::V>;

    open spec fn view(&self) -> TopicView<T::V> {
        TopicView {
            id: self.id@,
            title: self.title@,
            description: self.description@,
            start: self.start@,
            end: self.end@,
            markers: markers_view(self.markers@),
        }
    }
}

/// The views of a list of topics.
pub open spec fn topics_view<T: View>(ts: Seq<TopicSummary<T>>) -> Seq<TopicView<T::V>> {
    ts.map_values(|t: TopicSummary<T>| t@)
}

impl View for Stamp {
    type V = Stamp;

    open spec fn view(&self) -> Stamp {
        *self
    }
}

/// What a token holds.
pub struct TokenView {
    pub text: Seq<char>,
    pub start: Stamp,
    pub end: Stamp,
    pub confidence_bits: u32,
}

impl View for TranscriptToken {
    type V = TokenView;

    open spec fn view(&self) -> TokenView {
        TokenView {
            text: self.text@,
            start: self.start,
            end: self.end,
            confidence_bits: self.confidence_bits,
        }
    }
}

/// What a segment holds.
pub struct SegmentView {
    pub id: Seq<char>,
    pub speaker: Seq<char>,
    pub text: Seq<char>,
    pub start: Stamp,
    pub end: Stamp,
    pub tokens: Seq<TokenView>,
    pub is_final: bool,
}

impl View for TranscriptSegment {
    type V = SegmentView;

    open spec fn view(&self) -> SegmentView {
        SegmentView {
            id: self.id@,
            speaker: self.speaker@,
            text: self.text@,
            start: self.start,
            end: self.end,
            tokens: self.tokens@.map_values(|t: TranscriptToken| t@),
            is_final: self.is_final,
        }
    }
}

/// What recording options hold.
pub struct OptionsView {
    pub engine: TranscriptionEngine,
    pub model_path: Seq<char>,
    pub speaker_model_path: Option<Seq<char>>,
    pub whisper_model_path: Seq<char>,
    pub whisper_language: Option<Seq<char>>,
    pub whisper_command: Seq<char>,
    pub enable_input: bool,
    pub enable_output: bool,
    pub energy_threshold_bits: u32,
}

/// The view of an optional string.
pub open spec fn opt_text(o: Option<String>) -> Option<Seq<char>> {
    match o {
        Some(s) => Some(s@),
        None => None,
    }
}

impl View for RecordingOptions {
    type V = OptionsView;

    open spec fn view(&self) -> OptionsView {
        OptionsView {
            engine: self.engine,
            model_path: self.model_path@,
            speaker_model_path: opt_text(self.speaker_model_path),
            whisper_model_path: self.whisper_model_path@,
            whisper_language: opt_text(self.whisper_language),
            whisper_command: self.whisper_command@,
            enable_input: self.enable_input,
            enable_output: self.enable_output,
            energy_threshold_bits: self.energy_threshold_bits,
        }
    }
}

/// What minutes options hold.
pub struct MinutesOptionsView {
    pub preset: Seq<char>,
    pub format: Seq<char>,
    pub block_size_minutes: u32,
    pub model: Seq<char>,
    pub temperature_bits: u32,
}

impl View for MinutesOptions {
    type V = MinutesOptionsView;

    open spec fn view(&self) -> MinutesOptionsView {
        MinutesOptionsView {
            preset: self.preset@,
            format: self.format@,
            block_size_minutes: self.block_size_minutes,
            model: self.model@,
            temperature_bits: self.temperature_bits,
        }
    }
}

/// A copy of a string.
pub fn copy_str(s: &String) -> (out: String)
    ensures
        out@ == s@,
{
    string_of(&chars_of(s.as_str()))
}

/// A copy of an optional string.
pub fn copy_opt_str(s: &Option<String>) -> (out: Option<String>)
    ensures
        opt_text(out) == opt_text(*s),
{
    match s {
        Some(x) => Some(copy_str(x)),
        None => None,
    }
}

impl TranscriptToken {
    /// A copy of this token.
    pub fn copy(&self) -> (out: TranscriptToken)
        ensures
            out@ == self@,
    {
        TranscriptToken {
            text: copy_str(&self.text),
            start: self.start,
            end: self.end,
            confidence_bits: self.confidence_bits,
        }
    }
}

impl TranscriptSegment {
    /// A copy of this segment.
    pub fn copy(&self) -> (out: TranscriptSegment)
        ensures
            out@ == self@,
    {
        let mut tokens: Vec<TranscriptToken> = Vec::new();
        let mut i: usize = 0;
        while i < self.tokens.len()
            invariant
                i <= self.tokens.len(),
                tokens@.len() == i,
                tokens@.map_values(|t: TranscriptToken| t@) == self.tokens@.take(i as int).map_values(
                    |t: TranscriptToken| t@,
                ),
            decreases self.tokens.len() - i,
        {
            let t = self.tokens[i].copy();
            let ghost before = tokens@;
            let ghost tv = t@;
            tokens.push(t);
            assert forall|k: int| 0 <= k < i implies #[trigger] tokens@[k]@ == self.tokens@[k]@ by {
                assert(before.map_values(|t: TranscriptToken| t@)[k] == self.tokens@.take(i as int).map_values(
                    |t: TranscriptToken| t@,
                )[k]);
            }
            assert(tokens@[i as int]@ == self.tokens@[i as int]@);
            assert(tokens@.map_values(|t: TranscriptToken| t@) =~= self.tokens@.take(i + 1).map_values(
                |t: TranscriptToken| t@,
            ));
            i += 1;
        }
        assert(self.tokens@.take(self.tokens.len() as int) == self.tokens@);
        TranscriptSegment {
            id: copy_str(&self.id),
            speaker: copy_str(&self.speaker),
            text: copy_str(&self.text),
            start: self.start,
            end: self.end,
            tokens,
            is_final: self.is_final,
        }
    }
}

impl RecordingOptions {
    /// A copy of these options.
    pub fn copy(&self) -> (out: RecordingOptions)
        ensures
            out@ == self@,
    {
        RecordingOptions {
            engine: self.engine,
            model_path: copy_str(&self.model_path),
            speaker_model_path: copy_opt_str(&self.speaker_model_path),
            whisper_model_path: copy_str(&self.whisper_model_path),
            whisper_language: copy_opt_str(&self.whisper_language),
            whisper_command: copy_str(&self.whisper_command),
            enable_input: self.enable_input,
            enable_output: self.enable_output,
            energy_threshold_bits: self.energy_threshold_bits,
        }
    }
}

impl MinutesOptions {
    /// A copy of these options.
    pub fn copy(&self) -> (out: MinutesOptions)
        ensures
            out@ == self@,
    {
        MinutesOptions {
            preset: copy_str(&self.preset),
            format: copy_str(&self.format),
            block_size_minutes: self.block_size_minutes,
            model: copy_str(&self.model),
            temperature_bits: self.temperature_bits,
        }
    }
}

// ---------------------------------------------------------------------------
// Markdown
// ---------------------------------------------------------------------------
/// The text of a section as the minutes show it: trimmed, or a placeholder when empty.
pub open spec fn section_text(content: Seq<char>) -> Seq<char> {
    if trim(content).len() == 0 {
        "- (抽出なし)"@
    } else {
        trim(content)
    }
}

/// The lines of a marker list.
pub open spec fn marker_lines(ms: Seq<TimelineMarker<Stamp>>) -> Seq<Seq<char>>
    decreases ms.len(),
{
    if ms.len() == 0 {
        Seq::empty()
    } else {
        let m = ms.last();
        marker_lines(ms.drop_last()).push(
            "  - ["@ + m.kind@ + "] "@ + m.label@ + " @ "@ + clock_text(m.timestamp),
        )
    }
}

/// The lines for the `index`-th topic (counting from zero).
pub open spec fn topic_lines(index: nat, t: TopicSummary<Stamp>) -> Seq<Seq<char>> {
    let head = seq![
        "### Block "@ + decimal(index + 1) + " ("@ + clock_text(t.start) + " - "@ + clock_text(
            t.end,
        ) + ")"@,
        t.description@,
    ];
    let markers = if t.markers@.len() > 0 {
        seq!["- Markers:"@] + marker_lines(t.markers@)
    } else {
        Seq::empty()
    };
    head + markers + seq![Seq::<char>::empty()]
}

/// The lines of the whole timeline.
pub open spec fn timeline_lines(ts: Seq<TopicSummary<Stamp>>) -> Seq<Seq<char>>
    decreases ts.len(),
{
    if ts.len() == 0 {
        Seq::empty()
    } else {
        timeline_lines(ts.drop_last()) + topic_lines((ts.len() - 1) as nat, ts.last())
    }
}

/// The lines of the minutes in Markdown.
pub open spec fn markdown_lines(d: MinutesDocument<Stamp>) -> Seq<Seq<char>> {
    let head = seq![
        "# Meeting Minutes ("@ + utc_display(d.generated_at.secs_spec(), d.generated_at.nanos_spec())
            + ")"@,
        Seq::<char>::empty(),
        "## Summary\n"@ + section_text(d.summary.content@),
        Seq::<char>::empty(),
        "## 決定事項 / Decisions\n"@ + section_text(d.decisions.content@),
        Seq::<char>::empty(),
        "## アクション / Action Items\n"@ + section_text(d.actions.content@),
        Seq::<char>::empty(),
        "## Timeline"@,
    ];
    let highlights = match d.highlights {
        Some(h) => seq!["## Highlights\n"@ + h.content@],
        None => Seq::empty(),
    };
    let blockers = match d.blockers {
        Some(b) => seq!["## Blockers\n"@ + b.content@],
        None => Seq::empty(),
    };
    head + timeline_lines(d.timeline@) + highlights + blockers
}

/// The heading of the `k`-th timeline block (from zero): "### Block ", then
/// `k + 1` in decimal, then the topic's start and end.
pub open spec fn block_heading(k: nat, t: TopicSummary<Stamp>) -> Seq<char> {
    "### Block "@ + decimal(k + 1) + " ("@ + clock_text(t.start) + " - "@ + clock_text(t.end) + ")"@
}

proof fn lemma_timeline_lines_prefix(ts: Seq<TopicSummary<Stamp>>, j: int)
    requires
        0 <= j <= ts.len(),
    ensures
        timeline_lines(ts.take(j)).len() <= timeline_lines(ts).len(),
        timeline_lines(ts.take(j)) == timeline_lines(ts).take(timeline_lines(ts.take(j)).len() as int),
    decreases ts.len() - j,
{
    if j == ts.len() {
        assert(ts.take(j) =~= ts);
        assert(timeline_lines(ts).take(timeline_lines(ts).len() as int) =~= timeline_lines(ts));
    } else {
        lemma_timeline_lines_prefix(ts, j + 1);
        let a = ts.take(j + 1);
        assert(a.drop_last() =~= ts.take(j));
        let pre = timeline_lines(ts.take(j));
        let mid = timeline_lines(a);
        assert(mid == pre + topic_lines(j as nat, ts[j]));
        assert(pre =~= mid.take(pre.len() as int));
        assert(timeline_lines(ts).take(pre.len() as int) =~= mid.take(pre.len() as int));
    }
}

/// The line of a marker: its kind in brackets, its label, and its time.
pub open spec fn marker_text(m: TimelineMarker<Stamp>) -> Seq<char> {
    "  - ["@ + m.kind@ + "] "@ + m.label@ + " @ "@ + clock_text(m.timestamp)
}

proof fn lemma_marker_lines_index(ms: Seq<TimelineMarker<Stamp>>)
    ensures
        marker_lines(ms).len() == ms.len(),
        forall|i: int| 0 <= i < ms.len() ==> #[trigger] marker_lines(ms)[i] == marker_text(ms[i]),
    decreases ms.len(),
{
    if ms.len() > 0 {
        lemma_marker_lines_index(ms.drop_last());
        assert forall|i: int| 0 <= i < ms.len() implies #[trigger] marker_lines(ms)[i] == marker_text(
            ms[i],
        ) by {
            if i < ms.len() - 1 {
                assert(ms.drop_last()[i] == ms[i]);
            }
        }
    }
}

/// In the Markdown of minutes, the timeline's topics come as numbered blocks,
/// in order: the block of the `k`-th topic (from zero) starts right after
/// the blocks before it, headed by "### Block " and `k + 1`, with the topic's
/// start and end, and followed by the topic's description and, when it has
/// markers, a "- Markers:" line and one line per marker, in order.
pub proof fn law_markdown_numbers_blocks(d: MinutesDocument<Stamp>, k: int)
    requires
        0 <= k < d.timeline@.len(),
    ensures
        ({
            let ts = d.timeline@;
            let at: int = 9int + timeline_lines(ts.take(k)).len();
            &&& markdown_lines(d)[at] == block_heading(k as nat, ts[k])
            &&& markdown_lines(d)[at + 1] == ts[k].description@
            &&& ts[k].markers@.len() > 0 ==> markdown_lines(d)[at + 2] == "- Markers:"@
            &&& forall|i: int|
                0 <= i < ts[k].markers@.len() ==> markdown_lines(d)[at + 3 + i] == marker_text(
                    #[trigger] ts[k].markers@[i],
                )
        }),
{
    let ts = d.timeline@;
    lemma_timeline_lines_prefix(ts, k + 1);
    let pre = timeline_lines(ts.take(k));
    let a = ts.take(k + 1);
    assert(a.drop_last() =~= ts.take(k));
    assert(a.last() == ts[k]);
    let mid = timeline_lines(a);
    assert(mid == pre + topic_lines(k as nat, ts[k]));
    let all = timeline_lines(ts);
    assert(all[pre.len() as int] == mid[pre.len() as int]);
    assert(all[pre.len() + 1int] == mid[pre.len() + 1int]);
    let t = ts[k];
    lemma_marker_lines_index(t.markers@);
    if t.markers@.len() > 0 {
        assert(all[pre.len() + 2int] == mid[pre.len() + 2int]);
        assert forall|i: int| 0 <= i < t.markers@.len() implies markdown_lines(d)[9int + pre.len() + 3
            + i] == marker_text(#[trigger] t.markers@[i]) by {
            assert(all[pre.len() + 3 + i] == mid[pre.len() + 3 + i]);
            assert(topic_lines(k as nat, t)[3 + i] == marker_lines(t.markers@)[i]);
        }
    }
}

/// A normalised section text is never empty, and normalising it again changes nothing.
pub proof fn law_section_text_is_normal(content: Seq<char>)
    ensures
        section_text(content).len() > 0,
        section_text(section_text(content)) == section_text(content),
{
    reveal_strlit("- (抽出なし)");
    crate::text::lemma_trim_shape(content);
    let placeholder = "- (抽出なし)"@;
    assert(!crate::text::is_ws(placeholder[0]) && !crate::text::is_ws(placeholder.last()));
    crate::text::lemma_trim_of_clean(placeholder);
}

/// The trimmed text of a section, or `- (抽出なし)` when nothing is left.
pub fn normalize_section_content(content: &str) -> (out: String)
    ensures
        out@ == section_text(content@),
{
    let cs = chars_of(content);
    let t = trim_chars(&cs);
    if t.len() == 0 {
        String::from_str("- (抽出なし)")
    } else {
        string_of(&t)
    }
}

/// Appends a string's characters.
fn push_str(out: &mut Vec<char>, s: &str)
    ensures
        final(out)@ == old(out)@ + s@,
{
    let cs = chars_of(s);
    extend_chars(out, &cs);
}

/// The line of one marker.
fn marker_line(m: &TimelineMarker<Stamp>) -> (out: Vec<char>)
    ensures
        out@ == "  - ["@ + m.kind@ + "] "@ + m.label@ + " @ "@ + clock_text(m.timestamp),
{
    let mut cs: Vec<char> = Vec::new();
    push_str(&mut cs, "  - [");
    push_str(&mut cs, m.kind.as_str());
    push_str(&mut cs, "] ");
    push_str(&mut cs, m.label.as_str());
    push_str(&mut cs, " @ ");
    let clock = format_timestamp(&m.timestamp);
    push_str(&mut cs, clock.as_str());
    assert(cs@ =~= "  - ["@ + m.kind@ + "] "@ + m.label@ + " @ "@ + clock_text(m.timestamp));
    cs
}

/// Appends the lines of the `index`-th topic.
fn push_topic_lines(lines: &mut Vec<Vec<char>>, index: usize, t: &TopicSummary<Stamp>)
    ensures
        final(lines).deep_view() == old(lines).deep_view() + topic_lines(index as nat, *t),
{
    let ghost start = lines.deep_view();
    let mut head: Vec<char> = Vec::new();
    push_str(&mut head, "### Block ");
    let number = crate::text::decimal_chars(index as u128 + 1);
    extend_chars(&mut head, &number);
    push_str(&mut head, " (");
    let s = format_timestamp(&t.start);
    push_str(&mut head, s.as_str());
    push_str(&mut head, " - ");
    let e = format_timestamp(&t.end);
    push_str(&mut head, e.as_str());
    push_str(&mut head, ")");
    let ghost head_view = head@;
    assert(head_view =~= "### Block "@ + decimal((index + 1) as nat) + " ("@ + clock_text(t.start) + " - "@
        + clock_text(t.end) + ")"@);
    push_line(lines, head);
    push_line(lines, chars_of(t.description.as_str()));
    let ghost after_head = lines.deep_view();
    if t.markers.len() > 0 {
        push_line(lines, chars_of("- Markers:"));
        let mut k: usize = 0;
        while k < t.markers.len()
            invariant
                k <= t.markers.len(),
                lines.deep_view() == after_head + seq!["- Markers:"@] + marker_lines(
                    t.markers@.take(k as int),
                ),
            decreases t.markers.len() - k,
        {
            let line = marker_line(&t.markers[k]);
            proof {
                assert(t.markers@.take(k + 1).drop_last() == t.markers@.take(k as int));
            }
            push_line(lines, line);
            k += 1;
        }
        assert(t.markers@.take(t.markers.len() as int) == t.markers@);
    }
    push_line(lines, Vec::new());
    assert(lines.deep_view() =~= start + topic_lines(index as nat, *t));
}

impl MinutesDocument<Stamp> {
    /// The minutes in Markdown: the header with the generation time, the three
    /// main sections (with a placeholder where one is empty), the timeline with
    /// its markers, then highlights and blockers when present.
    pub fn as_markdown(&self) -> (out: String)
        ensures
            out@ == join(markdown_lines(*self), "\n"@),
    {
        let mut lines: Vec<Vec<char>> = Vec::new();
        let mut first: Vec<char> = Vec::new();
        push_str(&mut first, "# Meeting Minutes (");
        let when = self.generated_at.display();
        push_str(&mut first, when.as_str());
        push_str(&mut first, ")");
        push_line(&mut lines, first);
        push_line(&mut lines, Vec::new());
        let mut summary: Vec<char> = Vec::new();
        push_str(&mut summary, "## Summary\n");
        let sc = normalize_section_content(self.summary.content.as_str());
        push_str(&mut summary, sc.as_str());
        push_line(&mut lines, summary);
        push_line(&mut lines, Vec::new());
        let mut decisions: Vec<char> = Vec::new();
        push_str(&mut decisions, "## 決定事項 / Decisions\n");
        let dc = normalize_section_content(self.decisions.content.as_str());
        push_str(&mut decisions, dc.as_str());
        push_line(&mut lines, decisions);
        push_line(&mut lines, Vec::new());
        let mut actions: Vec<char> = Vec::new();
        push_str(&mut actions, "## アクション / Action Items\n");
        let ac = normalize_section_content(self.actions.content.as_str());
        push_str(&mut actions, ac.as_str());
        push_line(&mut lines, actions);
        push_line(&mut lines, Vec::new());
        push_line(&mut lines, chars_of("## Timeline"));
        let ghost head = lines.deep_view();
        let mut i: usize = 0;
        while i < self.timeline.len()
            invariant
                i <= self.timeline.len(),
                lines.deep_view() == head + timeline_lines(self.timeline@.take(i as int)),
            decreases self.timeline.len() - i,
        {
            proof {
                assert(self.timeline@.take(i + 1).drop_last() == self.timeline@.take(i as int));
                assert(self.timeline@.take(i + 1).last() == self.timeline@[i as int]);
            }
            push_topic_lines(&mut lines, i, &self.timeline[i]);
            proof {
                assert(head + timeline_lines(self.timeline@.take(i as int)) + topic_lines(
                    i as nat,
                    self.timeline@[i as int],
                ) =~= head + timeline_lines(self.timeline@.take(i + 1)));
            }
            i += 1;
        }
        assert(self.timeline@.take(self.timeline.len() as int) == self.timeline@);
        let ghost before_optional = lines.deep_view();
        match &self.highlights {
            Some(h) => {
                let mut l: Vec<char> = Vec::new();
                push_str(&mut l, "## Highlights\n");
                push_str(&mut l, h.content.as_str());
                push_line(&mut lines, l);
            },
            None => {},
        }
        match &self.blockers {
            Some(b) => {
                let mut l: Vec<char> = Vec::new();
                push_str(&mut l, "## Blockers\n");
                push_str(&mut l, b.content.as_str());
                push_line(&mut lines, l);
            },
            None => {},
        }
        assert(lines.deep_view() =~= markdown_lines(*self));
        let sep = chars_of("\n");
        let joined = join_chars(&lines, &sep);
        string_of(&joined)
    }
}

} // verus!
