//! The state of the recording session: the transcript being built, and what
//! is kept of it once the session has stopped.
use vstd::prelude::*;

use crate::model::{
    is_nan, value_key, value_less, value_less_of, Stamp,
    copy_str, MinutesOptions, MinutesOptionsView, OptionsView, RecordingOptions, SegmentView,
    SessionSnapshot, TranscriptSegment, UtcTime,
};

verus! {

/// A transcript segment with the speaker embedding that the recogniser gave it,
/// each component carried as its IEEE-754 single precision bits.
#[derive(Clone, Debug)]
pub struct SegmentRecord {
    pub segment: TranscriptSegment,
    pub embedding: Option<Vec<u32>>,
}

/// What a record holds.
pub struct RecordView {
    pub segment: SegmentView,
    pub embedding: Option<Seq<u32>>,
}

/// The view of an optional embedding.
pub open spec fn embedding_view(e: Option<Vec<u32>>) -> Option<Seq<u32>> {
    match e {
        Some(v) => Some(v@),
        None => None,
    }
}

impl View for SegmentRecord {
    type V = RecordView;

    open spec fn view(&self) -> RecordView {
        RecordView { segment: self.segment@, embedding: embedding_view(self.embedding) }
    }
}

/// The views of a list of records.
pub open spec fn records_view(rs: Seq<SegmentRecord>) -> Seq<RecordView> {
    rs.map_values(|r: SegmentRecord| r@)
}

/// A copy of a list of numbers.
pub fn copy_u32s(v: &Vec<u32>) -> (out: Vec<u32>)
    ensures
        out@ == v@,
{
    let mut out: Vec<u32> = Vec::new();
    let mut i: usize = 0;
    while i < v.len()
        invariant
            i <= v.len(),
            out@ == v@.take(i as int),
        decreases v.len() - i,
    {
        out.push(v[i]);
        assert(out@ =~= v@.take(i + 1));
        i += 1;
    }
    assert(v@.take(v.len() as int) == v@);
    out
}

/// A copy of an optional embedding.
pub fn copy_embedding(e: &Option<Vec<u32>>) -> (out: Option<Vec<u32>>)
    ensures
        embedding_view(out) == embedding_view(*e),
{
    match e {
        Some(v) => Some(copy_u32s(v)),
        None => None,
    }
}

impl SegmentRecord {
    /// A copy of this record.
    pub fn copy(&self) -> (out: SegmentRecord)
        ensures
            out@ == self@,
    {
        SegmentRecord { segment: self.segment.copy(), embedding: copy_embedding(&self.embedding) }
    }
}

/// A recording in progress. `runtime` is what captures and recognises audio.
pub struct RecordingSession<R> {
    pub id: String,
    pub started_at: UtcTime,
    pub options: RecordingOptions,
    pub runtime: Option<R>,
    pub segments: Vec<SegmentRecord>,
    pub minutes_options: Option<MinutesOptions>,
}

/// What a session holds.
pub struct SessionView<R> {
    pub id: Seq<char>,
    pub started_at: UtcTime,
    pub options: OptionsView,
    pub runtime: Option<R>,
    pub records: Seq<RecordView>,
    pub minutes_options: Option<MinutesOptionsView>,
}

/// The view of optional minutes options.
pub open spec fn minutes_view(m: Option<MinutesOptions>) -> Option<MinutesOptionsView> {
    match m {
        Some(x) => Some(x@),
        None => None,
    }
}

/// The view of optional recording options.
pub open spec fn options_view(o: Option<RecordingOptions>) -> Option<OptionsView> {
    match o {
        Some(x) => Some(x@),
        None => None,
    }
}

impl<R> View for RecordingSession<R> {
    type V = SessionView<R>;

    open spec fn view(&self) -> SessionView<R> {
        SessionView {
            id: self.id@,
            started_at: self.started_at,
            options: self.options@,
            runtime: self.runtime,
            records: records_view(self.segments@),
            minutes_options: minutes_view(self.minutes_options),
        }
    }
}

/// Text in the hyphenated form of a UUID: 36 characters, hyphens at positions
/// 8, 13, 18 and 23, lowercase hexadecimal digits elsewhere.
pub open spec fn hyphenated_uuid(s: Seq<char>) -> bool {
    &&& s.len() == 36
    &&& forall|i: int|
        0 <= i < 36 ==> if i == 8 || i == 13 || i == 18 || i == 23 {
            #[trigger] s[i] == '-'
        } else {
            crate::text::is_lower_hex(s[i])
        }
}

/// A random (version 4, RFC 4122 variant) UUID in its hyphenated form: the
/// version digit `4` at position 14 and a variant digit of `8`, `9`, `a` or `b`
/// at position 19.
pub open spec fn random_uuid_text(s: Seq<char>) -> bool {
    &&& hyphenated_uuid(s)
    &&& s[14] == '4'
    &&& (s[19] == '8' || s[19] == '9' || s[19] == 'a' || s[19] == 'b')
}

/// Calls `Uuid::new_v4` and renders it with `to_string`. The value is random;
/// uuid sets its version and variant bits and writes it hyphenated, in lowercase.
#[verifier::external_body]
pub(crate) fn new_uuid_text() -> (out: String)
    ensures
        random_uuid_text(out@),
{
    uuid::Uuid::new_v4().to_string()
}

impl<R> RecordingSession<R> {
    /// A session with the given identifier and start, and no transcript yet.
    pub fn new_with(id: String, started_at: UtcTime, options: RecordingOptions) -> (out: Self)
        ensures
            out@ == (SessionView::<R> {
                id: id@,
                started_at,
                options: options@,
                runtime: None,
                records: Seq::empty(),
                minutes_options: None,
            }),
    {
        let out = RecordingSession {
            id,
            started_at,
            options,
            runtime: None,
            segments: Vec::new(),
            minutes_options: None,
        };
        assert(records_view(out.segments@) =~= Seq::<RecordView>::empty());
        out
    }

    /// A new session, with a random identifier, started now.
    pub fn new(options: RecordingOptions) -> (out: Self)
        ensures
            random_uuid_text(out@.id),
            out@.options == options@,
            out@.runtime.is_none(),
            out@.records.len() == 0,
            out@.minutes_options.is_none(),
    {
        let id = new_uuid_text();
        RecordingSession::new_with(id, UtcTime::now(), options)
    }
}

/// What the application state holds.
pub struct StateView<R> {
    pub session: Option<SessionView<R>>,
    pub last_options: Option<OptionsView>,
    pub completed: Seq<RecordView>,
    pub completed_minutes: Option<MinutesOptionsView>,
}

/// The state of the application: the session in progress, and what the last
/// session left (its options, its transcript and its minutes options).
pub struct AppState<R> {
    session: Option<RecordingSession<R>>,
    last_options: Option<RecordingOptions>,
    completed_segments: Vec<SegmentRecord>,
    completed_minutes_options: Option<MinutesOptions>,
}

/// The view of an optional session.
pub open spec fn session_view<R>(s: Option<RecordingSession<R>>) -> Option<SessionView<R>> {
    match s {
        Some(x) => Some(x@),
        None => None,
    }
}

impl<R> View for AppState<R> {
    type V = StateView<R>;

    closed spec fn view(&self) -> StateView<R> {
        StateView {
            session: session_view(self.session),
            last_options: options_view(self.last_options),
            completed: records_view(self.completed_segments@),
            completed_minutes: minutes_view(self.completed_minutes_options),
        }
    }
}

// ---------------------------------------------------------------------------
// Specifications over records
// ---------------------------------------------------------------------------
/// The position of the first record with the given segment identifier.
pub open spec fn find_index(rs: Seq<RecordView>, id: Seq<char>) -> Option<int>
    decreases rs.len(),
{
    if rs.len() == 0 {
        None
    } else {
        match find_index(rs.drop_last(), id) {
            Some(i) => Some(i),
            None => if rs.last().segment.id == id {
                Some(rs.len() - 1)
            } else {
                None
            },
        }
    }
}

/// Where a start stands against `start` as `push_final` compares them
/// (`partial_cmp`, a comparison that involves a NaN counting as equal):
/// 0 before it, 1 equal to it, 2 after it.
pub open spec fn start_rank(x: Stamp, start: Stamp) -> int {
    if value_less(x, start) {
        0
    } else if value_less(start, x) {
        2
    } else {
        1
    }
}

/// The records are grouped by that comparison: those that start before
/// `start`, then those that start with it, then those that start after it.
pub open spec fn grouped_by(rs: Seq<RecordView>, start: Stamp) -> bool {
    forall|i: int, j: int|
        0 <= i < j < rs.len() ==> start_rank(rs[i].segment.start, start) <= start_rank(
            rs[j].segment.start,
            start,
        )
}

/// How each record's start compares with `start` (`start_rank`), in order.
pub open spec fn start_ranks(rs: Seq<RecordView>, start: Stamp) -> Seq<int> {
    rs.map_values(|r: RecordView| start_rank(r.segment.start, start))
}

/// What `slice::binary_search_by` returns over a slice whose elements compare
/// with the target as `ranks` gives (0 less, 1 equal, 2 greater): it probes
/// only those outcomes.
pub uninterp spec fn binary_search_outcome(ranks: Seq<int>) -> Result<usize, usize>;

/// The index that a search outcome gives, the `Ok` and the `Err` one alike,
/// kept within `len`.
pub open spec fn outcome_index(r: Result<usize, usize>, len: int) -> int {
    let i = match r {
        Ok(i) => i as int,
        Err(i) => i as int,
    };
    if i > len {
        len
    } else {
        i
    }
}

/// Where `push_final` inserts a segment with a new identifier starting at
/// `start`: the index that the binary search by start gives.
pub open spec fn search_place<R>(v: StateView<R>, start: Stamp) -> int {
    match v.session {
        Some(s) => outcome_index(binary_search_outcome(start_ranks(s.records, start)), s.records.len() as int),
        None => 0,
    }
}

/// `pos` is a place where a record starting at `start` keeps that grouping:
/// no record before it starts after `start`, and none from it on starts before.
pub open spec fn in_order_at(rs: Seq<RecordView>, start: Stamp, pos: int) -> bool {
    &&& 0 <= pos <= rs.len()
    &&& forall|j: int| 0 <= j < pos ==> start_rank(#[trigger] rs[j].segment.start, start) <= 1
    &&& forall|j: int| pos <= j < rs.len() ==> start_rank(#[trigger] rs[j].segment.start, start) >= 1
}

/// The records are in order of their start.
pub open spec fn sorted_by_start(rs: Seq<RecordView>) -> bool {
    forall|i: int, j: int|
        0 <= i < j < rs.len() ==> value_key(rs[i].segment.start) <= value_key(rs[j].segment.start)
}

/// No two records share a segment identifier.
pub open spec fn ids_unique(rs: Seq<RecordView>) -> bool {
    forall|i: int, j: int|
        0 <= i < j < rs.len() ==> rs[i].segment.id != rs[j].segment.id
}

/// A segment marked final or not.
pub open spec fn with_final(s: SegmentView, is_final: bool) -> SegmentView {
    SegmentView { is_final, ..s }
}

/// A segment with another speaker.
pub open spec fn with_speaker(s: SegmentView, speaker: Seq<char>) -> SegmentView {
    SegmentView { speaker, ..s }
}

/// The records after storing a final segment: it replaces the record with its
/// identifier, or is inserted at `pos`.
pub open spec fn store_final(rs: Seq<RecordView>, rec: RecordView, pos: int) -> Seq<RecordView> {
    match find_index(rs, rec.segment.id) {
        Some(i) => rs.update(i, rec),
        None => rs.insert(pos, rec),
    }
}

/// The records after storing a partial segment: it replaces the record with its
/// identifier, or is appended.
pub open spec fn store_partial(rs: Seq<RecordView>, rec: RecordView) -> Seq<RecordView> {
    match find_index(rs, rec.segment.id) {
        Some(i) => rs.update(i, rec),
        None => rs.push(rec),
    }
}

/// The identifiers and embeddings of the records that have an embedding.
pub open spec fn embeddings_of(rs: Seq<RecordView>) -> Seq<(Seq<char>, Seq<u32>)>
    decreases rs.len(),
{
    if rs.len() == 0 {
        Seq::empty()
    } else {
        match rs.last().embedding {
            Some(e) => embeddings_of(rs.drop_last()).push((rs.last().segment.id, e)),
            None => embeddings_of(rs.drop_last()),
        }
    }
}

/// The state with the session's records replaced.
pub open spec fn with_records<R>(v: StateView<R>, rs: Seq<RecordView>) -> StateView<R> {
    match v.session {
        Some(s) => StateView { session: Some(SessionView { records: rs, ..s }), ..v },
        None => v,
    }
}

/// The state once a session is started.
pub open spec fn started<R>(id: Seq<char>, started_at: UtcTime, options: OptionsView) -> StateView<R> {
    StateView {
        session: Some(
            SessionView {
                id,
                started_at,
                options,
                runtime: None,
                records: Seq::empty(),
                minutes_options: None,
            },
        ),
        last_options: Some(options),
        completed: Seq::empty(),
        completed_minutes: None,
    }
}

/// The state once the session (if any) is stopped.
pub open spec fn stopped<R>(v: StateView<R>) -> StateView<R> {
    match v.session {
        Some(s) => StateView {
            session: None,
            last_options: Some(s.options),
            completed: s.records,
            completed_minutes: s.minutes_options,
        },
        None => v,
    }
}

/// The options that a state offers for the next recording.
pub open spec fn options_of<R>(v: StateView<R>) -> Option<OptionsView> {
    match v.session {
        Some(s) => Some(s.options),
        None => v.last_options,
    }
}

/// The records whose embeddings a state offers: the session's, or else those
/// the last session left.
pub open spec fn embedding_records<R>(v: StateView<R>) -> Seq<RecordView> {
    match v.session {
        Some(s) => s.records,
        None => v.completed,
    }
}

/// The state once a final segment is stored, a new one at `pos`.
pub open spec fn pushed_final<R>(v: StateView<R>, rec: RecordView, pos: int) -> StateView<R> {
    match v.session {
        Some(s) => with_records(v, store_final(s.records, rec, pos)),
        None => v,
    }
}

/// What is known of the place where a final segment with a new identifier
/// `id`, starting at `start`, goes: a place in the transcript, and one that
/// keeps the transcript's grouping by start where the transcript is so grouped.
pub open spec fn final_place<R>(v: StateView<R>, id: Seq<char>, start: Stamp, pos: int) -> bool {
    match v.session {
        Some(s) => find_index(s.records, id).is_some() || (0 <= pos <= s.records.len() && (
        grouped_by(s.records, start) ==> in_order_at(s.records, start, pos))),
        None => true,
    }
}

/// The state once a segment's speaker is set where it differs, and whether it changed.
pub open spec fn speaker_changed<R>(v: StateView<R>, id: Seq<char>, speaker: Seq<char>) -> (StateView<R>, bool) {
    match v.session {
        Some(s) => match find_index(s.records, id) {
            Some(i) => if s.records[i].segment.speaker == speaker {
                (v, false)
            } else {
                (
                    with_records(
                        v,
                        s.records.update(
                            i,
                            RecordView { segment: with_speaker(s.records[i].segment, speaker), ..s.records[i] },
                        ),
                    ),
                    true,
                )
            },
            None => (v, false),
        },
        None => (v, false),
    }
}

// ---------------------------------------------------------------------------
// Executable helpers
// ---------------------------------------------------------------------------
/// The position of the record with the given identifier.
fn find_record(rs: &Vec<SegmentRecord>, id: &String) -> (out: Option<usize>)
    ensures
        match out {
            Some(j) => find_index(records_view(rs@), id@) == Some(j as int) && j < rs@.len(),
            None => find_index(records_view(rs@), id@).is_none(),
        },
{
    let mut i: usize = 0;
    while i < rs.len()
        invariant
            i <= rs.len(),
            find_index(records_view(rs@).take(i as int), id@).is_none(),
        decreases rs.len() - i,
    {
        proof {
            assert(records_view(rs@).take(i + 1).drop_last() =~= records_view(rs@).take(i as int));
            assert(records_view(rs@).take(i + 1).last() == rs@[i as int]@);
        }
        if rs[i].segment.id == *id {
            proof {
                lemma_find_index_prefix(records_view(rs@), (i + 1) as int, id@);
            }
            return Some(i);
        }
        i += 1;
    }
    assert(records_view(rs@).take(rs.len() as int) =~= records_view(rs@));
    None
}

/// `find_index` on a prefix that holds a match decides it for the whole.
proof fn lemma_find_index_prefix(rs: Seq<RecordView>, n: int, id: Seq<char>)
    requires
        0 <= n <= rs.len(),
        find_index(rs.take(n), id).is_some(),
    ensures
        find_index(rs, id) == find_index(rs.take(n), id),
    decreases rs.len(),
{
    if n < rs.len() {
        assert(rs.drop_last().take(n) =~= rs.take(n));
        lemma_find_index_prefix(rs.drop_last(), n, id);
    } else {
        assert(rs.take(n) =~= rs);
    }
}

/// The record at `i` starts with `start`, as `push_final` compares them.
pub open spec fn equal_start_at(rs: Seq<RecordView>, start: Stamp, i: usize) -> bool {
    i < rs.len() && start_rank(rs[i as int].segment.start, start) == 1
}

/// `in_order_at` for an index.
pub open spec fn in_order_at_index(rs: Seq<RecordView>, start: Stamp, i: usize) -> bool {
    in_order_at(rs, start, i as int)
}

/// How a record's start compares with `start` in `push_final`'s search.
fn compare_start(r: &SegmentRecord, start: &Stamp) -> (out: std::cmp::Ordering)
    ensures
        (out == std::cmp::Ordering::Less) == (start_rank(r.segment.start, *start) == 0),
        (out == std::cmp::Ordering::Equal) == (start_rank(r.segment.start, *start) == 1),
        (out == std::cmp::Ordering::Greater) == (start_rank(r.segment.start, *start) == 2),
{
    if value_less_of(&r.segment.start, start) {
        std::cmp::Ordering::Less
    } else if value_less_of(start, &r.segment.start) {
        std::cmp::Ordering::Greater
    } else {
        std::cmp::Ordering::Equal
    }
}

/// Calls `slice::binary_search_by` over the records with `compare_start`; its
/// result depends only on how the records compare, and is named
/// `binary_search_outcome` of those outcomes. Its documentation promises, for records grouped by that comparison (before,
/// equal, after), the index of a record that compares equal (`Ok`), any one
/// where there are several, or, where none does, the index at which the start
/// keeps the grouping (`Err`). For records not so grouped it calls the result
/// unspecified, and nothing is stated of it.
#[verifier::external_body]
fn search_start(records: &Vec<SegmentRecord>, start: &Stamp) -> (out: Result<usize, usize>)
    ensures
        out == binary_search_outcome(start_ranks(records_view(records@), *start)),
        grouped_by(records_view(records@), *start) ==> match out {
            Ok(i) => equal_start_at(records_view(records@), *start, i),
            Err(i) => in_order_at_index(records_view(records@), *start, i),
        },
{
    records.binary_search_by(|r| compare_start(r, start))
}

impl<R> Default for AppState<R> {
    /// A state with no session and nothing kept.
    fn default() -> (out: Self)
        ensures
            out@.session.is_none(),
            out@.last_options.is_none(),
            out@.completed.len() == 0,
            out@.completed_minutes.is_none(),
    {
        AppState::new()
    }
}

impl<R> AppState<R> {
    /// A state with no session and nothing kept.
    pub fn new() -> (out: Self)
        ensures
            out@.session.is_none(),
            out@.last_options.is_none(),
            out@.completed.len() == 0,
            out@.completed_minutes.is_none(),
    {
        let out = AppState {
            session: None,
            last_options: None,
            completed_segments: Vec::new(),
            completed_minutes_options: None,
        };
        assert(records_view(out.completed_segments@) =~= Seq::<RecordView>::empty());
        out
    }

    /// Starts a session with the given identifier and start time: the options
    /// become the last options, and what the last session left is cleared.
    pub fn start_session_with(&mut self, id: String, started_at: UtcTime, options: RecordingOptions) -> (out: String)
        ensures
            out@ == id@,
            final(self)@ == started::<R>(id@, started_at, options@),
    {
        let session_id = copy_str(&id);
        self.last_options = Some(options.copy());
        self.session = Some(RecordingSession::new_with(id, started_at, options));
        self.completed_segments = Vec::new();
        self.completed_minutes_options = None;
        assert(records_view(self.completed_segments@) =~= Seq::<RecordView>::empty());
        session_id
    }

    /// Starts a session with a random identifier, now.
    pub fn start_session(&mut self, options: RecordingOptions) -> (out: String)
        ensures
            final(self)@.session matches Some(s) && s.id == out@ && s.options == options@
                && s.runtime.is_none() && s.records.len() == 0 && s.minutes_options.is_none(),
            random_uuid_text(out@),
            final(self)@.last_options == Some(options@),
            final(self)@.completed.len() == 0,
            final(self)@.completed_minutes.is_none(),
    {
        let id = new_uuid_text();
        self.start_session_with(id, UtcTime::now(), options)
    }

    /// Whether a session is in progress.
    pub fn has_session(&self) -> (out: bool)
        ensures
            out == self@.session.is_some(),
    {
        self.session.is_some()
    }

    /// Hands the session the runtime that records it; without a session the
    /// runtime is dropped.
    pub fn set_runtime(&mut self, runtime: R)
        ensures
            final(self)@ == match old(self)@.session {
                Some(s) => StateView { session: Some(SessionView { runtime: Some(runtime), ..s }), ..old(self)@ },
                None => old(self)@,
            },
    {
        match self.session.take() {
            Some(mut s) => {
                s.runtime = Some(runtime);
                self.session = Some(s);
            },
            None => {},
        }
    }

    /// Ends the session: its transcript and minutes options are kept, its
    /// options become the last options, and its runtime is handed back to be
    /// stopped. Without a session nothing changes.
    pub fn stop_session(&mut self) -> (out: Option<R>)
        ensures
            final(self)@ == stopped(old(self)@),
            match old(self)@.session {
                Some(s) => out == s.runtime,
                None => out.is_none(),
            },
    {
        match self.session.take() {
            Some(s) => {
                let RecordingSession { id, started_at, options, runtime, segments, minutes_options } = s;
                self.completed_segments = segments;
                self.completed_minutes_options = minutes_options;
                self.last_options = Some(options);
                runtime
            },
            None => None,
        }
    }

    /// Stores a segment as final, with its embedding: it replaces the segment with
    /// its identifier, or is inserted where a binary search by start puts it.
    /// Without a session nothing is stored. Returns the segment marked final.
    pub fn push_final(&mut self, segment: TranscriptSegment, embedding: Option<Vec<u32>>) -> (out: TranscriptSegment)
        ensures
            out@ == with_final(segment@, true),
            final(self)@ == pushed_final(
                old(self)@,
                RecordView { segment: with_final(segment@, true), embedding: embedding_view(embedding) },
                search_place(old(self)@, segment.start),
            ),
            final_place(old(self)@, segment@.id, segment.start, search_place(old(self)@, segment.start)),
    {
        let ghost rec0 = RecordView { segment: with_final(segment@, true), embedding: embedding_view(embedding) };
        let mut segment = segment;
        segment.is_final = true;
        let result = segment.copy();
        match self.session.take() {
            Some(mut s) => {
                let ghost old_rs = records_view(s.segments@);
                let record = SegmentRecord { segment, embedding };
                let ghost rec = record@;
                match find_record(&s.segments, &record.segment.id) {
                    Some(i) => {
                        s.segments.set(i, record);
                        assert(records_view(s.segments@) =~= old_rs.update(i as int, rec));
                        assert(rec == rec0);
                        self.session = Some(s);
                    },
                    None => {
                        let found = search_start(&s.segments, &record.segment.start);
                        let mut pos = match found {
                            Ok(i) => i,
                            Err(i) => i,
                        };
                        if pos > s.segments.len() {
                            pos = s.segments.len();
                        }
                        proof {
                            let key = rec.segment.start;
                            if grouped_by(old_rs, key) {
                                if let Ok(i) = found {
                                    assert forall|j: int| 0 <= j < i implies start_rank(
                                        #[trigger] old_rs[j].segment.start,
                                        key,
                                    ) <= 1 by {
                                        assert(start_rank(old_rs[j].segment.start, key) <= start_rank(
                                            old_rs[i as int].segment.start,
                                            key,
                                        ));
                                    }
                                    assert forall|j: int| i <= j < old_rs.len() implies start_rank(
                                        #[trigger] old_rs[j].segment.start,
                                        key,
                                    ) >= 1 by {
                                        if j > i {
                                            assert(start_rank(old_rs[i as int].segment.start, key)
                                                <= start_rank(old_rs[j].segment.start, key));
                                        }
                                    }
                                }
                                assert(in_order_at(old_rs, key, pos as int));
                            }
                        }
                        s.segments.insert(pos, record);
                        assert(records_view(s.segments@) =~= old_rs.insert(pos as int, rec));
                        assert(rec == rec0);
                        assert(pos == search_place(old(self)@, rec.segment.start));
                        self.session = Some(s);
                    },
                }
            },
            None => {},
        }
        result
    }

    /// Stores a segment as partial, with its embedding: it replaces the segment
    /// with its identifier, or is appended. Returns the segment marked partial.
    pub fn push_partial(&mut self, segment: TranscriptSegment, embedding: Option<Vec<u32>>) -> (out: TranscriptSegment)
        requires
            old(self)@.session.is_some(),
        ensures
            out@ == with_final(segment@, false),
            final(self)@ == with_records(
                old(self)@,
                store_partial(
                    old(self)@.session.unwrap().records,
                    RecordView { segment: with_final(segment@, false), embedding: embedding_view(embedding) },
                ),
            ),
    {
        let mut segment = segment;
        segment.is_final = false;
        let result = segment.copy();
        let mut s = self.session.take().unwrap();
        let ghost old_rs = records_view(s.segments@);
        let record = SegmentRecord { segment, embedding };
        let ghost rec = record@;
        match find_record(&s.segments, &record.segment.id) {
            Some(i) => {
                s.segments.set(i, record);
                assert(records_view(s.segments@) =~= old_rs.update(i as int, rec));
            },
            None => {
                s.segments.push(record);
                assert(records_view(s.segments@) =~= old_rs.push(rec));
            },
        }
        self.session = Some(s);
        result
    }

    /// Replaces the stored segment with the same identifier, keeping its
    /// embedding. Returns the segment, or nothing when there is no such segment.
    pub fn update_segment(&mut self, segment: TranscriptSegment) -> (out: Option<TranscriptSegment>)
        ensures
            match old(self)@.session {
                Some(s) => match find_index(s.records, segment@.id) {
                    Some(i) => out matches Some(o) && o@ == segment@ && final(self)@ == with_records(
                        old(self)@,
                        s.records.update(i, RecordView { segment: segment@, ..s.records[i] }),
                    ),
                    None => out.is_none() && final(self)@ == old(self)@,
                },
                None => out.is_none() && final(self)@ == old(self)@,
            },
    {
        match self.session.take() {
            Some(mut s) => {
                let ghost old_rs = records_view(s.segments@);
                match find_record(&s.segments, &segment.id) {
                    Some(i) => {
                        let result = segment.copy();
                        let embedding = copy_embedding(&s.segments[i].embedding);
                        let record = SegmentRecord { segment, embedding };
                        let ghost rec = record@;
                        assert(rec == RecordView { segment: segment@, ..old_rs[i as int] });
                        s.segments.set(i, record);
                        assert(records_view(s.segments@) =~= old_rs.update(i as int, rec));
                        self.session = Some(s);
                        Some(result)
                    },
                    None => {
                        self.session = Some(s);
                        None
                    },
                }
            },
            None => None,
        }
    }

    /// Names the speaker of the stored segment with the given identifier.
    /// Returns the updated segment, or nothing when there is no such segment.
    pub fn assign_speaker(&mut self, id: &str, speaker: &str) -> (out: Option<TranscriptSegment>)
        ensures
            match old(self)@.session {
                Some(s) => match find_index(s.records, id@) {
                    Some(i) => {
                        let seg = with_speaker(s.records[i].segment, speaker@);
                        out matches Some(o) && o@ == seg && final(self)@ == with_records(
                            old(self)@,
                            s.records.update(i, RecordView { segment: seg, ..s.records[i] }),
                        )
                    },
                    None => out.is_none() && final(self)@ == old(self)@,
                },
                None => out.is_none() && final(self)@ == old(self)@,
            },
    {
        let key = crate::text::string_lit(id);
        match self.session.take() {
            Some(mut s) => {
                let ghost old_rs = records_view(s.segments@);
                match find_record(&s.segments, &key) {
                    Some(i) => {
                        let mut record = s.segments[i].copy();
                        record.segment.speaker = crate::text::string_lit(speaker);
                        let result = record.segment.copy();
                        let ghost rec = record@;
                        assert(rec.segment =~= with_speaker(old_rs[i as int].segment, speaker@));
                        s.segments.set(i, record);
                        assert(records_view(s.segments@) =~= old_rs.update(i as int, rec));
                        self.session = Some(s);
                        Some(result)
                    },
                    None => {
                        self.session = Some(s);
                        None
                    },
                }
            },
            None => None,
        }
    }

    /// Names the speaker of the stored segment with the given identifier, when it
    /// names another. Returns the updated segment, or nothing when there is no
    /// such segment or it already has that speaker.
    pub fn assign_speaker_if_changed(&mut self, id: &str, speaker: &str) -> (out: Option<TranscriptSegment>)
        ensures
            final(self)@ == speaker_changed(old(self)@, id@, speaker@).0,
            out.is_some() == speaker_changed(old(self)@, id@, speaker@).1,
            out matches Some(o) ==> (old(self)@.session matches Some(s) && find_index(s.records, id@)
                matches Some(i) && o@ == with_speaker(s.records[i].segment, speaker@)),
    {
        let key = crate::text::string_lit(id);
        let wanted = crate::text::string_lit(speaker);
        match self.session.take() {
            Some(mut s) => {
                let ghost old_rs = records_view(s.segments@);
                match find_record(&s.segments, &key) {
                    Some(i) => {
                        assert(old_rs[i as int] == s.segments@[i as int]@);
                        if s.segments[i].segment.speaker == wanted {
                            self.session = Some(s);
                            return None;
                        }
                        let mut record = s.segments[i].copy();
                        record.segment.speaker = wanted;
                        let result = record.segment.copy();
                        let ghost rec = record@;
                        assert(rec.segment =~= with_speaker(old_rs[i as int].segment, speaker@));
                        s.segments.set(i, record);
                        assert(records_view(s.segments@) =~= old_rs.update(i as int, rec));
                        self.session = Some(s);
                        Some(result)
                    },
                    None => {
                        self.session = Some(s);
                        None
                    },
                }
            },
            None => None,
        }
    }

    /// Records the minutes options, for the session and for what it leaves.
    pub fn set_minutes_options(&mut self, options: MinutesOptions)
        ensures
            final(self)@ == (StateView::<R> {
                session: match old(self)@.session {
                    Some(s) => Some(SessionView { minutes_options: Some(options@), ..s }),
                    None => None,
                },
                completed_minutes: Some(options@),
                ..old(self)@
            }),
    {
        match self.session.take() {
            Some(mut s) => {
                s.minutes_options = Some(options.copy());
                self.session = Some(s);
            },
            None => {},
        }
        self.completed_minutes_options = Some(options);
    }

    /// The transcript of the session in progress.
    pub fn snapshot(&self) -> (out: Option<SessionSnapshot>)
        ensures
            match self@.session {
                Some(s) => out matches Some(snap) && snap.id@ == s.id && snap.started_at == s.started_at
                    && snap.segments@.map_values(|g: TranscriptSegment| g@) == s.records.map_values(
                    |r: RecordView| r.segment,
                ),
                None => out.is_none(),
            },
    {
        match &self.session {
            Some(s) => {
                let mut segments: Vec<TranscriptSegment> = Vec::new();
                let mut i: usize = 0;
                while i < s.segments.len()
                    invariant
                        i <= s.segments.len(),
                        segments@.len() == i,
                        forall|k: int| 0 <= k < i ==> #[trigger] segments@[k]@ == s.segments@[k]@.segment,
                    decreases s.segments.len() - i,
                {
                    segments.push(s.segments[i].segment.copy());
                    i += 1;
                }
                let snap = SessionSnapshot { id: copy_str(&s.id), started_at: s.started_at, segments };
                assert(snap.segments@.map_values(|g: TranscriptSegment| g@) =~= records_view(s.segments@).map_values(
                    |r: RecordView| r.segment,
                ));
                Some(snap)
            },
            None => None,
        }
    }

    /// The embeddings of the session's segments, or of the last session's
    /// transcript when none is in progress.
    pub fn speaker_embeddings(&self) -> (out: Vec<(String, Vec<u32>)>)
        ensures
            out@.map_values(|p: (String, Vec<u32>)| (p.0@, p.1@)) == embeddings_of(
                embedding_records(self@),
            ),
    {
        match &self.session {
            Some(s) => collect_speaker_embeddings(&s.segments),
            None => collect_speaker_embeddings(&self.completed_segments),
        }
    }

    /// The options of the session in progress, or the last options.
    pub fn recording_options(&self) -> (out: Option<RecordingOptions>)
        ensures
            options_view(out) == options_of(self@),
    {
        match &self.session {
            Some(s) => Some(s.options.copy()),
            None => match &self.last_options {
                Some(o) => Some(o.copy()),
                None => None,
            },
        }
    }

    /// Whether a session is recording: it is in progress and has its runtime.
    pub fn is_active(&self) -> (out: bool)
        ensures
            out == (self@.session matches Some(s) && s.runtime.is_some()),
    {
        match &self.session {
            Some(s) => s.runtime.is_some(),
            None => false,
        }
    }
}

/// The identifiers and embeddings of the records that have an embedding, in order.
pub fn collect_speaker_embeddings(records: &Vec<SegmentRecord>) -> (out: Vec<(String, Vec<u32>)>)
    ensures
        out@.map_values(|p: (String, Vec<u32>)| (p.0@, p.1@)) == embeddings_of(records_view(records@)),
{
    let mut out: Vec<(String, Vec<u32>)> = Vec::new();
    let mut i: usize = 0;
    while i < records.len()
        invariant
            i <= records.len(),
            out@.map_values(|p: (String, Vec<u32>)| (p.0@, p.1@)) == embeddings_of(
                records_view(records@).take(i as int),
            ),
        decreases records.len() - i,
    {
        proof {
            assert(records_view(records@).take(i + 1).drop_last() =~= records_view(records@).take(i as int));
            assert(records_view(records@).take(i + 1).last() == records@[i as int]@);
        }
        match &records[i].embedding {
            Some(vector) => {
                let ghost before = out@;
                let pair = (copy_str(&records[i].segment.id), copy_u32s(vector));
                let ghost pv = (pair.0@, pair.1@);
                out.push(pair);
                assert(out@.map_values(|p: (String, Vec<u32>)| (p.0@, p.1@)) =~= before.map_values(
                    |p: (String, Vec<u32>)| (p.0@, p.1@),
                ).push(pv));
            },
            None => {},
        }
        i += 1;
    }
    assert(records_view(records@).take(records.len() as int) =~= records_view(records@));
    out
}


// ---------------------------------------------------------------------------
// Laws
// ---------------------------------------------------------------------------
proof fn lemma_find_index(rs: Seq<RecordView>, id: Seq<char>)
    ensures
        match find_index(rs, id) {
            Some(i) => 0 <= i < rs.len() && rs[i].segment.id == id && forall|j: int|
                0 <= j < i ==> #[trigger] rs[j].segment.id != id,
            None => forall|j: int| 0 <= j < rs.len() ==> #[trigger] rs[j].segment.id != id,
        },
    decreases rs.len(),
{
    if rs.len() > 0 {
        lemma_find_index(rs.drop_last(), id);
        assert forall|j: int| 0 <= j < rs.len() - 1 implies rs.drop_last()[j] == rs[j] by {}
    }
}

proof fn lemma_find_index_same_ids(rs: Seq<RecordView>, qs: Seq<RecordView>, id: Seq<char>)
    requires
        rs.len() == qs.len(),
        forall|j: int| 0 <= j < rs.len() ==> #[trigger] rs[j].segment.id == qs[j].segment.id,
    ensures
        find_index(rs, id) == find_index(qs, id),
    decreases rs.len(),
{
    if rs.len() > 0 {
        lemma_find_index_same_ids(rs.drop_last(), qs.drop_last(), id);
    }
}

/// A transcript in order of start, with no NaN start, is grouped by any start
/// that is not NaN; and storing a final segment with a new identifier at a
/// place that keeps that grouping, as `push_final` does (`final_place`), keeps
/// the transcript in order of start.
pub proof fn law_push_final_keeps_order(rs: Seq<RecordView>, rec: RecordView, pos: int)
    requires
        sorted_by_start(rs),
        forall|i: int| 0 <= i < rs.len() ==> !is_nan(#[trigger] rs[i].segment.start),
        !is_nan(rec.segment.start),
    ensures
        grouped_by(rs, rec.segment.start),
        find_index(rs, rec.segment.id).is_none() && in_order_at(rs, rec.segment.start, pos)
            ==> sorted_by_start(store_final(rs, rec, pos)),
{
    let key = rec.segment.start;
    assert forall|i: int, j: int| 0 <= i < j < rs.len() implies start_rank(rs[i].segment.start, key)
        <= start_rank(rs[j].segment.start, key) by {
        assert(!is_nan(rs[i].segment.start) && !is_nan(rs[j].segment.start));
    }
    if find_index(rs, rec.segment.id).is_none() && in_order_at(rs, key, pos) {
        let out = rs.insert(pos, rec);
        assert forall|i: int, j: int| 0 <= i < j < out.len() implies value_key(out[i].segment.start)
            <= value_key(out[j].segment.start) by {
            if j < pos {
            } else if i < pos && j == pos {
                assert(start_rank(rs[i].segment.start, key) <= 1);
                assert(!is_nan(rs[i].segment.start));
            } else if i < pos && j > pos {
                assert(out[j] == rs[j - 1]);
                assert(value_key(rs[i].segment.start) <= value_key(rs[j - 1].segment.start));
            } else if i == pos {
                assert(out[j] == rs[j - 1]);
                assert(start_rank(rs[j - 1].segment.start, key) >= 1);
                assert(!is_nan(rs[j - 1].segment.start));
            } else {
                assert(out[i] == rs[i - 1] && out[j] == rs[j - 1]);
            }
        }
    }
}

/// Storing a segment, final or partial, keeps the identifiers of the transcript distinct.
pub proof fn law_store_keeps_ids_unique(rs: Seq<RecordView>, rec: RecordView, p: int)
    requires
        ids_unique(rs),
        0 <= p <= rs.len(),
    ensures
        ids_unique(store_final(rs, rec, p)),
        ids_unique(store_partial(rs, rec)),
{
    lemma_find_index(rs, rec.segment.id);
    match find_index(rs, rec.segment.id) {
        Some(k) => {
            let out = rs.update(k, rec);
            assert forall|i: int, j: int| 0 <= i < j < out.len() implies out[i].segment.id
                != out[j].segment.id by {
                if i == k {
                } else if j == k {
                } else {
                }
            }
        },
        None => {
            let out = rs.insert(p, rec);
            assert forall|i: int, j: int| 0 <= i < j < out.len() implies out[i].segment.id
                != out[j].segment.id by {
                if j < p {
                } else if i < p && j == p {
                } else if i < p {
                    assert(out[j] == rs[j - 1]);
                } else if i == p {
                    assert(out[j] == rs[j - 1]);
                } else {
                    assert(out[i] == rs[i - 1] && out[j] == rs[j - 1]);
                }
            }
            let out2 = rs.push(rec);
            assert forall|i: int, j: int| 0 <= i < j < out2.len() implies out2[i].segment.id
                != out2[j].segment.id by {
                if j == rs.len() {
                }
            }
        },
    }
}

/// What is stored is what a lookup of its identifier finds: after storing a
/// final segment, the transcript's record with that identifier is the stored one.
pub proof fn law_stored_final_is_found(rs: Seq<RecordView>, rec: RecordView, p: int)
    requires
        ids_unique(rs),
        0 <= p <= rs.len(),
    ensures
        find_index(store_final(rs, rec, p), rec.segment.id) matches Some(k) && store_final(
            rs,
            rec,
            p,
        )[k] == rec,
{
    lemma_find_index(rs, rec.segment.id);
    law_store_keeps_ids_unique(rs, rec, p);
    let out = store_final(rs, rec, p);
    lemma_find_index(out, rec.segment.id);
    match find_index(rs, rec.segment.id) {
        Some(k) => {
            assert(out[k] == rec);
        },
        None => {
            assert(out[p] == rec);
        },
    }
}

/// A stopped session leaves its options as the options for the next recording,
/// and its transcript as the source of speaker embeddings.
pub proof fn law_stop_keeps_options_and_transcript<R>(v: StateView<R>)
    requires
        v.session.is_some(),
    ensures
        options_of(stopped(v)) == options_of(v),
        embedding_records(stopped(v)) == embedding_records(v),
        stopped(v).session.is_none(),
{
}

/// A started session offers its options and no speaker embeddings.
pub proof fn law_start_offers_options_without_embeddings<R>(
    id: Seq<char>,
    started_at: UtcTime,
    options: OptionsView,
)
    ensures
        options_of(started::<R>(id, started_at, options)) == Some(options),
        embeddings_of(embedding_records(started::<R>(id, started_at, options))).len() == 0,
{
}

/// Naming a segment's speaker is done once: naming the same speaker again
/// changes nothing.
pub proof fn law_speaker_change_is_idempotent<R>(v: StateView<R>, id: Seq<char>, speaker: Seq<char>)
    ensures
        speaker_changed(speaker_changed(v, id, speaker).0, id, speaker) == (
            speaker_changed(v, id, speaker).0,
            false,
        ),
{
    match v.session {
        Some(s) => {
            lemma_find_index(s.records, id);
            match find_index(s.records, id) {
                Some(i) => {
                    if s.records[i].segment.speaker != speaker {
                        let rs2 = s.records.update(
                            i,
                            RecordView { segment: with_speaker(s.records[i].segment, speaker), ..s.records[i] },
                        );
                        lemma_find_index_same_ids(s.records, rs2, id);
                    }
                },
                None => {},
            }
        },
        None => {},
    }
}

} // verus!
