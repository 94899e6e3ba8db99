//! Audio handling of a recording: mixing interleaved frames down to mono,
//! cutting a stream of chunks into speech segments for Whisper, the bytes of a
//! mono WAV file and the command line that transcribes one.
use vstd::prelude::*;

use crate::llm::trimmed_nonblank;
use crate::model::{
    is_nan, is_nan_of, total_key, total_key_of, SegmentView, Stamp, TokenView, TranscriptSegment,
    TranscriptToken,
};
use crate::text::{
    chars_of, is_ws, join, join_chars, lines, string_lit, string_of, trim, trim_chars,
};

verus! {

// ---------------------------------------------------------------------------
// Mixing interleaved frames down to mono
// ---------------------------------------------------------------------------
/// The sum of a sequence of sample levels.
pub open spec fn level_sum(s: Seq<int>) -> int
    decreases s.len(),
{
    if s.len() == 0 {
        0
    } else {
        level_sum(s.drop_last()) + s.last()
    }
}

/// Integer division rounding toward zero, as Rust's `/` on signed integers.
pub open spec fn div_toward_zero(a: int, d: int) -> int {
    if a >= 0 {
        a / d
    } else {
        -((-a) / d)
    }
}

/// A level clamped into the range of `i16`.
pub open spec fn clamp_i16(x: int) -> int {
    if x < -32768 {
        -32768
    } else if x > 32767 {
        32767
    } else {
        x
    }
}

/// The mono sample of one frame: the sum of its levels divided by the channel
/// count (toward zero), clamped into `i16`. A short last frame is still
/// divided by the full channel count.
pub open spec fn frame_mean(frame: Seq<int>, channels: nat) -> i16 {
    clamp_i16(div_toward_zero(level_sum(frame), channels as int)) as i16
}

/// One mono sample per frame of `channels` consecutive levels; the last frame
/// holds what is left when the length is not a multiple of `channels`.
pub open spec fn frame_means(s: Seq<int>, channels: nat) -> Seq<i16>
    decreases s.len(),
{
    if channels == 0 || s.len() == 0 {
        Seq::empty()
    } else if s.len() <= channels {
        seq![frame_mean(s, channels)]
    } else {
        seq![frame_mean(s.take(channels as int), channels)] + frame_means(
            s.skip(channels as int),
            channels,
        )
    }
}

/// Mixing down gives one sample per frame: the number of levels divided by
/// the channel count, rounded up.
pub proof fn law_one_sample_per_frame(s: Seq<int>, channels: nat)
    requires
        channels > 0,
    ensures
        frame_means(s, channels).len() == (s.len() + channels - 1) / (channels as int),
    decreases s.len(),
{
    let c = channels as int;
    let n = s.len() as int;
    if n == 0 {
        assert((n + c - 1) / c == 0) by (nonlinear_arith)
            requires
                n == 0,
                c > 0,
        ;
    } else if n <= c {
        assert((n + c - 1) / c == 1) by (nonlinear_arith)
            requires
                0 < n <= c,
        ;
    } else {
        law_one_sample_per_frame(s.skip(c), channels);
        assert(s.skip(c).len() == n - c);
        assert((n + c - 1) / c == 1 + (n - c + c - 1) / c) by (nonlinear_arith)
            requires
                n > c > 0,
        ;
    }
}

/// The end of the frame that starts at `start`: `channels` further on, or the
/// end of the levels for a short last frame.
pub open spec fn frame_end(start: int, channels: nat, len: int) -> int {
    if start + channels <= len {
        start + channels
    } else {
        len
    }
}

proof fn lemma_frame_means_index(s: Seq<int>, channels: nat, i: int)
    requires
        channels > 0,
        0 <= i,
        i * channels < s.len(),
    ensures
        i < frame_means(s, channels).len(),
        frame_means(s, channels)[i] == frame_mean(
            s.subrange(i * channels, frame_end(i * channels, channels, s.len() as int)),
            channels,
        ),
    decreases s.len(),
{
    let c = channels as int;
    let n = s.len() as int;
    if i == 0 {
        assert(i * c == 0);
        if n <= c {
            assert(s.subrange(0, n) =~= s);
        } else {
            assert(s.subrange(0, c) =~= s.take(c));
        }
    } else {
        assert(c <= i * c) by (nonlinear_arith)
            requires
                i >= 1,
                c > 0,
        ;
        assert((i - 1) * c == i * c - c) by (nonlinear_arith);
        let rest = s.skip(c);
        lemma_frame_means_index(rest, channels, i - 1);
        assert(rest.subrange((i - 1) * c, frame_end((i - 1) * c, channels, n - c)) =~= s.subrange(
            i * c,
            frame_end(i * c, channels, n),
        ));
    }
}

/// Mixing down gives one sample per frame, in order: the `i`-th sample is the
/// mean of the levels from `i * channels` up to `channels` further on (or to
/// the end for a short last frame), rounded toward zero and clamped into `i16`.
pub proof fn law_frame_means_formula(s: Seq<int>, channels: nat)
    requires
        channels > 0,
    ensures
        frame_means(s, channels).len() == (s.len() + channels - 1) / (channels as int),
        forall|i: int|
            0 <= i < frame_means(s, channels).len() ==> #[trigger] frame_means(s, channels)[i]
                == frame_mean(
                s.subrange(i * channels, frame_end(i * channels, channels, s.len() as int)),
                channels,
            ),
{
    law_one_sample_per_frame(s, channels);
    let c = channels as int;
    let n = s.len() as int;
    assert forall|i: int| 0 <= i < frame_means(s, channels).len() implies #[trigger] frame_means(
        s,
        channels,
    )[i] == frame_mean(s.subrange(i * channels, frame_end(i * channels, channels, n)), channels) by {
        assert(i * c < n) by (nonlinear_arith)
            requires
                0 <= i < (n + c - 1) / c,
                c > 0,
        ;
        lemma_frame_means_index(s, channels, i);
    }
}

/// The levels of signed samples: the samples themselves.
pub open spec fn i16_levels(s: Seq<i16>) -> Seq<int> {
    s.map_values(|x: i16| x as int)
}

/// The levels of unsigned samples: each centred on zero by subtracting 32768.
pub open spec fn u16_levels(s: Seq<u16>) -> Seq<int> {
    s.map_values(|x: u16| x as int - 32768)
}

/// The levels of a vector of `i32`.
pub open spec fn i32_levels(s: Seq<i32>) -> Seq<int> {
    s.map_values(|x: i32| x as int)
}

proof fn lemma_level_sum_push(s: Seq<int>, x: int)
    ensures
        level_sum(s.push(x)) == level_sum(s) + x,
{
    assert(s.push(x).drop_last() =~= s);
}

/// Mixes levels in [-32768, 32767] down to one sample per frame.
fn mix_down(levels: &[i32], channels: usize) -> (out: Vec<i16>)
    requires
        0 < channels <= 65535,
        forall|k: int| 0 <= k < levels@.len() ==> -32768 <= #[trigger] levels@[k] <= 32767,
    ensures
        out@ == frame_means(i32_levels(levels@), channels as nat),
{
    let ghost lv = i32_levels(levels@);
    let n = levels.len();
    let mut out: Vec<i16> = Vec::new();
    let mut i: usize = 0;
    proof {
        assert(lv.skip(0) =~= lv);
        assert(out@ + frame_means(lv, channels as nat) =~= frame_means(lv, channels as nat));
    }
    while i < n
        invariant
            n == levels@.len(),
            lv == i32_levels(levels@),
            lv.len() == n,
            0 < channels <= 65535,
            forall|k: int| 0 <= k < levels@.len() ==> -32768 <= #[trigger] levels@[k] <= 32767,
            i <= n,
            frame_means(lv, channels as nat) == out@ + frame_means(lv.skip(i as int), channels as nat),
        decreases n - i,
    {
        let end: usize = if n - i <= channels {
            n
        } else {
            i + channels
        };
        let mut sum: i32 = 0;
        let mut j: usize = i;
        while j < end
            invariant
                n == levels@.len(),
                lv == i32_levels(levels@),
                forall|k: int| 0 <= k < levels@.len() ==> -32768 <= #[trigger] levels@[k] <= 32767,
                i <= j <= end <= n,
                end - i <= channels <= 65535,
                sum == level_sum(lv.subrange(i as int, j as int)),
                -32768 * (j - i) <= sum <= 32767 * (j - i),
            decreases end - j,
        {
            proof {
                lemma_level_sum_push(lv.subrange(i as int, j as int), lv[j as int]);
                assert(lv.subrange(i as int, j + 1) =~= lv.subrange(i as int, j as int).push(
                    lv[j as int],
                ));
            }
            sum = sum + levels[j];
            j += 1;
        }
        let ch = channels as u32;
        let q: i32 = if sum >= 0 {
            (sum as u32 / ch) as i32
        } else {
            let neg = (-sum) as u32;
            -((neg / ch) as i32)
        };
        let v: i32 = if q < -32768 {
            -32768
        } else if q > 32767 {
            32767
        } else {
            q
        };
        let sample = v as i16;
        proof {
            let rest = lv.skip(i as int);
            assert(lv.subrange(i as int, end as int) =~= if n - i <= channels {
                rest
            } else {
                rest.take(channels as int)
            });
            assert(sample == frame_mean(lv.subrange(i as int, end as int), channels as nat));
            if n - i <= channels {
                assert(lv.skip(end as int) =~= Seq::<int>::empty());
                assert(frame_means(rest, channels as nat) =~= seq![sample]);
            } else {
                assert(rest.skip(channels as int) =~= lv.skip(end as int));
                assert(frame_means(rest, channels as nat) =~= seq![sample] + frame_means(
                    lv.skip(end as int),
                    channels as nat,
                ));
            }
            assert(out@.push(sample) + frame_means(lv.skip(end as int), channels as nat)
                =~= out@ + frame_means(rest, channels as nat));
        }
        out.push(sample);
        i = end;
    }
    proof {
        assert(lv.skip(n as int) =~= Seq::<int>::empty());
        assert(out@ + frame_means(Seq::<int>::empty(), channels as nat) =~= out@);
    }
    out
}

/// Mixes an interleaved chunk of signed 16-bit samples with `channels`
/// channels down to mono: one sample per frame, the mean of the frame's
/// samples rounded toward zero. An empty chunk gives nothing to send.
pub fn transmit_chunk_i16(data: &[i16], channels: usize) -> (out: Option<Vec<i16>>)
    requires
        0 < channels <= 65535,
    ensures
        match out {
            None => data@.len() == 0,
            Some(v) => data@.len() > 0 && v@ == frame_means(i16_levels(data@), channels as nat),
        },
{
    if data.len() == 0 {
        return None;
    }
    let mut levels: Vec<i32> = Vec::new();
    let mut i: usize = 0;
    while i < data.len()
        invariant
            i <= data@.len(),
            levels@.len() == i,
            forall|k: int| 0 <= k < i ==> #[trigger] levels@[k] == data@[k] as i32,
        decreases data.len() - i,
    {
        levels.push(data[i] as i32);
        i += 1;
    }
    assert(i32_levels(levels@) =~= i16_levels(data@));
    Some(mix_down(&levels, channels))
}

/// Mixes an interleaved chunk of unsigned 16-bit samples with `channels`
/// channels down to mono: each sample is first centred by subtracting 32768,
/// then each frame gives the mean of its centred samples rounded toward zero.
/// An empty chunk gives nothing to send.
pub fn transmit_chunk_u16(data: &[u16], channels: usize) -> (out: Option<Vec<i16>>)
    requires
        0 < channels <= 65535,
    ensures
        match out {
            None => data@.len() == 0,
            Some(v) => data@.len() > 0 && v@ == frame_means(u16_levels(data@), channels as nat),
        },
{
    if data.len() == 0 {
        return None;
    }
    let mut levels: Vec<i32> = Vec::new();
    let mut i: usize = 0;
    while i < data.len()
        invariant
            i <= data@.len(),
            levels@.len() == i,
            forall|k: int| 0 <= k < i ==> #[trigger] levels@[k] == data@[k] as int - 32768,
        decreases data.len() - i,
    {
        levels.push(data[i] as i32 - 32768);
        i += 1;
    }
    assert(i32_levels(levels@) =~= u16_levels(data@));
    Some(mix_down(&levels, channels))
}

// ---------------------------------------------------------------------------
// Identifiers of an utterance across partial and final results
// ---------------------------------------------------------------------------
/// The identifier of a partial result: nothing when its text is blank (the
/// pending identifier stays as it was); otherwise the pending identifier,
/// which a fresh random one becomes first when there is none.
pub fn partial_segment_id(pending: &mut Option<String>, text: &str) -> (out: Option<String>)
    ensures
        trim(text@).len() == 0 ==> out.is_none() && *final(pending) == *old(pending),
        trim(text@).len() > 0 ==> (out matches Some(id) && {
            &&& *final(pending) matches Some(p) && p@ == id@
            &&& match *old(pending) {
                Some(q) => id@ == q@,
                None => crate::state::random_uuid_text(id@),
            }
        }),
{
    let cs = chars_of(text);
    let t = trim_chars(&cs);
    if t.len() == 0 {
        return None;
    }
    let id = match pending.take() {
        Some(p) => p,
        None => crate::state::new_uuid_text(),
    };
    let copy = crate::model::copy_str(&id);
    *pending = Some(id);
    Some(copy)
}

/// The identifier of a final result: nothing when its text is blank;
/// otherwise the pending identifier, or a fresh random one when there is
/// none. Either way the utterance is over and nothing stays pending.
pub fn final_segment_id(pending: &mut Option<String>, text: &str) -> (out: Option<String>)
    ensures
        final(pending).is_none(),
        trim(text@).len() == 0 ==> out.is_none(),
        trim(text@).len() > 0 ==> (out matches Some(id) && match *old(pending) {
            Some(q) => id@ == q@,
            None => crate::state::random_uuid_text(id@),
        }),
{
    let previous = pending.take();
    let cs = chars_of(text);
    let t = trim_chars(&cs);
    if t.len() == 0 {
        return None;
    }
    match previous {
        Some(p) => Some(p),
        None => Some(crate::state::new_uuid_text()),
    }
}

// ---------------------------------------------------------------------------
// Vosk results as transcript segments
// ---------------------------------------------------------------------------
/// A word of a recognition result: its text, its times and the bits of its
/// confidence.
#[derive(Clone, Debug)]
pub struct RecognizedWord {
    pub word: String,
    pub start: Stamp,
    pub end: Stamp,
    pub conf_bits: u32,
}

/// A final recognition result: one transcript with its words and, where a
/// speaker model is loaded, a speaker vector; or ranked alternatives, each
/// with its text, words and the bits of its confidence.
#[derive(Debug)]
pub enum RecognitionResult {
    Single { text: String, words: Vec<RecognizedWord>, speaker_vector: Option<Vec<u32>> },
    Multiple { alternatives: Vec<(String, Vec<RecognizedWord>, u32)> },
}

/// Whether a word's start takes part in the earliest start: `f32::min` over
/// the starts from `f32::MAX` passes over a NaN, and a start not below
/// `f32::MAX` leaves that value, which stands for "no start".
pub open spec fn counts_as_start(s: Stamp) -> bool {
    !is_nan(s) && total_key(s) < 0x7f7f_ffff
}

/// Whether a word's end takes part in the latest end: `f32::max` over the
/// ends from `f32::MIN` passes over a NaN, and an end not above `f32::MIN`
/// leaves that value, which stands for "no end".
pub open spec fn counts_as_end(s: Stamp) -> bool {
    !is_nan(s) && total_key(s) > -0x7f7f_ffff - 1
}

/// The earliest start among the words that have one, if any.
pub open spec fn earliest_start(ws: Seq<RecognizedWord>) -> Option<Stamp>
    decreases ws.len(),
{
    if ws.len() == 0 {
        None
    } else {
        let e = earliest_start(ws.drop_last());
        let w = ws.last().start;
        if !counts_as_start(w) {
            e
        } else {
            match e {
                None => Some(w),
                Some(x) => if total_key(w) < total_key(x) {
                    Some(w)
                } else {
                    Some(x)
                },
            }
        }
    }
}

/// The latest end among the words that have one, if any.
pub open spec fn latest_end(ws: Seq<RecognizedWord>) -> Option<Stamp>
    decreases ws.len(),
{
    if ws.len() == 0 {
        None
    } else {
        let e = latest_end(ws.drop_last());
        let w = ws.last().end;
        if !counts_as_end(w) {
            e
        } else {
            match e {
                None => Some(w),
                Some(x) => if total_key(w) > total_key(x) {
                    Some(w)
                } else {
                    Some(x)
                },
            }
        }
    }
}

/// The greater of two positions as `f32::max` gives it: a NaN is passed over.
pub open spec fn later_of(a: Stamp, b: Stamp) -> Stamp {
    if is_nan(a) {
        b
    } else if is_nan(b) {
        a
    } else if total_key(a) < total_key(b) {
        b
    } else {
        a
    }
}

/// Where a segment of these words starts: the earliest word start, or the end
/// of the last segment when no word gives one.
pub open spec fn words_start(words: Seq<RecognizedWord>, last_end: Stamp) -> Stamp {
    match earliest_start(words) {
        Some(s) => s,
        None => last_end,
    }
}

/// The token of a word; its confidence is the alternative's where one is given.
pub open spec fn word_token(w: RecognizedWord, conf: Option<u32>) -> TokenView {
    TokenView {
        text: w.word@,
        start: w.start,
        end: w.end,
        confidence_bits: match conf {
            Some(c) => c,
            None => w.conf_bits,
        },
    }
}

/// The segment of a final result with a non-blank text: the trimmed text by
/// an unknown speaker, from `words_start` to the latest word end (or, without
/// one, the later of `half_second_after_start` and the end of the last
/// segment), with one token per word.
pub open spec fn result_segment(
    id: Seq<char>,
    text: Seq<char>,
    words: Seq<RecognizedWord>,
    conf: Option<u32>,
    last_end: Stamp,
    half_second_after_start: Stamp,
) -> SegmentView {
    SegmentView {
        id,
        speaker: "Unknown"@,
        text: trim(text),
        start: words_start(words, last_end),
        end: match latest_end(words) {
            Some(e) => e,
            None => later_of(half_second_after_start, last_end),
        },
        tokens: words.map_values(|w: RecognizedWord| word_token(w, conf)),
        is_final: true,
    }
}

/// A result's segment is final, by an unknown speaker, with the trimmed text
/// and one token per word. Without words it starts where the last segment
/// ended and, given half a second past that start where that is not before
/// the last end, ends there.
pub proof fn law_result_segment_shape(
    id: Seq<char>,
    text: Seq<char>,
    words: Seq<RecognizedWord>,
    conf: Option<u32>,
    last_end: Stamp,
    half_second_after_start: Stamp,
)
    ensures
        ({
            let seg = result_segment(id, text, words, conf, last_end, half_second_after_start);
            &&& seg.id == id
            &&& seg.speaker == "Unknown"@
            &&& seg.text == trim(text)
            &&& seg.is_final
            &&& seg.tokens.len() == words.len()
            &&& words.len() == 0 ==> seg.start == last_end
            &&& (words.len() == 0 && !is_nan(half_second_after_start) && total_key(last_end)
                <= total_key(half_second_after_start)) ==> seg.end == half_second_after_start
        }),
{
}

/// What a result is read from: the single transcript, or the first of the
/// alternatives; nothing when there are no alternatives. Gives the text, the
/// words, the confidence shared by all words (alternatives only) and the
/// speaker vector (single results only).
pub open spec fn chosen_reading(r: RecognitionResult) -> Option<(Seq<char>, Seq<RecognizedWord>, Option<u32>, Option<Seq<u32>>)> {
    match r {
        RecognitionResult::Single { text, words, speaker_vector } => Some(
            (text@, words@, None, crate::state::embedding_view(speaker_vector)),
        ),
        RecognitionResult::Multiple { alternatives } => if alternatives@.len() == 0 {
            None
        } else {
            Some((alternatives@[0].0@, alternatives@[0].1@, Some(alternatives@[0].2), None))
        },
    }
}

/// The segment of a text and its words, with the pending identifier.
fn segment_from_words(
    text: &String,
    words: &Vec<RecognizedWord>,
    conf: Option<u32>,
    pending_id: &mut Option<String>,
    last_end: &mut Stamp,
    half_second_after_start: Stamp,
) -> (out: Option<TranscriptSegment>)
    ensures
        final(pending_id).is_none(),
        trim(text@).len() == 0 ==> out.is_none() && *final(last_end) == *old(last_end),
        trim(text@).len() > 0 ==> (out matches Some(seg) && {
            &&& seg@ == result_segment(seg.id@, text@, words@, conf, *old(last_end), half_second_after_start)
            &&& *final(last_end) == seg.end
            &&& match *old(pending_id) {
                Some(q) => seg.id@ == q@,
                None => crate::state::random_uuid_text(seg.id@),
            }
        }),
{
    let id = match final_segment_id(pending_id, text.as_str()) {
        Some(id) => id,
        None => {
            return None;
        },
    };
    let n = words.len();
    let mut earliest: Option<Stamp> = None;
    let mut latest: Option<Stamp> = None;
    let mut k: usize = 0;
    while k < n
        invariant
            n == words@.len(),
            k <= n,
            earliest == earliest_start(words@.take(k as int)),
            latest == latest_end(words@.take(k as int)),
        decreases n - k,
    {
        proof {
            assert(words@.take(k + 1).drop_last() =~= words@.take(k as int));
            assert(words@.take(k + 1).last() == words@[k as int]);
        }
        let ws = words[k].start;
        if !is_nan_of(&ws) && total_key_of(&ws) < 0x7f7f_ffff {
            earliest = match earliest {
                None => Some(ws),
                Some(x) => if total_key_of(&ws) < total_key_of(&x) {
                    Some(ws)
                } else {
                    Some(x)
                },
            };
        }
        let we = words[k].end;
        if !is_nan_of(&we) && total_key_of(&we) > -0x7f7f_ffff - 1 {
            latest = match latest {
                None => Some(we),
                Some(x) => if total_key_of(&we) > total_key_of(&x) {
                    Some(we)
                } else {
                    Some(x)
                },
            };
        }
        k += 1;
    }
    assert(words@.take(n as int) =~= words@);
    let start = match earliest {
        Some(s) => s,
        None => *last_end,
    };
    let end = match latest {
        Some(e) => e,
        None => {
            let a = half_second_after_start;
            let b = *last_end;
            if is_nan_of(&a) {
                b
            } else if is_nan_of(&b) {
                a
            } else if total_key_of(&a) < total_key_of(&b) {
                b
            } else {
                a
            }
        },
    };
    let mut tokens: Vec<TranscriptToken> = Vec::new();
    let mut i: usize = 0;
    while i < n
        invariant
            n == words@.len(),
            i <= n,
            tokens@.map_values(|t: TranscriptToken| t@) == words@.take(i as int).map_values(
                |w: RecognizedWord| word_token(w, conf),
            ),
        decreases n - i,
    {
        let w = &words[i];
        let c = match conf {
            Some(c) => c,
            None => w.conf_bits,
        };
        let token = TranscriptToken {
            text: crate::model::copy_str(&w.word),
            start: w.start,
            end: w.end,
            confidence_bits: c,
        };
        let ghost before = tokens@.map_values(|t: TranscriptToken| t@);
        let ghost tv = token@;
        tokens.push(token);
        assert(tokens@.map_values(|t: TranscriptToken| t@) =~= before.push(tv));
        assert(words@.take(i + 1).map_values(|w: RecognizedWord| word_token(w, conf))
            =~= words@.take(i as int).map_values(|w: RecognizedWord| word_token(w, conf)).push(
            word_token(words@[i as int], conf),
        ));
        i += 1;
    }
    assert(words@.take(n as int) =~= words@);
    *last_end = end;
    let trimmed = crate::text::trim_str(text.as_str());
    let seg = TranscriptSegment {
        id,
        speaker: string_lit("Unknown"),
        text: trimmed,
        start,
        end,
        tokens,
        is_final: true,
    };
    assert(seg@ =~= result_segment(seg.id@, text@, words@, conf, *old(last_end), half_second_after_start));
    Some(seg)
}

/// Where the segment of a result would start: the earliest word start of the
/// text that is read, or `last_end` when no word gives one (or there is
/// nothing to read).
pub fn recognition_start(result: &RecognitionResult, last_end: &Stamp) -> (out: Stamp)
    ensures
        out == match chosen_reading(*result) {
            Some((_, words, _, _)) => words_start(words, *last_end),
            None => *last_end,
        },
{
    let words = match result {
        RecognitionResult::Single { words, .. } => words,
        RecognitionResult::Multiple { alternatives } => {
            if alternatives.len() == 0 {
                return *last_end;
            }
            &alternatives[0].1
        },
    };
    let n = words.len();
    let mut earliest: Option<Stamp> = None;
    let mut k: usize = 0;
    while k < n
        invariant
            n == words@.len(),
            k <= n,
            earliest == earliest_start(words@.take(k as int)),
        decreases n - k,
    {
        proof {
            assert(words@.take(k + 1).drop_last() =~= words@.take(k as int));
            assert(words@.take(k + 1).last() == words@[k as int]);
        }
        let ws = words[k].start;
        if !is_nan_of(&ws) && total_key_of(&ws) < 0x7f7f_ffff {
            earliest = match earliest {
                None => Some(ws),
                Some(x) => if total_key_of(&ws) < total_key_of(&x) {
                    Some(ws)
                } else {
                    Some(x)
                },
            };
        }
        k += 1;
    }
    assert(words@.take(n as int) =~= words@);
    match earliest {
        Some(s) => s,
        None => *last_end,
    }
}

/// The transcript segment of a final recognition result, and its speaker
/// vector. The single transcript or the first alternative is read; with no
/// alternatives nothing changes. A blank text ends the pending utterance and
/// gives nothing. Otherwise the segment takes the pending identifier (or a
/// fresh one), the trimmed text, one token per word, and the times that
/// `result_segment` describes; its end becomes the new `last_end`.
/// `half_second_after_start` is half a second past the segment's start, which
/// `recognition_start` gives.
pub fn build_segment_from_result(
    result: RecognitionResult,
    pending_id: &mut Option<String>,
    last_end: &mut Stamp,
    half_second_after_start: Stamp,
) -> (out: Option<(TranscriptSegment, Option<Vec<u32>>)>)
    ensures
        match chosen_reading(result) {
            None => out.is_none() && *final(pending_id) == *old(pending_id) && *final(last_end)
                == *old(last_end),
            Some((text, words, conf, vector)) => {
                &&& final(pending_id).is_none()
                &&& trim(text).len() == 0 ==> out.is_none() && *final(last_end) == *old(last_end)
                &&& trim(text).len() > 0 ==> (out matches Some((seg, v)) && {
                    &&& seg@ == result_segment(seg.id@, text, words, conf, *old(last_end), half_second_after_start)
                    &&& *final(last_end) == seg.end
                    &&& crate::state::embedding_view(v) == vector
                    &&& match *old(pending_id) {
                        Some(q) => seg.id@ == q@,
                        None => crate::state::random_uuid_text(seg.id@),
                    }
                })
            },
        },
{
    match result {
        RecognitionResult::Single { text, words, speaker_vector } => {
            match segment_from_words(&text, &words, None, pending_id, last_end, half_second_after_start) {
                Some(seg) => Some((seg, speaker_vector)),
                None => None,
            }
        },
        RecognitionResult::Multiple { alternatives } => {
            if alternatives.len() == 0 {
                return None;
            }
            let first = &alternatives[0];
            match segment_from_words(&first.0, &first.1, Some(first.2), pending_id, last_end, half_second_after_start) {
                Some(seg) => Some((seg, None)),
                None => None,
            }
        },
    }
}

/// The segment for Whisper's transcription of a stretch of speech: nothing
/// when the text is blank; otherwise a final segment with a fresh identifier,
/// an unknown speaker, the text as given, the stretch's times and no tokens.
pub fn whisper_segment(text: String, start: Stamp, end: Stamp) -> (out: Option<TranscriptSegment>)
    ensures
        out.is_none() == (trim(text@).len() == 0),
        out matches Some(seg) ==> {
            &&& crate::state::random_uuid_text(seg.id@)
            &&& seg@ == (SegmentView {
                id: seg.id@,
                speaker: "Unknown"@,
                text: text@,
                start,
                end,
                tokens: Seq::empty(),
                is_final: true,
            })
        },
{
    let cs = chars_of(text.as_str());
    let t = trim_chars(&cs);
    if t.len() == 0 {
        return None;
    }
    let seg = TranscriptSegment {
        id: crate::state::new_uuid_text(),
        speaker: string_lit("Unknown"),
        text,
        start,
        end,
        tokens: Vec::new(),
        is_final: true,
    };
    assert(seg@.tokens =~= Seq::<TokenView>::empty());
    Some(seg)
}

// ---------------------------------------------------------------------------
// Whisper's text output
// ---------------------------------------------------------------------------
/// What Whisper's text becomes once normalised.
pub open spec fn whisper_text(text: Seq<char>) -> Seq<char> {
    join(trimmed_nonblank(lines(text)), " "@)
}

proof fn lemma_trimmed_nonblank_clean(ls: Seq<Seq<char>>)
    requires
        forall|i: int, k: int| 0 <= i < ls.len() && 0 <= k < ls[i].len() ==> #[trigger] ls[i][k] != '\n',
    ensures
        forall|i: int|
            0 <= i < trimmed_nonblank(ls).len() ==> {
                let p = #[trigger] trimmed_nonblank(ls)[i];
                &&& p.len() > 0
                &&& !is_ws(p[0]) && !is_ws(p.last())
                &&& forall|k: int| 0 <= k < p.len() ==> p[k] != '\n'
            },
    decreases ls.len(),
{
    if ls.len() > 0 {
        let init = ls.drop_last();
        assert forall|i: int, k: int| 0 <= i < init.len() && 0 <= k < init[i].len() implies #[trigger] init[i][k] != '\n' by {
            assert(init[i] == ls[i]);
        }
        lemma_trimmed_nonblank_clean(init);
        let l = ls.last();
        crate::text::lemma_trim_shape(l);
        let t = trim(l);
        assert forall|k: int| 0 <= k < t.len() implies t[k] != '\n' by {
            assert(l.contains(t[k]));
            let j = choose|j: int| 0 <= j < l.len() && l[j] == t[k];
            assert(ls[ls.len() - 1][j] != '\n');
        }
        let prev = trimmed_nonblank(init);
        let r = trimmed_nonblank(ls);
        assert(r == if t.len() > 0 {
            prev.push(t)
        } else {
            prev
        });
        assert forall|i: int| 0 <= i < r.len() implies {
            let p = #[trigger] r[i];
            &&& p.len() > 0
            &&& !is_ws(p[0]) && !is_ws(p.last())
            &&& forall|k: int| 0 <= k < p.len() ==> p[k] != '\n'
        } by {
            if i < prev.len() {
                assert(r[i] == prev[i]);
            } else {
                assert(r[i] == t);
            }
        }
    }
}

/// Normalised Whisper text holds no line feed, has no whitespace at either
/// end, and normalising it again changes nothing.
pub proof fn law_whisper_text_is_normal(text: Seq<char>)
    ensures
        forall|k: int| 0 <= k < whisper_text(text).len() ==> #[trigger] whisper_text(text)[k] != '\n',
        whisper_text(text).len() > 0 ==> !is_ws(whisper_text(text)[0]) && !is_ws(
            whisper_text(text).last(),
        ),
        whisper_text(whisper_text(text)) == whisper_text(text),
{
    let parts = trimmed_nonblank(lines(text));
    let out = whisper_text(text);
    crate::text::lemma_lines_no_newline(text);
    lemma_trimmed_nonblank_clean(lines(text));
    reveal_strlit(" ");
    crate::text::lemma_join_without(parts, " "@, '\n');
    if parts.len() > 0 {
        assert forall|i: int| 0 <= i < parts.len() implies (#[trigger] parts[i]).len() > 0 by {}
        crate::text::lemma_join_ends(parts, " "@);
        assert(!is_ws(parts[0][0]));
        assert(!is_ws(parts[parts.len() - 1].last()));
    } else {
        assert(out.len() == 0);
    }
    crate::text::lemma_lines_single(out);
    crate::text::lemma_trim_of_clean(out);
    if out.len() > 0 {
        let one = seq![out];
        assert(one.drop_last() =~= Seq::<Seq<char>>::empty());
        assert(one.last() == out);
        assert(trimmed_nonblank(Seq::<Seq<char>>::empty()) == Seq::<Seq<char>>::empty());
        assert(trimmed_nonblank(one) == Seq::<Seq<char>>::empty().push(trim(out)));
        assert(Seq::<Seq<char>>::empty().push(out) =~= seq![out]);
    }
}

/// Joins the non-blank lines of Whisper's text output, each trimmed, with
/// single spaces.
pub fn normalize_whisper_text(text: &str) -> (out: String)
    ensures
        out@ == whisper_text(text@),
{
    let cs = chars_of(text);
    let ls = crate::llm::trimmed_nonblank_lines(&cs);
    let sep = chars_of(" ");
    let joined = join_chars(&ls, &sep);
    string_of(&joined)
}

// ---------------------------------------------------------------------------
// Cutting a stream of chunks into speech segments
// ---------------------------------------------------------------------------
/// What a segmenter holds: the two sample counts it was made with, the number
/// of samples seen so far (`timeline`), whether speech is being collected, the
/// position where it began, the samples collected since, and how many of the
/// last of them belong to silent chunks.
pub struct SegmenterState {
    pub min_silence: nat,
    pub min_segment: nat,
    pub timeline: nat,
    pub active: bool,
    pub start: nat,
    pub buffer: Seq<i16>,
    pub trailing: nat,
}

/// A stretch of speech: its samples and its first and past-the-end positions
/// on the timeline, counted in samples.
pub struct SpanView {
    pub samples: Seq<i16>,
    pub start: nat,
    pub end: nat,
}

/// The segmenter's invariant: trailing silence is part of the collected
/// samples; an idle segmenter holds nothing; collected samples run from
/// `start` up to the current position.
pub open spec fn segmenter_wf(s: SegmenterState) -> bool {
    &&& s.trailing <= s.buffer.len()
    &&& !s.active ==> s.buffer.len() == 0 && s.trailing == 0
    &&& s.active ==> s.start + s.buffer.len() == s.timeline
}

/// A segmenter after one more chunk, and the speech it completes, if any.
/// An empty chunk changes nothing. While idle, a silent chunk only moves the
/// timeline; any other chunk starts collecting at the current position. Once
/// the trailing silence reaches `min_silence` samples, the speech before it is
/// handed out when it has at least `min_segment` samples, and the segmenter
/// goes idle.
pub open spec fn accept_step(s: SegmenterState, chunk: Seq<i16>, silent: bool) -> (
    SegmenterState,
    Option<SpanView>,
) {
    if chunk.len() == 0 {
        (s, None)
    } else if !s.active && silent {
        (
            SegmenterState {
                min_silence: s.min_silence,
                min_segment: s.min_segment,
                timeline: s.timeline + chunk.len(),
                active: false,
                start: s.start,
                buffer: s.buffer,
                trailing: s.trailing,
            },
            None,
        )
    } else {
        let start = if s.active {
            s.start
        } else {
            s.timeline
        };
        let before = if s.active {
            s.buffer
        } else {
            Seq::<i16>::empty()
        };
        let buffer = before + chunk;
        let trailing: nat = if silent {
            (if s.active {
                s.trailing
            } else {
                0
            }) + chunk.len()
        } else {
            0
        };
        let timeline = s.timeline + chunk.len();
        if trailing >= s.min_silence {
            let speech = (buffer.len() - trailing) as nat;
            (
                SegmenterState {
                    min_silence: s.min_silence,
                    min_segment: s.min_segment,
                    timeline: timeline,
                    active: false,
                    start: start,
                    buffer: Seq::empty(),
                    trailing: 0,
                },
                if speech >= s.min_segment {
                    Some(
                        SpanView {
                            samples: buffer.take(speech as int),
                            start: start,
                            end: (timeline - trailing) as nat,
                        },
                    )
                } else {
                    None
                },
            )
        } else {
            (
                SegmenterState {
                    min_silence: s.min_silence,
                    min_segment: s.min_segment,
                    timeline: timeline,
                    active: true,
                    start: start,
                    buffer: buffer,
                    trailing: trailing,
                },
                None,
            )
        }
    }
}

/// The speech still collected when the stream ends: handed out when it holds
/// at least `min_segment` samples, both with and without its trailing silence.
pub open spec fn finish_step(s: SegmenterState) -> Option<SpanView> {
    if s.active && s.buffer.len() >= s.min_segment {
        let speech = (s.buffer.len() - s.trailing) as nat;
        if speech >= s.min_segment {
            Some(
                SpanView {
                    samples: s.buffer.take(speech as int),
                    start: s.start,
                    end: (s.timeline - s.trailing) as nat,
                },
            )
        } else {
            None
        }
    } else {
        None
    }
}

/// A segmenter after a stream of chunks, each with its silence flag, and the
/// speech that the stream completes, in order.
pub open spec fn run_chunks(s: SegmenterState, chunks: Seq<(Seq<i16>, bool)>) -> (
    SegmenterState,
    Seq<SpanView>,
)
    decreases chunks.len(),
{
    if chunks.len() == 0 {
        (s, Seq::empty())
    } else {
        let (t, spans) = run_chunks(s, chunks.drop_last());
        let (u, o) = accept_step(t, chunks.last().0, chunks.last().1);
        (
            u,
            match o {
                Some(sp) => spans.push(sp),
                None => spans,
            },
        )
    }
}

/// The earliest position where speech that is still to come can begin.
pub open spec fn open_from(s: SegmenterState) -> nat {
    if s.active {
        s.start
    } else {
        s.timeline
    }
}

/// One chunk keeps the invariant and the two sample counts, moves the
/// timeline by the chunk's length, and never moves back the position where
/// further speech can begin. Speech that it completes holds at least
/// `min_segment` samples, covers exactly its samples on the timeline, lies
/// between where speech could begin before the chunk and where it can begin
/// after it, and leaves the segmenter idle.
pub proof fn law_accept_step(s: SegmenterState, chunk: Seq<i16>, silent: bool)
    requires
        segmenter_wf(s),
    ensures
        ({
            let (t, o) = accept_step(s, chunk, silent);
            &&& segmenter_wf(t)
            &&& t.min_silence == s.min_silence && t.min_segment == s.min_segment
            &&& t.timeline == s.timeline + chunk.len()
            &&& open_from(s) <= open_from(t)
            &&& o matches Some(sp) ==> {
                &&& sp.samples.len() >= s.min_segment
                &&& sp.end == sp.start + sp.samples.len()
                &&& open_from(s) <= sp.start
                &&& sp.end <= open_from(t)
                &&& !t.active
            }
        }),
{
}

/// Speech ends any silence counted so far: after a chunk that is not silent,
/// no trailing silence is left; while `min_silence` is positive, the chunk
/// hands nothing out and is collected after what was collected before.
pub proof fn law_speech_resets_silence(s: SegmenterState, chunk: Seq<i16>)
    requires
        segmenter_wf(s),
        chunk.len() > 0,
    ensures
        ({
            let (t, o) = accept_step(s, chunk, false);
            &&& t.trailing == 0
            &&& s.min_silence > 0 ==> {
                &&& o.is_none()
                &&& t.active
                &&& t.buffer == (if s.active {
                    s.buffer
                } else {
                    Seq::<i16>::empty()
                }) + chunk
            }
        }),
{
}

/// While speech is being collected, silent chunks add up: a silent chunk
/// either leaves the trailing silence grown by its length, or, once that
/// reaches `min_silence`, cuts the speech before the silence.
pub proof fn law_silence_accumulates(s: SegmenterState, quiet: Seq<i16>)
    requires
        segmenter_wf(s),
        s.active,
        quiet.len() > 0,
    ensures
        ({
            let (u, o) = accept_step(s, quiet, true);
            let total = s.trailing + quiet.len();
            &&& total < s.min_silence ==> o.is_none() && u.active && u.trailing == total && u.buffer
                == s.buffer + quiet
            &&& total >= s.min_silence ==> !u.active && (o matches Some(sp) ==> sp.samples
                == s.buffer.take(s.buffer.len() - s.trailing) && sp.end == s.timeline - s.trailing)
        }),
{
    assert((s.buffer + quiet).take(s.buffer.len() - s.trailing) =~= s.buffer.take(
        s.buffer.len() - s.trailing,
    ));
}

/// Silence right after speech cuts the speech exactly when the silence alone
/// reaches `min_silence` samples; the stretch then handed out (when long
/// enough) is everything collected up to and including that speech.
pub proof fn law_silence_after_speech(s: SegmenterState, speech: Seq<i16>, quiet: Seq<i16>)
    requires
        segmenter_wf(s),
        s.min_silence > 0,
        speech.len() > 0,
        quiet.len() > 0,
    ensures
        ({
            let (t, _) = accept_step(s, speech, false);
            let (u, o) = accept_step(t, quiet, true);
            let collected = t.buffer;
            &&& quiet.len() < s.min_silence ==> o.is_none() && u.active && u.trailing == quiet.len()
            &&& quiet.len() >= s.min_silence ==> !u.active && (o is Some <==> collected.len()
                >= s.min_segment) && (o matches Some(sp) ==> sp.samples == collected && sp.start
                == t.start && sp.end == t.timeline)
        }),
{
    let (t, _) = accept_step(s, speech, false);
    let (u, o) = accept_step(t, quiet, true);
    assert((t.buffer + quiet).take(t.buffer.len() as int) =~= t.buffer);
}

/// Whatever stream of chunks a segmenter takes, the stretches of speech that it
/// hands out come in time order and do not overlap; each holds at least
/// `min_segment` samples and covers exactly its samples on the timeline.
pub proof fn law_spans_in_order(s: SegmenterState, chunks: Seq<(Seq<i16>, bool)>)
    requires
        segmenter_wf(s),
    ensures
        ({
            let (t, spans) = run_chunks(s, chunks);
            &&& segmenter_wf(t)
            &&& forall|i: int, j: int|
                0 <= i < j < spans.len() ==> #[trigger] spans[i].end <= #[trigger] spans[j].start
            &&& forall|i: int|
                0 <= i < spans.len() ==> {
                    &&& (#[trigger] spans[i]).samples.len() >= s.min_segment
                    &&& spans[i].end == spans[i].start + spans[i].samples.len()
                    &&& open_from(s) <= spans[i].start
                    &&& spans[i].end <= open_from(t)
                }
        }),
    decreases chunks.len(),
{
    if chunks.len() > 0 {
        law_spans_in_order(s, chunks.drop_last());
        let (t, spans) = run_chunks(s, chunks.drop_last());
        law_accept_step(t, chunks.last().0, chunks.last().1);
        run_keeps_counts(s, chunks.drop_last());
    }
}

proof fn run_keeps_counts(s: SegmenterState, chunks: Seq<(Seq<i16>, bool)>)
    requires
        segmenter_wf(s),
    ensures
        run_chunks(s, chunks).0.min_segment == s.min_segment,
        run_chunks(s, chunks).0.min_silence == s.min_silence,
        open_from(s) <= open_from(run_chunks(s, chunks).0),
        segmenter_wf(run_chunks(s, chunks).0),
    decreases chunks.len(),
{
    if chunks.len() > 0 {
        run_keeps_counts(s, chunks.drop_last());
        let t = run_chunks(s, chunks.drop_last()).0;
        law_accept_step(t, chunks.last().0, chunks.last().1);
    }
}

/// An idle segmenter fed only silent chunks hands out nothing and stays idle.
pub proof fn law_silence_yields_nothing(s: SegmenterState, chunks: Seq<(Seq<i16>, bool)>)
    requires
        segmenter_wf(s),
        !s.active,
        forall|k: int| 0 <= k < chunks.len() ==> (#[trigger] chunks[k]).1,
    ensures
        run_chunks(s, chunks).1.len() == 0,
        !run_chunks(s, chunks).0.active,
    decreases chunks.len(),
{
    if chunks.len() > 0 {
        assert forall|k: int| 0 <= k < chunks.drop_last().len() implies (
        #[trigger] chunks.drop_last()[k]).1 by {
            assert(chunks.drop_last()[k] == chunks[k]);
        }
        law_silence_yields_nothing(s, chunks.drop_last());
        assert(chunks[chunks.len() - 1].1);
    }
}

/// The speech handed out at the end of a stream has the same shape as that
/// handed out along the way.
pub proof fn law_finish_step(s: SegmenterState)
    requires
        segmenter_wf(s),
    ensures
        finish_step(s) matches Some(sp) ==> {
            &&& sp.samples.len() >= s.min_segment
            &&& sp.end == sp.start + sp.samples.len()
            &&& open_from(s) <= sp.start
            &&& sp.end <= s.timeline
        },
{
}

/// A completed stretch of speech. `start` and `end` count samples from the
/// beginning of the stream.
#[derive(Debug)]
pub struct SpeechSpan {
    pub samples: Vec<i16>,
    pub start: u64,
    pub end: u64,
}

impl View for SpeechSpan {
    type V = SpanView;

    open spec fn view(&self) -> SpanView {
        SpanView { samples: self.samples@, start: self.start as nat, end: self.end as nat }
    }
}

/// The view of an optional span.
pub open spec fn opt_span(o: Option<SpeechSpan>) -> Option<SpanView> {
    match o {
        Some(sp) => Some(sp@),
        None => None,
    }
}

/// Cuts the audio of a recording, chunk by chunk, into stretches of speech
/// separated by silence, the unit that Whisper transcribes.
pub struct WhisperSegmenter {
    min_silence: usize,
    min_segment: usize,
    timeline: u64,
    active: bool,
    active_start: u64,
    buffer: Vec<i16>,
    trailing: usize,
}

impl View for WhisperSegmenter {
    type V = SegmenterState;

    closed spec fn view(&self) -> SegmenterState {
        SegmenterState {
            min_silence: self.min_silence as nat,
            min_segment: self.min_segment as nat,
            timeline: self.timeline as nat,
            active: self.active,
            start: self.active_start as nat,
            buffer: self.buffer@,
            trailing: self.trailing as nat,
        }
    }
}

impl WhisperSegmenter {
    /// An idle segmenter at the start of a stream. Speech ends after
    /// `min_silence_samples` samples of silence and is kept when it has at
    /// least `min_segment_samples` samples.
    pub fn new(min_silence_samples: usize, min_segment_samples: usize) -> (out: WhisperSegmenter)
        ensures
            out@ == (SegmenterState {
                min_silence: min_silence_samples as nat,
                min_segment: min_segment_samples as nat,
                timeline: 0,
                active: false,
                start: 0,
                buffer: Seq::empty(),
                trailing: 0,
            }),
            segmenter_wf(out@),
    {
        WhisperSegmenter {
            min_silence: min_silence_samples,
            min_segment: min_segment_samples,
            timeline: 0,
            active: false,
            active_start: 0,
            buffer: Vec::new(),
            trailing: 0,
        }
    }

    /// Takes the next chunk of mono samples, `silent` telling whether its
    /// energy is under the silence threshold, and gives the speech that it
    /// completes, if any.
    pub fn accept_chunk(&mut self, chunk: &[i16], silent: bool) -> (out: Option<SpeechSpan>)
        requires
            segmenter_wf(old(self)@),
            old(self)@.timeline + chunk@.len() <= u64::MAX,
        ensures
            final(self)@ == accept_step(old(self)@, chunk@, silent).0,
            opt_span(out) == accept_step(old(self)@, chunk@, silent).1,
            segmenter_wf(final(self)@),
    {
        let n = chunk.len();
        if n == 0 {
            return None;
        }
        if !self.active {
            if silent {
                self.timeline = self.timeline + n as u64;
                return None;
            }
            self.active = true;
            self.active_start = self.timeline;
            self.buffer = Vec::new();
            self.trailing = 0;
        }
        let mut buf: Vec<i16> = Vec::new();
        std::mem::swap(&mut buf, &mut self.buffer);
        let ghost before = buf@;
        let mut k: usize = 0;
        while k < n
            invariant
                n == chunk@.len(),
                k <= n,
                buf@ == before + chunk@.take(k as int),
            decreases n - k,
        {
            buf.push(chunk[k]);
            k += 1;
            assert(chunk@.take(k as int) =~= chunk@.take(k - 1).push(chunk@[k - 1]));
        }
        assert(chunk@.take(n as int) =~= chunk@);
        let blen = buf.len();
        assert(self.trailing + n <= blen);
        if silent {
            self.trailing = self.trailing + n;
        } else {
            self.trailing = 0;
        }
        self.timeline = self.timeline + n as u64;
        if self.trailing >= self.min_silence {
            let speech = buf.len() - self.trailing;
            let end = self.timeline - self.trailing as u64;
            let out = if speech >= self.min_segment {
                buf.truncate(speech);
                Some(SpeechSpan { samples: buf, start: self.active_start, end: end })
            } else {
                None
            };
            self.active = false;
            self.trailing = 0;
            out
        } else {
            self.buffer = buf;
            None
        }
    }

    /// The speech still collected when the stream ends, if it is long enough.
    pub fn finish(&self) -> (out: Option<SpeechSpan>)
        requires
            segmenter_wf(self@),
        ensures
            opt_span(out) == finish_step(self@),
    {
        if self.active && self.buffer.len() >= self.min_segment {
            let speech = self.buffer.len() - self.trailing;
            if speech >= self.min_segment {
                let mut samples: Vec<i16> = Vec::new();
                let mut k: usize = 0;
                while k < speech
                    invariant
                        speech <= self.buffer@.len(),
                        k <= speech,
                        samples@ == self.buffer@.take(k as int),
                    decreases speech - k,
                {
                    samples.push(self.buffer[k]);
                    k += 1;
                    assert(self.buffer@.take(k as int) =~= self.buffer@.take(k - 1).push(
                        self.buffer@[k - 1],
                    ));
                }
                return Some(
                    SpeechSpan {
                        samples: samples,
                        start: self.active_start,
                        end: self.timeline - self.trailing as u64,
                    },
                );
            }
        }
        None
    }
}

// ---------------------------------------------------------------------------
// A mono 16-bit WAV file
// ---------------------------------------------------------------------------
/// The two little-endian bytes of a number below 2^16.
pub open spec fn le16(x: nat) -> Seq<u8> {
    seq![(x % 256) as u8, ((x / 256) % 256) as u8]
}

/// The four little-endian bytes of a number below 2^32.
pub open spec fn le32(x: nat) -> Seq<u8> {
    seq![
        (x % 256) as u8,
        ((x / 256) % 256) as u8,
        ((x / 65536) % 256) as u8,
        ((x / 16777216) % 256) as u8,
    ]
}

/// The two's complement bits of a signed 16-bit sample.
pub open spec fn sample_bits(x: i16) -> nat {
    if x < 0 {
        (x + 65536) as nat
    } else {
        x as nat
    }
}

/// The samples as 16-bit little-endian PCM.
pub open spec fn pcm_bytes(samples: Seq<i16>) -> Seq<u8>
    decreases samples.len(),
{
    if samples.len() == 0 {
        Seq::empty()
    } else {
        pcm_bytes(samples.drop_last()) + le16(sample_bits(samples.last()))
    }
}

/// The ASCII bytes "RIFF", "WAVE", "fmt " and "data".
pub open spec fn tag_riff() -> Seq<u8> {
    seq![82u8, 73u8, 70u8, 70u8]
}

pub open spec fn tag_wave() -> Seq<u8> {
    seq![87u8, 65u8, 86u8, 69u8]
}

pub open spec fn tag_fmt() -> Seq<u8> {
    seq![102u8, 109u8, 116u8, 32u8]
}

pub open spec fn tag_data() -> Seq<u8> {
    seq![100u8, 97u8, 116u8, 97u8]
}

/// The 44-byte header of a mono, 16-bit PCM WAV file of `count` samples at
/// `rate` samples per second.
pub open spec fn wav_header(count: nat, rate: nat) -> Seq<u8> {
    tag_riff() + le32(36 + 2 * count) + tag_wave() + tag_fmt() + le32(16) + le16(1) + le16(1)
        + le32(rate) + le32(2 * rate) + le16(2) + le16(16) + tag_data() + le32(2 * count)
}

/// A WAV file of `count` samples has the 44-byte header and two bytes per sample.
pub proof fn law_wav_length(samples: Seq<i16>, rate: nat)
    ensures
        wav_header(samples.len(), rate).len() == 44,
        pcm_bytes(samples).len() == 2 * samples.len(),
    decreases samples.len(),
{
    if samples.len() > 0 {
        law_wav_length(samples.drop_last(), rate);
    }
}

fn push_le16(out: &mut Vec<u8>, x: u32)
    requires
        x < 65536,
    ensures
        final(out)@ == old(out)@ + le16(x as nat),
{
    out.push((x % 256) as u8);
    out.push((x / 256 % 256) as u8);
    assert(final(out)@ =~= old(out)@ + le16(x as nat));
}

fn push_le32(out: &mut Vec<u8>, x: u32)
    ensures
        final(out)@ == old(out)@ + le32(x as nat),
{
    out.push((x % 256) as u8);
    out.push((x / 256 % 256) as u8);
    out.push((x / 65536 % 256) as u8);
    out.push((x / 16777216 % 256) as u8);
    assert(final(out)@ =~= old(out)@ + le32(x as nat));
}

fn push_tag(out: &mut Vec<u8>, a: u8, b: u8, c: u8, d: u8)
    ensures
        final(out)@ == old(out)@ + seq![a, b, c, d],
{
    out.push(a);
    out.push(b);
    out.push(c);
    out.push(d);
    assert(final(out)@ =~= old(out)@ + seq![a, b, c, d]);
}

/// The bytes of a mono, 16-bit PCM WAV file holding `samples` at
/// `sample_rate` samples per second: the header, then each sample in
/// little-endian order.
pub fn wav_mono_i16(samples: &[i16], sample_rate: u32) -> (out: Vec<u8>)
    requires
        36 + 2 * samples@.len() <= u32::MAX,
        2 * sample_rate <= u32::MAX,
    ensures
        out@ == wav_header(samples@.len(), sample_rate as nat) + pcm_bytes(samples@),
{
    let count = samples.len() as u32;
    let data_len: u32 = count * 2;
    let mut out: Vec<u8> = Vec::new();
    push_tag(&mut out, 82, 73, 70, 70);
    push_le32(&mut out, 36 + data_len);
    push_tag(&mut out, 87, 65, 86, 69);
    push_tag(&mut out, 102, 109, 116, 32);
    push_le32(&mut out, 16);
    push_le16(&mut out, 1);
    push_le16(&mut out, 1);
    push_le32(&mut out, sample_rate);
    push_le32(&mut out, sample_rate * 2);
    push_le16(&mut out, 2);
    push_le16(&mut out, 16);
    push_tag(&mut out, 100, 97, 116, 97);
    push_le32(&mut out, data_len);
    let ghost header = out@;
    assert(header =~= wav_header(samples@.len(), sample_rate as nat));
    let mut i: usize = 0;
    while i < samples.len()
        invariant
            i <= samples@.len(),
            out@ == header + pcm_bytes(samples@.take(i as int)),
        decreases samples.len() - i,
    {
        let x = samples[i];
        let bits: u32 = if x < 0 {
            (x as i32 + 65536) as u32
        } else {
            x as u32
        };
        push_le16(&mut out, bits);
        proof {
            assert(samples@.take(i + 1).drop_last() =~= samples@.take(i as int));
            assert(out@ =~= header + pcm_bytes(samples@.take(i + 1)));
        }
        i += 1;
    }
    assert(samples@.take(samples@.len() as int) =~= samples@);
    out
}

// ---------------------------------------------------------------------------
// Running Whisper
// ---------------------------------------------------------------------------
/// The arguments that make Whisper transcribe `wav_path` with the model at
/// `model_path` into `out_prefix` plus ".txt"; a language is passed, trimmed,
/// only where it is not blank.
pub open spec fn whisper_arguments(
    model_path: Seq<char>,
    wav_path: Seq<char>,
    out_prefix: Seq<char>,
    language: Option<Seq<char>>,
) -> Seq<Seq<char>> {
    let base = seq!["-ng"@, "-m"@, model_path, "-f"@, wav_path, "-otxt"@, "-of"@, out_prefix];
    match language {
        Some(l) => if trim(l).len() > 0 {
            base + seq!["-l"@, trim(l)]
        } else {
            base
        },
        None => base,
    }
}

/// The view of an optional string slice.
pub open spec fn opt_str(o: Option<&str>) -> Option<Seq<char>> {
    match o {
        Some(s) => Some(s@),
        None => None,
    }
}

/// The command line arguments of one Whisper run.
pub fn whisper_args(model_path: &str, wav_path: &str, out_prefix: &str, language: Option<&str>) -> (out: Vec<String>)
    ensures
        out@.map_values(|a: String| a@) == whisper_arguments(
            model_path@,
            wav_path@,
            out_prefix@,
            opt_str(language),
        ),
{
    let mut out: Vec<String> = Vec::new();
    out.push(string_lit("-ng"));
    out.push(string_lit("-m"));
    out.push(string_lit(model_path));
    out.push(string_lit("-f"));
    out.push(string_lit(wav_path));
    out.push(string_lit("-otxt"));
    out.push(string_lit("-of"));
    out.push(string_lit(out_prefix));
    let ghost base = out@.map_values(|a: String| a@);
    assert(base =~= seq!["-ng"@, "-m"@, model_path@, "-f"@, wav_path@, "-otxt"@, "-of"@, out_prefix@]);
    if let Some(lang) = language {
        let cs = chars_of(lang);
        let t = trim_chars(&cs);
        if t.len() > 0 {
            out.push(string_lit("-l"));
            out.push(string_of(&t));
            assert(out@.map_values(|a: String| a@) =~= base + seq!["-l"@, trim(lang@)]);
        }
    }
    out
}

/// The program that runs Whisper: the configured command, trimmed.
pub fn whisper_program(command: &str) -> (out: String)
    ensures
        out@ == trim(command@),
{
    crate::text::trim_str(command)
}

/// Checks the audio sources of a recording before it starts: at least one
/// must be enabled, and capturing system audio alone needs a platform that
/// can capture it.
pub fn check_audio_sources(enable_input: bool, enable_output: bool, system_capture_supported: bool) -> (out: Result<(), String>)
    ensures
        match out {
            Ok(()) => (enable_input || enable_output) && (enable_input || system_capture_supported),
            Err(e) => if !enable_input && !enable_output {
                e@ == "At least one audio source must be enabled"@
            } else {
                !enable_input && !system_capture_supported
                    && e@ == "System audio capture is only supported on macOS. Enable microphone input on this platform."@
            },
        },
{
    if !enable_input && !enable_output {
        return Err(string_lit("At least one audio source must be enabled"));
    }
    if !enable_input && !system_capture_supported {
        return Err(
            string_lit(
                "System audio capture is only supported on macOS. Enable microphone input on this platform.",
            ),
        );
    }
    Ok(())
}

} // verus!
