//! Speaker labels from clustered speaker embeddings: when the embeddings can
//! be clustered, how many clusters are asked for, which label each segment
//! gets, and how the labels reach the transcript.
use vstd::prelude::*;

use crate::model::{SegmentView, TranscriptSegment};
use crate::state::{speaker_changed, AppState, StateView};
use crate::text::{decimal, decimal_chars, extend_chars, chars_of, string_of};

verus! {

/// What clustering a list of embeddings takes: how many embeddings, their
/// common length, and how many clusters are asked for.
#[derive(Clone, Copy, Debug, PartialEq, Eq, Structural)]
pub struct ClusterPlan {
    pub count: usize,
    pub dimension: usize,
    pub clusters: usize,
}

/// The number of clusters asked for: the number of embeddings, clamped to 2..=6.
pub open spec fn cluster_count(count: nat) -> nat {
    if count < 2 {
        2
    } else if count > 6 {
        6
    } else {
        count
    }
}

/// Whether embeddings can be clustered: at least two of them, the first not
/// empty, and all of the first's length.
pub open spec fn clusterable(e: Seq<(Seq<char>, Seq<u32>)>) -> bool {
    &&& e.len() >= 2
    &&& e[0].1.len() > 0
    &&& forall|k: int| 0 <= k < e.len() ==> (#[trigger] e[k]).1.len() == e[0].1.len()
}

/// The identifiers and vectors of a list of embeddings.
pub open spec fn embeddings_view(e: Seq<(String, Vec<u32>)>) -> Seq<(Seq<char>, Seq<u32>)> {
    e.map_values(|p: (String, Vec<u32>)| (p.0@, p.1@))
}

/// Decides whether speaker embeddings can be clustered, and how: nothing when
/// there are fewer than two, when the first is empty, or when their lengths
/// differ.
pub fn plan_clustering(embeddings: &Vec<(String, Vec<u32>)>) -> (out: Option<ClusterPlan>)
    ensures
        out.is_some() == clusterable(embeddings_view(embeddings@)),
        out matches Some(p) ==> {
            &&& p.count == embeddings@.len()
            &&& p.dimension == embeddings@[0].1@.len()
            &&& p.clusters == cluster_count(embeddings@.len())
        },
{
    let ghost ev = embeddings_view(embeddings@);
    let count = embeddings.len();
    if count < 2 {
        return None;
    }
    let dimension = embeddings[0].1.len();
    if dimension == 0 {
        return None;
    }
    let mut k: usize = 0;
    while k < count
        invariant
            count == embeddings@.len(),
            ev == embeddings_view(embeddings@),
            dimension == embeddings@[0].1@.len(),
            k <= count,
            forall|j: int| 0 <= j < k ==> (#[trigger] ev[j]).1.len() == dimension,
        decreases count - k,
    {
        if embeddings[k].1.len() != dimension {
            assert(ev[k as int].1.len() != ev[0].1.len());
            return None;
        }
        k += 1;
    }
    let clusters = if count > 6 {
        6
    } else {
        count
    };
    Some(ClusterPlan { count, dimension, clusters })
}

/// The vectors of a list of embeddings, one after the other.
pub open spec fn flattened(e: Seq<Seq<u32>>) -> Seq<u32>
    decreases e.len(),
{
    if e.len() == 0 {
        Seq::empty()
    } else {
        flattened(e.drop_last()) + e.last()
    }
}

/// The vectors of a list of embeddings.
pub open spec fn vectors(e: Seq<(String, Vec<u32>)>) -> Seq<Seq<u32>> {
    e.map_values(|p: (String, Vec<u32>)| p.1@)
}

/// The embeddings' vectors laid end to end, row after row, as a clustering
/// library reads a matrix with one embedding per row.
pub fn flatten_embeddings(embeddings: &Vec<(String, Vec<u32>)>) -> (out: Vec<u32>)
    ensures
        out@ == flattened(vectors(embeddings@)),
{
    let mut out: Vec<u32> = Vec::new();
    let mut i: usize = 0;
    while i < embeddings.len()
        invariant
            i <= embeddings@.len(),
            out@ == flattened(vectors(embeddings@).take(i as int)),
        decreases embeddings.len() - i,
    {
        let row = &embeddings[i].1;
        let ghost before = out@;
        let mut j: usize = 0;
        while j < row.len()
            invariant
                j <= row@.len(),
                out@ == before + row@.take(j as int),
            decreases row.len() - j,
        {
            out.push(row[j]);
            j += 1;
            assert(row@.take(j as int) =~= row@.take(j - 1).push(row@[j - 1]));
        }
        proof {
            assert(row@.take(row@.len() as int) =~= row@);
            assert(vectors(embeddings@).take(i + 1).drop_last() =~= vectors(embeddings@).take(i as int));
        }
        i += 1;
    }
    assert(vectors(embeddings@).take(embeddings@.len() as int) =~= vectors(embeddings@));
    out
}

/// The label of the speaker with the given zero-based cluster index.
pub open spec fn speaker_label_text(index: nat) -> Seq<char> {
    "Speaker "@ + decimal(index + 1)
}

/// `Speaker n`, with n the one-based number of a cluster.
pub fn speaker_label(index: usize) -> (out: String)
    requires
        index < usize::MAX,
    ensures
        out@ == speaker_label_text(index as nat),
{
    let mut cs = chars_of("Speaker ");
    let digits = decimal_chars((index + 1) as u128);
    extend_chars(&mut cs, &digits);
    string_of(&cs)
}

/// The cluster index that segment `k` gets: the predicted label (zero when
/// there is none), capped at the last cluster.
pub open spec fn cluster_of(labels: Seq<usize>, k: int, clusters: nat) -> nat {
    let predicted: nat = if k < labels.len() {
        labels[k] as nat
    } else {
        0
    };
    let last: nat = if clusters == 0 {
        0
    } else {
        (clusters - 1) as nat
    };
    if predicted < last {
        predicted
    } else {
        last
    }
}

/// Pairs each embedding's segment with the label of its predicted cluster.
/// Every label names one of the `clusters` speakers.
pub fn speaker_assignments(embeddings: &Vec<(String, Vec<u32>)>, labels: &[usize], clusters: usize) -> (out: Vec<(String, String)>)
    requires
        clusters < usize::MAX,
    ensures
        out@.len() == embeddings@.len(),
        forall|k: int|
            0 <= k < out@.len() ==> {
                &&& (#[trigger] out@[k]).0@ == embeddings@[k].0@
                &&& out@[k].1@ == speaker_label_text(cluster_of(labels@, k, clusters as nat))
            },
        forall|k: int|
            0 <= k < out@.len() ==> cluster_of(labels@, k, clusters as nat) < if clusters == 0 {
                1
            } else {
                clusters as nat
            },
{
    let mut out: Vec<(String, String)> = Vec::new();
    let last: usize = if clusters == 0 {
        0
    } else {
        clusters - 1
    };
    let mut k: usize = 0;
    while k < embeddings.len()
        invariant
            k <= embeddings@.len(),
            clusters < usize::MAX,
            last as nat == (if clusters == 0 {
                0
            } else {
                (clusters - 1) as nat
            }),
            out@.len() == k,
            forall|j: int|
                0 <= j < k ==> {
                    &&& (#[trigger] out@[j]).0@ == embeddings@[j].0@
                    &&& out@[j].1@ == speaker_label_text(cluster_of(labels@, j, clusters as nat))
                },
        decreases embeddings.len() - k,
    {
        let predicted: usize = if k < labels.len() {
            labels[k]
        } else {
            0
        };
        let index = if predicted < last {
            predicted
        } else {
            last
        };
        let id = crate::model::copy_str(&embeddings[k].0);
        let label = speaker_label(index);
        out.push((id, label));
        k += 1;
    }
    out
}

/// A state after each assignment in turn sets a segment's speaker where it
/// differs, and the segments that changed, in order.
pub open spec fn apply_labels<R>(v: StateView<R>, a: Seq<(Seq<char>, Seq<char>)>) -> (StateView<R>, Seq<SegmentView>)
    decreases a.len(),
{
    if a.len() == 0 {
        (v, Seq::empty())
    } else {
        let (w, changed) = apply_labels(v, a.drop_last());
        let (u, did) = speaker_changed(w, a.last().0, a.last().1);
        (
            u,
            if did {
                changed.push(changed_segment(w, a.last().0, a.last().1))
            } else {
                changed
            },
        )
    }
}

/// The segment that a speaker change produces.
pub open spec fn changed_segment<R>(v: StateView<R>, id: Seq<char>, speaker: Seq<char>) -> SegmentView {
    match v.session {
        Some(s) => match crate::state::find_index(s.records, id) {
            Some(i) => crate::state::with_speaker(s.records[i].segment, speaker),
            None => arbitrary(),
        },
        None => arbitrary(),
    }
}

/// The views of a list of speaker assignments.
pub open spec fn assignments_view(a: Seq<(String, String)>) -> Seq<(Seq<char>, Seq<char>)> {
    a.map_values(|p: (String, String)| (p.0@, p.1@))
}

/// Sets the speakers that clustering assigned, and gives the segments whose
/// speaker changed, in the order of the assignments.
pub fn apply_speaker_labels<R>(state: &mut AppState<R>, assignments: &Vec<(String, String)>) -> (out: Vec<TranscriptSegment>)
    ensures
        final(state)@ == apply_labels(old(state)@, assignments_view(assignments@)).0,
        out@.map_values(|s: TranscriptSegment| s@) == apply_labels(old(state)@, assignments_view(assignments@)).1,
{
    let ghost a = assignments_view(assignments@);
    let mut out: Vec<TranscriptSegment> = Vec::new();
    let mut k: usize = 0;
    while k < assignments.len()
        invariant
            k <= assignments@.len(),
            a == assignments_view(assignments@),
            state@ == apply_labels(old(state)@, a.take(k as int)).0,
            out@.map_values(|s: TranscriptSegment| s@) == apply_labels(old(state)@, a.take(k as int)).1,
        decreases assignments.len() - k,
    {
        proof {
            assert(a.take(k + 1).drop_last() =~= a.take(k as int));
        }
        let ghost before = out@.map_values(|s: TranscriptSegment| s@);
        let ghost w = state@;
        let changed = state.assign_speaker_if_changed(assignments[k].0.as_str(), assignments[k].1.as_str());
        match changed {
            Some(seg) => {
                let ghost sv = seg@;
                out.push(seg);
                assert(out@.map_values(|s: TranscriptSegment| s@) =~= before.push(sv));
            },
            None => {},
        }
        k += 1;
    }
    assert(a.take(assignments@.len() as int) =~= a);
    out
}

} // verus!
