//! The frame layout of a timeline layer that holds keyframes only at marked
//! frames: a keyframe at each marked frame, and one empty frame spanning
//! each run of unmarked frames before, between and after them.
use vstd::prelude::*;

verus! {

/// One frame of a layer: an empty frame of `duration` frames from `index`,
/// or a keyframe at `index`.
#[derive(Debug, Clone, Copy, PartialEq, Eq, Structural)]
pub enum LayerSpan {
    Gap { index: usize, duration: usize },
    Key { index: usize },
}

/// The layer's frames from frame `i` on, the current run of unmarked frames
/// having started at `next`.
pub open spec fn spans_from(m: Seq<bool>, i: int, next: int) -> Seq<LayerSpan>
    decreases m.len() - i,
{
    if i >= m.len() {
        if next < m.len() {
            seq![LayerSpan::Gap { index: next as usize, duration: (m.len() - next) as usize }]
        } else {
            Seq::empty()
        }
    } else if m[i] {
        let gap = if next < i {
            seq![LayerSpan::Gap { index: next as usize, duration: (i - next) as usize }]
        } else {
            Seq::empty()
        };
        gap.push(LayerSpan::Key { index: i as usize }) + spans_from(m, i + 1, i + 1)
    } else {
        spans_from(m, i + 1, next)
    }
}

/// The layer's frames for the marks `m` (one per frame of the timeline).
pub open spec fn layer_spans_of(m: Seq<bool>) -> Seq<LayerSpan> {
    spans_from(m, 0, 0)
}

proof fn lemma_spans_step(m: Seq<bool>, i: int, next: int)
    requires
        0 <= next <= i < m.len(),
        !m[i],
    ensures
        spans_from(m, i, next) == spans_from(m, i + 1, next),
{
}

/// The frames of a layer whose keyframes stand at the marked frames: in
/// order, an empty frame over each run of unmarked frames and a keyframe
/// at each marked one.
pub fn layer_spans(marked: &Vec<bool>) -> (r: Vec<LayerSpan>)
    ensures
        r@ == layer_spans_of(marked@),
{
    let len = marked.len();
    let mut r: Vec<LayerSpan> = Vec::new();
    let mut next: usize = 0;
    let mut i: usize = 0;
    while i < len
        invariant
            len == marked@.len(),
            next <= i <= len,
            r@ + spans_from(marked@, i as int, next as int) == layer_spans_of(marked@),
        decreases len - i,
    {
        if marked[i] {
            let ghost before = r@;
            let ghost rest = spans_from(marked@, i + 1, i + 1);
            if next < i {
                r.push(LayerSpan::Gap { index: next, duration: i - next });
            }
            r.push(LayerSpan::Key { index: i });
            proof {
                let gap = if next < i {
                    seq![LayerSpan::Gap { index: next, duration: (i - next) as usize }]
                } else {
                    Seq::<LayerSpan>::empty()
                };
                assert(r@ =~= before + gap.push(LayerSpan::Key { index: i }));
                assert(spans_from(marked@, i as int, next as int) == gap.push(LayerSpan::Key { index: i })
                    + rest);
                assert(r@ + rest =~= before + (gap.push(LayerSpan::Key { index: i }) + rest));
            }
            next = i + 1;
        } else {
            proof { lemma_spans_step(marked@, i as int, next as int); }
        }
        i = i + 1;
    }
    if next < len {
        let ghost before = r@;
        r.push(LayerSpan::Gap { index: next, duration: len - next });
        assert(r@ =~= before + spans_from(marked@, i as int, next as int));
    } else {
        assert(r@ =~= r@ + spans_from(marked@, i as int, next as int));
    }
    r
}

} // verus!
