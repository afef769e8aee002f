//! Pairwise suppression of overlapping detections.
//!
//! A detection is dropped exactly when some other detection in the same frame
//! overlaps it with an IoU strictly above the threshold. The rule is pairwise
//! and symmetric — it does not rank by confidence, so two mutually
//! overlapping detections above the threshold are both dropped, and the
//! decision for one detection never depends on whether its peers are
//! themselves kept.

use vstd::prelude::*;

use crate::detection::{all_wf, Detection};
use crate::geometry::{iou_exceeds, spec_inter_area, spec_iou_exceeds, Threshold};

verus! {

/// The detection at index `i` survives suppression: no other detection of the
/// frame exceeds the IoU threshold with it.
pub open spec fn kept(s: Seq<Detection>, t: Threshold, i: int) -> bool {
    forall|j: int|
        0 <= j < s.len() && j != i ==> !spec_iou_exceeds(
            s[i].bbox,
            (#[trigger] s[j]).bbox,
            t,
        )
}

/// The kept detections among the first `n`, in their original order.
pub open spec fn kept_prefix(s: Seq<Detection>, t: Threshold, n: int) -> Seq<Detection>
    decreases n,
{
    if n <= 0 {
        Seq::empty()
    } else {
        let pre = kept_prefix(s, t, n - 1);
        if kept(s, t, n - 1) {
            pre.push(s[n - 1])
        } else {
            pre
        }
    }
}

/// The suppressed frame: the detections not dominated by an overlapping peer.
pub open spec fn spec_suppress(s: Seq<Detection>, t: Threshold) -> Seq<Detection> {
    kept_prefix(s, t, s.len() as int)
}

/// The indices the kept detections came from, in increasing order; this is
/// the backbone of the idempotence proof below.
spec fn kept_indices(s: Seq<Detection>, t: Threshold, n: int) -> Seq<int>
    decreases n,
{
    if n <= 0 {
        Seq::empty()
    } else {
        let pre = kept_indices(s, t, n - 1);
        if kept(s, t, n - 1) {
            pre.push(n - 1)
        } else {
            pre
        }
    }
}

proof fn lemma_kept_indices(s: Seq<Detection>, t: Threshold, n: int)
    requires
        n <= s.len(),
    ensures
        kept_indices(s, t, n).len() == kept_prefix(s, t, n).len(),
        forall|k: int|
            0 <= k < kept_indices(s, t, n).len() ==> {
                let i = #[trigger] kept_indices(s, t, n)[k];
                &&& 0 <= i < n
                &&& kept(s, t, i)
                &&& kept_prefix(s, t, n)[k] == s[i]
            },
        forall|k1: int, k2: int|
            0 <= k1 < k2 < kept_indices(s, t, n).len() ==> kept_indices(s, t, n)[k1]
                < kept_indices(s, t, n)[k2],
    decreases n,
{
    if n > 0 {
        lemma_kept_indices(s, t, n - 1);
    }
}

/// The suppressed frame keeps its original relative order and loses nothing
/// that was kept: every detection kept in `s` appears in the output.
pub proof fn lemma_kept_is_retained(s: Seq<Detection>, t: Threshold, i: int)
    requires
        0 <= i < s.len(),
        kept(s, t, i),
    ensures
        spec_suppress(s, t).contains(s[i]),
{
    lemma_kept_contains(s, t, i, s.len() as int);
}

proof fn lemma_kept_contains(s: Seq<Detection>, t: Threshold, i: int, n: int)
    requires
        0 <= i < n <= s.len(),
        kept(s, t, i),
    ensures
        kept_prefix(s, t, n).contains(s[i]),
    decreases n,
{
    let pre = kept_prefix(s, t, n - 1);
    if i == n - 1 {
        assert(kept_prefix(s, t, n)[pre.len() as int] == s[i]);
    } else {
        lemma_kept_contains(s, t, i, n - 1);
        let k = choose|k: int| 0 <= k < pre.len() && pre[k] == s[i];
        assert(kept_prefix(s, t, n)[k] == s[i]);
    }
}

/// A detection whose box has zero intersection area with every other box of
/// the frame is always retained, whatever the threshold: its IoU with every
/// peer is zero, and a threshold in (0, 1) is never exceeded by zero.
pub proof fn lemma_zero_overlap_retained(s: Seq<Detection>, t: Threshold, i: int)
    requires
        t.wf(),
        all_wf(s),
        0 <= i < s.len(),
        forall|j: int|
            0 <= j < s.len() && j != i ==> spec_inter_area(s[i].bbox, (#[trigger] s[j]).bbox)
                == 0,
    ensures
        kept(s, t, i),
        spec_suppress(s, t).contains(s[i]),
{
    assert forall|j: int| 0 <= j < s.len() && j != i implies !spec_iou_exceeds(
        s[i].bbox,
        (#[trigger] s[j]).bbox,
        t,
    ) by {
        let a = s[i].bbox;
        let b = s[j].bbox;
        assert(a.spec_area() >= 0) by (nonlinear_arith)
            requires
                a.w >= 0,
                a.h >= 0,
        ;
        assert(b.spec_area() >= 0) by (nonlinear_arith)
            requires
                b.w >= 0,
                b.h >= 0,
        ;
        assert(t.num * (a.spec_area() + b.spec_area()) >= 0) by (nonlinear_arith)
            requires
                t.num > 0,
                a.spec_area() + b.spec_area() >= 0,
        ;
    }
    lemma_kept_is_retained(s, t, i);
}

/// Every detection of a suppressed frame is kept with respect to that frame:
/// the survivors are pairwise below the threshold.
pub proof fn lemma_suppress_all_kept(s: Seq<Detection>, t: Threshold)
    ensures
        forall|k: int|
            0 <= k < spec_suppress(s, t).len() ==> kept(spec_suppress(s, t), t, k),
{
    let out = spec_suppress(s, t);
    let idx = kept_indices(s, t, s.len() as int);
    lemma_kept_indices(s, t, s.len() as int);
    assert forall|k: int| 0 <= k < out.len() implies kept(out, t, k) by {
        assert forall|j: int| 0 <= j < out.len() && j != k implies !spec_iou_exceeds(
            out[k].bbox,
            (#[trigger] out[j]).bbox,
            t,
        ) by {
            let ik = idx[k];
            let ij = idx[j];
            if k < j {
                assert(ik < ij);
            } else {
                assert(ij < ik);
            }
            assert(kept(s, t, ik));
            assert(!spec_iou_exceeds(s[ik].bbox, s[ij].bbox, t));
        }
    }
}

/// A frame whose detections are already pairwise below the threshold passes
/// through suppression unchanged.
pub proof fn lemma_all_kept_fixpoint(s: Seq<Detection>, t: Threshold)
    requires
        forall|k: int| 0 <= k < s.len() ==> kept(s, t, k),
    ensures
        spec_suppress(s, t) == s,
{
    lemma_all_kept_prefix(s, t, s.len() as int);
    assert(spec_suppress(s, t) =~= s);
}

proof fn lemma_all_kept_prefix(s: Seq<Detection>, t: Threshold, n: int)
    requires
        0 <= n <= s.len(),
        forall|k: int| 0 <= k < s.len() ==> kept(s, t, k),
    ensures
        kept_prefix(s, t, n) =~= s.take(n),
    decreases n,
{
    if n > 0 {
        lemma_all_kept_prefix(s, t, n - 1);
        assert(kept(s, t, n - 1));
        assert(kept_prefix(s, t, n) == kept_prefix(s, t, n - 1).push(s[n - 1]));
    }
}

/// Suppression is idempotent: running it again on its own output, with the
/// same threshold, returns that output unchanged. The survivors of one pass
/// are pairwise below the threshold, so a second pass drops none of them.
pub proof fn lemma_suppress_idempotent(s: Seq<Detection>, t: Threshold)
    ensures
        spec_suppress(spec_suppress(s, t), t) == spec_suppress(s, t),
{
    lemma_suppress_all_kept(s, t);
    lemma_all_kept_fixpoint(spec_suppress(s, t), t);
}

/// Suppression keeps at most the detections it was given.
proof fn lemma_suppress_len(s: Seq<Detection>, t: Threshold, n: int)
    requires
        0 <= n <= s.len(),
    ensures
        kept_prefix(s, t, n).len() <= n,
    decreases n,
{
    if n > 0 {
        lemma_suppress_len(s, t, n - 1);
    }
}

/// Every detection of the suppressed frame is one of the frame's detections.
pub proof fn lemma_suppress_wf(s: Seq<Detection>, t: Threshold)
    requires
        all_wf(s),
    ensures
        spec_suppress(s, t).len() <= s.len(),
        all_wf(spec_suppress(s, t)),
{
    lemma_suppress_len(s, t, s.len() as int);
    lemma_kept_indices(s, t, s.len() as int);
    let out = spec_suppress(s, t);
    assert forall|k: int| 0 <= k < out.len() implies (#[trigger] out[k]).wf() by {
        let i = kept_indices(s, t, s.len() as int)[k];
        assert(s[i].wf());
    }
}

/// Drops every detection that some other detection of the frame dominates:
/// the pairwise suppression rule, decided exactly.
pub fn suppress(dets: &Vec<Detection>, t: &Threshold) -> (r: Vec<Detection>)
    requires
        all_wf(dets@),
        t.wf(),
    ensures
        r@ == spec_suppress(dets@, *t),
{
    let n = dets.len();
    let mut r: Vec<Detection> = Vec::new();
    for i in 0..n
        invariant
            n == dets@.len(),
            all_wf(dets@),
            t.wf(),
            r@ == kept_prefix(dets@, *t, i as int),
    {
        let mut dominated = false;
        let mut j: usize = 0;
        while j < n
            invariant
                n == dets@.len(),
                all_wf(dets@),
                t.wf(),
                i < n,
                j <= n,
                dominated == exists|k: int|
                    0 <= k < j && k != i && spec_iou_exceeds(
                        dets@[i as int].bbox,
                        dets@[k].bbox,
                        *t,
                    ),
            decreases n - j,
        {
            if j != i && iou_exceeds(&dets[i].bbox, &dets[j].bbox, t) {
                dominated = true;
            }
            j += 1;
        }
        if !dominated {
            r.push(dets[i]);
        }
    }
    r
}

} // verus!
