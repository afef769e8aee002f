//! Candidate detections: a box plus a confidence value, and the minimum-size
//! filter that decides which detections qualify for tracking at all.
//!
//! Confidence is a fixed-point fraction of [`CONF_SCALE`]: `conf` counts
//! hundredths of a percent, so `9312` stands for 93.12%. How a confidence is
//! derived from a raw detection is external policy; this crate only carries
//! the value through and prints it.

use vstd::prelude::*;

use crate::geometry::BBox;

verus! {

/// Full confidence (100.00%) in fixed-point hundredths of a percent.
pub const CONF_SCALE: u32 = 10_000;

/// Detections whose box is not strictly wider than this are never tracked.
pub const MIN_TRACK_WIDTH: i64 = 60;

/// Detections whose box is not strictly taller than this are never tracked.
pub const MIN_TRACK_HEIGHT: i64 = 120;

/// A candidate box with its confidence, as handed over by the detector.
#[derive(Clone, Copy, PartialEq, Eq, Structural, Debug)]
pub struct Detection {
    pub bbox: BBox,
    /// Confidence in [0, 1], scaled by [`CONF_SCALE`].
    pub conf: u32,
}

impl Detection {
    pub open spec fn wf(self) -> bool {
        &&& self.bbox.wf()
        &&& self.conf <= CONF_SCALE
    }

    /// The minimum-size filter: only detections strictly wider than
    /// [`MIN_TRACK_WIDTH`] and strictly taller than [`MIN_TRACK_HEIGHT`]
    /// are tracked; all others are ignored entirely.
    pub open spec fn spec_qualifies(self) -> bool {
        self.bbox.w > MIN_TRACK_WIDTH && self.bbox.h > MIN_TRACK_HEIGHT
    }

    /// Decides the minimum-size filter.
    pub fn qualifies(&self) -> (r: bool)
        ensures
            r == self.spec_qualifies(),
    {
        self.bbox.w > MIN_TRACK_WIDTH && self.bbox.h > MIN_TRACK_HEIGHT
    }
}

/// All detections of a well-formed frame are well-formed.
pub open spec fn all_wf(dets: Seq<Detection>) -> bool {
    forall|i: int| 0 <= i < dets.len() ==> (#[trigger] dets[i]).wf()
}

/// The minimum-size filter as a predicate on detections.
pub open spec fn qualifies_pred() -> spec_fn(Detection) -> bool {
    |d: Detection| d.spec_qualifies()
}

/// The subsequence of detections that pass the minimum-size filter, in order.
pub fn qualifying(dets: &Vec<Detection>) -> (r: Vec<Detection>)
    ensures
        r@ == dets@.filter(qualifies_pred()),
        all_wf(dets@) ==> all_wf(r@),
{
    let mut r: Vec<Detection> = Vec::new();
    let n = dets.len();
    for i in 0..n
        invariant
            n == dets@.len(),
            r@ == dets@.take(i as int).filter(qualifies_pred()),
            all_wf(dets@) ==> all_wf(r@),
    {
        let d = dets[i];
        proof {
            reveal(Seq::filter);
            assert(dets@.take(i + 1).drop_last() =~= dets@.take(i as int));
            assert(dets@.take(i + 1).last() == d);
        }
        if d.qualifies() {
            r.push(d);
        }
    }
    proof {
        assert(dets@.take(n as int) =~= dets@);
    }
    r
}

} // verus!
