//! One frame of the detection-to-event pipeline: suppression, tracking, the
//! change gate, and the publish decision, in that order. The surrounding
//! program only acquires frames, runs the detector, and performs the action
//! this module decides on.

use vstd::prelude::*;

use crate::detection::{all_wf, qualifies_pred, Detection};
use crate::geometry::Threshold;
use crate::report::{decide_publish, spec_report, PublishAction};
use crate::suppress::{lemma_suppress_wf, spec_suppress, suppress};
use crate::tracker::{spec_set_equiv, step_next, step_subjects, SubjectRegistry};

verus! {

/// Processes one frame's raw candidate detections: suppresses overlapping
/// duplicates, matches the survivors that pass the size filter against the
/// registry, replaces the registry, and decides what to publish. Returns the
/// change flag and the action due.
pub fn process_frame(reg: &mut SubjectRegistry, dets: &Vec<Detection>, t: &Threshold) -> (r: (
    bool,
    PublishAction,
))
    requires
        old(reg).wf(),
        all_wf(dets@),
        t.wf(),
        old(reg).next_id + dets@.len() <= u64::MAX,
    ensures
        ({
            let q = spec_suppress(dets@, *t).filter(qualifies_pred());
            &&& final(reg).wf()
            &&& final(reg).subjects@ == step_subjects(
                old(reg).subjects@,
                old(reg).next_id as int,
                q,
            )
            &&& final(reg).next_id == step_next(old(reg).subjects@, old(reg).next_id as int, q)
            &&& r.0 == !spec_set_equiv(final(reg).subjects@, old(reg).subjects@)
            &&& (r.0 && final(reg).subjects@.len() > 0 ==> (r.1 matches
                PublishAction::Publish { payload } && payload@ == spec_report(
                final(reg).subjects@,
            )))
            &&& (r.0 && final(reg).subjects@.len() == 0 ==> r.1 == (
            PublishAction::EmptyNotice))
            &&& (!r.0 ==> r.1 == (PublishAction::Silent))
        }),
{
    let s = suppress(dets, t);
    proof {
        lemma_suppress_wf(dets@, *t);
    }
    let changed = reg.step(&s);
    let action = decide_publish(changed, &reg.subjects);
    (changed, action)
}

} // verus!
