//! Identity tracking across frames, and the change gate.
//!
//! The registry owns the tracked subjects and the identity counter together;
//! one call to [`SubjectRegistry::step`] is the whole critical section of a
//! frame. Matching is deterministic: each qualifying detection, in frame
//! order, claims the first still-unclaimed previous subject (in registry
//! order) whose box overlaps it — first match wins, and a previous identity
//! is claimed by at most one detection per frame. Unmatched detections get
//! fresh identities from the counter. The registry is replaced wholesale each
//! frame; the counter resets to 1 exactly when the registry empties.

use vstd::prelude::*;

use crate::detection::{all_wf, qualifies_pred, qualifying, Detection, CONF_SCALE};
use crate::geometry::{inter_area, spec_inter_area, BBox};

verus! {

/// A subject with a stable identity, the confidence and box of the detection
/// that most recently matched it.
#[derive(Clone, Copy, PartialEq, Eq, Structural, Debug)]
pub struct TrackedSubject {
    /// Stable integer label, at least 1, unique within a registry.
    pub identity: u64,
    /// Confidence of the matching detection, in hundredths of a percent.
    pub conf: u32,
    pub bbox: BBox,
}

impl TrackedSubject {
    pub open spec fn wf(self) -> bool {
        &&& self.identity >= 1
        &&& self.conf <= CONF_SCALE
        &&& self.bbox.wf()
    }
}

/// The relation the change gate compares registries under: two subjects are
/// the same tracked entity iff their identities are equal, their boxes still
/// overlap (positive intersection area), and their confidences are equal. A
/// subject that kept its identity but moved out of overlap with its previous
/// box counts as different, deliberately.
pub open spec fn spec_same_subject(a: TrackedSubject, b: TrackedSubject) -> bool {
    &&& a.identity == b.identity
    &&& spec_inter_area(a.bbox, b.bbox) > 0
    &&& a.conf == b.conf
}

/// Decides [`spec_same_subject`].
pub fn same_subject(a: &TrackedSubject, b: &TrackedSubject) -> (r: bool)
    requires
        a.bbox.wf(),
        b.bbox.wf(),
    ensures
        r == spec_same_subject(*a, *b),
{
    a.identity == b.identity && inter_area(&a.bbox, &b.bbox) > 0 && a.conf == b.conf
}

/// Whether some subject of `v` is the same tracked entity as `x`.
pub open spec fn spec_has_counterpart(x: TrackedSubject, v: Seq<TrackedSubject>) -> bool {
    exists|j: int| 0 <= j < v.len() && spec_same_subject(x, #[trigger] v[j])
}

/// One direction of set equivalence: every subject of `a` has a counterpart
/// in `b` under [`spec_same_subject`].
pub open spec fn spec_covered(a: Seq<TrackedSubject>, b: Seq<TrackedSubject>) -> bool {
    forall|i: int| 0 <= i < a.len() ==> spec_has_counterpart(#[trigger] a[i], b)
}

/// Set equivalence under [`spec_same_subject`]: every subject on either side
/// has a counterpart on the other. Order and multiplicity are irrelevant, and
/// the relation itself is symmetric in its two subjects.
pub open spec fn spec_set_equiv(a: Seq<TrackedSubject>, b: Seq<TrackedSubject>) -> bool {
    spec_covered(a, b) && spec_covered(b, a)
}

/// The same-entity relation is symmetric, because intersection area is.
pub proof fn lemma_same_subject_symm(a: TrackedSubject, b: TrackedSubject)
    ensures
        spec_same_subject(a, b) == spec_same_subject(b, a),
{
    crate::geometry::lemma_iou_symmetric(a.bbox, b.bbox);
}

/// Decides [`spec_has_counterpart`].
fn has_counterpart(x: &TrackedSubject, v: &Vec<TrackedSubject>) -> (r: bool)
    requires
        x.bbox.wf(),
        forall|i: int| 0 <= i < v@.len() ==> (#[trigger] v@[i]).bbox.wf(),
    ensures
        r == spec_has_counterpart(*x, v@),
{
    let n = v.len();
    let mut j: usize = 0;
    while j < n
        invariant
            n == v@.len(),
            j <= n,
            x.bbox.wf(),
            forall|i: int| 0 <= i < v@.len() ==> (#[trigger] v@[i]).bbox.wf(),
            forall|k: int| 0 <= k < j ==> !spec_same_subject(*x, #[trigger] v@[k]),
        decreases n - j,
    {
        if same_subject(x, &v[j]) {
            return true;
        }
        j += 1;
    }
    false
}

/// Decides [`spec_covered`].
fn covered(a: &Vec<TrackedSubject>, b: &Vec<TrackedSubject>) -> (r: bool)
    requires
        forall|i: int| 0 <= i < a@.len() ==> (#[trigger] a@[i]).bbox.wf(),
        forall|i: int| 0 <= i < b@.len() ==> (#[trigger] b@[i]).bbox.wf(),
    ensures
        r == spec_covered(a@, b@),
{
    let na = a.len();
    let mut i: usize = 0;
    while i < na
        invariant
            na == a@.len(),
            i <= na,
            forall|k: int| 0 <= k < a@.len() ==> (#[trigger] a@[k]).bbox.wf(),
            forall|k: int| 0 <= k < b@.len() ==> (#[trigger] b@[k]).bbox.wf(),
            forall|k: int| 0 <= k < i ==> spec_has_counterpart(#[trigger] a@[k], b@),
        decreases na - i,
    {
        if !has_counterpart(&a[i], b) {
            return false;
        }
        i += 1;
    }
    true
}

/// The change gate's comparison: decides [`spec_set_equiv`].
pub fn set_equiv(a: &Vec<TrackedSubject>, b: &Vec<TrackedSubject>) -> (r: bool)
    requires
        forall|i: int| 0 <= i < a@.len() ==> (#[trigger] a@[i]).bbox.wf(),
        forall|i: int| 0 <= i < b@.len() ==> (#[trigger] b@[i]).bbox.wf(),
    ensures
        r == spec_set_equiv(a@, b@),
{
    let fwd = covered(a, b);
    let bwd = covered(b, a);
    fwd && bwd
}

/// Index of the first subject at or after `i` that is still unclaimed and
/// whose box overlaps `b`; `prev.len()` if there is none.
pub open spec fn first_match_from(
    prev: Seq<TrackedSubject>,
    claimed: Seq<bool>,
    b: BBox,
    i: int,
) -> int
    decreases prev.len() - i,
{
    if i < 0 || i >= prev.len() {
        prev.len() as int
    } else if !claimed[i] && spec_inter_area(prev[i].bbox, b) > 0 {
        i
    } else {
        first_match_from(prev, claimed, b, i + 1)
    }
}

pub proof fn lemma_first_match_bounds(
    prev: Seq<TrackedSubject>,
    claimed: Seq<bool>,
    b: BBox,
    i: int,
)
    requires
        0 <= i <= prev.len(),
    ensures
        i <= first_match_from(prev, claimed, b, i) <= prev.len(),
        first_match_from(prev, claimed, b, i) < prev.len() ==> {
            let m = first_match_from(prev, claimed, b, i);
            !claimed[m] && spec_inter_area(prev[m].bbox, b) > 0
        },
    decreases prev.len() - i,
{
    if i < prev.len() && !(!claimed[i] && spec_inter_area(prev[i].bbox, b) > 0) {
        lemma_first_match_bounds(prev, claimed, b, i + 1);
    }
}

/// The subject a detection becomes under a given identity.
pub open spec fn subject_of(id: u64, d: Detection) -> TrackedSubject {
    TrackedSubject { identity: id, conf: d.conf, bbox: d.bbox }
}

/// The new subject list for the detections `dets`, matched in order against
/// the previous subjects `prev`: each detection claims the first unclaimed
/// overlapping previous subject, or a fresh identity starting at `next`.
pub open spec fn assign_subjects(
    prev: Seq<TrackedSubject>,
    claimed: Seq<bool>,
    dets: Seq<Detection>,
    next: int,
) -> Seq<TrackedSubject>
    decreases dets.len(),
{
    if dets.len() == 0 {
        Seq::empty()
    } else {
        let d = dets[0];
        let m = first_match_from(prev, claimed, d.bbox, 0);
        if m < prev.len() {
            seq![subject_of(prev[m].identity, d)] + assign_subjects(
                prev,
                claimed.update(m, true),
                dets.drop_first(),
                next,
            )
        } else {
            seq![subject_of(next as u64, d)] + assign_subjects(
                prev,
                claimed,
                dets.drop_first(),
                next + 1,
            )
        }
    }
}

/// The identity counter after the matching of [`assign_subjects`].
pub open spec fn assign_next(
    prev: Seq<TrackedSubject>,
    claimed: Seq<bool>,
    dets: Seq<Detection>,
    next: int,
) -> int
    decreases dets.len(),
{
    if dets.len() == 0 {
        next
    } else {
        let d = dets[0];
        let m = first_match_from(prev, claimed, d.bbox, 0);
        if m < prev.len() {
            assign_next(prev, claimed.update(m, true), dets.drop_first(), next)
        } else {
            assign_next(prev, claimed, dets.drop_first(), next + 1)
        }
    }
}

/// A claimed-flag sequence with nothing claimed yet.
pub open spec fn no_claims(n: nat) -> Seq<bool> {
    Seq::new(n, |i: int| false)
}

/// The subjects a frame's qualifying detections produce.
pub open spec fn step_subjects(
    prev: Seq<TrackedSubject>,
    next: int,
    q: Seq<Detection>,
) -> Seq<TrackedSubject> {
    assign_subjects(prev, no_claims(prev.len()), q, next)
}

/// The identity counter after a frame: advanced by the fresh identities, or
/// reset to 1 by a frame with no qualifying detections.
pub open spec fn step_next(prev: Seq<TrackedSubject>, next: int, q: Seq<Detection>) -> int {
    if q.len() == 0 {
        1
    } else {
        assign_next(prev, no_claims(prev.len()), q, next)
    }
}

/// Well-formedness of the assignment: as many subjects as detections, every
/// identity at least 1 and below the final counter, identities pairwise
/// distinct (each unclaimed previous identity is reused at most once, and
/// fresh identities never collide), and every reused identity really is the
/// identity of some unclaimed previous subject.
pub proof fn lemma_assign_wf(
    prev: Seq<TrackedSubject>,
    claimed: Seq<bool>,
    dets: Seq<Detection>,
    next: int,
)
    requires
        claimed.len() == prev.len(),
        forall|i: int| 0 <= i < prev.len() ==> (#[trigger] prev[i]).wf(),
        forall|i: int| 0 <= i < prev.len() ==> (#[trigger] prev[i]).identity < next,
        forall|i: int, j: int|
            0 <= i < j < prev.len() ==> prev[i].identity != prev[j].identity,
        all_wf(dets),
        1 <= next,
        next + dets.len() <= u64::MAX,
    ensures
        ({
            let out = assign_subjects(prev, claimed, dets, next);
            let fin = assign_next(prev, claimed, dets, next);
            &&& out.len() == dets.len()
            &&& next <= fin <= next + dets.len()
            &&& forall|k: int| 0 <= k < out.len() ==> (#[trigger] out[k]).wf()
            &&& forall|k: int| 0 <= k < out.len() ==> (#[trigger] out[k]).identity < fin
            &&& forall|k: int|
                0 <= k < out.len() && (#[trigger] out[k]).identity < next ==> exists|j: int|
                    0 <= j < prev.len() && !claimed[j] && prev[j].identity == out[
                        k
                    ].identity
            &&& forall|k1: int, k2: int|
                0 <= k1 < k2 < out.len() ==> (#[trigger] out[k1]).identity != (
                #[trigger] out[k2]).identity
            &&& forall|k: int| 0 <= k < out.len() ==> (#[trigger] out[k]).bbox == dets[k].bbox
            &&& forall|k: int| 0 <= k < out.len() ==> (#[trigger] out[k]).conf == dets[k].conf
        }),
    decreases dets.len(),
{
    if dets.len() > 0 {
        let d = dets[0];
        let m = first_match_from(prev, claimed, d.bbox, 0);
        lemma_first_match_bounds(prev, claimed, d.bbox, 0);
        let rest = dets.drop_first();
        assert(all_wf(rest)) by {
            assert(forall|i: int|
                0 <= i < rest.len() ==> rest[i] == dets[i + 1] && (#[trigger] rest[i])
                    == dets[i + 1]);
        }
        let out = assign_subjects(prev, claimed, dets, next);
        let fin = assign_next(prev, claimed, dets, next);
        if m < prev.len() {
            let head = subject_of(prev[m].identity, d);
            let claimed2 = claimed.update(m, true);
            lemma_assign_wf(prev, claimed2, rest, next);
            let tail = assign_subjects(prev, claimed2, rest, next);
            assert(out == seq![head] + tail);
            assert(out[0] == head);
            assert(forall|k: int| 1 <= k < out.len() ==> out[k] == tail[k - 1]);
            assert(head.wf());
            // A reused identity in the tail comes from an index other than m,
            // so it differs from the head's identity.
            assert forall|k2: int| 1 <= k2 < out.len() implies out[0].identity != (
            #[trigger] out[k2]).identity by {
                let t = tail[k2 - 1];
                if t.identity < next {
                    let j = choose|j: int|
                        0 <= j < prev.len() && !claimed2[j] && prev[j].identity
                            == t.identity;
                    assert(j != m);
                } else {
                    assert(head.identity < next);
                }
            }
            assert forall|k: int|
                0 <= k < out.len() && (#[trigger] out[k]).identity < next implies exists|
                j: int,
            |
                0 <= j < prev.len() && !claimed[j] && prev[j].identity == out[
                    k
                ].identity by {
                if k == 0 {
                    assert(0 <= m < prev.len() && !claimed[m] && prev[m].identity == out[
                        0
                    ].identity);
                } else {
                    let t = tail[k - 1];
                    let j = choose|j: int|
                        0 <= j < prev.len() && !claimed2[j] && prev[j].identity
                            == t.identity;
                    assert(0 <= j < prev.len() && !claimed[j] && prev[j].identity == out[
                        k
                    ].identity);
                }
            }
        } else {
            let head = subject_of(next as u64, d);
            lemma_assign_wf(prev, claimed, rest, next + 1);
            let tail = assign_subjects(prev, claimed, rest, next + 1);
            assert(out == seq![head] + tail);
            assert(out[0] == head);
            assert(forall|k: int| 1 <= k < out.len() ==> out[k] == tail[k - 1]);
            assert(head.identity == next);
            assert(head.wf());
            assert forall|k2: int| 1 <= k2 < out.len() implies out[0].identity != (
            #[trigger] out[k2]).identity by {
                let t = tail[k2 - 1];
                if t.identity < next + 1 {
                    let j = choose|j: int|
                        0 <= j < prev.len() && !claimed[j] && prev[j].identity
                            == t.identity;
                    assert(prev[j].identity < next);
                }
            }
            assert forall|k: int|
                0 <= k < out.len() && (#[trigger] out[k]).identity < next implies exists|
                j: int,
            |
                0 <= j < prev.len() && !claimed[j] && prev[j].identity == out[
                    k
                ].identity by {
                assert(k >= 1);
                let t = tail[k - 1];
                assert(t.identity < next + 1);
                let j = choose|j: int|
                    0 <= j < prev.len() && !claimed[j] && prev[j].identity == t.identity;
                assert(0 <= j < prev.len() && !claimed[j] && prev[j].identity == out[
                    k
                ].identity);
            }
        }
    }
}

/// Index of the first still-unclaimed previous subject whose box overlaps
/// `b`, or `prev.len()` if none does.
fn find_match(prev: &Vec<TrackedSubject>, claimed: &Vec<bool>, b: &BBox) -> (m: usize)
    requires
        claimed@.len() == prev@.len(),
        b.wf(),
        forall|i: int| 0 <= i < prev@.len() ==> (#[trigger] prev@[i]).bbox.wf(),
    ensures
        m == first_match_from(prev@, claimed@, *b, 0),
        m <= prev@.len(),
{
    let n = prev.len();
    let mut j: usize = 0;
    while j < n
        invariant
            n == prev@.len(),
            claimed@.len() == n,
            j <= n,
            b.wf(),
            forall|i: int| 0 <= i < prev@.len() ==> (#[trigger] prev@[i]).bbox.wf(),
            first_match_from(prev@, claimed@, *b, 0) == first_match_from(
                prev@,
                claimed@,
                *b,
                j as int,
            ),
        decreases n - j,
    {
        if !claimed[j] && inter_area(&prev[j].bbox, b) > 0 {
            return j;
        }
        j += 1;
    }
    n
}

/// Runs the matching of one frame: `q` must already be suppressed and
/// size-filtered. Returns the new subject list and the advanced counter.
fn assign(prev: &Vec<TrackedSubject>, q: &Vec<Detection>, next0: u64) -> (r: (
    Vec<TrackedSubject>,
    u64,
))
    requires
        forall|i: int| 0 <= i < prev@.len() ==> (#[trigger] prev@[i]).bbox.wf(),
        all_wf(q@),
        next0 + q@.len() <= u64::MAX,
    ensures
        r.0@ == assign_subjects(prev@, no_claims(prev@.len()), q@, next0 as int),
        r.1 == assign_next(prev@, no_claims(prev@.len()), q@, next0 as int),
{
    let n_prev = prev.len();
    let mut claimed: Vec<bool> = Vec::new();
    let mut c: usize = 0;
    while c < n_prev
        invariant
            c <= n_prev,
            claimed@.len() == c,
            forall|i: int| 0 <= i < c ==> !claimed@[i],
        decreases n_prev - c,
    {
        claimed.push(false);
        c += 1;
    }
    proof {
        assert(claimed@ =~= no_claims(prev@.len()));
    }
    let ghost claimed0 = no_claims(prev@.len());
    let ghost next0i = next0 as int;
    let mut out: Vec<TrackedSubject> = Vec::new();
    let mut next: u64 = next0;
    let nq = q.len();
    let mut k: usize = 0;
    proof {
        assert(q@.skip(0) =~= q@);
        assert(out@ + assign_subjects(prev@, claimed@, q@.skip(0), next as int)
            =~= assign_subjects(prev@, claimed0, q@, next0i));
    }
    while k < nq
        invariant
            nq == q@.len(),
            k <= nq,
            n_prev == prev@.len(),
            claimed@.len() == n_prev,
            forall|i: int| 0 <= i < prev@.len() ==> (#[trigger] prev@[i]).bbox.wf(),
            all_wf(q@),
            next0 <= next,
            next as int + nq as int - k as int <= u64::MAX,
            out@ + assign_subjects(prev@, claimed@, q@.skip(k as int), next as int)
                == assign_subjects(prev@, claimed0, q@, next0i),
            assign_next(prev@, claimed@, q@.skip(k as int), next as int) == assign_next(
                prev@,
                claimed0,
                q@,
                next0i,
            ),
        decreases nq - k,
    {
        let d = q[k];
        let ghost rest = q@.skip(k as int);
        proof {
            assert(rest[0] == q@[k as int]);
            assert(rest.drop_first() =~= q@.skip(k as int + 1));
        }
        let m = find_match(prev, &claimed, &d.bbox);
        if m < n_prev {
            let s = TrackedSubject { identity: prev[m].identity, conf: d.conf, bbox: d.bbox };
            proof {
                assert(assign_subjects(prev@, claimed@, rest, next as int) == seq![
                    subject_of(prev@[m as int].identity, d),
                ] + assign_subjects(
                    prev@,
                    claimed@.update(m as int, true),
                    rest.drop_first(),
                    next as int,
                ));
                assert(out@.push(s) + assign_subjects(
                    prev@,
                    claimed@.update(m as int, true),
                    q@.skip(k as int + 1),
                    next as int,
                ) =~= out@ + assign_subjects(prev@, claimed@, rest, next as int));
                assert(assign_next(prev@, claimed@, rest, next as int) == assign_next(
                    prev@,
                    claimed@.update(m as int, true),
                    q@.skip(k as int + 1),
                    next as int,
                ));
            }
            out.push(s);
            claimed.set(m, true);
        } else {
            let s = TrackedSubject { identity: next, conf: d.conf, bbox: d.bbox };
            proof {
                assert(assign_subjects(prev@, claimed@, rest, next as int) == seq![
                    subject_of(next, d),
                ] + assign_subjects(
                    prev@,
                    claimed@,
                    rest.drop_first(),
                    next as int + 1,
                ));
                assert(out@.push(s) + assign_subjects(
                    prev@,
                    claimed@,
                    q@.skip(k as int + 1),
                    next as int + 1,
                ) =~= out@ + assign_subjects(prev@, claimed@, rest, next as int));
                assert(assign_next(prev@, claimed@, rest, next as int) == assign_next(
                    prev@,
                    claimed@,
                    q@.skip(k as int + 1),
                    next as int + 1,
                ));
            }
            out.push(s);
            next += 1;
        }
        k += 1;
    }
    proof {
        assert(q@.skip(nq as int) =~= Seq::<Detection>::empty());
        assert(out@ + Seq::<TrackedSubject>::empty() =~= out@);
    }
    (out, next)
}

/// The registry of tracked subjects together with the identity counter; the
/// one piece of state the tracker owns. Identities are unique, at least 1,
/// and always below the counter; an empty registry always has counter 1.
pub struct SubjectRegistry {
    pub subjects: Vec<TrackedSubject>,
    /// Next identity to hand out.
    pub next_id: u64,
}

impl SubjectRegistry {
    pub open spec fn wf(self) -> bool {
        &&& self.next_id >= 1
        &&& forall|i: int|
            0 <= i < self.subjects@.len() ==> (#[trigger] self.subjects@[i]).wf()
        &&& forall|i: int|
            0 <= i < self.subjects@.len() ==> (#[trigger] self.subjects@[i]).identity
                < self.next_id
        &&& forall|i: int, j: int|
            0 <= i < j < self.subjects@.len() ==> self.subjects@[i].identity
                != self.subjects@[j].identity
        &&& self.subjects@.len() == 0 ==> self.next_id == 1
    }

    /// The empty registry a tracker starts with.
    pub fn new() -> (r: SubjectRegistry)
        ensures
            r.wf(),
            r.subjects@.len() == 0,
            r.next_id == 1,
    {
        SubjectRegistry { subjects: Vec::new(), next_id: 1 }
    }

    /// One frame of tracking: the whole critical section. `dets` is the
    /// suppressed detection set of the frame; the minimum-size filter, the
    /// matching, the wholesale replacement of the registry, the counter
    /// update and the change decision all happen here. Returns whether the
    /// new registry differs from the previous one under the change gate's
    /// equivalence.
    pub fn step(&mut self, dets: &Vec<Detection>) -> (changed: bool)
        requires
            old(self).wf(),
            all_wf(dets@),
            old(self).next_id + dets@.len() <= u64::MAX,
        ensures
            final(self).wf(),
            final(self).subjects@ == step_subjects(
                old(self).subjects@,
                old(self).next_id as int,
                dets@.filter(qualifies_pred()),
            ),
            final(self).next_id == step_next(
                old(self).subjects@,
                old(self).next_id as int,
                dets@.filter(qualifies_pred()),
            ),
            changed == !spec_set_equiv(final(self).subjects@, old(self).subjects@),
    {
        let q = qualifying(dets);
        proof {
            dets@.lemma_filter_len(qualifies_pred());
            lemma_assign_wf(
                self.subjects@,
                no_claims(self.subjects@.len()),
                q@,
                self.next_id as int,
            );
        }
        let (out, next) = assign(&self.subjects, &q, self.next_id);
        let changed = !set_equiv(&out, &self.subjects);
        let empty_frame = q.len() == 0;
        self.subjects = out;
        self.next_id = if empty_frame {
            1
        } else {
            next
        };
        changed
    }
}

/// A frame with zero qualifying detections clears the registry and resets the
/// identity counter to 1; the change gate then reports a change exactly when
/// the registry was non-empty before — so a second such frame in a row
/// reports "unchanged".
pub proof fn lemma_empty_frame_clears(prev: Seq<TrackedSubject>, next: int)
    ensures
        step_subjects(prev, next, Seq::empty()) == Seq::<TrackedSubject>::empty(),
        step_next(prev, next, Seq::empty()) == 1,
        !spec_set_equiv(step_subjects(prev, next, Seq::empty()), prev) <==> prev.len() > 0,
{
    let e = step_subjects(prev, next, Seq::empty());
    assert(e == Seq::<TrackedSubject>::empty());
    if prev.len() > 0 {
        assert(!spec_has_counterpart(prev[0], e));
        assert(!spec_covered(prev, e));
    } else {
        assert(spec_covered(e, prev));
        assert(spec_covered(prev, e));
    }
}

/// The claimed flags after the first `k` subjects have been claimed in order.
spec fn claimed_below(n: nat, k: int) -> Seq<bool> {
    Seq::new(n, |j: int| j < k)
}

proof fn lemma_first_match_at(prev: Seq<TrackedSubject>, k: int, b: BBox, i: int)
    requires
        0 <= i <= k < prev.len(),
        spec_inter_area(prev[k].bbox, b) > 0,
    ensures
        first_match_from(prev, claimed_below(prev.len(), k), b, i) == k,
    decreases k - i,
{
    if i < k {
        lemma_first_match_at(prev, k, b, i + 1);
    }
}

proof fn lemma_reassign_from(prev: Seq<TrackedSubject>, dets: Seq<Detection>, next: int, k: int)
    requires
        dets.len() == prev.len(),
        forall|i: int| 0 <= i < prev.len() ==> (#[trigger] prev[i]).bbox == dets[i].bbox,
        forall|i: int| 0 <= i < prev.len() ==> (#[trigger] prev[i]).conf == dets[i].conf,
        forall|i: int| 0 <= i < dets.len() ==> (#[trigger] dets[i]).spec_qualifies(),
        0 <= k <= prev.len(),
    ensures
        assign_subjects(prev, claimed_below(prev.len(), k), dets.skip(k), next) == prev.skip(k),
        assign_next(prev, claimed_below(prev.len(), k), dets.skip(k), next) == next,
    decreases prev.len() - k,
{
    let claimed = claimed_below(prev.len(), k);
    if k < prev.len() {
        let rest = dets.skip(k);
        assert(rest[0] == dets[k]);
        let d = dets[k];
        assert(spec_inter_area(prev[k].bbox, d.bbox) > 0) by {
            let b = d.bbox;
            assert(prev[k].bbox == b);
            assert(crate::geometry::overlap_w(b, b) == b.w);
            assert(crate::geometry::overlap_h(b, b) == b.h);
            assert(b.w * b.h > 0) by (nonlinear_arith)
                requires
                    b.w > 0,
                    b.h > 0,
            ;
        }
        lemma_first_match_at(prev, k, d.bbox, 0);
        assert(subject_of(prev[k].identity, d) == prev[k]);
        assert(claimed.update(k, true) =~= claimed_below(prev.len(), k + 1));
        assert(rest.drop_first() =~= dets.skip(k + 1));
        lemma_reassign_from(prev, dets, next, k + 1);
        assert(seq![prev[k]] + prev.skip(k + 1) =~= prev.skip(k));
    } else {
        assert(dets.skip(k) =~= Seq::<Detection>::empty());
        assert(prev.skip(k) =~= Seq::<TrackedSubject>::empty());
    }
}

/// Feeding the tracker the same qualifying detections again — same geometry,
/// same confidences, in the registry's own order — reproduces the registry
/// exactly: every detection re-claims its own subject, no identity moves, the
/// counter stays, and the change gate reports "unchanged".
pub proof fn lemma_identical_frame_unchanged(
    prev: Seq<TrackedSubject>,
    dets: Seq<Detection>,
    next: int,
)
    requires
        dets.len() == prev.len(),
        forall|i: int| 0 <= i < prev.len() ==> (#[trigger] prev[i]).bbox == dets[i].bbox,
        forall|i: int| 0 <= i < prev.len() ==> (#[trigger] prev[i]).conf == dets[i].conf,
        forall|i: int| 0 <= i < dets.len() ==> (#[trigger] dets[i]).spec_qualifies(),
    ensures
        step_subjects(prev, next, dets) == prev,
        dets.len() > 0 ==> step_next(prev, next, dets) == next,
        spec_set_equiv(step_subjects(prev, next, dets), prev),
{
    assert(claimed_below(prev.len(), 0) =~= no_claims(prev.len()));
    assert(dets.skip(0) =~= dets);
    assert(prev.skip(0) =~= prev);
    lemma_reassign_from(prev, dets, next, 0);
    assert(step_subjects(prev, next, dets) == prev);
    assert forall|i: int| 0 <= i < prev.len() implies spec_has_counterpart(
        #[trigger] prev[i],
        prev,
    ) by {
        assert(spec_inter_area(prev[i].bbox, prev[i].bbox) > 0) by {
            let b = prev[i].bbox;
            assert(prev[i].bbox == dets[i].bbox);
            assert(dets[i].spec_qualifies());
            assert(crate::geometry::overlap_w(b, b) == b.w);
            assert(crate::geometry::overlap_h(b, b) == b.h);
            assert(b.w * b.h > 0) by (nonlinear_arith)
                requires
                    b.w > 0,
                    b.h > 0,
            ;
        }
        assert(spec_same_subject(prev[i], prev[i]));
    }
}

/// If the new registry holds a subject with the same identity as some old
/// subject, but the pair no longer counts as the same tracked entity (the
/// boxes stopped overlapping, or the confidence differs), the change gate
/// reports a change — even though the identity itself survived.
pub proof fn lemma_identity_mismatch_changes(
    new: Seq<TrackedSubject>,
    prev: Seq<TrackedSubject>,
    i: int,
    j: int,
)
    requires
        0 <= i < new.len(),
        0 <= j < prev.len(),
        new[i].identity == prev[j].identity,
        forall|k1: int, k2: int|
            0 <= k1 < k2 < prev.len() ==> prev[k1].identity != prev[k2].identity,
        !spec_same_subject(new[i], prev[j]),
    ensures
        !spec_set_equiv(new, prev),
{
    if spec_set_equiv(new, prev) {
        assert(spec_has_counterpart(new[i], prev));
        let k = choose|k: int| 0 <= k < prev.len() && spec_same_subject(new[i], #[trigger] prev[k]);
        if k < j {
            assert(prev[k].identity != prev[j].identity);
        } else if j < k {
            assert(prev[j].identity != prev[k].identity);
        }
        assert(false);
    }
}

} // verus!
