//! The nearest-hit query over a scene.
//!
//! Each surface of a scene offers at most one candidate: the ray parameter at which the
//! ray would strike it. The query scans the candidates in order and keeps the nearest
//! one that lies strictly inside the window, shrinking the upper bound of the window to
//! every candidate it accepts, so that whatever lies farther is turned down.
use crate::interval::Interval;
use crate::scalar::Scalar;
use vstd::prelude::*;

verus! {

/// Whether a surface offers a candidate that lies strictly inside the window.
pub open spec fn accepted(candidate: Option<Scalar>, window: Interval) -> bool {
    candidate matches Some(t) && window.spec_surrounds(t)
}

/// Whether the candidate at `i` wins the query: it is accepted, no accepted candidate
/// is nearer, and every accepted candidate before it is strictly farther.
pub open spec fn is_nearest(candidates: Seq<Option<Scalar>>, window: Interval, i: int) -> bool {
    &&& 0 <= i < candidates.len()
    &&& accepted(candidates[i], window)
    &&& forall|j: int|
        0 <= j < candidates.len() && accepted(#[trigger] candidates[j], window)
            ==> candidates[i]->0.value() <= candidates[j]->0.value()
    &&& forall|j: int|
        0 <= j < i && accepted(#[trigger] candidates[j], window) ==> candidates[i]->0.value()
            < candidates[j]->0.value()
}

/// At most one candidate wins.
pub proof fn lemma_nearest_is_unique(
    candidates: Seq<Option<Scalar>>,
    window: Interval,
    i: int,
    j: int,
)
    requires
        is_nearest(candidates, window, i),
        is_nearest(candidates, window, j),
    ensures
        i == j,
{
    if i < j {
        assert(accepted(candidates[i], window));
    } else if j < i {
        assert(accepted(candidates[j], window));
    }
}

/// The position of the nearest candidate that lies strictly inside `ray_t`, the first
/// one among equals, or `None` where no candidate lies inside.
pub fn hit_any(candidates: &Vec<Option<Scalar>>, ray_t: Interval) -> (r: Option<usize>)
    ensures
        match r {
            Some(i) => is_nearest(candidates@, ray_t, i as int),
            None => forall|j: int|
                0 <= j < candidates.len() ==> !accepted(#[trigger] candidates[j], ray_t),
        },
{
    let mut curr_closest = ray_t.max;
    let mut winner: Option<usize> = None;
    let mut i: usize = 0;
    while i < candidates.len()
        invariant
            i <= candidates.len(),
            match winner {
                Some(w) => is_nearest(candidates@.take(i as int), ray_t, w as int)
                    && curr_closest == candidates[w as int]->0,
                None => curr_closest == ray_t.max && forall|j: int|
                    0 <= j < i ==> !accepted(#[trigger] candidates[j], ray_t),
            },
        decreases candidates.len() - i,
    {
        let ghost before = candidates@.take(i as int);
        let ghost after = candidates@.take(i + 1);
        assert(forall|j: int| 0 <= j < i ==> before[j] == after[j]);
        if let Some(t) = candidates[i] {
            if Interval::new(ray_t.min, curr_closest).surrounds(t) {
                curr_closest = t;
                winner = Some(i);
            }
        }
        proof {
            if let Some(w) = winner {
                assert forall|j: int|
                    0 <= j < after.len() && accepted(
                        #[trigger] after[j],
                        ray_t,
                    ) implies after[w as int]->0.value() <= after[j]->0.value() by {
                    if j < i {
                        assert(accepted(before[j], ray_t));
                    }
                }
                assert forall|j: int|
                    0 <= j < w && accepted(
                        #[trigger] after[j],
                        ray_t,
                    ) implies after[w as int]->0.value() < after[j]->0.value() by {
                    assert(accepted(before[j], ray_t));
                }
            }
        }
        i = i + 1;
    }
    assert(candidates@.take(i as int) =~= candidates@);
    winner
}

} // verus!
