use vstd::prelude::*;
use crate::lerp::{interp, lerp};
use crate::state::{Pose, TurtleState, Vec2};

verus! {

/// What a timeline shows at one query time.
#[derive(Clone, Copy, Debug, PartialEq, Eq, Structural)]
pub enum Sample {
    /// The query time lies before the first keyframe.
    NotStarted,
    /// The interpolated pose.
    At(TurtleState),
    /// The query time is at or past the last keyframe.
    Finished,
}

/// `i` is the first keyframe whose time exceeds `t`.
pub open spec fn is_first_after(s: Seq<TurtleState>, t: int, i: int) -> bool {
    &&& 0 <= i < s.len()
    &&& s[i].time > t
    &&& forall|j: int| 0 <= j < i ==> s[j].time <= t
}

/// The index of the first keyframe whose time exceeds `t`, or the length of
/// the timeline when there is none.
pub open spec fn first_after(s: Seq<TurtleState>, t: int) -> int {
    if exists|i: int| is_first_after(s, t, i) {
        choose|i: int| is_first_after(s, t, i)
    } else {
        s.len() as int
    }
}

/// The pose at time `t` on the segment from `before` to `after`: position
/// and heading interpolated linearly (rounded down), the pen taken from
/// `before`.
pub open spec fn between(before: Pose, after: Pose, t: int) -> Pose {
    let num = t - before.time;
    let den = after.time - before.time;
    Pose {
        time: t,
        x: lerp(before.x, after.x, num, den),
        y: lerp(before.y, after.y, num, den),
        rot: lerp(before.rot, after.rot, num, den),
        pen: before.pen,
    }
}

/// Keyframe times never decrease.
pub open spec fn sorted(s: Seq<TurtleState>) -> bool {
    forall|a: int, b: int| #![trigger s[a], s[b]] 0 <= a <= b < s.len() ==> s[a].time <= s[b].time
}

/// A valid timeline: not empty, starting at time 0, sorted by time, and a
/// segment of zero duration never moves or turns the turtle.
pub open spec fn timeline_wf(s: Seq<TurtleState>) -> bool {
    &&& s.len() > 0
    &&& s[0].time == 0
    &&& sorted(s)
    &&& forall|i: int| 0 <= i < s.len() - 1 ==> #[trigger] holds_still(s, i)
}

/// The segment from keyframe `i` to keyframe `i + 1`, if it takes no time,
/// neither moves nor turns the turtle.
pub open spec fn holds_still(s: Seq<TurtleState>, i: int) -> bool {
    s[i].time == s[i + 1].time ==> s[i].pos == s[i + 1].pos && s[i].rot == s[i + 1].rot
}

pub proof fn lemma_first_after_range(s: Seq<TurtleState>, t: int)
    ensures
        0 <= first_after(s, t) <= s.len(),
{
    if exists|i: int| is_first_after(s, t, i) {
        let i = choose|i: int| is_first_after(s, t, i);
        assert(is_first_after(s, t, i));
    }
}

pub proof fn lemma_first_after_unique(s: Seq<TurtleState>, t: int, i: int)
    requires
        is_first_after(s, t, i),
    ensures
        first_after(s, t) == i,
{
    let k = first_after(s, t);
    assert(is_first_after(s, t, k));
    if k < i {
        assert(s[k].time <= t);
    } else if i < k {
        assert(s[i].time <= t);
    }
}

pub proof fn lemma_first_after_none(s: Seq<TurtleState>, t: int)
    requires
        forall|j: int| 0 <= j < s.len() ==> s[j].time <= t,
    ensures
        first_after(s, t) == s.len(),
{
    if exists|i: int| is_first_after(s, t, i) {
        let i = choose|i: int| is_first_after(s, t, i);
        assert(s[i].time <= t);
    }
}

/// The pose of a timeline at a query time. The first keyframe whose time
/// exceeds `time` is found; if there is none the timeline is finished, if it
/// is the first keyframe the timeline has not started, and otherwise the pose
/// is interpolated between it and the keyframe before it.
pub fn interpolate_state(states: &Vec<TurtleState>, time: u64) -> (r: Sample)
    ensures
        ({
            let s = states@;
            let k = first_after(s, time as int);
            &&& k == s.len() <==> r is Finished
            &&& (k == 0 && s.len() > 0) <==> r is NotStarted
            &&& 0 < k < s.len() <==> r is At
            &&& 0 < k < s.len() ==> match r {
                Sample::At(p) => p@ == between(s[k - 1]@, s[k]@, time as int),
                _ => false,
            }
        }),
{
    proof {
        lemma_first_after_range(states@, time as int);
    }
    let mut i: usize = 0;
    while i < states.len()
        invariant
            i <= states.len(),
            forall|j: int| 0 <= j < i ==> states@[j].time <= time,
        decreases states.len() - i,
    {
        let after = states[i];
        if after.time > time {
            proof {
                lemma_first_after_unique(states@, time as int, i as int);
            }
            if i == 0 {
                return Sample::NotStarted;
            }
            let before = states[i - 1];
            let num = time - before.time;
            let den = after.time - before.time;
            let x = interp(before.pos.x, after.pos.x, num, den);
            let y = interp(before.pos.y, after.pos.y, num, den);
            let rot = interp(before.rot, after.rot, num, den);
            return Sample::At(TurtleState { time, pos: Vec2 { x, y }, rot, is_drawing: before.is_drawing });
        }
        i += 1;
    }
    proof {
        lemma_first_after_none(states@, time as int);
    }
    Sample::Finished
}

/// On a sorted timeline, a query time in `[s[i].time, s[i + 1].time)` falls
/// on the segment that starts at keyframe `i`.
pub proof fn lemma_first_after_sorted(s: Seq<TurtleState>, t: int, i: int)
    requires
        sorted(s),
        0 <= i < s.len() - 1,
        s[i].time <= t < s[i + 1].time,
    ensures
        first_after(s, t) == i + 1,
{
    assert forall|j: int| 0 <= j < i + 1 implies s[j].time <= t by {
        assert(s[j].time <= s[i].time);
    }
    lemma_first_after_unique(s, t, i + 1);
}

/// On a sorted timeline, every query time at or past the last keyframe's
/// time finds the timeline finished.
pub proof fn lemma_finished_at_end(s: Seq<TurtleState>, t: int)
    requires
        sorted(s),
        s.len() > 0,
        t >= s[s.len() - 1].time,
    ensures
        first_after(s, t) == s.len(),
{
    assert forall|j: int| 0 <= j < s.len() implies s[j].time <= t by {
        assert(s[j].time <= s[s.len() - 1].time);
    }
    lemma_first_after_none(s, t);
}

/// Strictly between two consecutive keyframe times, the position lies on the
/// straight segment between the two keyframe positions, at the fraction
/// `(t - t0) / (t1 - t0)` of the way (rounded down).
pub proof fn lemma_on_segment(s: Seq<TurtleState>, t: int, i: int)
    requires
        sorted(s),
        0 <= i < s.len() - 1,
        s[i].time < t < s[i + 1].time,
    ensures
        first_after(s, t) == i + 1,
        between(s[i]@, s[i + 1]@, t).x == lerp(s[i].pos.x as int, s[i + 1].pos.x as int, t - s[i].time, s[i + 1].time - s[i].time),
        between(s[i]@, s[i + 1]@, t).y == lerp(s[i].pos.y as int, s[i + 1].pos.y as int, t - s[i].time, s[i + 1].time - s[i].time),
{
    lemma_first_after_sorted(s, t, i);
}

/// The pen state at a query time is that of the keyframe at or immediately
/// before it, never that of the following keyframe.
pub proof fn lemma_pen_from_preceding(s: Seq<TurtleState>, t: int, i: int)
    requires
        sorted(s),
        0 <= i < s.len() - 1,
        s[i].time <= t < s[i + 1].time,
    ensures
        first_after(s, t) == i + 1,
        between(s[i]@, s[i + 1]@, t).pen == s[i].is_drawing,
{
    lemma_first_after_sorted(s, t, i);
}

proof fn lemma_zero_width_run(s: Seq<TurtleState>, i: int, m: int)
    requires
        timeline_wf(s),
        0 <= i <= m < s.len(),
        s[m].time == s[i].time,
    ensures
        s[m].pos == s[i].pos,
        s[m].rot == s[i].rot,
    decreases m - i,
{
    if m > i {
        assert(s[i].time <= s[m - 1].time <= s[m].time);
        lemma_zero_width_run(s, i, m - 1);
        assert(s[m - 1].time == s[m].time);
        assert(holds_still(s, m - 1));
    }
}

/// On a valid timeline, the query at the time of any keyframe before the
/// last returns exactly that keyframe's position and heading.
pub proof fn lemma_exact_at_keyframe(s: Seq<TurtleState>, i: int)
    requires
        timeline_wf(s),
        0 <= i < s.len(),
        s[i].time < s[s.len() - 1].time,
    ensures
        ({
            let t = s[i].time as int;
            let k = first_after(s, t);
            &&& 0 < k < s.len()
            &&& between(s[k - 1]@, s[k]@, t).x == s[i].pos.x
            &&& between(s[k - 1]@, s[k]@, t).y == s[i].pos.y
            &&& between(s[k - 1]@, s[k]@, t).rot == s[i].rot
        }),
{
    let t = s[i].time as int;
    let last = s.len() - 1;
    // the first keyframe past `t`, searched from `i`
    let k = choose|k: int| i < k <= last && s[k].time > t && forall|j: int| i <= j < k ==> s[j].time <= t;
    assert(exists|k: int| i < k <= last && s[k].time > t && forall|j: int| i <= j < k ==> s[j].time <= t) by {
        lemma_exists_first_past(s, t, i, last);
    }
    assert forall|j: int| 0 <= j < k implies s[j].time <= t by {
        if j < i {
            assert(s[j].time <= s[i].time);
        }
    }
    lemma_first_after_unique(s, t, k);
    assert(s[k - 1].time == t) by {
        assert(s[i].time <= s[k - 1].time);
    }
    lemma_zero_width_run(s, i, k - 1);
    let den = s[k].time - s[k - 1].time;
    assert((s[k]@.x - s[k - 1]@.x) * 0 / den == 0);
    assert((s[k]@.y - s[k - 1]@.y) * 0 / den == 0);
    assert((s[k]@.rot - s[k - 1]@.rot) * 0 / den == 0);
}

pub proof fn lemma_exists_first_past(s: Seq<TurtleState>, t: int, i: int, m: int)
    requires
        0 <= i < m < s.len(),
        s[m].time > t,
        s[i].time <= t,
    ensures
        exists|k: int| i < k <= m && s[k].time > t && forall|j: int| i <= j < k ==> s[j].time <= t,
    decreases m - i,
{
    if s[i + 1].time > t {
        assert(forall|j: int| i <= j < i + 1 ==> s[j].time <= t);
    } else if i + 1 < m {
        lemma_exists_first_past(s, t, i + 1, m);
        let k = choose|k: int| i + 1 < k <= m && s[k].time > t && forall|j: int| i + 1 <= j < k ==> s[j].time <= t;
        assert(forall|j: int| i <= j < k ==> s[j].time <= t);
    }
}

} // verus!
