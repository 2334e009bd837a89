use vstd::prelude::*;
use crate::interpolate::{
    between, first_after, interpolate_state, is_first_after, lemma_finished_at_end, lemma_exists_first_past,
    lemma_first_after_unique, timeline_wf, Sample,
};
use crate::script::ScriptError;
use crate::state::{Pose, TurtleState};

verus! {

/// A playback at elapsed time `e` is still running: the timeline yields a
/// pose there.
pub open spec fn shows(s: Seq<TurtleState>, e: int) -> bool {
    0 < first_after(s, e) < s.len()
}

/// The pose a running playback shows at elapsed time `e`.
pub open spec fn shown_pose(s: Seq<TurtleState>, e: int) -> Pose {
    let k = first_after(s, e);
    between(s[k - 1]@, s[k]@, e)
}

/// Elapsed time after `dt` more ticks, held at `u64::MAX`.
pub open spec fn advance(e: u64, dt: u64) -> u64 {
    if e + dt > u64::MAX { u64::MAX } else { (e + dt) as u64 }
}

/// The countdown to the next spawn after a tick of `dt`, held at `i64::MIN`.
pub open spec fn count_down(c: int, dt: int) -> int {
    if c - dt < i64::MIN { i64::MIN as int } else { c - dt }
}

/// The countdown after one tick of `dt`: a due spawn first resets it by
/// `interval`.
pub open spec fn next_countdown(c: int, interval: int, dt: int) -> int {
    count_down(if c <= 0 { c + interval } else { c }, dt)
}

/// The countdown at the start of frame `n`, from `c0` at frame 0.
pub open spec fn countdown_at(c0: int, interval: int, dts: Seq<u64>, n: int) -> int
    decreases n,
{
    if n <= 0 {
        c0
    } else {
        next_countdown(countdown_at(c0, interval, dts, n - 1), interval, dts[n - 1] as int)
    }
}

/// The number of spawns in frames before `n`.
pub open spec fn spawns_before(c0: int, interval: int, dts: Seq<u64>, n: int) -> int
    decreases n,
{
    if n <= 0 {
        0
    } else {
        spawns_before(c0, interval, dts, n - 1) + if countdown_at(c0, interval, dts, n - 1) <= 0 { 1int } else { 0int }
    }
}

/// The time that has passed before frame `n`.
pub open spec fn time_before(dts: Seq<u64>, n: int) -> int
    decreases n,
{
    if n <= 0 {
        0
    } else {
        time_before(dts, n - 1) + dts[n - 1]
    }
}

/// Plays staggered copies of one timeline: a new playback starts every
/// `spawn_interval` ticks, and each is dropped once its timeline is done.
pub struct Scheduler {
    /// Ticks between two spawns.
    pub spawn_interval: u64,
    /// Ticks until the next spawn; a spawn is due when it is zero or less.
    pub time_until_next_spawn: i64,
    /// The elapsed time of each running playback.
    pub time_offsets: Vec<u64>,
}

impl Scheduler {
    pub open spec fn wf(&self) -> bool {
        0 < self.spawn_interval <= i64::MAX
    }

    /// Starts a scheduler whose first spawn is due at once. It is primed with
    /// the playbacks that would already be running had one been spawned every
    /// `spawn_interval` ticks before: those at elapsed times `spawn_interval`,
    /// `2 * spawn_interval`, ... for as long as the timeline still shows a
    /// pose there.
    pub fn new(states: &Vec<TurtleState>, spawn_interval: u64) -> (r: Result<Scheduler, ScriptError>)
        ensures
            spawn_interval == 0 ==> r == Err::<Scheduler, ScriptError>(ScriptError::InvalidConfiguration),
            spawn_interval > i64::MAX ==> r == Err::<Scheduler, ScriptError>(ScriptError::OutOfRange),
            0 < spawn_interval <= i64::MAX ==> r is Ok,
            r matches Ok(sch) ==> {
                &&& sch.wf()
                &&& sch.spawn_interval == spawn_interval
                &&& sch.time_until_next_spawn == 0
                &&& forall|j: int| 0 <= j < sch.time_offsets.len() ==> {
                    &&& (#[trigger] sch.time_offsets@[j]) == (j + 1) * spawn_interval
                    &&& shows(states@, (j + 1) * spawn_interval)
                }
                &&& ((sch.time_offsets.len() + 1) * spawn_interval <= u64::MAX
                    ==> !shows(states@, (sch.time_offsets.len() + 1) * spawn_interval))
            },
    {
        if spawn_interval == 0 {
            return Err(ScriptError::InvalidConfiguration);
        }
        if spawn_interval > 0x7fff_ffff_ffff_ffffu64 {
            return Err(ScriptError::OutOfRange);
        }
        let mut offsets: Vec<u64> = Vec::new();
        let mut t: u64 = spawn_interval;
        loop
            invariant_except_break
                t == (offsets.len() + 1) * spawn_interval,
                0 < spawn_interval,
                forall|j: int| 0 <= j < offsets.len() ==> {
                    &&& (#[trigger] offsets@[j]) == (j + 1) * spawn_interval
                    &&& shows(states@, (j + 1) * spawn_interval)
                },
            ensures
                forall|j: int| 0 <= j < offsets.len() ==> {
                    &&& (#[trigger] offsets@[j]) == (j + 1) * spawn_interval
                    &&& shows(states@, (j + 1) * spawn_interval)
                },
                (offsets.len() + 1) * spawn_interval <= u64::MAX ==> !shows(states@, (offsets.len() + 1) * spawn_interval),
            decreases u64::MAX - t,
        {
            match interpolate_state(states, t) {
                Sample::At(_) => {},
                _ => {
                    break;
                },
            }
            let ghost prev = offsets@;
            offsets.push(t);
            assert forall|j: int| 0 <= j < offsets.len() implies {
                &&& (#[trigger] offsets@[j]) == (j + 1) * spawn_interval
                &&& shows(states@, (j + 1) * spawn_interval)
            } by {
                if j < prev.len() {
                    assert(offsets@[j] == prev[j]);
                }
            }
            if t > u64::MAX - spawn_interval {
                assert((offsets.len() + 1) * spawn_interval > u64::MAX) by (nonlinear_arith)
                    requires t == (offsets.len() - 1 + 1) * spawn_interval, t + spawn_interval > u64::MAX;
                break;
            }
            t = t + spawn_interval;
            assert(t == (offsets.len() + 1) * spawn_interval) by (nonlinear_arith)
                requires t == offsets.len() * spawn_interval + spawn_interval;
        }
        Ok(Scheduler { spawn_interval, time_until_next_spawn: 0, time_offsets: offsets })
    }

    /// One frame of `dt` ticks. A spawn that is due adds a playback at
    /// elapsed time 0 and resets the countdown by `spawn_interval`. Every
    /// playback whose timeline still shows a pose at its elapsed time is kept
    /// and its pose is returned, in order; the others are dropped. The kept
    /// ones then advance by `dt`, and so does the countdown.
    pub fn tick(&mut self, states: &Vec<TurtleState>, dt: u64) -> (drawn: Vec<TurtleState>)
        requires
            old(self).wf(),
        ensures
            ({
                let spawned = old(self).time_until_next_spawn <= 0;
                let before = if spawned { old(self).time_offsets@.push(0) } else { old(self).time_offsets@ };
                let kept = before.filter(|e: u64| shows(states@, e as int));
                &&& final(self).wf()
                &&& final(self).spawn_interval == old(self).spawn_interval
                &&& final(self).time_until_next_spawn
                    == next_countdown(old(self).time_until_next_spawn as int, old(self).spawn_interval as int, dt as int)
                &&& final(self).time_offsets.len() == kept.len()
                &&& drawn.len() == kept.len()
                &&& forall|j: int| 0 <= j < kept.len() ==> (#[trigger] final(self).time_offsets@[j]) == advance(kept[j], dt)
                &&& forall|j: int| 0 <= j < kept.len() ==> (#[trigger] drawn@[j])@ == shown_pose(states@, kept[j] as int)
            }),
    {
        let ghost pred = |e: u64| shows(states@, e as int);
        if self.time_until_next_spawn <= 0 {
            self.time_until_next_spawn = self.time_until_next_spawn + (self.spawn_interval as i64);
            self.time_offsets.push(0);
        }
        let ghost before = self.time_offsets@;
        let mut kept: Vec<u64> = Vec::new();
        let mut drawn: Vec<TurtleState> = Vec::new();
        let mut i: usize = 0;
        while i < self.time_offsets.len()
            invariant
                before == self.time_offsets@,
                i <= before.len(),
                pred == (|e: u64| shows(states@, e as int)),
                kept.len() == drawn.len(),
                kept@.len() == before.take(i as int).filter(pred).len(),
                forall|j: int| 0 <= j < kept.len() ==> (#[trigger] kept@[j]) == advance(before.take(i as int).filter(pred)[j], dt),
                forall|j: int| 0 <= j < kept.len() ==> (#[trigger] drawn@[j])@ == shown_pose(states@, before.take(i as int).filter(pred)[j] as int),
            decreases before.len() - i,
        {
            let e = self.time_offsets[i];
            let ghost f0 = before.take(i as int).filter(pred);
            proof {
                assert(before.take(i + 1).drop_last() =~= before.take(i as int));
                reveal(Seq::filter);
            }
            match interpolate_state(states, e) {
                Sample::At(p) => {
                    let next = if e > u64::MAX - dt { u64::MAX } else { e + dt };
                    kept.push(next);
                    drawn.push(p);
                    proof {
                        assert(pred(e));
                        assert(before.take(i + 1).filter(pred) == f0.push(e));
                    }
                },
                _ => {
                    proof {
                        assert(!pred(e));
                        assert(before.take(i + 1).filter(pred) == f0);
                    }
                },
            }
            i += 1;
        }
        assert(before.take(before.len() as int) =~= before);
        self.time_offsets = kept;
        let c = self.time_until_next_spawn as i128 - dt as i128;
        self.time_until_next_spawn = if c < i64::MIN as i128 { i64::MIN } else { c as i64 };
        drawn
    }
}

} // verus!

verus! {

/// On a valid timeline, a playback is kept by a tick exactly when its own
/// elapsed time is before the timeline's duration, whatever the other
/// playbacks hold.
pub proof fn lemma_kept_until_end(s: Seq<TurtleState>, e: int)
    requires
        timeline_wf(s),
        e >= 0,
    ensures
        shows(s, e) <==> e < s[s.len() - 1].time,
{
    if e >= s[s.len() - 1].time {
        lemma_finished_at_end(s, e);
    } else {
        lemma_exists_first_past(s, e, 0, s.len() - 1);
        let i = choose|i: int| 0 < i <= s.len() - 1 && s[i].time > e && forall|j: int| 0 <= j < i ==> s[j].time <= e;
        assert(is_first_after(s, e, i));
        lemma_first_after_unique(s, e, i);
    }
}

/// Started with its first spawn due, and with frames no longer than the
/// spawn interval, a scheduler spawns its `m`-th playback (counted from 0)
/// at the first frame at whose start at least `m * interval` ticks have
/// passed. So once `k * interval` ticks have passed, at least `k` spawns
/// have happened.
pub proof fn lemma_spawn_cadence(interval: int, dts: Seq<u64>, n: int, k: int)
    requires
        0 < interval <= i64::MAX,
        forall|i: int| 0 <= i < dts.len() ==> #[trigger] dts[i] <= interval,
        0 <= n <= dts.len(),
    ensures
        countdown_at(0, interval, dts, n) == spawns_before(0, interval, dts, n) * interval - time_before(dts, n),
        -interval < countdown_at(0, interval, dts, n) <= interval,
        countdown_at(0, interval, dts, n) <= 0 <==> time_before(dts, n) >= spawns_before(0, interval, dts, n) * interval,
        time_before(dts, n) >= k * interval ==> spawns_before(0, interval, dts, n) >= k,
    decreases n,
{
    let c = countdown_at(0, interval, dts, n);
    let sp = spawns_before(0, interval, dts, n);
    let tau = time_before(dts, n);
    if n > 0 {
        lemma_spawn_cadence(interval, dts, n - 1, k);
        let c0 = countdown_at(0, interval, dts, n - 1);
        let s0 = spawns_before(0, interval, dts, n - 1);
        assert(dts[n - 1] <= interval);
        if c0 <= 0 {
            assert((s0 + 1) * interval == s0 * interval + interval) by (nonlinear_arith);
        }
    }
    assert(c == sp * interval - tau);
    if tau >= k * interval {
        assert(sp >= k) by (nonlinear_arith)
            requires tau >= k * interval, c == sp * interval - tau, -interval < c, interval > 0;
    }
}

} // verus!
